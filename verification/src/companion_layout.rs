//! The v5 companion file layout and its encoder.
//!
//! A v5 file is the 32-byte header, the 16-byte agent namespace, then one
//! variable-length record per body in ascending ID order: the 221-byte body,
//! a flag byte, the memory epoch, and either a tombstone operation (inactive)
//! or the memory mirror with the optional task and FIFO sections (active).
use crate::bytes::{ByteWriter, le16, le32, le64, le8, lei32};
use crate::chunk_layout::stacks5_bytes;
use crate::companion::{
    CURRENT_SCHEMA, CompanionBody, CompanionSave, ENVELOPE_VERSION, FLAG_ACTIVE, FLAG_HAS_FIFO,
    FLAG_HAS_TASK, HEADER_LENGTH, LifecycleView, MAX_FIFO_ENTRIES, MAX_FILE_LENGTH,
    MAX_PLAN_STEPS, MAX_SUMMARY_BYTES, MAX_TASK_COMMAND_BYTES, PLAN_STEP_FOLLOW, PLAN_STEP_PLACE,
    PlanStep, QueueView, SaveView, StoredCompanionLifecycle, StoredCompanionQueue,
    StoredCompanionTask, TaskView, MAX_STORED, canonical_v5_parts, count_refusal, lifecycle_keys, lifecycle_ok,
    lifecycle_views, queue_ok, queue_views, save_admitted, sorted_bodies, sorted_lifecycles,
    task_ok, texts,
};
use crate::crc32c::{crc32c_join2, spec_crc32c};
use crate::error::{StorageError, StorageResult, corrupt};
use crate::identity::{PlayerId, spec_id_is_valid};
use crate::items::ItemStack;
use crate::text::text_bytes;
use vstd::prelude::*;
use vstd::utf8::encode_utf8;

verus! {

broadcast use {vstd::seq::group_seq_axioms, vstd::array::group_array_axioms};

/// The file magic `MCAI`.
pub open spec fn magic() -> Seq<u8> {
    seq![0x4Du8, 0x43u8, 0x41u8, 0x49u8]
}

/// The 221 bytes of a body record.
pub open spec fn body_bytes(b: CompanionBody) -> Seq<u8> {
    b.id.bytes@ + lei32(b.dimension) + le32(b.position@[0]) + le32(b.position@[1]) + le32(
        b.position@[2],
    ) + le32(b.yaw) + le32(b.pitch) + le8(b.inventory.hotbar.selected) + stacks5_bytes(
        b.inventory.hotbar.slots@,
    ) + stacks5_bytes(b.inventory.backpack@)
}

/// Text as a `u16` byte-length prefix followed by its UTF-8 bytes.
pub open spec fn text16_bytes(s: Seq<char>) -> Seq<u8> {
    le16(encode_utf8(s).len() as u16) + encode_utf8(s)
}

/// One plan step: the kind, then a follow target or the coordinates, with
/// the block after the coordinates of a `place` step.
pub open spec fn step_bytes(s: PlanStep) -> Seq<u8> {
    le8(s.kind) + if s.kind == PLAN_STEP_FOLLOW {
        s.player_id.bytes@
    } else {
        lei32(s.x) + lei32(s.y) + lei32(s.z) + if s.kind == PLAN_STEP_PLACE {
            le16(s.block)
        } else {
            Seq::empty()
        }
    }
}

/// Plan steps in order.
pub open spec fn steps_bytes(ss: Seq<PlanStep>) -> Seq<u8>
    decreases ss.len(),
{
    if ss.len() == 0 {
        Seq::empty()
    } else {
        steps_bytes(ss.drop_last()) + step_bytes(ss.last())
    }
}

/// One task section.
pub open spec fn task_bytes(t: TaskView) -> Seq<u8> {
    text16_bytes(t.command) + le16(t.plan_steps.len() as u16) + steps_bytes(t.plan_steps) + lei32(
        t.step_index,
    ) + le8(t.state) + le8(t.fail_reason) + le64(t.start_tick) + le64(t.deadline_ticks)
}

/// FIFO commands in order, each as prefixed text.
pub open spec fn fifo_entries_bytes(p: Seq<Seq<char>>) -> Seq<u8>
    decreases p.len(),
{
    if p.len() == 0 {
        Seq::empty()
    } else {
        fifo_entries_bytes(p.drop_last()) + text16_bytes(p.last())
    }
}

/// One FIFO section: the entry count, then the entries.
pub open spec fn fifo_bytes(p: Seq<Seq<char>>) -> Seq<u8> {
    le16(p.len() as u16) + fifo_entries_bytes(p)
}

/// The first queue carrying `id`.
pub open spec fn queue_for(qs: Seq<QueueView>, id: PlayerId) -> Option<QueueView>
    decreases qs.len(),
{
    if qs.len() == 0 {
        None
    } else if qs[0].id == id {
        Some(qs[0])
    } else {
        queue_for(qs.drop_first(), id)
    }
}

/// An active record with a queue holding a current task.
pub open spec fn writes_task(l: LifecycleView, q: Option<QueueView>) -> bool {
    l.active && q is Some && q->0.has_current
}

/// An active record with a queue holding FIFO entries.
pub open spec fn writes_fifo(l: LifecycleView, q: Option<QueueView>) -> bool {
    l.active && q is Some && q->0.pending.len() > 0
}

/// The flag byte of a v5 record.
pub open spec fn record_flags(l: LifecycleView, q: Option<QueueView>) -> u8 {
    ((if l.active {
        1int
    } else {
        0int
    }) + (if writes_task(l, q) {
        2int
    } else {
        0int
    }) + (if writes_fifo(l, q) {
        4int
    } else {
        0int
    })) as u8
}

/// One v5 record: body, flags and epoch, then the tombstone of an inactive
/// record or the memory mirror, task and FIFO of an active one.
pub open spec fn v5_record_bytes(b: CompanionBody, l: LifecycleView, q: Option<QueueView>) -> Seq<
    u8,
> {
    body_bytes(b) + le8(record_flags(l, q)) + le64(l.memory_epoch) + if !l.active {
        l.tombstone_operation_id.bytes@
    } else {
        le64(l.memory_revision) + l.memory_operation_id.bytes@ + text16_bytes(l.summary) + (if writes_task(
            l,
            q,
        ) {
            task_bytes(q->0.current)
        } else {
            Seq::empty()
        }) + (if writes_fifo(l, q) {
            fifo_bytes(q->0.pending)
        } else {
            Seq::empty()
        })
    }
}

/// The first `n` v5 records, pairing each body with the lifecycle at the same
/// position and the queue carrying its ID.
pub open spec fn v5_records_bytes(
    rs: Seq<CompanionBody>,
    ls: Seq<LifecycleView>,
    qs: Seq<QueueView>,
    n: nat,
) -> Seq<u8>
    decreases n,
{
    if n == 0 {
        Seq::empty()
    } else {
        v5_records_bytes(rs, ls, qs, (n - 1) as nat) + v5_record_bytes(
            rs[n - 1],
            ls[n - 1],
            queue_for(qs, rs[n - 1].id),
        )
    }
}

/// Header bytes 8..28, which the checksum covers.
pub open spec fn covered_header(revision: u64, count: nat, payload_length: nat) -> Seq<u8> {
    le32(CURRENT_SCHEMA) + le64(revision) + le32(count as u32) + le32(payload_length as u32)
}

/// A complete v5 file: header, namespace and the records in the given order.
pub open spec fn v5_file(
    revision: u64,
    namespace: PlayerId,
    rs: Seq<CompanionBody>,
    ls: Seq<LifecycleView>,
    qs: Seq<QueueView>,
) -> Seq<u8> {
    let payload = namespace.bytes@ + v5_records_bytes(rs, ls, qs, rs.len());
    let covered = covered_header(revision, rs.len(), payload.len());
    magic() + le32(ENVELOPE_VERSION) + covered + le32(spec_crc32c(covered + payload)) + payload
}

/// The canonical v5 file of a save request.
pub open spec fn encoding(s: SaveView) -> Seq<u8> {
    v5_file(
        s.revision,
        s.agent_namespace_id,
        sorted_bodies(s.records),
        sorted_lifecycles(s.lifecycles),
        s.queues,
    )
}

/// Appends item stacks, five bytes each.
fn append_stacks(w: &mut ByteWriter, stacks: &[ItemStack])
    ensures
        final(w)@ == old(w)@ + stacks5_bytes(stacks@),
{
    let ghost start = w@;
    let mut i: usize = 0;
    while i < stacks.len()
        invariant
            i <= stacks@.len(),
            w@ == start + stacks5_bytes(stacks@.take(i as int)),
        decreases stacks@.len() - i,
    {
        assert(stacks@.take(i + 1).drop_last() =~= stacks@.take(i as int));
        let s = stacks[i];
        w.u16(s.item);
        w.u8(s.count);
        w.u16(s.durability);
        assert(w@ =~= start + stacks5_bytes(stacks@.take(i + 1)));
        i = i + 1;
    }
    assert(stacks@.take(stacks@.len() as int) =~= stacks@);
}

/// Appends the 221 bytes of a body record.
pub fn append_body(w: &mut ByteWriter, body: &CompanionBody)
    ensures
        final(w)@ == old(w)@ + body_bytes(*body),
{
    let ghost start = w@;
    let id = body.id.to_bytes();
    w.bytes(&id);
    w.u32(body.dimension as u32);
    w.u32(body.position[0]);
    w.u32(body.position[1]);
    w.u32(body.position[2]);
    w.u32(body.yaw);
    w.u32(body.pitch);
    w.u8(body.inventory.hotbar.selected);
    append_stacks(w, &body.inventory.hotbar.slots);
    append_stacks(w, &body.inventory.backpack);
    assert(w@ =~= start + body_bytes(*body));
}

/// Appends text as a `u16` byte-length prefix and its UTF-8 bytes.
fn append_text16(w: &mut ByteWriter, s: &String)
    requires
        encode_utf8(s@).len() <= 0xFFFF,
    ensures
        final(w)@ == old(w)@ + text16_bytes(s@),
{
    let bytes = text_bytes(s);
    w.u16(bytes.len() as u16);
    w.bytes(bytes);
}

/// Appends one plan step.
fn append_plan_step(w: &mut ByteWriter, step: &PlanStep)
    ensures
        final(w)@ == old(w)@ + step_bytes(*step),
{
    let ghost start = w@;
    w.u8(step.kind);
    if step.kind == PLAN_STEP_FOLLOW {
        let id = step.player_id.to_bytes();
        w.bytes(&id);
    } else {
        w.u32(step.x as u32);
        w.u32(step.y as u32);
        w.u32(step.z as u32);
        if step.kind == PLAN_STEP_PLACE {
            w.u16(step.block);
        }
    }
    assert(w@ =~= start + step_bytes(*step));
}

/// Appends one task section.
fn append_task(w: &mut ByteWriter, task: &StoredCompanionTask)
    requires
        encode_utf8(task@.command).len() <= MAX_TASK_COMMAND_BYTES,
        task@.plan_steps.len() <= MAX_PLAN_STEPS,
    ensures
        final(w)@ == old(w)@ + task_bytes(task@),
{
    let ghost start = w@;
    append_text16(w, &task.command);
    w.u16(task.plan_steps.len() as u16);
    let ghost mid = w@;
    let steps = &task.plan_steps;
    let mut i: usize = 0;
    while i < steps.len()
        invariant
            i <= steps@.len(),
            w@ == mid + steps_bytes(steps@.take(i as int)),
        decreases steps@.len() - i,
    {
        assert(steps@.take(i + 1).drop_last() =~= steps@.take(i as int));
        append_plan_step(w, &steps[i]);
        i = i + 1;
    }
    assert(steps@.take(steps@.len() as int) =~= steps@);
    w.u32(task.step_index as u32);
    w.u8(task.state);
    w.u8(task.fail_reason);
    w.u64(task.start_tick);
    w.u64(task.deadline_ticks);
    assert(w@ =~= start + task_bytes(task@));
}

/// Appends one FIFO section.
fn append_fifo(w: &mut ByteWriter, pending: &Vec<String>)
    requires
        pending@.len() <= MAX_FIFO_ENTRIES,
        forall|i: int|
            0 <= i < pending@.len() ==> encode_utf8(#[trigger] pending@[i]@).len()
                <= MAX_TASK_COMMAND_BYTES,
    ensures
        final(w)@ == old(w)@ + fifo_bytes(texts(pending@)),
{
    let ghost start = w@;
    w.u16(pending.len() as u16);
    let ghost mid = w@;
    let ghost ps = texts(pending@);
    let mut i: usize = 0;
    while i < pending.len()
        invariant
            i <= pending@.len() <= MAX_FIFO_ENTRIES,
            ps == texts(pending@),
            forall|i: int|
                0 <= i < pending@.len() ==> encode_utf8(#[trigger] pending@[i]@).len()
                    <= MAX_TASK_COMMAND_BYTES,
            w@ == mid + fifo_entries_bytes(ps.take(i as int)),
        decreases pending@.len() - i,
    {
        assert(ps.take(i + 1).drop_last() =~= ps.take(i as int));
        assert(ps.take(i + 1).last() == pending@[i as int]@);
        append_text16(w, &pending[i]);
        i = i + 1;
    }
    assert(ps.take(ps.len() as int) =~= ps);
    assert(w@ =~= start + fifo_bytes(ps));
}

/// The position of the first queue carrying `id`.
fn find_queue(qs: &Vec<StoredCompanionQueue>, id: &PlayerId) -> (r: Option<usize>)
    ensures
        match r {
            Some(i) => i < qs@.len() && queue_for(queue_views(qs@), *id) == Some(
                queue_views(qs@)[i as int],
            ),
            None => queue_for(queue_views(qs@), *id) is None,
        },
{
    let ghost views = queue_views(qs@);
    assert(views.skip(0) =~= views);
    let mut i: usize = 0;
    while i < qs.len()
        invariant
            i <= qs@.len(),
            views == queue_views(qs@),
            queue_for(views, *id) == queue_for(views.skip(i as int), *id),
        decreases qs@.len() - i,
    {
        assert(views.skip(i as int)[0] == views[i as int]);
        if qs[i].id.same_as(id) {
            return Some(i);
        }
        assert(views.skip(i as int).drop_first() =~= views.skip(i + 1));
        i = i + 1;
    }
    assert(views.skip(i as int).len() == 0);
    None
}

/// Appends one v5 record.
fn append_record(
    w: &mut ByteWriter,
    body: &CompanionBody,
    lifecycle: &StoredCompanionLifecycle,
    queue: Option<&StoredCompanionQueue>,
)
    requires
        lifecycle_ok(lifecycle@),
        queue matches Some(q) ==> queue_ok(q@, CURRENT_SCHEMA),
    ensures
        final(w)@ == old(w)@ + v5_record_bytes(
            *body,
            lifecycle@,
            match queue {
                Some(q) => Some(q@),
                None => None,
            },
        ),
{
    let ghost start = w@;
    let ghost qv: Option<QueueView> = match queue {
        Some(q) => Some(q@),
        None => None,
    };
    append_body(w, body);
    let active = lifecycle.active;
    let has_task = active && match queue {
        Some(q) => q.has_current,
        None => false,
    };
    let has_fifo = active && match queue {
        Some(q) => q.pending.len() > 0,
        None => false,
    };
    assert(has_task == writes_task(lifecycle@, qv));
    assert(has_fifo == writes_fifo(lifecycle@, qv));
    let mut flags: u8 = 0;
    if active {
        flags = flags + FLAG_ACTIVE;
    }
    if has_task {
        flags = flags + FLAG_HAS_TASK;
    }
    if has_fifo {
        flags = flags + FLAG_HAS_FIFO;
    }
    assert(flags == record_flags(lifecycle@, qv));
    w.u8(flags);
    w.u64(lifecycle.memory_epoch);
    if !active {
        let id = lifecycle.tombstone_operation_id.to_bytes();
        w.bytes(&id);
        assert(w@ =~= start + v5_record_bytes(*body, lifecycle@, qv));
        return ;
    }
    w.u64(lifecycle.memory_revision);
    let op = lifecycle.memory_operation_id.to_bytes();
    w.bytes(&op);
    append_text16(w, &lifecycle.summary);
    let ghost before_sections = w@;
    match queue {
        Some(q) => {
            if has_task {
                append_task(w, &q.current);
            }
            let ghost mid = w@;
            if has_fifo {
                proof {
                    assert forall|i: int| 0 <= i < q.pending@.len() implies encode_utf8(
                        #[trigger] q.pending@[i]@,
                    ).len() <= MAX_TASK_COMMAND_BYTES by {
                        assert(texts(q.pending@)[i] == q.pending@[i]@);
                    }
                }
                append_fifo(w, &q.pending);
            }
        },
        None => {},
    }
    assert(w@ =~= start + v5_record_bytes(*body, lifecycle@, qv));
}

/// Puts the header in front of a v5 payload of `count` records.
fn seal_v5(revision: u64, count: usize, payload: Vec<u8>) -> (bytes: Vec<u8>)
    requires
        count <= 0xFFFF_FFFF,
        payload@.len() <= MAX_FILE_LENGTH,
    ensures
        bytes@ == magic() + le32(ENVELOPE_VERSION) + covered_header(
            revision,
            count as nat,
            payload@.len(),
        ) + le32(spec_crc32c(covered_header(revision, count as nat, payload@.len()) + payload@))
            + payload@,
{
    let mut covered = ByteWriter::new();
    covered.u32(CURRENT_SCHEMA);
    covered.u64(revision);
    covered.u32(count as u32);
    covered.u32(payload.len() as u32);
    let covered = covered.into_vec();
    assert(covered@ =~= covered_header(revision, count as nat, payload@.len()));
    let checksum = crc32c_join2(covered.as_slice(), payload.as_slice());
    let mut w = ByteWriter::new();
    w.u8(0x4D);
    w.u8(0x43);
    w.u8(0x41);
    w.u8(0x49);
    w.u32(ENVELOPE_VERSION);
    w.bytes(covered.as_slice());
    w.u32(checksum);
    w.bytes(payload.as_slice());
    let out = w.into_vec();
    assert(out@ =~= magic() + le32(ENVELOPE_VERSION) + covered_header(
        revision,
        count as nat,
        payload@.len(),
    ) + le32(spec_crc32c(covered_header(revision, count as nat, payload@.len()) + payload@))
        + payload@);
    out
}

/// Encodes a companion aggregate into its canonical v5 on-disk form.
pub fn encode(save: &CompanionSave) -> (res: StorageResult<Vec<u8>>)
    ensures
        res is Ok <==> save_admitted(save@) && encoding(save@).len() <= MAX_FILE_LENGTH,
        res matches Ok(bytes) ==> bytes@ == encoding(save@),
        res matches Err(e) ==> e is Corrupt,
        save.revision != 0 && spec_id_is_valid(save.agent_namespace_id.bytes@) && save.records@.len()
            > MAX_STORED ==> (res matches Err(StorageError::Corrupt(m)) && m@ == count_refusal(
            save.records@.len() as u64,
        )),
{
    let (record_order, life_order, _) = canonical_v5_parts(save)?;
    let ghost sv = save@;
    let ghost rs = sorted_bodies(sv.records);
    let ghost ls = sorted_lifecycles(sv.lifecycles);
    let n = record_order.len();
    proof {
        crate::canonical_order::lemma_order_of(crate::companion::body_keys(sv.records), n as nat);
        crate::canonical_order::lemma_order_of(lifecycle_keys(sv.lifecycles), n as nat);
    }
    let mut payload = ByteWriter::new();
    let ns = save.agent_namespace_id.to_bytes();
    payload.bytes(&ns);
    let mut j: usize = 0;
    while j < n
        invariant
            sv == save@,
            save_admitted(sv),
            n == sv.records.len(),
            rs == sorted_bodies(sv.records),
            ls == sorted_lifecycles(sv.lifecycles),
            record_order@.len() == n,
            life_order@.len() == n,
            forall|k: int|
                0 <= k < n ==> record_order@[k] as int == crate::canonical_order::ascending_order(
                    crate::companion::body_keys(sv.records),
                )[k],
            forall|k: int|
                0 <= k < n ==> life_order@[k] as int == crate::canonical_order::ascending_order(
                    lifecycle_keys(sv.lifecycles),
                )[k],
            crate::canonical_order::distinct_positions(
                crate::canonical_order::ascending_order(crate::companion::body_keys(sv.records)),
                n as nat,
            ),
            crate::canonical_order::distinct_positions(
                crate::canonical_order::ascending_order(lifecycle_keys(sv.lifecycles)),
                n as nat,
            ),
            j <= n,
            payload@ == sv.agent_namespace_id.bytes@ + v5_records_bytes(
                rs,
                ls,
                sv.queues,
                j as nat,
            ),
        decreases n - j,
    {
        let r = record_order[j];
        let l = life_order[j];
        let body = &save.records[r];
        let lifecycle = &save.lifecycles[l];
        assert(rs[j as int] == *body);
        assert(ls[j as int] == sv.lifecycles[l as int]);
        assert(sv.lifecycles[l as int] == lifecycle@);
        assert(lifecycle_ok(sv.lifecycles[l as int]));
        let qi = find_queue(&save.queues, &body.id);
        let queue: Option<&StoredCompanionQueue> = match qi {
            Some(i) => {
                assert(sv.queues[i as int] == save.queues@[i as int]@);
                assert(queue_ok(sv.queues[i as int], CURRENT_SCHEMA));
                Some(&save.queues[i])
            },
            None => None,
        };
        append_record(&mut payload, body, lifecycle, queue);
        j = j + 1;
    }
    let payload = payload.into_vec();
    proof {
        crate::bytes::lemma_le_facts();
        assert(rs.len() == n);
        let covered = covered_header(sv.revision, n as nat, payload@.len());
        assert(covered.len() == 20);
        assert(encoding(sv) == magic() + le32(ENVELOPE_VERSION) + covered + le32(
            spec_crc32c(covered + payload@),
        ) + payload@);
        assert(encoding(sv).len() == 32 + payload@.len());
    }
    if payload.len() > MAX_FILE_LENGTH - HEADER_LENGTH {
        return Err(corrupt("companion file length", "exceeds the file limit"));
    }
    let bytes = seal_v5(save.revision, n, payload);
    assert(bytes@ =~= encoding(sv));
    Ok(bytes)
}

} // verus!
