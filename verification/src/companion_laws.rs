//! Laws of the companion codec: what the reader gives back of what the writer
//! wrote.
//!
//! The central law is the round trip: the v5 file the encoder writes for an
//! admitted save is readable, and it decodes to the save in canonical order:
//! bodies and lifecycles in ascending identity order, each active record's
//! queue beside it.
use crate::bytes::{le16, le32, le64, le8, lei32, lemma_le_facts, lemma_le_rereads, u16_at, u32_at, u64_at};
use crate::chunk_layout::{lemma_stacks5_bytes_len, stacks5_bytes};
use crate::chunk_parse::stack5_at;
use crate::companion::{
    CompanionBody, CURRENT_SCHEMA, PLAN_STEP_FOLLOW, PLAN_STEP_GO_TO, PLAN_STEP_MINE,
    MAX_FIFO_ENTRIES, MAX_TASK_COMMAND_BYTES, PLAN_STEP_PLACE, PlanStep, TaskView, body_ok,
    step_ok, task_ok, LifecycleView, QueueView, queue_ok, lifecycle_ok, task_is_zero,
    FLAG_ACTIVE, FLAG_HAS_TASK, FLAG_HAS_FIFO, MAX_SUMMARY_BYTES, MAX_STORED, MAX_FILE_LENGTH,
    ENVELOPE_VERSION, active_count, lemma_key_eq, CompanionsView, SaveView, body_keys, distinct_keys, has_active,
    has_body, lifecycle_keys, queue_keys, save_admitted, sorted_bodies, sorted_lifecycles,
};
use crate::text::command_text_ok;
use crate::companion_layout::{
    encoding, covered_header, magic, v5_file, queue_for, v5_records_bytes, v5_record_bytes, record_flags, writes_fifo, writes_task, body_bytes, fifo_bytes, fifo_entries_bytes, step_bytes, steps_bytes, task_bytes, text16_bytes,
};
use crate::companion_parse::{
    body_at, parse_body, parse_fifo, parse_fifo_entries, parse_step, parse_steps, parse_task,
    parse_text16, task_with_tail, zero_id, zero_task, parse_active_tail, active_lifecycle,
    inactive_lifecycle, parse_v5_record, parse_v5, follows, header_ok, declared_schema,
    declared_revision, v5_parts, file_readable, file_value, v5_save, declared_count,
};
use crate::crc32c::spec_crc32c;
use crate::canonical_order::{
    ascending_order, insert_pos, lemma_ascending_order_identity, lemma_ascending_order_strict,
    lemma_insert_index, lemma_order_of, order_of, strictly_ascending,
};
use crate::identity::{PlayerId, id_at, id_key, lemma_id_at, spec_id_is_zero};
use crate::player::lemma_stacks5_read;
use vstd::prelude::*;
use vstd::utf8::{decode_utf8, encode_utf8, valid_utf8};

verus! {

broadcast use {vstd::seq::group_seq_axioms, vstd::array::group_array_axioms};

/// Reading prefixed text back from its bytes gives the text.
proof fn lemma_text16_read(d: Seq<u8>, pos: int, s: Seq<char>)
    requires
        0 <= pos,
        encode_utf8(s).len() <= 0xFFFF,
        pos + text16_bytes(s).len() <= d.len(),
        d.subrange(pos, pos + text16_bytes(s).len()) == text16_bytes(s),
    ensures
        text16_bytes(s).len() == 2 + encode_utf8(s).len(),
        u16_at(d, pos) == encode_utf8(s).len(),
        parse_text16(d, pos) == Some((s, pos + text16_bytes(s).len())),
{
    lemma_le_facts();
    vstd::utf8::encode_utf8_valid_utf8(s);
    vstd::utf8::encode_utf8_decode_utf8(s);
    let b = text16_bytes(s);
    let n = encode_utf8(s).len() as int;
    assert(d.subrange(pos, pos + 2) =~= b.subrange(0, 2));
    assert(b.subrange(0, 2) =~= le16(n as u16));
    assert(d.subrange(pos + 2, pos + 2 + n) =~= b.subrange(2, 2 + n));
    assert(b.subrange(2, 2 + n) =~= encode_utf8(s));
}

/// The identity with every byte zero is the zero identity.
proof fn lemma_zero_id(id: PlayerId)
    requires
        spec_id_is_zero(id.bytes@),
    ensures
        id == zero_id(),
{
    assert forall|k: int| 0 <= k < 16 implies id.bytes[k] == zero_id().bytes[k] by {
        assert(id.bytes@[k] == 0);
    }
    assert(id.bytes =~= zero_id().bytes);
}

/// Reading a body record back from its bytes gives the body.
#[verifier::rlimit(50)]
#[verifier::spinoff_prover]
proof fn lemma_body_read(d: Seq<u8>, pos: int, b: CompanionBody)
    requires
        0 <= pos,
        body_ok(b),
        pos + 221 <= d.len(),
        d.subrange(pos, pos + 221) == body_bytes(b),
    ensures
        body_bytes(b).len() == 221,
        parse_body(d, pos) == Some((b, pos + 221)),
{
    lemma_le_facts();
    crate::bytes::lemma_i32_bits(b.dimension);
    lemma_stacks5_bytes_len(b.inventory.hotbar.slots@);
    lemma_stacks5_bytes_len(b.inventory.backpack@);
    let x = body_bytes(b);
    assert(x.len() == 221);
    assert(d.subrange(pos, pos + 16) =~= x.subrange(0, 16));
    assert(x.subrange(0, 16) =~= b.id.bytes@);
    lemma_id_at(d, pos, b.id);
    assert(d.subrange(pos + 16, pos + 20) =~= x.subrange(16, 20));
    assert(x.subrange(16, 20) =~= lei32(b.dimension));
    assert(d.subrange(pos + 20, pos + 24) =~= x.subrange(20, 24));
    assert(x.subrange(20, 24) =~= le32(b.position[0]));
    assert(d.subrange(pos + 24, pos + 28) =~= x.subrange(24, 28));
    assert(x.subrange(24, 28) =~= le32(b.position[1]));
    assert(d.subrange(pos + 28, pos + 32) =~= x.subrange(28, 32));
    assert(x.subrange(28, 32) =~= le32(b.position[2]));
    assert(d.subrange(pos + 32, pos + 36) =~= x.subrange(32, 36));
    assert(x.subrange(32, 36) =~= le32(b.yaw));
    assert(d.subrange(pos + 36, pos + 40) =~= x.subrange(36, 40));
    assert(x.subrange(36, 40) =~= le32(b.pitch));
    assert(d[pos + 40] == x[40]);
    assert(d.subrange(pos + 41, pos + 86) =~= x.subrange(41, 86));
    assert(x.subrange(41, 86) =~= stacks5_bytes(b.inventory.hotbar.slots@));
    lemma_stacks5_read(d, pos + 41, b.inventory.hotbar.slots@);
    assert(d.subrange(pos + 86, pos + 221) =~= x.subrange(86, 221));
    assert(x.subrange(86, 221) =~= stacks5_bytes(b.inventory.backpack@));
    lemma_stacks5_read(d, pos + 86, b.inventory.backpack@);
    let got = body_at(d, pos);
    assert(got.position =~= b.position);
    assert forall|k: int| 0 <= k < 9 implies got.inventory.hotbar.slots[k]
        == b.inventory.hotbar.slots[k] by {
        assert(stack5_at(d, pos + 41 + 5 * k) == b.inventory.hotbar.slots@[k]);
    }
    assert(got.inventory.hotbar.slots =~= b.inventory.hotbar.slots);
    assert forall|k: int| 0 <= k < 27 implies got.inventory.backpack[k]
        == b.inventory.backpack[k] by {
        assert(stack5_at(d, pos + 86 + 5 * k) == b.inventory.backpack@[k]);
    }
    assert(got.inventory.backpack =~= b.inventory.backpack);
    assert(got == b);
}

/// Reading one plan step back from its bytes gives the step.
proof fn lemma_step_read(d: Seq<u8>, pos: int, s: PlanStep, index: int, total: int)
    requires
        0 <= pos,
        step_ok(s, index, total, CURRENT_SCHEMA),
        pos + step_bytes(s).len() <= d.len(),
        d.subrange(pos, pos + step_bytes(s).len()) == step_bytes(s),
    ensures
        parse_step(d, pos, CURRENT_SCHEMA) == Some((s, pos + step_bytes(s).len())),
{
    lemma_le_facts();
    let x = step_bytes(s);
    assert(d[pos] == x[0]);
    if s.kind == PLAN_STEP_FOLLOW {
        assert(x.len() == 17);
        assert(d.subrange(pos + 1, pos + 17) =~= x.subrange(1, 17));
        assert(x.subrange(1, 17) =~= s.player_id.bytes@);
        lemma_id_at(d, pos + 1, s.player_id);
    } else {
        crate::bytes::lemma_i32_bits(s.x);
        crate::bytes::lemma_i32_bits(s.y);
        crate::bytes::lemma_i32_bits(s.z);
        lemma_zero_id(s.player_id);
        assert(d.subrange(pos + 1, pos + 5) =~= x.subrange(1, 5));
        assert(x.subrange(1, 5) =~= lei32(s.x));
        assert(d.subrange(pos + 5, pos + 9) =~= x.subrange(5, 9));
        assert(x.subrange(5, 9) =~= lei32(s.y));
        assert(d.subrange(pos + 9, pos + 13) =~= x.subrange(9, 13));
        assert(x.subrange(9, 13) =~= lei32(s.z));
        if s.kind == PLAN_STEP_PLACE {
            assert(d.subrange(pos + 13, pos + 15) =~= x.subrange(13, 15));
            assert(x.subrange(13, 15) =~= le16(s.block));
        }
    }
}

/// The bytes of a prefix of the plan are a prefix of the plan's bytes.
proof fn lemma_steps_prefix(ss: Seq<PlanStep>, k: int)
    requires
        0 <= k <= ss.len(),
    ensures
        steps_bytes(ss.take(k)).len() <= steps_bytes(ss).len(),
        steps_bytes(ss).subrange(0, steps_bytes(ss.take(k)).len() as int) == steps_bytes(
            ss.take(k),
        ),
    decreases ss.len(),
{
    if k == ss.len() {
        assert(ss.take(k) =~= ss);
    } else {
        let init = ss.drop_last();
        assert(ss.take(k) =~= init.take(k));
        lemma_steps_prefix(init, k);
        assert(steps_bytes(ss) == steps_bytes(init) + step_bytes(ss.last()));
        assert(steps_bytes(ss).subrange(0, steps_bytes(init.take(k)).len() as int)
            =~= steps_bytes(init).subrange(0, steps_bytes(init.take(k)).len() as int));
    }
}

/// Reading the remaining plan steps from step `k` on gives the whole plan.
#[verifier::rlimit(50)]
#[verifier::spinoff_prover]
proof fn lemma_steps_read_from(d: Seq<u8>, pos: int, ss: Seq<PlanStep>, k: int)
    requires
        0 <= pos,
        0 <= k <= ss.len(),
        forall|i: int|
            0 <= i < ss.len() ==> #[trigger] step_ok(ss[i], i, ss.len() as int, CURRENT_SCHEMA),
        pos + steps_bytes(ss).len() <= d.len(),
        d.subrange(pos, pos + steps_bytes(ss).len()) == steps_bytes(ss),
    ensures
        parse_steps(
            d,
            pos + steps_bytes(ss.take(k)).len(),
            (ss.len() - k) as nat,
            CURRENT_SCHEMA,
            ss.take(k),
        ) == Some((ss, pos + steps_bytes(ss).len())),
    decreases ss.len() - k,
{
    if k == ss.len() {
        assert(ss.take(k) =~= ss);
    } else {
        let a = steps_bytes(ss.take(k));
        let next = ss.take(k + 1);
        assert(next.drop_last() =~= ss.take(k));
        assert(steps_bytes(next) == a + step_bytes(ss[k]));
        lemma_steps_prefix(ss, k + 1);
        let p = pos + a.len();
        let sl = step_bytes(ss[k]).len() as int;
        assert(d.subrange(p, p + sl) =~= steps_bytes(ss).subrange(a.len() as int, a.len() + sl));
        assert(steps_bytes(ss).subrange(a.len() as int, a.len() + sl) =~= steps_bytes(next).subrange(
            a.len() as int,
            a.len() + sl,
        ));
        assert(steps_bytes(next).subrange(a.len() as int, a.len() + sl) =~= step_bytes(ss[k]));
        assert(step_ok(ss[k], k, ss.len() as int, CURRENT_SCHEMA));
        lemma_step_read(d, p, ss[k], k, ss.len() as int);
        assert(ss.take(k).push(ss[k]) =~= next);
        lemma_steps_read_from(d, pos, ss, k + 1);
    }
}

/// Reading a task section back from its bytes gives the task.
#[verifier::rlimit(50)]
#[verifier::spinoff_prover]
proof fn lemma_task_read(d: Seq<u8>, pos: int, t: TaskView)
    requires
        0 <= pos,
        task_ok(t, CURRENT_SCHEMA),
        pos + task_bytes(t).len() <= d.len(),
        d.subrange(pos, pos + task_bytes(t).len()) == task_bytes(t),
    ensures
        parse_task(d, pos, CURRENT_SCHEMA) == Some((t, pos + task_bytes(t).len())),
{
    lemma_le_facts();
    crate::bytes::lemma_i32_bits(t.step_index);
    let x = task_bytes(t);
    let c = text16_bytes(t.command);
    let sb = steps_bytes(t.plan_steps);
    let n = t.plan_steps.len();
    assert(x == c + le16(n as u16) + sb + lei32(t.step_index) + le8(t.state) + le8(t.fail_reason)
        + le64(t.start_tick) + le64(t.deadline_ticks));
    let cl = c.len() as int;
    assert(d.subrange(pos, pos + cl) =~= x.subrange(0, cl));
    assert(x.subrange(0, cl) =~= c);
    lemma_text16_read(d, pos, t.command);
    let p1 = pos + cl;
    assert(d.subrange(p1, p1 + 2) =~= x.subrange(cl, cl + 2));
    assert(x.subrange(cl, cl + 2) =~= le16(n as u16));
    let p2 = p1 + 2 + sb.len();
    assert(d.subrange(p1 + 2, p2) =~= x.subrange(cl + 2, cl + 2 + sb.len()));
    assert(x.subrange(cl + 2, cl + 2 + sb.len()) =~= sb);
    lemma_steps_read_from(d, p1 + 2, t.plan_steps, 0);
    assert(t.plan_steps.take(0) =~= Seq::<PlanStep>::empty());
    let q = cl + 2 + sb.len();
    assert(d.subrange(p2, p2 + 4) =~= x.subrange(q, q + 4));
    assert(x.subrange(q, q + 4) =~= lei32(t.step_index));
    assert(d[p2 + 4] == x[q + 4]);
    assert(d[p2 + 5] == x[q + 5]);
    assert(d.subrange(p2 + 6, p2 + 14) =~= x.subrange(q + 6, q + 14));
    assert(x.subrange(q + 6, q + 14) =~= le64(t.start_tick));
    assert(d.subrange(p2 + 14, p2 + 22) =~= x.subrange(q + 14, q + 22));
    assert(x.subrange(q + 14, q + 22) =~= le64(t.deadline_ticks));
    assert(task_with_tail(d, p2, t.command, t.plan_steps) == t);
}

/// The bytes of a prefix of the FIFO entries are a prefix of their bytes.
proof fn lemma_fifo_prefix(p: Seq<Seq<char>>, k: int)
    requires
        0 <= k <= p.len(),
    ensures
        fifo_entries_bytes(p.take(k)).len() <= fifo_entries_bytes(p).len(),
        fifo_entries_bytes(p).subrange(0, fifo_entries_bytes(p.take(k)).len() as int)
            == fifo_entries_bytes(p.take(k)),
    decreases p.len(),
{
    if k == p.len() {
        assert(p.take(k) =~= p);
    } else {
        let init = p.drop_last();
        assert(p.take(k) =~= init.take(k));
        lemma_fifo_prefix(init, k);
        assert(fifo_entries_bytes(p) == fifo_entries_bytes(init) + text16_bytes(p.last()));
        assert(fifo_entries_bytes(p).subrange(0, fifo_entries_bytes(init.take(k)).len() as int)
            =~= fifo_entries_bytes(init).subrange(
            0,
            fifo_entries_bytes(init.take(k)).len() as int,
        ));
    }
}

/// Reading the remaining FIFO entries from entry `k` on gives all entries.
#[verifier::rlimit(50)]
#[verifier::spinoff_prover]
proof fn lemma_fifo_read_from(d: Seq<u8>, pos: int, p: Seq<Seq<char>>, k: int)
    requires
        0 <= pos,
        0 <= k <= p.len(),
        forall|i: int|
            0 <= i < p.len() ==> command_text_ok(#[trigger] p[i], MAX_TASK_COMMAND_BYTES as nat),
        pos + fifo_entries_bytes(p).len() <= d.len(),
        d.subrange(pos, pos + fifo_entries_bytes(p).len()) == fifo_entries_bytes(p),
    ensures
        parse_fifo_entries(
            d,
            pos + fifo_entries_bytes(p.take(k)).len(),
            (p.len() - k) as nat,
            p.take(k),
        ) == Some((p, pos + fifo_entries_bytes(p).len())),
    decreases p.len() - k,
{
    if k == p.len() {
        assert(p.take(k) =~= p);
    } else {
        let a = fifo_entries_bytes(p.take(k));
        let next = p.take(k + 1);
        assert(next.drop_last() =~= p.take(k));
        assert(fifo_entries_bytes(next) == a + text16_bytes(p[k]));
        lemma_fifo_prefix(p, k + 1);
        let at = pos + a.len();
        let tl = text16_bytes(p[k]).len() as int;
        assert(d.subrange(at, at + tl) =~= fifo_entries_bytes(p).subrange(
            a.len() as int,
            a.len() + tl,
        ));
        assert(fifo_entries_bytes(p).subrange(a.len() as int, a.len() + tl)
            =~= fifo_entries_bytes(next).subrange(a.len() as int, a.len() + tl));
        assert(fifo_entries_bytes(next).subrange(a.len() as int, a.len() + tl) =~= text16_bytes(
            p[k],
        ));
        assert(command_text_ok(p[k], MAX_TASK_COMMAND_BYTES as nat));
        lemma_text16_read(d, at, p[k]);
        assert(p.take(k).push(p[k]) =~= next);
        lemma_fifo_read_from(d, pos, p, k + 1);
    }
}

/// Reading a FIFO section back from its bytes gives the entries.
proof fn lemma_fifo_read(d: Seq<u8>, pos: int, p: Seq<Seq<char>>)
    requires
        0 <= pos,
        1 <= p.len() <= MAX_FIFO_ENTRIES,
        forall|i: int|
            0 <= i < p.len() ==> command_text_ok(#[trigger] p[i], MAX_TASK_COMMAND_BYTES as nat),
        pos + fifo_bytes(p).len() <= d.len(),
        d.subrange(pos, pos + fifo_bytes(p).len()) == fifo_bytes(p),
    ensures
        parse_fifo(d, pos) == Some((p, pos + fifo_bytes(p).len())),
{
    lemma_le_facts();
    let x = fifo_bytes(p);
    let e = fifo_entries_bytes(p);
    assert(d.subrange(pos, pos + 2) =~= x.subrange(0, 2));
    assert(x.subrange(0, 2) =~= le16(p.len() as u16));
    assert(d.subrange(pos + 2, pos + 2 + e.len()) =~= x.subrange(2, x.len() as int));
    assert(x.subrange(2, x.len() as int) =~= e);
    lemma_fifo_read_from(d, pos + 2, p, 0);
    assert(p.take(0) =~= Seq::<Seq<char>>::empty());
}

/// The flag bits of the record flag values an encoder writes.
proof fn lemma_flag_values()
    by (bit_vector)
    ensures
        0u8 & 1u8 == 0u8,
        1u8 & 1u8 != 0u8 && 1u8 & 2u8 == 0u8 && 1u8 & 4u8 == 0u8,
        3u8 & 1u8 != 0u8 && 3u8 & 2u8 != 0u8 && 3u8 & 4u8 == 0u8,
        5u8 & 1u8 != 0u8 && 5u8 & 2u8 == 0u8 && 5u8 & 4u8 != 0u8,
        7u8 & 1u8 != 0u8 && 7u8 & 2u8 != 0u8 && 7u8 & 4u8 != 0u8,
{
}

/// The queue a record carries after a read: the queue of an active record.
pub open spec fn record_queue(l: LifecycleView, q: Option<QueueView>) -> Option<QueueView> {
    if l.active {
        q
    } else {
        None
    }
}

/// A queue a v5 record may carry for the body `b`.
pub open spec fn carried_queue_ok(b: CompanionBody, q: Option<QueueView>) -> bool {
    q matches Some(x) ==> x.id == b.id && queue_ok(x, CURRENT_SCHEMA) && x.summary.len() == 0
}

/// The task of a queue without a current task is the zero task.
proof fn lemma_zero_task(t: TaskView)
    requires
        task_is_zero(t),
    ensures
        t == zero_task(),
{
    assert(t.command =~= Seq::<char>::empty());
    assert(t.plan_steps =~= Seq::<PlanStep>::empty());
}

/// Reading the memory mirror, task and FIFO of an active record back from
/// their bytes gives the lifecycle and the queue.
#[verifier::rlimit(40)]
#[verifier::spinoff_prover]
proof fn lemma_active_tail_read(
    d: Seq<u8>,
    pos: int,
    b: CompanionBody,
    l: LifecycleView,
    q: Option<QueueView>,
    tail: Seq<u8>,
)
    requires
        0 <= pos,
        l.active,
        l.id == b.id,
        lifecycle_ok(l),
        carried_queue_ok(b, q),
        tail == le64(l.memory_revision) + l.memory_operation_id.bytes@ + text16_bytes(l.summary) + (
        if writes_task(l, q) {
            task_bytes(q->0.current)
        } else {
            Seq::empty()
        }) + (if writes_fifo(l, q) {
            fifo_bytes(q->0.pending)
        } else {
            Seq::empty()
        }),
        pos + tail.len() <= d.len(),
        d.subrange(pos, pos + tail.len()) == tail,
    ensures
        parse_active_tail(d, pos, record_flags(l, q), b, l.memory_epoch) == Some(
            (l, q, pos + tail.len()),
        ),
{
    lemma_le_facts();
    lemma_flag_values();
    let flags = record_flags(l, q);
    assert(flags & FLAG_HAS_TASK != 0 <==> writes_task(l, q));
    assert(flags & FLAG_HAS_FIFO != 0 <==> writes_fifo(l, q));
    let summary = text16_bytes(l.summary);
    let tb = if writes_task(l, q) {
        task_bytes(q->0.current)
    } else {
        Seq::empty()
    };
    let fb = if writes_fifo(l, q) {
        fifo_bytes(q->0.pending)
    } else {
        Seq::empty()
    };
    assert(tail == le64(l.memory_revision) + l.memory_operation_id.bytes@ + summary + tb + fb);
    assert(d.subrange(pos, pos + 8) =~= tail.subrange(0, 8));
    assert(tail.subrange(0, 8) =~= le64(l.memory_revision));
    assert(d.subrange(pos + 8, pos + 24) =~= tail.subrange(8, 24));
    assert(tail.subrange(8, 24) =~= l.memory_operation_id.bytes@);
    lemma_id_at(d, pos + 8, l.memory_operation_id);
    assert(encode_utf8(l.summary).len() <= MAX_SUMMARY_BYTES) by {
        if l.memory_revision == 0 {
            assert(l.summary =~= Seq::<char>::empty());
            assert(encode_utf8(l.summary) =~= Seq::<u8>::empty());
        }
    }
    let sl = summary.len() as int;
    assert(d.subrange(pos + 24, pos + 24 + sl) =~= tail.subrange(24, 24 + sl));
    assert(tail.subrange(24, 24 + sl) =~= summary);
    lemma_text16_read(d, pos + 24, l.summary);
    lemma_zero_id(l.tombstone_operation_id);
    assert(active_lifecycle(b, l.memory_epoch, l.memory_revision, l.memory_operation_id, l.summary)
        == l);
    let p1 = pos + 24 + sl;
    let p2 = p1 + tb.len();
    let p3 = p2 + fb.len();
    assert(d.subrange(p1, p2) =~= tail.subrange(24 + sl, 24 + sl + tb.len()));
    assert(tail.subrange(24 + sl, 24 + sl + tb.len()) =~= tb);
    assert(d.subrange(p2, p3) =~= tail.subrange(24 + sl + tb.len(), tail.len() as int));
    assert(tail.subrange(24 + sl + tb.len(), tail.len() as int) =~= fb);
    if writes_task(l, q) {
        lemma_task_read(d, p1, q->0.current);
    }
    if writes_fifo(l, q) {
        lemma_fifo_read(d, p2, q->0.pending);
    }
    if let Some(x) = q {
        if !x.has_current {
            lemma_zero_task(x.current);
        }
        if x.pending.len() == 0 {
            assert(x.pending =~= Seq::<Seq<char>>::empty());
        }
        assert(x.summary =~= Seq::<char>::empty());
    }
}

/// Reading one v5 record back from its bytes gives the body, its lifecycle,
/// and the queue of an active record.
#[verifier::rlimit(50)]
#[verifier::spinoff_prover]
proof fn lemma_record_read(
    d: Seq<u8>,
    pos: int,
    b: CompanionBody,
    l: LifecycleView,
    q: Option<QueueView>,
)
    requires
        0 <= pos,
        body_ok(b),
        lifecycle_ok(l),
        l.id == b.id,
        carried_queue_ok(b, q),
        pos + v5_record_bytes(b, l, q).len() <= d.len(),
        d.subrange(pos, pos + v5_record_bytes(b, l, q).len()) == v5_record_bytes(b, l, q),
    ensures
        parse_v5_record(d, pos) == Some(
            (b, l, record_queue(l, q), pos + v5_record_bytes(b, l, q).len()),
        ),
{
    lemma_le_facts();
    lemma_flag_values();
    let x = v5_record_bytes(b, l, q);
    let bb = body_bytes(b);
    let flags = record_flags(l, q);
    assert(bb.len() == 221) by {
        lemma_stacks5_bytes_len(b.inventory.hotbar.slots@);
        lemma_stacks5_bytes_len(b.inventory.backpack@);
    }
    assert(d.subrange(pos, pos + 221) =~= x.subrange(0, 221));
    assert(x.subrange(0, 221) =~= bb);
    lemma_body_read(d, pos, b);
    let p = pos + 221;
    assert(d[p] == x[221]);
    assert(x[221] == flags);
    assert(d.subrange(p + 1, p + 9) =~= x.subrange(222, 230));
    assert(x.subrange(222, 230) =~= le64(l.memory_epoch));
    let rest = x.subrange(230, x.len() as int);
    assert(d.subrange(p + 9, pos + x.len()) =~= rest);
    if !l.active {
        assert(flags == 0);
        assert(rest =~= l.tombstone_operation_id.bytes@);
        lemma_id_at(d, p + 9, l.tombstone_operation_id);
        lemma_zero_id(l.memory_operation_id);
        assert(l.summary =~= Seq::<char>::empty());
        assert(inactive_lifecycle(b, l.memory_epoch, l.tombstone_operation_id) == l);
    } else {
        assert(flags & FLAG_ACTIVE != 0);
        assert(flags <= 7);
        let tail = le64(l.memory_revision) + l.memory_operation_id.bytes@ + text16_bytes(l.summary)
            + (if writes_task(l, q) {
            task_bytes(q->0.current)
        } else {
            Seq::empty()
        }) + (if writes_fifo(l, q) {
            fifo_bytes(q->0.pending)
        } else {
            Seq::empty()
        });
        assert(x == bb + le8(flags) + le64(l.memory_epoch) + tail);
        assert(rest =~= tail);
        lemma_active_tail_read(d, p + 9, b, l, q, rest);
    }
}

/// The queue found for an identity carries that identity and is one of the queues.
proof fn lemma_queue_for(qs: Seq<QueueView>, id: PlayerId)
    ensures
        queue_for(qs, id) matches Some(x) ==> x.id == id && exists|j: int|
            0 <= j < qs.len() && qs[j] == x,
    decreases qs.len(),
{
    if qs.len() > 0 && qs[0].id != id {
        lemma_queue_for(qs.drop_first(), id);
        if let Some(x) = queue_for(qs, id) {
            let j = choose|j: int| 0 <= j < qs.drop_first().len() && qs.drop_first()[j] == x;
            assert(qs[j + 1] == x);
        }
    }
}

/// The queues the first `n` records carry after a read, in record order.
pub open spec fn record_queues(
    rs: Seq<CompanionBody>,
    ls: Seq<LifecycleView>,
    qs: Seq<QueueView>,
    n: nat,
) -> Seq<QueueView>
    decreases n,
{
    if n == 0 {
        Seq::empty()
    } else {
        let prev = record_queues(rs, ls, qs, (n - 1) as nat);
        match record_queue(ls[n - 1], queue_for(qs, rs[n - 1].id)) {
            Some(x) => prev.push(x),
            None => prev,
        }
    }
}

/// The bytes of the first `k` records are a prefix of the first `n` records' bytes.
proof fn lemma_records_prefix(
    rs: Seq<CompanionBody>,
    ls: Seq<LifecycleView>,
    qs: Seq<QueueView>,
    k: nat,
    n: nat,
)
    requires
        k <= n,
    ensures
        v5_records_bytes(rs, ls, qs, k).len() <= v5_records_bytes(rs, ls, qs, n).len(),
        v5_records_bytes(rs, ls, qs, n).subrange(0, v5_records_bytes(rs, ls, qs, k).len() as int)
            == v5_records_bytes(rs, ls, qs, k),
    decreases n,
{
    if k < n {
        lemma_records_prefix(rs, ls, qs, k, (n - 1) as nat);
        let a = v5_records_bytes(rs, ls, qs, (n - 1) as nat);
        let kk = v5_records_bytes(rs, ls, qs, k).len() as int;
        assert(v5_records_bytes(rs, ls, qs, n).subrange(0, kk) =~= a.subrange(0, kk));
    } else {
        assert(v5_records_bytes(rs, ls, qs, n).subrange(0, v5_records_bytes(rs, ls, qs, n).len() as int)
            =~= v5_records_bytes(rs, ls, qs, n));
    }
}

/// Records the encoder writes in canonical order: valid bodies in strictly
/// ascending identity order, each with its own valid lifecycle and queue.
pub open spec fn canonical_records(
    rs: Seq<CompanionBody>,
    ls: Seq<LifecycleView>,
    qs: Seq<QueueView>,
) -> bool {
    &&& ls.len() == rs.len()
    &&& forall|i: int| 0 <= i < rs.len() ==> #[trigger] body_ok(rs[i])
    &&& forall|i: int| 0 <= i < rs.len() ==> #[trigger] lifecycle_ok(ls[i])
    &&& forall|i: int| 0 <= i < rs.len() ==> (#[trigger] ls[i]).id == rs[i].id
    &&& forall|j: int, k: int| 0 <= j < k < rs.len() ==> id_key(rs[j].id) < id_key(rs[k].id)
    &&& forall|i: int|
        0 <= i < rs.len() ==> carried_queue_ok(rs[i], #[trigger] queue_for(qs, rs[i].id))
}

/// The bytes of record `k` stand right after the bytes of the records before it.
proof fn lemma_record_slice(
    d: Seq<u8>,
    pos: int,
    rs: Seq<CompanionBody>,
    ls: Seq<LifecycleView>,
    qs: Seq<QueueView>,
    k: nat,
)
    requires
        0 <= pos,
        k < rs.len(),
        pos + v5_records_bytes(rs, ls, qs, rs.len()).len() <= d.len(),
        d.subrange(pos, pos + v5_records_bytes(rs, ls, qs, rs.len()).len()) == v5_records_bytes(
            rs,
            ls,
            qs,
            rs.len(),
        ),
    ensures
        ({
            let a = v5_records_bytes(rs, ls, qs, k);
            let rec = v5_record_bytes(rs[k as int], ls[k as int], queue_for(qs, rs[k as int].id));
            &&& v5_records_bytes(rs, ls, qs, k + 1).len() == a.len() + rec.len()
            &&& pos + a.len() + rec.len() <= d.len()
            &&& d.subrange(pos + a.len(), pos + a.len() + rec.len()) == rec
        }),
{
    let n = rs.len();
    let a = v5_records_bytes(rs, ls, qs, k);
    let q = queue_for(qs, rs[k as int].id);
    let rec = v5_record_bytes(rs[k as int], ls[k as int], q);
    let next = v5_records_bytes(rs, ls, qs, k + 1);
    assert(next == a + rec);
    lemma_records_prefix(rs, ls, qs, k + 1, n);
    let all = v5_records_bytes(rs, ls, qs, n);
    let lo = a.len() as int;
    let hi = (a.len() + rec.len()) as int;
    assert(d.subrange(pos + lo, pos + hi) =~= all.subrange(lo, hi));
    assert(all.subrange(lo, hi) =~= next.subrange(lo, hi));
    assert(next.subrange(lo, hi) =~= rec);
}

/// Reading the records from record `k` on gives every record, its lifecycle
/// and the queues of the active ones.
#[verifier::rlimit(50)]
#[verifier::spinoff_prover]
proof fn lemma_records_read_from(
    d: Seq<u8>,
    pos: int,
    rs: Seq<CompanionBody>,
    ls: Seq<LifecycleView>,
    qs: Seq<QueueView>,
    k: nat,
)
    requires
        0 <= pos,
        k <= rs.len(),
        canonical_records(rs, ls, qs),
        pos + v5_records_bytes(rs, ls, qs, rs.len()).len() <= d.len(),
        d.subrange(pos, pos + v5_records_bytes(rs, ls, qs, rs.len()).len()) == v5_records_bytes(
            rs,
            ls,
            qs,
            rs.len(),
        ),
    ensures
        parse_v5(
            d,
            pos + v5_records_bytes(rs, ls, qs, k).len(),
            (rs.len() - k) as nat,
            rs.take(k as int),
            ls.take(k as int),
            record_queues(rs, ls, qs, k),
        ) == Some(
            (
                rs,
                ls,
                record_queues(rs, ls, qs, rs.len()),
                pos + v5_records_bytes(rs, ls, qs, rs.len()).len(),
            ),
        ),
    decreases rs.len() - k,
{
    let n = rs.len();
    if k == n {
        assert(rs.take(k as int) =~= rs);
        assert(ls.take(k as int) =~= ls);
    } else {
        let i = k as int;
        let a = v5_records_bytes(rs, ls, qs, k);
        let q = queue_for(qs, rs[i].id);
        lemma_record_slice(d, pos, rs, ls, qs, k);
        assert(body_ok(rs[i]));
        assert(lifecycle_ok(ls[i]));
        assert(ls[i].id == rs[i].id);
        assert(carried_queue_ok(rs[i], q));
        lemma_record_read(d, pos + a.len(), rs[i], ls[i], q);
        let bodies = rs.take(i);
        if k > 0 {
            assert(bodies.last() == rs[i - 1]);
            assert(id_key(rs[i - 1].id) < id_key(rs[i].id));
        }
        assert(follows(bodies, rs[i]));
        assert(bodies.push(rs[i]) =~= rs.take(i + 1));
        assert(ls.take(i).push(ls[i]) =~= ls.take(i + 1));
        lemma_records_read_from(d, pos, rs, ls, qs, k + 1);
    }
}

/// Reading a v5 file of canonical records back gives its header fields and
/// every record, lifecycle and queue.
#[verifier::rlimit(40)]
#[verifier::spinoff_prover]
proof fn lemma_file_read(
    revision: u64,
    namespace: PlayerId,
    rs: Seq<CompanionBody>,
    ls: Seq<LifecycleView>,
    qs: Seq<QueueView>,
)
    requires
        revision != 0,
        rs.len() <= MAX_STORED,
        canonical_records(rs, ls, qs),
        v5_file(revision, namespace, rs, ls, qs).len() <= MAX_FILE_LENGTH,
    ensures
        ({
            let d = v5_file(revision, namespace, rs, ls, qs);
            &&& header_ok(d)
            &&& declared_schema(d) == CURRENT_SCHEMA
            &&& declared_revision(d) == revision
            &&& d.len() >= 48
            &&& id_at(d, 32) == namespace
            &&& v5_parts(d) == Some((rs, ls, record_queues(rs, ls, qs, rs.len()), d.len() as int))
        }),
{
    lemma_le_facts();
    let d = v5_file(revision, namespace, rs, ls, qs);
    let records = v5_records_bytes(rs, ls, qs, rs.len());
    let payload = namespace.bytes@ + records;
    let covered = covered_header(revision, rs.len(), payload.len());
    assert(d == magic() + le32(ENVELOPE_VERSION) + covered + le32(spec_crc32c(covered + payload))
        + payload);
    assert(covered.len() == 20);
    assert(d.len() == 32 + payload.len());
    assert(d.take(4) =~= magic());
    assert(d.subrange(4, 8) =~= le32(ENVELOPE_VERSION));
    assert(d.subrange(8, 12) =~= le32(CURRENT_SCHEMA));
    assert(d.subrange(12, 20) =~= le64(revision));
    assert(d.subrange(20, 24) =~= le32(rs.len() as u32));
    assert(d.subrange(24, 28) =~= le32(payload.len() as u32));
    assert(d.subrange(28, 32) =~= le32(spec_crc32c(covered + payload)));
    assert(d.subrange(8, 28) =~= covered);
    assert(d.skip(32) =~= payload);
    assert(d.subrange(32, 48) =~= namespace.bytes@);
    lemma_id_at(d, 32, namespace);
    assert(d.subrange(48, 48 + records.len() as int) =~= records);
    lemma_records_read_from(d, 48, rs, ls, qs, 0);
    assert(rs.take(0) =~= Seq::<CompanionBody>::empty());
    assert(ls.take(0) =~= Seq::<LifecycleView>::empty());
}

/// Counting active lifecycles over a concatenation adds the counts.
proof fn lemma_active_count_concat(a: Seq<LifecycleView>, b: Seq<LifecycleView>)
    ensures
        active_count(a + b) == active_count(a) + active_count(b),
    decreases b.len(),
{
    if b.len() == 0 {
        assert(a + b =~= a);
    } else {
        lemma_active_count_concat(a, b.drop_last());
        assert((a + b).drop_last() =~= a + b.drop_last());
        assert((a + b).last() == b.last());
    }
}

/// Reordering lifecycles by the canonical order keeps the active count.
proof fn lemma_ordered_active_count(keys: Seq<u128>, ls: Seq<LifecycleView>, n: nat)
    requires
        keys.len() == ls.len(),
        n <= ls.len(),
    ensures
        active_count(order_of(keys, n).map_values(|j: int| ls[j])) == active_count(
            ls.take(n as int),
        ),
    decreases n,
{
    if n == 0 {
        assert(order_of(keys, 0).map_values(|j: int| ls[j]) =~= Seq::<LifecycleView>::empty());
        assert(ls.take(0) =~= Seq::<LifecycleView>::empty());
    } else {
        let o = order_of(keys, (n - 1) as nat);
        lemma_ordered_active_count(keys, ls, (n - 1) as nat);
        lemma_insert_index(o, keys, n - 1);
        let p = insert_pos(o, keys, n - 1);
        let f = |j: int| ls[j];
        let head = o.take(p).map_values(f);
        let tail = o.skip(p).map_values(f);
        assert(order_of(keys, n).map_values(f) =~= head + seq![ls[n - 1]] + tail);
        assert(o.map_values(f) =~= head + tail);
        lemma_active_count_concat(head + seq![ls[n - 1]], tail);
        lemma_active_count_concat(head, seq![ls[n - 1]]);
        lemma_active_count_concat(head, tail);
        let one = seq![ls[n - 1]];
        assert(one.drop_last() =~= Seq::<LifecycleView>::empty());
        assert(active_count(Seq::<LifecycleView>::empty()) == 0);
        assert(one.last() == ls[n - 1]);
        assert(active_count(one) == (if ls[n - 1].active {
            1nat
        } else {
            0nat
        }));
        assert(ls.take(n as int).drop_last() =~= ls.take(n - 1));
    }
}

/// Some active record among the first `n` carries the identity.
pub open spec fn active_record(rs: Seq<CompanionBody>, ls: Seq<LifecycleView>, n: int, id: PlayerId) -> bool {
    exists|j: int| 0 <= j < n && #[trigger] rs[j].id == id && ls[j].active
}

/// What the queues a read gives back hold: each is an admitted queue of an
/// active record, in ascending identity order, no more than the active records.
#[verifier::rlimit(40)]
#[verifier::spinoff_prover]
proof fn lemma_record_queues_props(
    rs: Seq<CompanionBody>,
    ls: Seq<LifecycleView>,
    qs: Seq<QueueView>,
    n: nat,
)
    requires
        canonical_records(rs, ls, qs),
        n <= rs.len(),
    ensures
        record_queues(rs, ls, qs, n).len() <= active_count(ls.take(n as int)),
        forall|i: int|
            0 <= i < record_queues(rs, ls, qs, n).len() ==> queue_ok(
                #[trigger] record_queues(rs, ls, qs, n)[i],
                CURRENT_SCHEMA,
            ) && record_queues(rs, ls, qs, n)[i].summary.len() == 0 && active_record(
                rs,
                ls,
                n as int,
                record_queues(rs, ls, qs, n)[i].id,
            ),
        forall|i: int, k: int|
            0 <= i < k < record_queues(rs, ls, qs, n).len() ==> id_key(
                (#[trigger] record_queues(rs, ls, qs, n)[i]).id,
            ) < id_key((#[trigger] record_queues(rs, ls, qs, n)[k]).id),
    decreases n,
{
    if n == 0 {
        assert(ls.take(0) =~= Seq::<LifecycleView>::empty());
        assert(active_count(Seq::<LifecycleView>::empty()) == 0);
    } else {
        let m = (n - 1) as nat;
        lemma_record_queues_props(rs, ls, qs, m);
        let prev = record_queues(rs, ls, qs, m);
        let i = n - 1;
        let q = queue_for(qs, rs[i].id);
        assert(carried_queue_ok(rs[i], q));
        assert(ls.take(n as int).drop_last() =~= ls.take(m as int));
        assert(ls.take(n as int).last() == ls[i]);
        assert(active_count(ls.take(n as int)) == active_count(ls.take(m as int)) + (if ls[i].active {
            1nat
        } else {
            0nat
        }));
        let rq = record_queues(rs, ls, qs, n);
        assert forall|a: int| 0 <= a < prev.len() implies active_record(
            rs,
            ls,
            n as int,
            #[trigger] prev[a].id,
        ) by {
            assert(active_record(rs, ls, m as int, prev[a].id));
            let j = choose|j: int| 0 <= j < m && #[trigger] rs[j].id == prev[a].id && ls[j].active;
            assert(0 <= j < n && rs[j].id == prev[a].id && ls[j].active);
        }
        if let Some(x) = record_queue(ls[i], q) {
            assert(rq == prev.push(x));
            assert(active_record(rs, ls, n as int, rs[i].id));
            assert forall|a: int| 0 <= a < rq.len() implies queue_ok(#[trigger] rq[a], CURRENT_SCHEMA)
                && rq[a].summary.len() == 0 && active_record(rs, ls, n as int, rq[a].id) by {
                if a < prev.len() {
                    assert(rq[a] == prev[a]);
                    assert(active_record(rs, ls, n as int, prev[a].id));
                }
            }
            assert forall|a: int, k: int| 0 <= a < k < rq.len() implies id_key(
                (#[trigger] rq[a]).id,
            ) < id_key((#[trigger] rq[k]).id) by {
                if k < prev.len() {
                    assert(rq[a] == prev[a] && rq[k] == prev[k]);
                } else {
                    assert(rq[a] == prev[a]);
                    assert(active_record(rs, ls, m as int, prev[a].id));
                    let j = choose|j: int| 0 <= j < m && #[trigger] rs[j].id == prev[a].id
                        && ls[j].active;
                    assert(id_key(rs[j].id) < id_key(rs[i].id));
                }
            }
        } else {
            assert(rq == prev);
        }
    }
}

/// The aggregate the canonical file of an admitted save decodes to: bodies
/// and lifecycles in ascending identity order, and the queue of each active
/// record in that same order.
pub open spec fn canonical_value(s: SaveView) -> CompanionsView {
    let rs = sorted_bodies(s.records);
    let ls = sorted_lifecycles(s.lifecycles);
    CompanionsView {
        source_schema: CURRENT_SCHEMA,
        revision: s.revision,
        agent_namespace_id: s.agent_namespace_id,
        records: rs,
        lifecycles: ls,
        queues: record_queues(rs, ls, s.queues, rs.len()),
    }
}

/// The records of an admitted save, in canonical order, are canonical records.
#[verifier::rlimit(50)]
#[verifier::spinoff_prover]
proof fn lemma_sorted_records_canonical(s: SaveView)
    requires
        save_admitted(s),
    ensures
        canonical_records(sorted_bodies(s.records), sorted_lifecycles(s.lifecycles), s.queues),
        sorted_bodies(s.records).len() == s.records.len(),
        active_count(sorted_lifecycles(s.lifecycles)) == active_count(s.lifecycles),
{
    let n = s.records.len();
    let bk = body_keys(s.records);
    let lk = lifecycle_keys(s.lifecycles);
    lemma_ascending_order_strict(bk);
    lemma_order_of(lk, n as nat);
    let ob = ascending_order(bk);
    let ol = ascending_order(lk);
    let rs = sorted_bodies(s.records);
    let ls = sorted_lifecycles(s.lifecycles);
    assert(rs.len() == n && ls.len() == n);
    assert forall|i: int| 0 <= i < n implies #[trigger] body_ok(rs[i]) by {
        assert(rs[i] == s.records[ob[i]]);
        assert(0 <= ob[i] < n);
    }
    assert forall|i: int| 0 <= i < n implies #[trigger] lifecycle_ok(ls[i]) by {
        assert(ls[i] == s.lifecycles[ol[i]]);
        assert(0 <= ol[i] < n);
    }
    assert forall|i: int| 0 <= i < n implies (#[trigger] ls[i]).id == rs[i].id by {
        assert(sorted_lifecycles(s.lifecycles)[i].id == sorted_bodies(s.records)[i].id);
    }
    assert forall|j: int, k: int| 0 <= j < k < n implies id_key(rs[j].id) < id_key(rs[k].id) by {
        assert(bk[ob[j]] < bk[ob[k]]);
        assert(rs[j] == s.records[ob[j]]);
        assert(rs[k] == s.records[ob[k]]);
    }
    assert forall|i: int| 0 <= i < n implies carried_queue_ok(
        rs[i],
        #[trigger] queue_for(s.queues, rs[i].id),
    ) by {
        lemma_queue_for(s.queues, rs[i].id);
        if let Some(x) = queue_for(s.queues, rs[i].id) {
            let j = choose|j: int| 0 <= j < s.queues.len() && s.queues[j] == x;
            assert(queue_ok(s.queues[j], CURRENT_SCHEMA));
            assert(s.queues[j].summary.len() == 0);
        }
    }
    lemma_ordered_active_count(lk, s.lifecycles, n as nat);
    assert(s.lifecycles.take(n as int) =~= s.lifecycles);
}

/// Records already in canonical order keep their order under sorting.
proof fn lemma_sorted_is_identity(rs: Seq<CompanionBody>, ls: Seq<LifecycleView>)
    requires
        ls.len() == rs.len(),
        forall|i: int| 0 <= i < rs.len() ==> (#[trigger] ls[i]).id == rs[i].id,
        forall|j: int, k: int| 0 <= j < k < rs.len() ==> id_key(rs[j].id) < id_key(rs[k].id),
    ensures
        sorted_bodies(rs) == rs,
        sorted_lifecycles(ls) == ls,
{
    let bk = body_keys(rs);
    let lk = lifecycle_keys(ls);
    assert(lk =~= bk);
    assert(strictly_ascending(bk));
    lemma_ascending_order_identity(bk, rs.len());
    assert(sorted_bodies(rs) =~= rs);
    assert(sorted_lifecycles(ls) =~= ls);
}

/// Round trip: the v5 file the encoder writes for an admitted save is
/// readable, and it decodes to the save in canonical order: the bodies and
/// lifecycles in strictly ascending identity order, each active record's
/// queue beside it, whatever order the save listed them in.
#[verifier::rlimit(50)]
#[verifier::spinoff_prover]
pub proof fn lemma_round_trip(s: SaveView)
    requires
        save_admitted(s),
        encoding(s).len() <= MAX_FILE_LENGTH,
    ensures
        file_readable(encoding(s)),
        file_value(encoding(s)) == canonical_value(s),
        forall|j: int, k: int|
            0 <= j < k < file_value(encoding(s)).records.len() ==> id_key(
                file_value(encoding(s)).records[j].id,
            ) < id_key(file_value(encoding(s)).records[k].id),
{
    let rs = sorted_bodies(s.records);
    let ls = sorted_lifecycles(s.lifecycles);
    let n = rs.len();
    lemma_sorted_records_canonical(s);
    lemma_file_read(s.revision, s.agent_namespace_id, rs, ls, s.queues);
    let d = encoding(s);
    let rq = record_queues(rs, ls, s.queues, n);
    lemma_record_queues_props(rs, ls, s.queues, n);
    assert(ls.take(n as int) =~= ls);
    lemma_sorted_is_identity(rs, ls);
    let v = v5_save(d);
    assert(v.records == rs && v.lifecycles == ls && v.queues == rq);
    assert(distinct_keys(body_keys(rs))) by {
        assert forall|j: int, k: int| 0 <= j < k < n implies body_keys(rs)[j] != body_keys(
            rs,
        )[k] by {
            assert(id_key(rs[j].id) < id_key(rs[k].id));
        }
    }
    assert(distinct_keys(lifecycle_keys(ls))) by {
        assert forall|j: int, k: int| 0 <= j < k < n implies lifecycle_keys(ls)[j]
            != lifecycle_keys(ls)[k] by {
            assert(ls[j].id == rs[j].id && ls[k].id == rs[k].id);
            assert(id_key(rs[j].id) < id_key(rs[k].id));
        }
    }
    assert(distinct_keys(queue_keys(rq))) by {
        assert forall|j: int, k: int| 0 <= j < k < rq.len() implies queue_keys(rq)[j]
            != queue_keys(rq)[k] by {
            assert(id_key(rq[j].id) < id_key(rq[k].id));
        }
    }
    assert forall|i: int| 0 <= i < rq.len() implies has_body(rs, #[trigger] rq[i].id) && has_active(
        ls,
        rq[i].id,
    ) by {
        assert(active_record(rs, ls, n as int, rq[i].id));
        let j = choose|j: int| 0 <= j < n && #[trigger] rs[j].id == rq[i].id && ls[j].active;
        assert(rs[j].id == rq[i].id);
        assert(ls[j].id == rq[i].id && ls[j].active);
    }
    assert forall|i: int| 0 <= i < rq.len() implies (#[trigger] rq[i]).summary.len() == 0 by {
        assert(queue_ok(rq[i], CURRENT_SCHEMA) && rq[i].summary.len() == 0);
    }
    assert forall|i: int| 0 <= i < rq.len() implies #[trigger] queue_ok(rq[i], CURRENT_SCHEMA) by {
        assert(queue_ok(rq[i], CURRENT_SCHEMA) && rq[i].summary.len() == 0);
    }
    assert(save_admitted(v));
}

/// A body record that parses re-encodes to the bytes it was read from.
proof fn lemma_body_bytes_of(d: Seq<u8>, pos: int)
    requires
        parse_body(d, pos) is Some,
    ensures
        d.subrange(pos, pos + 221) == body_bytes(body_at(d, pos)),
{
    lemma_le_rereads();
    lemma_le_facts();
    let b = body_at(d, pos);
    assert(b.id.bytes@ =~= d.subrange(pos, pos + 16));
    let dim = u32_at(d, pos + 16);
    assert((dim as i32) as u32 == dim) by (bit_vector);
    assert(le32(dim) == d.subrange(pos + 16, pos + 20));
    assert(lei32(b.dimension) == d.subrange(pos + 16, pos + 20));
    assert(le32(b.position[0]) == d.subrange(pos + 20, pos + 24));
    assert(le32(b.position[1]) == d.subrange(pos + 24, pos + 28));
    assert(le32(b.position[2]) == d.subrange(pos + 28, pos + 32));
    assert(le32(b.yaw) == d.subrange(pos + 32, pos + 36));
    assert(le32(b.pitch) == d.subrange(pos + 36, pos + 40));
    assert(le8(b.inventory.hotbar.selected) =~= d.subrange(pos + 40, pos + 41));
    crate::chunk_laws::lemma_stacks5_bytes_of(d, pos + 41, 9);
    assert(b.inventory.hotbar.slots@ =~= Seq::new(9, |k: int| stack5_at(d, pos + 41 + 5 * k)));
    crate::chunk_laws::lemma_stacks5_bytes_of(d, pos + 86, 27);
    assert(b.inventory.backpack@ =~= Seq::new(27, |k: int| stack5_at(d, pos + 86 + 5 * k)));
    assert(d.subrange(pos, pos + 221) =~= d.subrange(pos, pos + 16) + d.subrange(pos + 16, pos + 20)
        + d.subrange(pos + 20, pos + 24) + d.subrange(pos + 24, pos + 28) + d.subrange(
        pos + 28,
        pos + 32,
    ) + d.subrange(pos + 32, pos + 36) + d.subrange(pos + 36, pos + 40) + d.subrange(
        pos + 40,
        pos + 41,
    ) + d.subrange(pos + 41, pos + 86) + d.subrange(pos + 86, pos + 221));
}

/// Prefixed text that parses re-encodes to the bytes it was read from.
proof fn lemma_text16_bytes_of(d: Seq<u8>, pos: int)
    requires
        parse_text16(d, pos) is Some,
    ensures
        ({
            let (s, e) = parse_text16(d, pos)->0;
            pos + 2 <= e <= d.len() && d.subrange(pos, e) == text16_bytes(s)
                && encode_utf8(s).len() == e - pos - 2
        }),
{
    lemma_le_rereads();
    let (s, e) = parse_text16(d, pos)->0;
    let raw = d.subrange(pos + 2, e);
    vstd::utf8::decode_utf8_encode_utf8(raw);
    assert(encode_utf8(s) == raw);
    assert(le16(encode_utf8(s).len() as u16) == d.subrange(pos, pos + 2));
    assert(d.subrange(pos, e) =~= d.subrange(pos, pos + 2) + raw);
}

/// A plan step that parses re-encodes to the bytes it was read from.
proof fn lemma_step_bytes_of(d: Seq<u8>, pos: int)
    requires
        parse_step(d, pos, CURRENT_SCHEMA) is Some,
    ensures
        ({
            let (st, e) = parse_step(d, pos, CURRENT_SCHEMA)->0;
            pos < e <= d.len() && d.subrange(pos, e) == step_bytes(st)
        }),
{
    lemma_le_rereads();
    let (st, e) = parse_step(d, pos, CURRENT_SCHEMA)->0;
    assert(le8(st.kind) =~= d.subrange(pos, pos + 1));
    if st.kind == PLAN_STEP_FOLLOW {
        assert(st.player_id.bytes@ =~= d.subrange(pos + 1, pos + 17));
        assert(d.subrange(pos, e) =~= d.subrange(pos, pos + 1) + d.subrange(pos + 1, pos + 17));
    } else {
        let x = u32_at(d, pos + 1);
        let y = u32_at(d, pos + 5);
        let z = u32_at(d, pos + 9);
        assert((x as i32) as u32 == x) by (bit_vector);
        assert((y as i32) as u32 == y) by (bit_vector);
        assert((z as i32) as u32 == z) by (bit_vector);
        assert(le32(x) == d.subrange(pos + 1, pos + 5));
        assert(le32(y) == d.subrange(pos + 5, pos + 9));
        assert(le32(z) == d.subrange(pos + 9, pos + 13));
        assert(lei32(st.x) == le32(x) && lei32(st.y) == le32(y) && lei32(st.z) == le32(z));
        if st.kind == PLAN_STEP_PLACE {
            assert(le16(st.block) == d.subrange(pos + 13, pos + 15));
            assert(d.subrange(pos, e) =~= d.subrange(pos, pos + 1) + d.subrange(pos + 1, pos + 5)
                + d.subrange(pos + 5, pos + 9) + d.subrange(pos + 9, pos + 13) + d.subrange(
                pos + 13,
                pos + 15,
            ));
        } else {
            assert(d.subrange(pos, e) =~= d.subrange(pos, pos + 1) + d.subrange(pos + 1, pos + 5)
                + d.subrange(pos + 5, pos + 9) + d.subrange(pos + 9, pos + 13));
        }
    }
}

/// The bytes of two plans in turn are the bytes of the joined plan.
proof fn lemma_steps_bytes_concat(a: Seq<PlanStep>, b: Seq<PlanStep>)
    ensures
        steps_bytes(a + b) == steps_bytes(a) + steps_bytes(b),
    decreases b.len(),
{
    if b.len() == 0 {
        assert(a + b =~= a);
        assert(steps_bytes(a) + steps_bytes(b) =~= steps_bytes(a));
    } else {
        lemma_steps_bytes_concat(a, b.drop_last());
        assert((a + b).drop_last() =~= a + b.drop_last());
        assert((a + b).last() == b.last());
    }
}

/// Plan steps that parse after `acc` re-encode to the bytes they were read from.
proof fn lemma_steps_bytes_of(d: Seq<u8>, pos: int, n: nat, acc: Seq<PlanStep>)
    requires
        0 <= pos <= d.len(),
        parse_steps(d, pos, n, CURRENT_SCHEMA, acc) is Some,
    ensures
        ({
            let (res, e) = parse_steps(d, pos, n, CURRENT_SCHEMA, acc)->0;
            &&& res.len() == acc.len() + n
            &&& res.take(acc.len() as int) == acc
            &&& pos <= e <= d.len()
            &&& d.subrange(pos, e) == steps_bytes(res.skip(acc.len() as int))
        }),
    decreases n,
{
    if n == 0 {
        let (res, e) = parse_steps(d, pos, n, CURRENT_SCHEMA, acc)->0;
        assert(res.take(acc.len() as int) =~= acc);
        assert(res.skip(acc.len() as int) =~= Seq::<PlanStep>::empty());
        assert(d.subrange(pos, pos) =~= Seq::<u8>::empty());
    } else {
        lemma_step_bytes_of(d, pos);
        let (st, p) = parse_step(d, pos, CURRENT_SCHEMA)->0;
        lemma_steps_bytes_of(d, p, (n - 1) as nat, acc.push(st));
        let (res, e) = parse_steps(d, pos, n, CURRENT_SCHEMA, acc)->0;
        let k = acc.len() as int;
        assert(res.take(k + 1) == acc.push(st));
        assert(res.take(k) =~= acc.push(st).take(k));
        assert(acc.push(st).take(k) =~= acc);
        assert(res[k] == res.take(k + 1)[k]);
        assert(res.skip(k) =~= seq![st] + res.skip(k + 1));
        lemma_steps_bytes_concat(seq![st], res.skip(k + 1));
        assert(seq![st].drop_last() =~= Seq::<PlanStep>::empty());
        assert(seq![st].last() == st);
        assert(steps_bytes(Seq::<PlanStep>::empty()) =~= Seq::<u8>::empty());
        assert(steps_bytes(seq![st]) =~= step_bytes(st));
        assert(d.subrange(pos, e) =~= d.subrange(pos, p) + d.subrange(p, e));
    }
}

/// A task section that parses re-encodes to the bytes it was read from.
#[verifier::rlimit(50)]
#[verifier::spinoff_prover]
proof fn lemma_task_bytes_of(d: Seq<u8>, pos: int)
    requires
        0 <= pos,
        parse_task(d, pos, CURRENT_SCHEMA) is Some,
    ensures
        ({
            let (t, e) = parse_task(d, pos, CURRENT_SCHEMA)->0;
            pos <= e <= d.len() && d.subrange(pos, e) == task_bytes(t)
        }),
{
    lemma_le_rereads();
    lemma_le_facts();
    lemma_text16_bytes_of(d, pos);
    let (command, p1) = parse_text16(d, pos)->0;
    let n = u16_at(d, p1) as nat;
    lemma_steps_bytes_of(d, p1 + 2, n, Seq::empty());
    let (steps, p2) = parse_steps(d, p1 + 2, n, CURRENT_SCHEMA, Seq::empty())->0;
    assert(steps.skip(0) =~= steps);
    let (t, e) = parse_task(d, pos, CURRENT_SCHEMA)->0;
    assert(t == task_with_tail(d, p2, command, steps));
    assert(le16(t.plan_steps.len() as u16) == d.subrange(p1, p1 + 2));
    let si = u32_at(d, p2);
    assert((si as i32) as u32 == si) by (bit_vector);
    assert(le32(si) == d.subrange(p2, p2 + 4));
    assert(lei32(t.step_index) == le32(si));
    assert(le8(t.state) =~= d.subrange(p2 + 4, p2 + 5));
    assert(le8(t.fail_reason) =~= d.subrange(p2 + 5, p2 + 6));
    assert(le64(t.start_tick) == d.subrange(p2 + 6, p2 + 14));
    assert(le64(t.deadline_ticks) == d.subrange(p2 + 14, p2 + 22));
    assert(d.subrange(pos, e) =~= d.subrange(pos, p1) + d.subrange(p1, p1 + 2) + d.subrange(
        p1 + 2,
        p2,
    ) + d.subrange(p2, p2 + 4) + d.subrange(p2 + 4, p2 + 5) + d.subrange(p2 + 5, p2 + 6)
        + d.subrange(p2 + 6, p2 + 14) + d.subrange(p2 + 14, p2 + 22));
}

/// The bytes of two FIFO entry lists in turn are the bytes of the joined list.
proof fn lemma_fifo_bytes_concat(a: Seq<Seq<char>>, b: Seq<Seq<char>>)
    ensures
        fifo_entries_bytes(a + b) == fifo_entries_bytes(a) + fifo_entries_bytes(b),
    decreases b.len(),
{
    if b.len() == 0 {
        assert(a + b =~= a);
        assert(fifo_entries_bytes(a) + fifo_entries_bytes(b) =~= fifo_entries_bytes(a));
    } else {
        lemma_fifo_bytes_concat(a, b.drop_last());
        assert((a + b).drop_last() =~= a + b.drop_last());
        assert((a + b).last() == b.last());
    }
}

/// FIFO entries that parse after `acc` re-encode to the bytes they were read from.
proof fn lemma_fifo_entries_bytes_of(d: Seq<u8>, pos: int, n: nat, acc: Seq<Seq<char>>)
    requires
        0 <= pos <= d.len(),
        parse_fifo_entries(d, pos, n, acc) is Some,
    ensures
        ({
            let (res, e) = parse_fifo_entries(d, pos, n, acc)->0;
            &&& res.len() == acc.len() + n
            &&& res.take(acc.len() as int) == acc
            &&& pos <= e <= d.len()
            &&& d.subrange(pos, e) == fifo_entries_bytes(res.skip(acc.len() as int))
        }),
    decreases n,
{
    if n == 0 {
        let (res, e) = parse_fifo_entries(d, pos, n, acc)->0;
        assert(res.take(acc.len() as int) =~= acc);
        assert(res.skip(acc.len() as int) =~= Seq::<Seq<char>>::empty());
        assert(d.subrange(pos, pos) =~= Seq::<u8>::empty());
    } else {
        lemma_text16_bytes_of(d, pos);
        let (c, p) = parse_text16(d, pos)->0;
        lemma_fifo_entries_bytes_of(d, p, (n - 1) as nat, acc.push(c));
        let (res, e) = parse_fifo_entries(d, pos, n, acc)->0;
        let k = acc.len() as int;
        assert(res.take(k + 1) == acc.push(c));
        assert(res.take(k) =~= acc.push(c).take(k));
        assert(acc.push(c).take(k) =~= acc);
        assert(res[k] == res.take(k + 1)[k]);
        assert(res.skip(k) =~= seq![c] + res.skip(k + 1));
        lemma_fifo_bytes_concat(seq![c], res.skip(k + 1));
        assert(seq![c].drop_last() =~= Seq::<Seq<char>>::empty());
        assert(seq![c].last() == c);
        assert(fifo_entries_bytes(Seq::<Seq<char>>::empty()) =~= Seq::<u8>::empty());
        assert(fifo_entries_bytes(seq![c]) =~= text16_bytes(c));
        assert(d.subrange(pos, e) =~= d.subrange(pos, p) + d.subrange(p, e));
    }
}

/// A FIFO section that parses re-encodes to the bytes it was read from.
proof fn lemma_fifo_bytes_of(d: Seq<u8>, pos: int)
    requires
        parse_fifo(d, pos) is Some,
    ensures
        ({
            let (p, e) = parse_fifo(d, pos)->0;
            pos <= e <= d.len() && d.subrange(pos, e) == fifo_bytes(p) && p.len() >= 1
        }),
{
    lemma_le_rereads();
    let n = u16_at(d, pos) as nat;
    lemma_fifo_entries_bytes_of(d, pos + 2, n, Seq::empty());
    let (p, e) = parse_fifo(d, pos)->0;
    assert(p.skip(0) =~= p);
    assert(le16(p.len() as u16) == d.subrange(pos, pos + 2));
    assert(d.subrange(pos, e) =~= d.subrange(pos, pos + 2) + d.subrange(pos + 2, e));
}

/// The flag values a reader accepts for an active record.
proof fn lemma_active_flags(f: u8)
    by (bit_vector)
    requires
        f <= 7,
        f & 1u8 != 0u8,
    ensures
        f == 1u8 || f == 3u8 || f == 5u8 || f == 7u8,
{
}

/// A v5 record that parses re-encodes to the bytes it was read from.
#[verifier::rlimit(60)]
#[verifier::spinoff_prover]
proof fn lemma_record_bytes_of(d: Seq<u8>, pos: int)
    requires
        0 <= pos,
        parse_v5_record(d, pos) is Some,
    ensures
        ({
            let (b, l, q, e) = parse_v5_record(d, pos)->0;
            &&& pos < e <= d.len()
            &&& d.subrange(pos, e) == v5_record_bytes(b, l, q)
            &&& l.id == b.id
            &&& (q matches Some(x) ==> x.id == b.id && l.active)
        }),
{
    lemma_le_rereads();
    lemma_le_facts();
    lemma_flag_values();
    let (b, l, q, e) = parse_v5_record(d, pos)->0;
    lemma_body_bytes_of(d, pos);
    let p = pos + 221;
    let flags = d[p];
    assert(le8(flags) =~= d.subrange(p, p + 1));
    assert(le64(l.memory_epoch) == d.subrange(p + 1, p + 9));
    if flags & FLAG_ACTIVE == 0 {
        assert(flags == 0);
        assert(record_flags(l, q) == 0);
        assert(l.tombstone_operation_id.bytes@ =~= d.subrange(p + 9, p + 25));
        assert(d.subrange(pos, e) =~= d.subrange(pos, p) + d.subrange(p, p + 1) + d.subrange(
            p + 1,
            p + 9,
        ) + d.subrange(p + 9, p + 25));
    } else {
        lemma_active_flags(flags);
        let t = p + 9;
        assert(le64(l.memory_revision) == d.subrange(t, t + 8));
        assert(l.memory_operation_id.bytes@ =~= d.subrange(t + 8, t + 24));
        lemma_text16_bytes_of(d, t + 24);
        let (summary, p1) = parse_text16(d, t + 24)->0;
        let has_task = flags & FLAG_HAS_TASK != 0;
        let has_fifo = flags & FLAG_HAS_FIFO != 0;
        let (current, p2) = (if has_task {
            parse_task(d, p1, CURRENT_SCHEMA)
        } else {
            Some((zero_task(), p1))
        })->0;
        let (pending, p3) = (if has_fifo {
            parse_fifo(d, p2)
        } else {
            Some((Seq::empty(), p2))
        })->0;
        if has_task {
            lemma_task_bytes_of(d, p1);
        }
        if has_fifo {
            lemma_fifo_bytes_of(d, p2);
        }
        assert(writes_task(l, q) == has_task);
        assert(writes_fifo(l, q) == has_fifo);
        assert(record_flags(l, q) == flags);
        let tb: Seq<u8> = if writes_task(l, q) {
            task_bytes(q->0.current)
        } else {
            Seq::empty()
        };
        let fb: Seq<u8> = if writes_fifo(l, q) {
            fifo_bytes(q->0.pending)
        } else {
            Seq::empty()
        };
        assert(tb =~= d.subrange(p1, p2));
        assert(fb =~= d.subrange(p2, p3));
        assert(d.subrange(pos, e) =~= d.subrange(pos, p) + d.subrange(p, p + 1) + d.subrange(
            p + 1,
            p + 9,
        ) + (d.subrange(t, t + 8) + d.subrange(t + 8, t + 24) + d.subrange(t + 24, p1)
            + d.subrange(p1, p2) + d.subrange(p2, p3)));
    }
}

/// Queues whose identities all differ from `id` are skipped by the lookup.
proof fn lemma_queue_for_skip(a: Seq<QueueView>, r: Seq<QueueView>, id: PlayerId)
    requires
        forall|j: int| 0 <= j < a.len() ==> (#[trigger] a[j]).id != id,
    ensures
        queue_for(a + r, id) == queue_for(r, id),
    decreases a.len(),
{
    if a.len() > 0 {
        assert((a + r)[0] == a[0]);
        assert((a + r).drop_first() =~= a.drop_first() + r);
        assert forall|j: int| 0 <= j < a.drop_first().len() implies (
        #[trigger] a.drop_first()[j]).id != id by {
            assert(a.drop_first()[j] == a[j + 1]);
        }
        lemma_queue_for_skip(a.drop_first(), r, id);
    } else {
        assert(a + r =~= r);
    }
}

/// The parsed state before a record: the bodies so far in strictly ascending
/// identity order, each lifecycle beside its body, and each queue owned by
/// one of those bodies.
pub open spec fn parsed_prefix_ok(
    bodies: Seq<CompanionBody>,
    lifecycles: Seq<LifecycleView>,
    queues: Seq<QueueView>,
) -> bool {
    &&& lifecycles.len() == bodies.len()
    &&& forall|i: int| 0 <= i < bodies.len() ==> (#[trigger] lifecycles[i]).id == bodies[i].id
    &&& forall|i: int, k: int|
        0 <= i < k < bodies.len() ==> id_key((#[trigger] bodies[i]).id) < id_key(
            (#[trigger] bodies[k]).id,
        )
    &&& forall|j: int| 0 <= j < queues.len() ==> owned_in(bodies, 0, #[trigger] queues[j].id)
}

/// Some body at or after position `from` carries the identity.
pub open spec fn owned_in(bodies: Seq<CompanionBody>, from: int, id: PlayerId) -> bool {
    exists|i: int| from <= i < bodies.len() && #[trigger] bodies[i].id == id
}

/// Records that parse after the ones already read re-encode, each with the
/// queue the lookup finds for it, to the bytes they were read from.
#[verifier::rlimit(80)]
#[verifier::spinoff_prover]
proof fn lemma_records_bytes_of(
    d: Seq<u8>,
    pos: int,
    n: nat,
    bodies: Seq<CompanionBody>,
    lifecycles: Seq<LifecycleView>,
    queues: Seq<QueueView>,
)
    requires
        0 <= pos <= d.len(),
        parse_v5(d, pos, n, bodies, lifecycles, queues) is Some,
        parsed_prefix_ok(bodies, lifecycles, queues),
    ensures
        ({
            let (rb, rl, rq, e) = parse_v5(d, pos, n, bodies, lifecycles, queues)->0;
            &&& rb.len() == bodies.len() + n
            &&& rb.take(bodies.len() as int) == bodies
            &&& rl.take(bodies.len() as int) == lifecycles
            &&& rq.len() >= queues.len()
            &&& rq.take(queues.len() as int) == queues
            &&& parsed_prefix_ok(rb, rl, rq)
            &&& forall|j: int|
                queues.len() <= j < rq.len() ==> owned_in(rb, bodies.len() as int, #[trigger] rq[j].id)
            &&& pos <= e <= d.len()
            &&& v5_records_bytes(rb, rl, rq, rb.len()) == v5_records_bytes(
                rb,
                rl,
                rq,
                bodies.len(),
            ) + d.subrange(pos, e)
        }),
    decreases n,
{
    let (rb, rl, rq, e) = parse_v5(d, pos, n, bodies, lifecycles, queues)->0;
    if n == 0 {
        assert(rb.take(bodies.len() as int) =~= bodies);
        assert(rl.take(bodies.len() as int) =~= lifecycles);
        assert(rq.take(queues.len() as int) =~= queues);
        assert(d.subrange(pos, pos) =~= Seq::<u8>::empty());
        assert(v5_records_bytes(rb, rl, rq, rb.len()) + d.subrange(pos, e) =~= v5_records_bytes(
            rb,
            rl,
            rq,
            rb.len(),
        ));
    } else {
        lemma_record_bytes_of(d, pos);
        let (b, l, q, p) = parse_v5_record(d, pos)->0;
        let nb = bodies.push(b);
        let nl = lifecycles.push(l);
        let nq = match q {
            Some(x) => queues.push(x),
            None => queues,
        };
        let m = bodies.len() as int;
        assert(follows(bodies, b));
        assert forall|i: int, k: int| 0 <= i < k < nb.len() implies id_key((#[trigger] nb[i]).id)
            < id_key((#[trigger] nb[k]).id) by {
            assert(nb[i] == bodies[i] || i == m);
            if k < m {
                assert(nb[i] == bodies[i] && nb[k] == bodies[k]);
                assert(id_key(bodies[i].id) < id_key(bodies[k].id));
            } else {
                assert(nb[k] == b && nb[i] == bodies[i]);
                assert(bodies.last() == bodies[m - 1]);
                assert(id_key(bodies[m - 1].id) < id_key(b.id));
                if i < m - 1 {
                    assert(id_key(bodies[i].id) < id_key(bodies[m - 1].id));
                }
            }
        }
        assert forall|j: int| 0 <= j < nq.len() implies owned_in(nb, 0, #[trigger] nq[j].id) by {
            if j < queues.len() {
                assert(nq[j] == queues[j]);
                assert(owned_in(bodies, 0, queues[j].id));
                let i = choose|i: int| 0 <= i < bodies.len() && #[trigger] bodies[i].id
                    == queues[j].id;
                assert(nb[i] == bodies[i]);
                assert(nb[i].id == nq[j].id);
            } else {
                match q {
                    Some(x) => {
                        assert(nq[j] == x);
                        assert(nb[m] == b);
                        assert(nb[m].id == nq[j].id);
                    },
                    None => {},
                }
            }
        }
        assert forall|i: int| 0 <= i < nb.len() implies (#[trigger] nl[i]).id == nb[i].id by {
            if i < m {
                assert(nl[i] == lifecycles[i] && nb[i] == bodies[i]);
            }
        }
        assert(parsed_prefix_ok(nb, nl, nq));
        lemma_records_bytes_of(d, p, (n - 1) as nat, nb, nl, nq);
        assert(rb.take(m) =~= nb.take(m));
        assert(nb.take(m) =~= bodies);
        assert(rl.take(m) =~= nl.take(m));
        assert(nl.take(m) =~= lifecycles);
        assert(rq.take(queues.len() as int) =~= nq.take(queues.len() as int));
        assert(nq.take(queues.len() as int) =~= queues);
        assert(rb[m] == nb[m] && rl[m] == nl[m]);
        // The lookup for record m finds exactly the queue it carried.
        assert forall|j: int| 0 <= j < queues.len() implies (#[trigger] queues[j]).id != b.id by {
            assert(owned_in(bodies, 0, queues[j].id));
            let i = choose|i: int| 0 <= i < bodies.len() && #[trigger] bodies[i].id
                == queues[j].id;
            assert(nb[i] == bodies[i] && nb[m] == b);
            lemma_key_eq(bodies[i].id, b.id);
        }
        let k = queues.len() as int;
        assert(rq =~= queues + rq.skip(k));
        lemma_queue_for_skip(queues, rq.skip(k), b.id);
        match q {
            Some(x) => {
                assert(nq == queues.push(x));
                assert(rq.take(nq.len() as int) == nq);
                assert(rq[k] == rq.take(nq.len() as int)[k]);
                assert(rq[k] == x);
                assert(rq.skip(k)[0] == x);
            },
            None => {
                assert forall|j: int| 0 <= j < rq.skip(k).len() implies (
                #[trigger] rq.skip(k)[j]).id != b.id by {
                    assert(rq.skip(k)[j] == rq[k + j]);
                    assert(owned_in(rb, nb.len() as int, rq[k + j].id));
                    let i = choose|i: int| nb.len() <= i < rb.len() && #[trigger] rb[i].id
                        == rq[k + j].id;
                    assert(id_key(rb[m].id) < id_key(rb[i].id));
                    lemma_key_eq(rb[m].id, rb[i].id);
                }
                lemma_queue_for_skip(rq.skip(k), Seq::empty(), b.id);
                assert(rq.skip(k) + Seq::<QueueView>::empty() =~= rq.skip(k));
            },
        }
        assert(queue_for(rq, rb[m].id) == q);
        assert(v5_records_bytes(rb, rl, rq, (m + 1) as nat) == v5_records_bytes(rb, rl, rq, m as nat)
            + v5_record_bytes(b, l, q));
        assert(d.subrange(pos, e) =~= d.subrange(pos, p) + d.subrange(p, e));
        assert forall|j: int| queues.len() <= j < rq.len() implies owned_in(
            rb,
            bodies.len() as int,
            #[trigger] rq[j].id,
        ) by {
            if j < nq.len() {
                match q {
                    Some(x) => {
                        assert(rq[j] == rq.take(nq.len() as int)[j]);
                        assert(rq[j] == x);
                        assert(rb[m] == b);
                        assert(rb[m].id == rq[j].id);
                    },
                    None => {},
                }
            } else {
                assert(owned_in(rb, nb.len() as int, rq[j].id));
                let i = choose|i: int| nb.len() <= i < rb.len() && #[trigger] rb[i].id == rq[j].id;
                assert(bodies.len() <= i < rb.len() && rb[i].id == rq[j].id);
            }
        }
    }
}

/// Decoding is exact: a readable v5 file is, byte for byte, the file the
/// encoder writes for the save it decodes to. Every field of the file is
/// carried by the decoded value, and its records already stand in canonical
/// order.
#[verifier::rlimit(60)]
#[verifier::spinoff_prover]
pub proof fn lemma_readable_is_canonical(d: Seq<u8>)
    requires
        file_readable(d),
        declared_schema(d) == CURRENT_SCHEMA,
    ensures
        encoding(v5_save(d)) == d,
{
    lemma_le_rereads();
    lemma_le_facts();
    let (rb, rl, rq, e) = v5_parts(d)->0;
    assert(parsed_prefix_ok(Seq::empty(), Seq::empty(), Seq::empty()));
    lemma_records_bytes_of(d, 48, declared_count(d), Seq::empty(), Seq::empty(), Seq::empty());
    assert(v5_records_bytes(rb, rl, rq, 0) =~= Seq::<u8>::empty());
    let records = v5_records_bytes(rb, rl, rq, rb.len());
    assert(records =~= d.subrange(48, d.len() as int));
    assert forall|j: int, k: int| 0 <= j < k < rb.len() implies id_key(rb[j].id) < id_key(
        rb[k].id,
    ) by {
        assert(id_key(rb[j].id) < id_key(rb[k].id));
    }
    lemma_sorted_is_identity(rb, rl);
    let v = v5_save(d);
    let ns = id_at(d, 32);
    assert(ns.bytes@ =~= d.subrange(32, 48));
    let payload = ns.bytes@ + records;
    assert(payload =~= d.skip(32));
    let covered = covered_header(v.revision, rb.len(), payload.len());
    assert(le32(CURRENT_SCHEMA) == d.subrange(8, 12));
    assert(le64(v.revision) == d.subrange(12, 20));
    assert(le32(rb.len() as u32) == d.subrange(20, 24));
    assert(le32(payload.len() as u32) == d.subrange(24, 28));
    assert(covered =~= d.subrange(8, 28));
    assert(le32(spec_crc32c(covered + payload)) == d.subrange(28, 32));
    assert(le32(ENVELOPE_VERSION) == d.subrange(4, 8));
    assert(magic() =~= d.subrange(0, 4));
    assert(encoding(v) == v5_file(v.revision, ns, rb, rl, rq));
    assert(d =~= d.subrange(0, 4) + d.subrange(4, 8) + d.subrange(8, 28) + d.subrange(28, 32)
        + d.skip(32));
}

} // verus!
