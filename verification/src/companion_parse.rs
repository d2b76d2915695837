//! Reading companion files: the v5 layout and the read-only v1..v4 layouts.
//!
//! Each `parse_*` function states what the bytes at a position hold, or
//! `None` where they break the format; the decoder follows them field by
//! field, so a decoded aggregate is exactly what these functions give.
use crate::bytes::{read_u16, read_u32, read_u64, u16_at, u32_at, u64_at};
use crate::chunk_parse::stack5_at;
use crate::companion::{
    CURRENT_SCHEMA, CompanionBody, CompanionSave, CompanionsView, ENVELOPE_VERSION, FLAG_ACTIVE,
    FLAG_HAS_FIFO, FLAG_HAS_TASK, HEADER_LENGTH, LEGACY_FLAG_HAS_FIFO, LEGACY_FLAG_HAS_SUMMARY,
    LEGACY_FLAG_HAS_TASK, LifecycleView, MAX_ACTIVE, MAX_FIFO_ENTRIES, MAX_FILE_LENGTH,
    MAX_PLAN_STEPS, MAX_STORED, MAX_SUMMARY_BYTES, MAX_TASK_COMMAND_BYTES, PLAN_STEP_FOLLOW,
    PLAN_STEP_GO_TO, PLAN_STEP_MINE, PLAN_STEP_PLACE, PlanStep, QueueView, RECORD_LENGTH,
    SCHEMA_V1, SCHEMA_V2, SCHEMA_V4, SaveView, StoredCompanionLifecycle, StoredCompanionQueue,
    StoredCompanionTask, StoredCompanions, TaskView, active_count, has_body, body_ok, canonical_v5_parts, count_active,
    lifecycle_ok, lifecycle_views, queue_views, save_admitted, task_ok, texts, validate_body,
    validate_task, validate_v5_lifecycle,
};
use crate::companion_layout::magic;
use crate::crc32c::{crc32c_join2, spec_crc32c};
use crate::error::{StorageError, StorageResult, corrupt, corrupt_at, future_version, corrupt_numbered, short_read};
use crate::identity::{PlayerId, id_at, id_key, spec_id_is_valid};
use crate::items::{Hotbar, Inventory, ItemStack};
use crate::text::{TextField, check_command_text, command_text_ok, text_fault_message, utf8_string};
use vstd::prelude::*;
use vstd::slice::slice_subrange;
use vstd::utf8::{decode_utf8, valid_utf8};

verus! {

broadcast use {
    vstd::seq::group_seq_axioms,
    vstd::slice::group_slice_axioms,
    vstd::array::group_array_axioms,
};

/// The all-zero identity.
pub open spec fn zero_id() -> PlayerId {
    PlayerId { bytes: [0u8, 0u8, 0u8, 0u8, 0u8, 0u8, 0u8, 0u8, 0u8, 0u8, 0u8, 0u8, 0u8, 0u8, 0u8, 0u8] }
}

/// The all-zero task.
pub open spec fn zero_task() -> TaskView {
    TaskView {
        command: Seq::empty(),
        plan_steps: Seq::empty(),
        step_index: 0,
        state: 0,
        start_tick: 0,
        deadline_ticks: 0,
        fail_reason: 0,
    }
}

/// The body record stored at `pos`.
pub open spec fn body_at(d: Seq<u8>, pos: int) -> CompanionBody {
    CompanionBody {
        id: id_at(d, pos),
        dimension: u32_at(d, pos + 16) as i32,
        position: [u32_at(d, pos + 20), u32_at(d, pos + 24), u32_at(d, pos + 28)],
        yaw: u32_at(d, pos + 32),
        pitch: u32_at(d, pos + 36),
        inventory: Inventory { hotbar: hotbar_at(d, pos), backpack: backpack_at(d, pos) },
    }
}

/// The hotbar of the body record at `pos`.
pub open spec fn hotbar_at(d: Seq<u8>, pos: int) -> Hotbar {
    Hotbar {
        selected: d[pos + 40],
        slots: [
                stack5_at(d, pos + 41),
                stack5_at(d, pos + 46),
                stack5_at(d, pos + 51),
                stack5_at(d, pos + 56),
                stack5_at(d, pos + 61),
                stack5_at(d, pos + 66),
                stack5_at(d, pos + 71),
                stack5_at(d, pos + 76),
                stack5_at(d, pos + 81),
        ],
    }
}

/// The backpack of the body record at `pos`.
pub open spec fn backpack_at(d: Seq<u8>, pos: int) -> [ItemStack; 27] {
    [
            stack5_at(d, pos + 86),
            stack5_at(d, pos + 91),
            stack5_at(d, pos + 96),
            stack5_at(d, pos + 101),
            stack5_at(d, pos + 106),
            stack5_at(d, pos + 111),
            stack5_at(d, pos + 116),
            stack5_at(d, pos + 121),
            stack5_at(d, pos + 126),
            stack5_at(d, pos + 131),
            stack5_at(d, pos + 136),
            stack5_at(d, pos + 141),
            stack5_at(d, pos + 146),
            stack5_at(d, pos + 151),
            stack5_at(d, pos + 156),
            stack5_at(d, pos + 161),
            stack5_at(d, pos + 166),
            stack5_at(d, pos + 171),
            stack5_at(d, pos + 176),
            stack5_at(d, pos + 181),
            stack5_at(d, pos + 186),
            stack5_at(d, pos + 191),
            stack5_at(d, pos + 196),
            stack5_at(d, pos + 201),
            stack5_at(d, pos + 206),
            stack5_at(d, pos + 211),
            stack5_at(d, pos + 216),
    ]
}

/// Parses one body record.
pub open spec fn parse_body(d: Seq<u8>, pos: int) -> Option<(CompanionBody, int)> {
    if 0 <= pos && pos + 221 <= d.len() && body_ok(body_at(d, pos)) {
        Some((body_at(d, pos), pos + 221))
    } else {
        None
    }
}

/// Parses `u16`-prefixed UTF-8 text.
pub open spec fn parse_text16(d: Seq<u8>, pos: int) -> Option<(Seq<char>, int)> {
    if 0 <= pos && pos + 2 <= d.len() {
        let end = pos + 2 + u16_at(d, pos);
        if end <= d.len() && valid_utf8(d.subrange(pos + 2, end)) {
            Some((decode_utf8(d.subrange(pos + 2, end)), end))
        } else {
            None
        }
    } else {
        None
    }
}

/// Parses one plan step of the given schema: v2 steps are fixed 13-byte
/// `go_to` records, later steps carry their kind first.
pub open spec fn parse_step(d: Seq<u8>, pos: int, schema: u32) -> Option<(PlanStep, int)> {
    if pos < 0 || pos + 1 > d.len() {
        None
    } else if schema == SCHEMA_V2 {
        if pos + 13 <= d.len() {
            Some(
                (
                    PlanStep {
                        kind: d[pos],
                        x: u32_at(d, pos + 1) as i32,
                        y: u32_at(d, pos + 5) as i32,
                        z: u32_at(d, pos + 9) as i32,
                        block: 0,
                        player_id: zero_id(),
                    },
                    pos + 13,
                ),
            )
        } else {
            None
        }
    } else {
        let kind = d[pos];
        if kind == PLAN_STEP_GO_TO || kind == PLAN_STEP_MINE || kind == PLAN_STEP_PLACE {
            let end = if kind == PLAN_STEP_PLACE {
                pos + 15
            } else {
                pos + 13
            };
            if end <= d.len() {
                Some(
                    (
                        PlanStep {
                            kind,
                            x: u32_at(d, pos + 1) as i32,
                            y: u32_at(d, pos + 5) as i32,
                            z: u32_at(d, pos + 9) as i32,
                            block: if kind == PLAN_STEP_PLACE {
                                u16_at(d, pos + 13)
                            } else {
                                0
                            },
                            player_id: zero_id(),
                        },
                        end,
                    ),
                )
            } else {
                None
            }
        } else if kind == PLAN_STEP_FOLLOW {
            if pos + 17 <= d.len() {
                Some(
                    (
                        PlanStep { kind, x: 0, y: 0, z: 0, block: 0, player_id: id_at(d, pos + 1) },
                        pos + 17,
                    ),
                )
            } else {
                None
            }
        } else {
            None
        }
    }
}

/// Parses `n` further plan steps after the steps `acc` already read.
pub open spec fn parse_steps(d: Seq<u8>, pos: int, n: nat, schema: u32, acc: Seq<PlanStep>) -> Option<
    (Seq<PlanStep>, int),
>
    decreases n,
{
    if n == 0 {
        Some((acc, pos))
    } else {
        match parse_step(d, pos, schema) {
            Some((s, p)) => parse_steps(d, p, (n - 1) as nat, schema, acc.push(s)),
            None => None,
        }
    }
}

/// The fixed tail of a task section at `pos`, after its plan.
pub open spec fn task_with_tail(d: Seq<u8>, pos: int, command: Seq<char>, steps: Seq<PlanStep>) -> TaskView {
    TaskView {
        command,
        plan_steps: steps,
        step_index: u32_at(d, pos) as i32,
        state: d[pos + 4],
        fail_reason: d[pos + 5],
        start_tick: u64_at(d, pos + 6),
        deadline_ticks: u64_at(d, pos + 14),
    }
}

/// Parses one task section of the given schema.
pub open spec fn parse_task(d: Seq<u8>, pos: int, schema: u32) -> Option<(TaskView, int)> {
    match parse_text16(d, pos) {
        Some((command, p1)) => if p1 + 2 <= d.len() && u16_at(d, p1) <= MAX_PLAN_STEPS {
            match parse_steps(d, p1 + 2, u16_at(d, p1) as nat, schema, Seq::empty()) {
                Some((steps, p2)) => if p2 + 22 <= d.len() && task_ok(
                    task_with_tail(d, p2, command, steps),
                    schema,
                ) {
                    Some((task_with_tail(d, p2, command, steps), p2 + 22))
                } else {
                    None
                },
                None => None,
            }
        } else {
            None
        },
        None => None,
    }
}

/// Parses `n` further FIFO entries after the entries `acc` already read.
pub open spec fn parse_fifo_entries(d: Seq<u8>, pos: int, n: nat, acc: Seq<Seq<char>>) -> Option<
    (Seq<Seq<char>>, int),
>
    decreases n,
{
    if n == 0 {
        Some((acc, pos))
    } else {
        match parse_text16(d, pos) {
            Some((c, p)) => if command_text_ok(c, MAX_TASK_COMMAND_BYTES as nat) {
                parse_fifo_entries(d, p, (n - 1) as nat, acc.push(c))
            } else {
                None
            },
            None => None,
        }
    }
}

/// Parses one FIFO section: a count in `1..=16`, then the entries.
pub open spec fn parse_fifo(d: Seq<u8>, pos: int) -> Option<(Seq<Seq<char>>, int)> {
    if 0 <= pos && pos + 2 <= d.len() && 1 <= u16_at(d, pos) <= MAX_FIFO_ENTRIES {
        parse_fifo_entries(d, pos + 2, u16_at(d, pos) as nat, Seq::empty())
    } else {
        None
    }
}

/// Parses a legacy summary section: `1..=2048` UTF-8 bytes without NUL.
pub open spec fn parse_summary(d: Seq<u8>, pos: int) -> Option<(Seq<char>, int)> {
    if 0 <= pos && pos + 2 <= d.len() && 1 <= u16_at(d, pos) <= MAX_SUMMARY_BYTES {
        let end = pos + 2 + u16_at(d, pos);
        if end <= d.len() && valid_utf8(d.subrange(pos + 2, end)) && forall|k: int|
            pos + 2 <= k < end ==> #[trigger] d[k] != 0 {
            Some((decode_utf8(d.subrange(pos + 2, end)), end))
        } else {
            None
        }
    } else {
        None
    }
}

/// Parses the optional task, FIFO and summary sections that follow the flag
/// byte of a legacy v2..v4 record. The summary bit exists from v4 onward.
pub open spec fn parse_queue_sections(d: Seq<u8>, pos: int, schema: u32) -> Option<(QueueView, int)> {
    if pos < 0 || pos + 1 > d.len() {
        None
    } else {
        let flags = d[pos];
        let allowed: u8 = if schema >= SCHEMA_V4 {
            7
        } else {
            3
        };
        if flags > allowed {
            None
        } else {
            let task = if flags & LEGACY_FLAG_HAS_TASK != 0 {
                parse_task(d, pos + 1, schema)
            } else {
                Some((zero_task(), pos + 1))
            };
            match task {
                Some((current, p1)) => {
                    let fifo = if flags & LEGACY_FLAG_HAS_FIFO != 0 {
                        parse_fifo(d, p1)
                    } else {
                        Some((Seq::empty(), p1))
                    };
                    match fifo {
                        Some((pending, p2)) => {
                            let summary = if flags & LEGACY_FLAG_HAS_SUMMARY != 0 {
                                parse_summary(d, p2)
                            } else {
                                Some((Seq::empty(), p2))
                            };
                            match summary {
                                Some((text, p3)) => Some(
                                    (
                                        QueueView {
                                            id: zero_id(),
                                            has_current: flags & LEGACY_FLAG_HAS_TASK != 0,
                                            current,
                                            pending,
                                            summary: text,
                                        },
                                        p3,
                                    ),
                                ),
                                None => None,
                            }
                        },
                        None => None,
                    }
                },
                None => None,
            }
        }
    }
}

/// A queue holding any work or text.
pub open spec fn queue_nonempty(q: QueueView) -> bool {
    q.has_current || q.pending.len() > 0 || q.summary.len() > 0
}

/// The body's ID follows the previous body's ID in ascending order.
pub open spec fn follows(bodies: Seq<CompanionBody>, b: CompanionBody) -> bool {
    bodies.len() == 0 || id_key(bodies.last().id) < id_key(b.id)
}

/// Parses `n` further legacy records after the bodies and queues already read.
pub open spec fn parse_legacy(
    d: Seq<u8>,
    pos: int,
    n: nat,
    schema: u32,
    bodies: Seq<CompanionBody>,
    queues: Seq<QueueView>,
) -> Option<(Seq<CompanionBody>, Seq<QueueView>, int)>
    decreases n,
{
    if n == 0 {
        Some((bodies, queues, pos))
    } else {
        match parse_body(d, pos) {
            Some((b, p)) => {
                if !follows(bodies, b) {
                    None
                } else if schema == SCHEMA_V1 {
                    parse_legacy(d, p, (n - 1) as nat, schema, bodies.push(b), queues)
                } else {
                    match parse_queue_sections(d, p, schema) {
                        Some((q, p2)) => {
                            let owned = QueueView { id: b.id, ..q };
                            parse_legacy(
                                d,
                                p2,
                                (n - 1) as nat,
                                schema,
                                bodies.push(b),
                                if queue_nonempty(owned) {
                                    queues.push(owned)
                                } else {
                                    queues
                                },
                            )
                        },
                        None => None,
                    }
                }
            },
            None => None,
        }
    }
}

/// Every queue belongs to a body read so far, queue IDs ascend, and the last
/// queue's ID is not above the last body's.
pub open spec fn queues_owned(bodies: Seq<CompanionBody>, queues: Seq<QueueView>) -> bool {
    &&& forall|j: int| 0 <= j < queues.len() ==> has_body(bodies, #[trigger] queues[j].id)
    &&& forall|j: int, k: int|
        0 <= j < k < queues.len() ==> id_key(queues[j].id) < id_key(queues[k].id)
    &&& queues.len() > 0 ==> bodies.len() > 0 && id_key(queues.last().id) <= id_key(
        bodies.last().id,
    )
}

/// `q` is the queue section written in `d` right after the bytes of record
/// `b`, bound to `b`'s ID.
pub open spec fn queue_written_after(d: Seq<u8>, schema: u32, b: CompanionBody, q: QueueView) -> bool {
    exists|p: int|
        {
            &&& #[trigger] parse_body(d, p) matches Some((b2, p2))
            &&& b2 == b
            &&& parse_queue_sections(d, p2, schema) matches Some((s, e))
            &&& QueueView { id: b.id, ..s } == q
        }
}

/// `q` carries the ID of one of `records` and is the queue section written
/// right after that record's bytes.
pub open spec fn queue_of_record(
    d: Seq<u8>,
    schema: u32,
    records: Seq<CompanionBody>,
    q: QueueView,
) -> bool {
    exists|i: int|
        0 <= i < records.len() && (#[trigger] records[i]).id == q.id && queue_written_after(
            d,
            schema,
            records[i],
            q,
        )
}

/// Each queue is the section written after the record that carries its ID.
pub open spec fn queues_written(
    d: Seq<u8>,
    schema: u32,
    bodies: Seq<CompanionBody>,
    queues: Seq<QueueView>,
) -> bool {
    forall|j: int| 0 <= j < queues.len() ==> queue_of_record(d, schema, bodies, #[trigger] queues[j])
}

/// Appending a record keeps every queue bound to a record, and a queue
/// section read right after the new record's bytes is bound to it.
proof fn lemma_queues_written_push(
    d: Seq<u8>,
    schema: u32,
    bodies: Seq<CompanionBody>,
    queues: Seq<QueueView>,
    pos: int,
    b: CompanionBody,
    p: int,
)
    requires
        queues_written(d, schema, bodies, queues),
        parse_body(d, pos) == Some((b, p)),
    ensures
        queues_written(d, schema, bodies.push(b), queues),
        parse_queue_sections(d, p, schema) matches Some((q, p2)) ==> queues_written(
            d,
            schema,
            bodies.push(b),
            queues.push(QueueView { id: b.id, ..q }),
        ),
{
    let bs = bodies.push(b);
    assert forall|j: int| 0 <= j < queues.len() implies queue_of_record(
        d,
        schema,
        bs,
        #[trigger] queues[j],
    ) by {
        let i = choose|i: int|
            0 <= i < bodies.len() && (#[trigger] bodies[i]).id == queues[j].id
                && queue_written_after(d, schema, bodies[i], queues[j]);
        assert(bs[i] == bodies[i]);
    }
    if let Some((q, p2)) = parse_queue_sections(d, p, schema) {
        let owned = QueueView { id: b.id, ..q };
        let qs = queues.push(owned);
        assert(queue_written_after(d, schema, b, owned));
        assert(bs[bodies.len() as int] == b);
        assert(queue_of_record(d, schema, bs, owned));
        assert forall|j: int| 0 <= j < qs.len() implies queue_of_record(
            d,
            schema,
            bs,
            #[trigger] qs[j],
        ) by {
            if j < queues.len() {
                assert(qs[j] == queues[j]);
            }
        }
    }
}

/// Reading further legacy records keeps every queue owned by a body.
proof fn lemma_parse_legacy_owned(
    d: Seq<u8>,
    pos: int,
    n: nat,
    schema: u32,
    bodies: Seq<CompanionBody>,
    queues: Seq<QueueView>,
)
    requires
        queues_owned(bodies, queues),
        queues_written(d, schema, bodies, queues),
    ensures
        parse_legacy(d, pos, n, schema, bodies, queues) matches Some((bs, qs, e)) ==> queues_owned(
            bs,
            qs,
        ) && queues_written(d, schema, bs, qs),
    decreases n,
{
    if n > 0 {
        if let Some((b, p)) = parse_body(d, pos) {
            if follows(bodies, b) {
                let bs = bodies.push(b);
                assert forall|j: int| 0 <= j < queues.len() implies has_body(
                    bs,
                    #[trigger] queues[j].id,
                ) by {
                    let i = choose|i: int| 0 <= i < bodies.len() && #[trigger] bodies[i].id
                        == queues[j].id;
                    assert(bs[i] == bodies[i]);
                }
                lemma_queues_written_push(d, schema, bodies, queues, pos, b, p);
                if schema == SCHEMA_V1 {
                    lemma_parse_legacy_owned(d, p, (n - 1) as nat, schema, bs, queues);
                } else if let Some((q, p2)) = parse_queue_sections(d, p, schema) {
                    let owned = QueueView { id: b.id, ..q };
                    let qs = if queue_nonempty(owned) {
                        queues.push(owned)
                    } else {
                        queues
                    };
                    if queue_nonempty(owned) {
                        assert(bs[bodies.len() as int].id == owned.id);
                        assert(has_body(bs, owned.id));
                        assert forall|j: int| 0 <= j < qs.len() implies has_body(
                            bs,
                            #[trigger] qs[j].id,
                        ) by {
                            if j < queues.len() {
                                assert(qs[j] == queues[j]);
                            }
                        }
                        assert forall|j: int, k: int| 0 <= j < k < qs.len() implies id_key(
                            qs[j].id,
                        ) < id_key(qs[k].id) by {
                            if k == queues.len() {
                                if j < queues.len() - 1 {
                                    assert(id_key(queues[j].id) < id_key(queues.last().id));
                                }
                            }
                        }
                    }
                    lemma_parse_legacy_owned(d, p2, (n - 1) as nat, schema, bs, qs);
                }
            }
        }
    }
}

/// A legacy file binds each queue to the body it follows: every queue a
/// readable v1 to v4 file decodes to is the queue section written right after
/// the bytes of a decoded record and carries that record's ID, and the
/// queues' IDs ascend as the records' do, so no two queues share an owner and
/// none is left without one.
pub proof fn lemma_legacy_queues_belong_to_records(d: Seq<u8>)
    requires
        file_readable(d),
        declared_schema(d) != CURRENT_SCHEMA,
    ensures
        forall|j: int|
            0 <= j < file_value(d).queues.len() ==> has_body(
                file_value(d).records,
                #[trigger] file_value(d).queues[j].id,
            ),
        forall|j: int|
            0 <= j < file_value(d).queues.len() ==> queue_of_record(
                d,
                declared_schema(d),
                file_value(d).records,
                #[trigger] file_value(d).queues[j],
            ),
        forall|j: int, k: int|
            0 <= j < k < file_value(d).queues.len() ==> id_key(file_value(d).queues[j].id) < id_key(
                file_value(d).queues[k].id,
            ),
{
    lemma_parse_legacy_owned(
        d,
        32,
        declared_count(d),
        declared_schema(d),
        Seq::empty(),
        Seq::empty(),
    );
}

/// The lifecycle of an inactive v5 record.
pub open spec fn inactive_lifecycle(b: CompanionBody, epoch: u64, tombstone: PlayerId) -> LifecycleView {
    LifecycleView {
        id: b.id,
        active: false,
        memory_epoch: epoch,
        memory_revision: 0,
        memory_operation_id: zero_id(),
        summary: Seq::empty(),
        tombstone_operation_id: tombstone,
    }
}

/// The lifecycle of an active v5 record.
pub open spec fn active_lifecycle(
    b: CompanionBody,
    epoch: u64,
    revision: u64,
    operation: PlayerId,
    summary: Seq<char>,
) -> LifecycleView {
    LifecycleView {
        id: b.id,
        active: true,
        memory_epoch: epoch,
        memory_revision: revision,
        memory_operation_id: operation,
        summary,
        tombstone_operation_id: zero_id(),
    }
}

/// Parses the memory mirror, task and FIFO of an active v5 record whose flag
/// byte is `flags`, starting after the memory epoch.
pub open spec fn parse_active_tail(
    d: Seq<u8>,
    pos: int,
    flags: u8,
    b: CompanionBody,
    epoch: u64,
) -> Option<(LifecycleView, Option<QueueView>, int)> {
    if pos < 0 || pos + 26 > d.len() || u16_at(d, pos + 24) > MAX_SUMMARY_BYTES {
        None
    } else {
        match parse_text16(d, pos + 24) {
            Some((summary, p1)) => {
                let l = active_lifecycle(b, epoch, u64_at(d, pos), id_at(d, pos + 8), summary);
                let task = if flags & FLAG_HAS_TASK != 0 {
                    parse_task(d, p1, CURRENT_SCHEMA)
                } else {
                    Some((zero_task(), p1))
                };
                match task {
                    Some((current, p2)) => {
                        let fifo = if flags & FLAG_HAS_FIFO != 0 {
                            parse_fifo(d, p2)
                        } else {
                            Some((Seq::empty(), p2))
                        };
                        match fifo {
                            Some((pending, p3)) => {
                                let q = QueueView {
                                    id: b.id,
                                    has_current: flags & FLAG_HAS_TASK != 0,
                                    current,
                                    pending,
                                    summary: Seq::empty(),
                                };
                                Some(
                                    (
                                        l,
                                        if q.has_current || q.pending.len() > 0 {
                                            Some(q)
                                        } else {
                                            None
                                        },
                                        p3,
                                    ),
                                )
                            },
                            None => None,
                        }
                    },
                    None => None,
                }
            },
            None => None,
        }
    }
}

/// Parses one v5 record: the body, its lifecycle, and the queue it carries.
pub open spec fn parse_v5_record(d: Seq<u8>, pos: int) -> Option<
    (CompanionBody, LifecycleView, Option<QueueView>, int),
> {
    match parse_body(d, pos) {
        Some((b, p)) => if p + 9 > d.len() || d[p] > 7 {
            None
        } else {
            let flags = d[p];
            let epoch = u64_at(d, p + 1);
            let tail = if flags & FLAG_ACTIVE == 0 {
                if flags != 0 || p + 25 > d.len() || !spec_id_is_valid(id_at(d, p + 9).bytes@) {
                    None
                } else {
                    Some((inactive_lifecycle(b, epoch, id_at(d, p + 9)), None, p + 25))
                }
            } else {
                parse_active_tail(d, p + 9, flags, b, epoch)
            };
            match tail {
                Some((l, q, end)) => if lifecycle_ok(l) {
                    Some((b, l, q, end))
                } else {
                    None
                },
                None => None,
            }
        },
        None => None,
    }
}

/// Parses `n` further v5 records after the bodies, lifecycles and queues
/// already read.
pub open spec fn parse_v5(
    d: Seq<u8>,
    pos: int,
    n: nat,
    bodies: Seq<CompanionBody>,
    lifecycles: Seq<LifecycleView>,
    queues: Seq<QueueView>,
) -> Option<(Seq<CompanionBody>, Seq<LifecycleView>, Seq<QueueView>, int)>
    decreases n,
{
    if n == 0 {
        Some((bodies, lifecycles, queues, pos))
    } else {
        match parse_v5_record(d, pos) {
            Some((b, l, q, p)) => if !follows(bodies, b) {
                None
            } else {
                parse_v5(
                    d,
                    p,
                    (n - 1) as nat,
                    bodies.push(b),
                    lifecycles.push(l),
                    match q {
                        Some(x) => queues.push(x),
                        None => queues,
                    },
                )
            },
            None => None,
        }
    }
}

/// The five schemas the decoder reads.
pub open spec fn spec_schema_readable(schema: u32) -> bool {
    SCHEMA_V1 <= schema <= CURRENT_SCHEMA
}

/// The declared schema.
pub open spec fn declared_schema(d: Seq<u8>) -> u32 {
    u32_at(d, 8)
}

/// The declared revision.
pub open spec fn declared_revision(d: Seq<u8>) -> u64 {
    u64_at(d, 12)
}

/// The declared record count.
pub open spec fn declared_count(d: Seq<u8>) -> nat {
    u32_at(d, 20) as nat
}

/// Header, payload-length and checksum checks of a readable file.
pub open spec fn header_ok(d: Seq<u8>) -> bool {
    let schema = declared_schema(d);
    &&& HEADER_LENGTH <= d.len() <= MAX_FILE_LENGTH
    &&& d.take(4) == magic()
    &&& u32_at(d, 4) == ENVELOPE_VERSION
    &&& spec_schema_readable(schema)
    &&& declared_revision(d) != 0
    &&& declared_count(d) <= MAX_STORED
    &&& (schema == SCHEMA_V1 ==> u32_at(d, 24) == declared_count(d) * 221)
    &&& d.len() - 32 == u32_at(d, 24)
    &&& spec_crc32c(d.subrange(8, 28) + d.skip(32)) == u32_at(d, 28)
}

/// The records of a v5 file.
pub open spec fn v5_parts(d: Seq<u8>) -> Option<
    (Seq<CompanionBody>, Seq<LifecycleView>, Seq<QueueView>, int),
> {
    parse_v5(d, 48, declared_count(d), Seq::empty(), Seq::empty(), Seq::empty())
}

/// The records of a legacy file.
pub open spec fn legacy_parts(d: Seq<u8>) -> Option<(Seq<CompanionBody>, Seq<QueueView>, int)> {
    parse_legacy(d, 32, declared_count(d), declared_schema(d), Seq::empty(), Seq::empty())
}

/// The save request a v5 file's parts form.
pub open spec fn v5_save(d: Seq<u8>) -> SaveView {
    let parts = v5_parts(d)->0;
    SaveView {
        revision: declared_revision(d),
        agent_namespace_id: id_at(d, 32),
        records: parts.0,
        lifecycles: parts.1,
        queues: parts.2,
    }
}

/// The decoder accepts `d`.
pub open spec fn file_readable(d: Seq<u8>) -> bool {
    &&& header_ok(d)
    &&& if declared_schema(d) == CURRENT_SCHEMA {
        &&& d.len() >= 48
        &&& spec_id_is_valid(id_at(d, 32).bytes@)
        &&& v5_parts(d) matches Some(parts) && parts.3 == d.len() && active_count(parts.1)
            <= MAX_ACTIVE
        &&& save_admitted(v5_save(d))
    } else {
        legacy_parts(d) matches Some(parts) && parts.2 == d.len()
    }
}

/// The aggregate a readable file decodes to.
pub open spec fn file_value(d: Seq<u8>) -> CompanionsView {
    if declared_schema(d) == CURRENT_SCHEMA {
        let parts = v5_parts(d)->0;
        CompanionsView {
            source_schema: CURRENT_SCHEMA,
            revision: declared_revision(d),
            agent_namespace_id: id_at(d, 32),
            records: parts.0,
            lifecycles: parts.1,
            queues: parts.2,
        }
    } else {
        let parts = legacy_parts(d)->0;
        CompanionsView {
            source_schema: declared_schema(d),
            revision: declared_revision(d),
            agent_namespace_id: zero_id(),
            records: parts.0,
            lifecycles: Seq::empty(),
            queues: parts.1,
        }
    }
}

/// The decoder rejects `d` as written by a newer format.
pub open spec fn is_future_file(d: Seq<u8>) -> bool {
    &&& 8 <= d.len() <= MAX_FILE_LENGTH
    &&& d.take(4) == magic()
    &&& (u32_at(d, 4) > ENVELOPE_VERSION || (u32_at(d, 4) == ENVELOPE_VERSION && d.len() >= 12
        && u32_at(d, 8) > CURRENT_SCHEMA))
}

/// Reads `u16`-prefixed UTF-8 text.
fn decode_text16(d: &[u8], pos: usize) -> (res: Result<(String, usize), &'static str>)
    requires
        pos <= d@.len() <= MAX_FILE_LENGTH,
    ensures
        res is Ok <==> parse_text16(d@, pos as int) is Some,
        res matches Ok((s, p)) ==> parse_text16(d@, pos as int) == Some((s@, p as int)) && p
            <= d@.len(),
{
    if pos + 2 > d.len() {
        return Err("short read");
    }
    let n = read_u16(d, pos) as usize;
    let end = pos + 2 + n;
    if end > d.len() {
        return Err("short read");
    }
    match utf8_string(slice_subrange(d, pos + 2, end)) {
        Some(s) => Ok((s, end)),
        None => Err("not valid UTF-8"),
    }
}

/// Reads one plan step of the given schema.
fn decode_plan_step(d: &[u8], pos: usize, schema: u32) -> (res: Result<(PlanStep, usize), &'static str>)
    requires
        pos <= d@.len() <= MAX_FILE_LENGTH,
    ensures
        res is Ok <==> parse_step(d@, pos as int, schema) is Some,
        res matches Ok((s, p)) ==> parse_step(d@, pos as int, schema) == Some((s, p as int)) && p
            <= d@.len(),
{
    if pos + 1 > d.len() {
        return Err("companion plan step kind: short read");
    }
    let zero = PlayerId::from_bytes([0u8; 16]);
    assert(zero.bytes =~= zero_id().bytes);
    if schema == SCHEMA_V2 {
        if pos + 13 > d.len() {
            return Err("companion plan step: short read");
        }
        let step = PlanStep {
            kind: d[pos],
            x: read_u32(d, pos + 1) as i32,
            y: read_u32(d, pos + 5) as i32,
            z: read_u32(d, pos + 9) as i32,
            block: 0,
            player_id: zero,
        };
        return Ok((step, pos + 13));
    }
    let kind = d[pos];
    if kind == PLAN_STEP_GO_TO || kind == PLAN_STEP_MINE || kind == PLAN_STEP_PLACE {
        let end = if kind == PLAN_STEP_PLACE {
            pos + 15
        } else {
            pos + 13
        };
        if end > d.len() {
            return Err("companion plan step: short read");
        }
        let block = if kind == PLAN_STEP_PLACE {
            read_u16(d, pos + 13)
        } else {
            0
        };
        let step = PlanStep {
            kind,
            x: read_u32(d, pos + 1) as i32,
            y: read_u32(d, pos + 5) as i32,
            z: read_u32(d, pos + 9) as i32,
            block,
            player_id: zero,
        };
        Ok((step, end))
    } else if kind == PLAN_STEP_FOLLOW {
        if pos + 17 > d.len() {
            return Err("companion plan step player ID: short read");
        }
        let p = pos + 1;
        let player_id = PlayerId::from_bytes(
            [
                d[p],
                d[p + 1],
                d[p + 2],
                d[p + 3],
                d[p + 4],
                d[p + 5],
                d[p + 6],
                d[p + 7],
                d[p + 8],
                d[p + 9],
                d[p + 10],
                d[p + 11],
                d[p + 12],
                d[p + 13],
                d[p + 14],
                d[p + 15],
            ],
        );
        assert(player_id.bytes =~= id_at(d@, pos + 1).bytes);
        Ok((PlanStep { kind, x: 0, y: 0, z: 0, block: 0, player_id }, pos + 17))
    } else {
        Err("companion plan step kind is not delivered")
    }
}

/// Reads one task section of the given schema.
fn decode_task(d: &[u8], pos: usize, schema: u32) -> (res: Result<
    (StoredCompanionTask, usize),
    &'static str,
>)
    requires
        pos <= d@.len() <= MAX_FILE_LENGTH,
    ensures
        res is Ok <==> parse_task(d@, pos as int, schema) is Some,
        res matches Ok((t, p)) ==> parse_task(d@, pos as int, schema) == Some((t@, p as int)) && p
            <= d@.len(),
{
    let (command, p1) = match decode_text16(d, pos) {
        Ok(x) => x,
        Err(_) => {
            return Err("companion task command: invalid text");
        },
    };
    if p1 + 2 > d.len() {
        return Err("companion task plan length: short read");
    }
    let count = read_u16(d, p1) as usize;
    if count > MAX_PLAN_STEPS {
        return Err("companion task plan steps exceed the limit");
    }
    let start = p1 + 2;
    let mut steps: Vec<PlanStep> = Vec::new();
    let mut p = start;
    let mut i: usize = 0;
    while i < count
        invariant
            d@.len() <= MAX_FILE_LENGTH,
            p <= d@.len(),
            i <= count,
            parse_text16(d@, pos as int) == Some((command@, p1 as int)),
            p1 + 2 <= d@.len(),
            count == u16_at(d@, p1 as int),
            count <= MAX_PLAN_STEPS,
            start == p1 + 2,
            parse_steps(d@, start as int, count as nat, schema, Seq::empty()) == parse_steps(
                d@,
                p as int,
                (count - i) as nat,
                schema,
                steps@,
            ),
        decreases count - i,
    {
        match decode_plan_step(d, p, schema) {
            Ok((step, next)) => {
                steps.push(step);
                p = next;
            },
            Err(detail) => {
                return Err(detail);
            },
        }
        i = i + 1;
    }
    if p + 22 > d.len() {
        return Err("companion task: short read");
    }
    let task = StoredCompanionTask {
        command,
        plan_steps: steps,
        step_index: read_u32(d, p) as i32,
        state: d[p + 4],
        start_tick: read_u64(d, p + 6),
        deadline_ticks: read_u64(d, p + 14),
        fail_reason: d[p + 5],
    };
    assert(task@ == task_with_tail(d@, p as int, task@.command, task@.plan_steps));
    validate_task(&task, schema)?;
    Ok((task, p + 22))
}

/// Reads one FIFO section.
fn decode_fifo(d: &[u8], pos: usize) -> (res: Result<(Vec<String>, usize), &'static str>)
    requires
        pos <= d@.len() <= MAX_FILE_LENGTH,
    ensures
        res is Ok <==> parse_fifo(d@, pos as int) is Some,
        res matches Ok((v, p)) ==> parse_fifo(d@, pos as int) == Some((texts(v@), p as int)) && p
            <= d@.len(),
{
    if pos + 2 > d.len() {
        return Err("companion FIFO count: short read");
    }
    let count = read_u16(d, pos) as usize;
    if count > MAX_FIFO_ENTRIES {
        return Err("companion FIFO depth exceeds the limit");
    }
    if count == 0 {
        return Err("companion FIFO section without entries");
    }
    let start = pos + 2;
    let mut pending: Vec<String> = Vec::new();
    let mut p = start;
    let mut i: usize = 0;
    assert(texts(pending@) =~= Seq::<Seq<char>>::empty());
    while i < count
        invariant
            d@.len() <= MAX_FILE_LENGTH,
            p <= d@.len(),
            i <= count,
            pos + 2 <= d@.len(),
            count == u16_at(d@, pos as int),
            1 <= count <= MAX_FIFO_ENTRIES,
            start == pos + 2,
            parse_fifo_entries(d@, start as int, count as nat, Seq::empty()) == parse_fifo_entries(
                d@,
                p as int,
                (count - i) as nat,
                texts(pending@),
            ),
        decreases count - i,
    {
        let (command, next) = match decode_text16(d, p) {
            Ok(x) => x,
            Err(_) => {
                return Err("companion FIFO entry: invalid text");
            },
        };
        if let Err(fault) = check_command_text(&command, MAX_TASK_COMMAND_BYTES) {
            return Err(text_fault_message(TextField::FifoCommand, fault));
        }
        let ghost before = texts(pending@);
        pending.push(command);
        assert(texts(pending@) =~= before.push(command@));
        p = next;
        i = i + 1;
    }
    Ok((pending, p))
}

/// Reads a legacy summary section.
fn decode_summary(d: &[u8], pos: usize) -> (res: Result<(String, usize), &'static str>)
    requires
        pos <= d@.len() <= MAX_FILE_LENGTH,
    ensures
        res is Ok <==> parse_summary(d@, pos as int) is Some,
        res matches Ok((s, p)) ==> parse_summary(d@, pos as int) == Some((s@, p as int)) && p
            <= d@.len(),
{
    if pos + 2 > d.len() {
        return Err("companion summary length: short read");
    }
    let n = read_u16(d, pos) as usize;
    if n > MAX_SUMMARY_BYTES {
        return Err("companion summary length exceeds the limit");
    }
    if n == 0 {
        return Err("companion summary section without text");
    }
    let end = pos + 2 + n;
    if end > d.len() {
        return Err("companion summary: short read");
    }
    let text = match utf8_string(slice_subrange(d, pos + 2, end)) {
        Some(s) => s,
        None => {
            return Err("companion summary is not valid UTF-8");
        },
    };
    let mut k = pos + 2;
    while k < end
        invariant
            pos + 2 <= k <= end <= d@.len(),
            pos + 2 <= d@.len(),
            end == pos + 2 + u16_at(d@, pos as int),
            1 <= u16_at(d@, pos as int) <= MAX_SUMMARY_BYTES,
            valid_utf8(d@.subrange(pos + 2, end as int)),
            forall|j: int| pos + 2 <= j < k ==> #[trigger] d@[j] != 0,
        decreases end - k,
    {
        if d[k] == 0 {
            return Err("companion summary contains NUL");
        }
        k = k + 1;
    }
    Ok((text, end))
}

/// The all-zero task.
fn empty_task() -> (t: StoredCompanionTask)
    ensures
        t@ == zero_task(),
{
    StoredCompanionTask {
        command: String::new(),
        plan_steps: Vec::new(),
        step_index: 0,
        state: 0,
        start_tick: 0,
        deadline_ticks: 0,
        fail_reason: 0,
    }
}

/// Reads the optional sections after a legacy record's flag byte.
fn decode_queue_sections(d: &[u8], pos: usize, schema: u32) -> (res: Result<
    (StoredCompanionQueue, usize),
    &'static str,
>)
    requires
        pos <= d@.len() <= MAX_FILE_LENGTH,
    ensures
        res is Ok <==> parse_queue_sections(d@, pos as int, schema) is Some,
        res matches Ok((q, p)) ==> parse_queue_sections(d@, pos as int, schema) == Some(
            (q@, p as int),
        ) && p <= d@.len(),
{
    if pos + 1 > d.len() {
        return Err("companion record flags: short read");
    }
    let flags = d[pos];
    let allowed: u8 = if schema >= SCHEMA_V4 {
        7
    } else {
        3
    };
    if flags > allowed {
        return Err("companion record flags reserved");
    }
    let mut p = pos + 1;
    let has_current = flags & LEGACY_FLAG_HAS_TASK != 0;
    let mut current = empty_task();
    if has_current {
        let (task, next) = decode_task(d, p, schema)?;
        current = task;
        p = next;
    }
    let mut pending: Vec<String> = Vec::new();
    assert(texts(pending@) =~= Seq::<Seq<char>>::empty());
    if flags & LEGACY_FLAG_HAS_FIFO != 0 {
        let (entries, next) = decode_fifo(d, p)?;
        pending = entries;
        p = next;
    }
    let mut summary = String::new();
    if flags & LEGACY_FLAG_HAS_SUMMARY != 0 {
        let (text, next) = decode_summary(d, p)?;
        summary = text;
        p = next;
    }
    let zero = PlayerId::from_bytes([0u8; 16]);
    assert(zero.bytes =~= zero_id().bytes);
    let queue = StoredCompanionQueue { id: zero, has_current, current, pending, summary };
    Ok((queue, p))
}

/// Reads `n` five-byte item stacks starting at `pos` into `slots`.
pub(crate) fn read_stacks(d: &[u8], pos: usize, slots: &mut [ItemStack])
    requires
        pos + 5 * old(slots)@.len() <= d@.len(),
    ensures
        final(slots)@.len() == old(slots)@.len(),
        forall|k: int|
            0 <= k < final(slots)@.len() ==> #[trigger] final(slots)@[k] == stack5_at(
                d@,
                pos + 5 * k,
            ),
{
    let n = slots.len();
    let len = d.len();
    let mut k: usize = 0;
    while k < n
        invariant
            n == slots@.len(),
            len == d@.len(),
            pos + 5 * n <= d@.len(),
            k <= n,
            forall|j: int| 0 <= j < k ==> #[trigger] slots@[j] == stack5_at(d@, pos + 5 * j),
        decreases n - k,
    {
        let at = pos + 5 * k;
        slots[k] = ItemStack { item: read_u16(d, at), count: d[at + 2], durability: read_u16(d, at + 3) };
        k = k + 1;
    }
}

/// Reads and checks the body record at `pos`.
fn decode_body(d: &[u8], pos: usize) -> (res: Result<CompanionBody, &'static str>)
    requires
        pos <= d@.len() <= MAX_FILE_LENGTH,
    ensures
        res is Ok <==> parse_body(d@, pos as int) is Some,
        res matches Ok(b) ==> parse_body(d@, pos as int) == Some((b, pos + 221)),
{
    if pos + RECORD_LENGTH > d.len() {
        return Err("companion record: short read");
    }
    let p = pos;
    let id = PlayerId::from_bytes(
        [
            d[p],
            d[p + 1],
            d[p + 2],
            d[p + 3],
            d[p + 4],
            d[p + 5],
            d[p + 6],
            d[p + 7],
            d[p + 8],
            d[p + 9],
            d[p + 10],
            d[p + 11],
            d[p + 12],
            d[p + 13],
            d[p + 14],
            d[p + 15],
        ],
    );
    let empty = ItemStack { item: 0, count: 0, durability: 0 };
    let mut slots = [empty; 9];
    read_stacks(d, pos + 41, &mut slots);
    let mut backpack = [empty; 27];
    read_stacks(d, pos + 86, &mut backpack);
    let body = CompanionBody {
        id,
        dimension: read_u32(d, pos + 16) as i32,
        position: [read_u32(d, pos + 20), read_u32(d, pos + 24), read_u32(d, pos + 28)],
        yaw: read_u32(d, pos + 32),
        pitch: read_u32(d, pos + 36),
        inventory: Inventory { hotbar: Hotbar { selected: d[pos + 40], slots }, backpack },
    };
    let ghost want = body_at(d@, pos as int);
    assert(body.id.bytes =~= want.id.bytes);
    assert(body.position =~= want.position);
    assert(body.inventory.hotbar.slots =~= want.inventory.hotbar.slots);
    assert(body.inventory.backpack =~= want.inventory.backpack);
    validate_body(&body)?;
    Ok(body)
}

/// Reads one v5 record: the body, its lifecycle, and the queue it carries.
fn decode_v5_record(d: &[u8], pos: usize) -> (res: Result<
    (CompanionBody, StoredCompanionLifecycle, Option<StoredCompanionQueue>, usize),
    &'static str,
>)
    requires
        pos <= d@.len() <= MAX_FILE_LENGTH,
    ensures
        res is Ok <==> parse_v5_record(d@, pos as int) is Some,
        res matches Ok((b, l, q, p)) ==> p <= d@.len() && parse_v5_record(d@, pos as int) == Some(
            (
                b,
                l@,
                match q {
                    Some(x) => Some(x@),
                    None => None,
                },
                p as int,
            ),
        ),
{
    let body = decode_body(d, pos)?;
    let p = pos + RECORD_LENGTH;
    if p + 1 > d.len() {
        return Err("companion record flags: short read");
    }
    let flags = d[p];
    if flags > FLAG_ACTIVE + FLAG_HAS_TASK + FLAG_HAS_FIFO {
        return Err("companion record flags reserved");
    }
    if p + 9 > d.len() {
        return Err("companion memory epoch: short read");
    }
    let epoch = read_u64(d, p + 1);
    let zero = PlayerId::from_bytes([0u8; 16]);
    assert(zero.bytes =~= zero_id().bytes);
    if flags & FLAG_ACTIVE == 0 {
        if flags != 0 {
            return Err("companion record flags: inactive record carries flags");
        }
        if p + 25 > d.len() {
            return Err("companion tombstone operation: short read");
        }
        let t = p + 9;
        let tombstone = PlayerId::from_bytes(
            [
                d[t],
                d[t + 1],
                d[t + 2],
                d[t + 3],
                d[t + 4],
                d[t + 5],
                d[t + 6],
                d[t + 7],
                d[t + 8],
                d[t + 9],
                d[t + 10],
                d[t + 11],
                d[t + 12],
                d[t + 13],
                d[t + 14],
                d[t + 15],
            ],
        );
        assert(tombstone.bytes =~= id_at(d@, t as int).bytes);
        if !tombstone.is_valid() {
            return Err("invalid companion tombstone operation");
        }
        let lifecycle = StoredCompanionLifecycle {
            id: body.id,
            active: false,
            memory_epoch: epoch,
            memory_revision: 0,
            memory_operation_id: zero,
            summary: String::new(),
            tombstone_operation_id: tombstone,
        };
        assert(lifecycle@ == inactive_lifecycle(body, epoch, id_at(d@, t as int)));
        validate_v5_lifecycle(&lifecycle)?;
        return Ok((body, lifecycle, None, p + 25));
    }
    let m = p + 9;
    if m + 26 > d.len() {
        return Err("companion memory mirror: short read");
    }
    let memory_revision = read_u64(d, m);
    let o = m + 8;
    let operation = PlayerId::from_bytes(
        [
            d[o],
            d[o + 1],
            d[o + 2],
            d[o + 3],
            d[o + 4],
            d[o + 5],
            d[o + 6],
            d[o + 7],
            d[o + 8],
            d[o + 9],
            d[o + 10],
            d[o + 11],
            d[o + 12],
            d[o + 13],
            d[o + 14],
            d[o + 15],
        ],
    );
    assert(operation.bytes =~= id_at(d@, o as int).bytes);
    if read_u16(d, m + 24) as usize > MAX_SUMMARY_BYTES {
        return Err("companion memory summary length exceeds the limit");
    }
    let (summary, p1) = match decode_text16(d, m + 24) {
        Ok(x) => x,
        Err(_) => {
            return Err("companion memory summary: invalid text");
        },
    };
    let lifecycle = StoredCompanionLifecycle {
        id: body.id,
        active: true,
        memory_epoch: epoch,
        memory_revision,
        memory_operation_id: operation,
        summary,
        tombstone_operation_id: zero,
    };
    let has_current = flags & FLAG_HAS_TASK != 0;
    let mut current = empty_task();
    let mut p2 = p1;
    if has_current {
        let (task, next) = decode_task(d, p1, CURRENT_SCHEMA)?;
        current = task;
        p2 = next;
    }
    let mut pending: Vec<String> = Vec::new();
    assert(texts(pending@) =~= Seq::<Seq<char>>::empty());
    let mut p3 = p2;
    if flags & FLAG_HAS_FIFO != 0 {
        let (entries, next) = decode_fifo(d, p2)?;
        pending = entries;
        p3 = next;
    }
    let queue = if has_current || pending.len() > 0 {
        Some(
            StoredCompanionQueue {
                id: body.id,
                has_current,
                current,
                pending,
                summary: String::new(),
            },
        )
    } else {
        None
    };
    validate_v5_lifecycle(&lifecycle)?;
    Ok((body, lifecycle, queue, p3))
}

/// Reads `count` v5 records starting after the namespace.
fn decode_v5_records(d: &[u8], count: usize) -> (res: StorageResult<
    (Vec<CompanionBody>, Vec<StoredCompanionLifecycle>, Vec<StoredCompanionQueue>, usize),
>)
    requires
        48 <= d@.len() <= MAX_FILE_LENGTH,
        count == declared_count(d@),
        count <= MAX_STORED,
    ensures
        res is Ok <==> v5_parts(d@) is Some,
        res matches Ok((rs, ls, qs, p)) ==> v5_parts(d@) == Some(
            (rs@, lifecycle_views(ls@), queue_views(qs@), p as int),
        ) && ls@.len() == count && p <= d@.len(),
        res matches Err(e) ==> e is Corrupt,
{
    let mut bodies: Vec<CompanionBody> = Vec::new();
    let mut lifecycles: Vec<StoredCompanionLifecycle> = Vec::new();
    let mut queues: Vec<StoredCompanionQueue> = Vec::new();
    assert(lifecycle_views(lifecycles@) =~= Seq::<LifecycleView>::empty());
    assert(queue_views(queues@) =~= Seq::<QueueView>::empty());
    let mut p: usize = 48;
    let mut i: usize = 0;
    while i < count
        invariant
            p <= d@.len() <= MAX_FILE_LENGTH,
            i <= count <= MAX_STORED,
            bodies@.len() == i,
            lifecycles@.len() == i,
            v5_parts(d@) == parse_v5(
                d@,
                p as int,
                (count - i) as nat,
                bodies@,
                lifecycle_views(lifecycles@),
                queue_views(queues@),
            ),
        decreases count - i,
    {
        match decode_v5_record(d, p) {
            Ok((body, lifecycle, queue, next)) => {
                if i > 0 && !(bodies[i - 1].id.sort_key() < body.id.sort_key()) {
                    assert(!follows(bodies@, body));
                    return Err(corrupt("companion records", "IDs are not strictly sorted"));
                }
                let ghost ls0 = lifecycle_views(lifecycles@);
                let ghost qs0 = queue_views(queues@);
                bodies.push(body);
                lifecycles.push(lifecycle);
                assert(lifecycle_views(lifecycles@) =~= ls0.push(lifecycle@));
                match queue {
                    Some(x) => {
                        let ghost xv = x@;
                        queues.push(x);
                        assert(queue_views(queues@) =~= qs0.push(xv));
                    },
                    None => {},
                }
                p = next;
            },
            Err(detail) => {
                return Err(corrupt_at("companion record", i, detail));
            },
        }
        i = i + 1;
    }
    Ok((bodies, lifecycles, queues, p))
}

/// Reads `count` legacy records of the given schema.
#[verifier::rlimit(40)]
#[verifier::spinoff_prover]
fn decode_legacy_records(d: &[u8], schema: u32, count: usize) -> (res: StorageResult<
    (Vec<CompanionBody>, Vec<StoredCompanionQueue>, usize),
>)
    requires
        32 <= d@.len() <= MAX_FILE_LENGTH,
        count == declared_count(d@),
        schema == declared_schema(d@),
    ensures
        res is Ok <==> legacy_parts(d@) is Some,
        res matches Ok((rs, qs, p)) ==> legacy_parts(d@) == Some((rs@, queue_views(qs@), p as int))
            && p <= d@.len(),
        res matches Err(e) ==> e is Corrupt,
{
    let mut bodies: Vec<CompanionBody> = Vec::new();
    let mut queues: Vec<StoredCompanionQueue> = Vec::new();
    assert(queue_views(queues@) =~= Seq::<QueueView>::empty());
    let mut p: usize = 32;
    let mut i: usize = 0;
    while i < count
        invariant
            p <= d@.len() <= MAX_FILE_LENGTH,
            i <= count,
            bodies@.len() == i,
            legacy_parts(d@) == parse_legacy(
                d@,
                p as int,
                (count - i) as nat,
                schema,
                bodies@,
                queue_views(queues@),
            ),
        decreases count - i,
    {
        let body = match decode_body(d, p) {
            Ok(b) => b,
            Err(detail) => {
                return Err(corrupt_at("companion record", i, detail));
            },
        };
        if i > 0 && !(bodies[i - 1].id.sort_key() < body.id.sort_key()) {
            assert(!follows(bodies@, body));
            return Err(corrupt("companion records", "IDs are not strictly sorted"));
        }
        let after_body = p + RECORD_LENGTH;
        if schema == SCHEMA_V1 {
            bodies.push(body);
            p = after_body;
        } else {
            let (mut queue, next) = match decode_queue_sections(d, after_body, schema) {
                Ok(x) => x,
                Err(detail) => {
                    return Err(corrupt_at("companion record", i, detail));
                },
            };
            // The queue section has no owner field. Bind it to this body before
            // deciding whether the section is empty, so a later consumer cannot
            // attach the work to the wrong record by queue order.
            queue.id = body.id;
            let ghost qs0 = queue_views(queues@);
            if queue.has_current || queue.pending.len() > 0 || !queue.summary.as_str().is_empty() {
                let ghost qv = queue@;
                queues.push(queue);
                assert(queue_views(queues@) =~= qs0.push(qv));
            }
            bodies.push(body);
            p = next;
        }
        i = i + 1;
    }
    Ok((bodies, queues, p))
}

/// Decodes the v5 payload that follows a checked header.
fn decode_v5_payload(d: &[u8], count: usize, revision: u64) -> (res: StorageResult<
    StoredCompanions,
>)
    requires
        header_ok(d@),
        declared_schema(d@) == CURRENT_SCHEMA,
        count == declared_count(d@),
        revision == declared_revision(d@),
    ensures
        res is Ok <==> file_readable(d@),
        res matches Ok(c) ==> c@ == file_value(d@),
        res matches Err(e) ==> e is Corrupt,
{
    if d.len() < 48 {
        return Err(corrupt("companion agent namespace", "short read"));
    }
    let n = 32usize;
    let namespace = PlayerId::from_bytes(
        [
            d[n],
            d[n + 1],
            d[n + 2],
            d[n + 3],
            d[n + 4],
            d[n + 5],
            d[n + 6],
            d[n + 7],
            d[n + 8],
            d[n + 9],
            d[n + 10],
            d[n + 11],
            d[n + 12],
            d[n + 13],
            d[n + 14],
            d[n + 15],
        ],
    );
    assert(namespace.bytes =~= id_at(d@, 32).bytes);
    if !namespace.is_valid() {
        return Err(corrupt("companion agent namespace", "not a canonical UUIDv4"));
    }
    let (records, lifecycles, queues, end) = decode_v5_records(d, count)?;
    if end != d.len() {
        return Err(corrupt("companion payload", "trailing bytes"));
    }
    if count_active(&lifecycles) > MAX_ACTIVE {
        return Err(corrupt("companion active count", "exceeds the active limit"));
    }
    // The decoded aggregate must pass the canonical encoder's gate, so a file
    // that decodes can always be rewritten without silent repair.
    let save = CompanionSave { revision, agent_namespace_id: namespace, records, lifecycles, queues };
    assert(save@ == v5_save(d@));
    canonical_v5_parts(&save)?;
    let CompanionSave { revision, agent_namespace_id, records, lifecycles, queues } = save;
    Ok(
        StoredCompanions {
            source_schema: CURRENT_SCHEMA,
            revision,
            agent_namespace_id,
            records,
            lifecycles,
            queues,
        },
    )
}

/// Decodes the legacy payload that follows a checked header.
fn decode_legacy_payload(d: &[u8], schema: u32, count: usize, revision: u64) -> (res: StorageResult<
    StoredCompanions,
>)
    requires
        header_ok(d@),
        declared_schema(d@) == schema,
        schema != CURRENT_SCHEMA,
        count == declared_count(d@),
        revision == declared_revision(d@),
    ensures
        res is Ok <==> file_readable(d@),
        res matches Ok(c) ==> c@ == file_value(d@),
        res matches Err(e) ==> e is Corrupt,
{
    let (records, queues, end) = decode_legacy_records(d, schema, count)?;
    if end != d.len() {
        return Err(corrupt("companion payload", "trailing bytes"));
    }
    let zero = PlayerId::from_bytes([0u8; 16]);
    assert(zero.bytes =~= zero_id().bytes);
    let lifecycles: Vec<StoredCompanionLifecycle> = Vec::new();
    let result = StoredCompanions {
        source_schema: schema,
        revision,
        agent_namespace_id: zero,
        records,
        lifecycles,
        queues,
    };
    assert(result@.lifecycles =~= Seq::<LifecycleView>::empty());
    Ok(result)
}

/// Reports whether `schema` is inside the literal read whitelist v1..v5.
pub fn schema_readable(schema: u32) -> (b: bool)
    ensures
        b == spec_schema_readable(schema),
{
    SCHEMA_V1 <= schema && schema <= CURRENT_SCHEMA
}

/// Decodes a companion aggregate, migrating v1..v4 read-only.
///
/// The file-length gate runs before any parsing or allocation.
pub fn decode(data: &[u8]) -> (res: StorageResult<StoredCompanions>)
    ensures
        res is Ok <==> file_readable(data@),
        res matches Ok(c) ==> c@ == file_value(data@),
        res matches Err(e) ==> (e is FutureVersion <==> is_future_file(data@)),
        res matches Err(e) ==> (e is Corrupt <==> !is_future_file(data@)),
{
    let d = data;
    if d.len() > MAX_FILE_LENGTH {
        return Err(corrupt_numbered("companion file length", "", d.len() as u64, " exceeds limit 393904"));
    }
    if d.len() < 4 {
        return Err(short_read("companion envelope magic", 4, 0, d.len()));
    }
    if !(d[0] == 0x4D && d[1] == 0x43 && d[2] == 0x41 && d[3] == 0x49) {
        assert(d@.take(4) != magic()) by {
            if d@.take(4) == magic() {
                assert(d@[0] == d@.take(4)[0]);
                assert(d@[1] == d@.take(4)[1]);
                assert(d@[2] == d@.take(4)[2]);
                assert(d@[3] == d@.take(4)[3]);
            }
        }
        return Err(corrupt("companion envelope magic", "unexpected magic"));
    }
    assert(d@.take(4) =~= magic());
    if d.len() < 8 {
        return Err(short_read("companion envelope version", 4, 4, d.len()));
    }
    let version = read_u32(d, 4);
    if version != ENVELOPE_VERSION {
        if version > ENVELOPE_VERSION {
            return Err(future_version("companion envelope version", version));
        }
        return Err(corrupt_numbered("companion envelope version", "unsupported version ", version as u64, ""));
    }
    if d.len() < 12 {
        return Err(short_read("companion schema", 4, 8, d.len()));
    }
    let schema = read_u32(d, 8);
    if !schema_readable(schema) {
        // Rejection still classifies against the current schema: anything
        // newer is a clear future-version signal.
        if schema > CURRENT_SCHEMA {
            return Err(future_version("companion schema", schema));
        }
        return Err(corrupt_numbered("companion schema", "unsupported schema ", schema as u64, ""));
    }
    if d.len() < 20 {
        return Err(short_read("companion revision", 8, 12, d.len()));
    }
    let revision = read_u64(d, 12);
    if revision == 0 {
        return Err(corrupt("companion revision", "zero revision"));
    }
    if d.len() < 24 {
        return Err(short_read("companion count", 4, 20, d.len()));
    }
    let count = read_u32(d, 20);
    if count as usize > MAX_STORED {
        return Err(corrupt_numbered("companion count", "", count as u64, " exceeds limit 64"));
    }
    if d.len() < 28 {
        return Err(short_read("companion payload length", 4, 24, d.len()));
    }
    let payload_length = read_u32(d, 24);
    // v1 is a fixed-stride layout; v2 onward varies per record and only bounds
    // the total payload.
    if schema == SCHEMA_V1 && payload_length as usize != count as usize * RECORD_LENGTH {
        return Err(corrupt("companion payload length", "does not match count"));
    }
    if d.len() < HEADER_LENGTH {
        return Err(short_read("companion CRC32C", 4, 28, d.len()));
    }
    let want_crc = read_u32(d, 28);
    if d.len() - HEADER_LENGTH != payload_length as usize {
        return Err(corrupt("companion payload length", "does not match file"));
    }
    let checksum = crc32c_join2(slice_subrange(d, 8, 28), slice_subrange(d, HEADER_LENGTH, d.len()));
    assert(d@.subrange(32, d@.len() as int) =~= d@.skip(32));
    if checksum != want_crc {
        return Err(corrupt("companion CRC32C", "checksum mismatch"));
    }
    if schema == CURRENT_SCHEMA {
        decode_v5_payload(d, count as usize, revision)
    } else {
        decode_legacy_payload(d, schema, count as usize, revision)
    }
}

} // verus!
