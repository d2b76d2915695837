//! `save.companion`: the companion aggregate save (`companions.ai`).
//!
//! Schema v5 carries a 16-byte agent namespace plus per-record lifecycle
//! metadata; v1..v4 stay read-only migration input. Records are written in
//! strictly ascending ID order and the CRC-32C covers header bytes 8..28 plus
//! the payload, never the magic, the version or the checksum bytes.
//!
//! This module holds the record values and the rules a save must satisfy;
//! `companion_layout` writes the bytes and `companion_parse` reads them.
use crate::canonical_order::{ascending_order, ascending_order_of};
use crate::error::{StorageError, StorageResult, corrupt, corrupt_at, corrupt_numbered, decimal_text};
use crate::float_bits::{f32_finite, is_finite, is_pitch_in_range, pitch_in_range};
use crate::identity::{PlayerId, id_key, lemma_id_key_injective, spec_id_is_valid, spec_id_is_zero};
use crate::items::{Inventory, inventory_valid};
use crate::text::{
    TextField, check_command_text, check_free_text, command_text_ok, free_text_ok, text_fault_message,
    text_len,
};
use vstd::prelude::*;
use vstd::utf8::encode_utf8;

verus! {

broadcast use {vstd::seq::group_seq_axioms, vstd::array::group_array_axioms};

/// Companion lifecycle operation identity. It shares the canonical UUIDv4 rule
/// with [`PlayerId`]; the alias keeps the save contract's own vocabulary.
pub type Identity = PlayerId;

/// Envelope version written by the current encoder.
pub const ENVELOPE_VERSION: u32 = 1;
/// Legacy schemas still accepted for read-only migration.
pub const SCHEMA_V1: u32 = 1;
pub const SCHEMA_V2: u32 = 2;
pub const SCHEMA_V3: u32 = 3;
pub const SCHEMA_V4: u32 = 4;
/// Schema written by the current encoder.
pub const CURRENT_SCHEMA: u32 = 5;

/// Length of the fixed header.
pub const HEADER_LENGTH: usize = 32;
/// Length of one body record.
pub const RECORD_LENGTH: usize = 221;
/// Physical byte ceiling of any reachable v5 file.
pub const MAX_FILE_LENGTH: usize = 393_904;

/// Records one aggregate save may hold, counted active plus inactive.
pub const MAX_STORED: usize = 64;
/// Records that may be active at the same time.
pub const MAX_ACTIVE: usize = 4;
/// UTF-8 byte ceiling of one task or FIFO command.
pub const MAX_TASK_COMMAND_BYTES: usize = 1024;
/// Defensive ceiling on persisted plan steps per task.
pub const MAX_PLAN_STEPS: usize = 5_000;
/// FIFO depth ceiling, matching the runtime task queue capacity.
pub const MAX_FIFO_ENTRIES: usize = 16;
/// UTF-8 byte ceiling of one persisted dialogue summary.
pub const MAX_SUMMARY_BYTES: usize = 2_048;

/// v5 record flags: active, has a task, has a FIFO.
pub const FLAG_ACTIVE: u8 = 1;
pub const FLAG_HAS_TASK: u8 = 2;
pub const FLAG_HAS_FIFO: u8 = 4;
/// Legacy v2..v4 queue flags, a different bit assignment from v5.
pub const LEGACY_FLAG_HAS_TASK: u8 = 1;
pub const LEGACY_FLAG_HAS_FIFO: u8 = 2;
pub const LEGACY_FLAG_HAS_SUMMARY: u8 = 4;

/// The only dimension companions live in.
pub const OVERWORLD: i32 = 0;
/// Bottom of the world, inclusive.
pub const MIN_Y: i32 = -64;
/// Top of the world, exclusive.
pub const MAX_Y: i32 = 320;

/// Task lifecycle state. Values are the seven-state domain enum.
pub const TASK_QUEUED: u8 = 1;
pub const TASK_PLANNING: u8 = 2;
pub const TASK_VALIDATING: u8 = 3;
pub const TASK_RUNNING: u8 = 4;
pub const TASK_COMPLETED: u8 = 5;
pub const TASK_FAILED: u8 = 6;
pub const TASK_TIMED_OUT: u8 = 7;
pub const TASK_STOPPED: u8 = 8;

/// Stable failure reasons. Zero means "not failed".
pub const TASK_FAIL_NONE: u8 = 0;
pub const TASK_FAIL_PLANNER_UNAVAILABLE: u8 = 1;
pub const TASK_FAIL_INVALID_PLAN: u8 = 2;
pub const TASK_FAIL_PATH_UNREACHABLE: u8 = 3;
pub const TASK_FAIL_WORLD_CHANGED: u8 = 4;
pub const TASK_FAIL_INVENTORY_FULL: u8 = 5;

/// Delivered plan-step kinds.
pub const PLAN_STEP_GO_TO: u8 = 1;
pub const PLAN_STEP_FOLLOW: u8 = 2;
pub const PLAN_STEP_MINE: u8 = 3;
pub const PLAN_STEP_PLACE: u8 = 4;

/// One persisted companion body: the authoritative simulation snapshot the
/// domain owns. Position, yaw and pitch are binary32 bit patterns.
#[derive(Clone, Copy, Debug, PartialEq)]
pub struct CompanionBody {
    pub id: PlayerId,
    pub dimension: i32,
    pub position: [u32; 3],
    pub yaw: u32,
    pub pitch: u32,
    pub inventory: Inventory,
}

/// v5 lifecycle and memory metadata associated with one body record.
///
/// An active record keeps a full recovery mirror; an inactive one keeps only a
/// tombstone operation. The codec validates the two shapes as disjoint sets.
#[derive(Clone, Debug, PartialEq)]
pub struct StoredCompanionLifecycle {
    pub id: PlayerId,
    pub active: bool,
    pub memory_epoch: u64,
    pub memory_revision: u64,
    pub memory_operation_id: Identity,
    pub summary: String,
    pub tombstone_operation_id: Identity,
}

/// The value of a lifecycle record, its summary as characters.
pub struct LifecycleView {
    pub id: PlayerId,
    pub active: bool,
    pub memory_epoch: u64,
    pub memory_revision: u64,
    pub memory_operation_id: PlayerId,
    pub summary: Seq<char>,
    pub tombstone_operation_id: PlayerId,
}

impl View for StoredCompanionLifecycle {
    type V = LifecycleView;

    open spec fn view(&self) -> LifecycleView {
        LifecycleView {
            id: self.id,
            active: self.active,
            memory_epoch: self.memory_epoch,
            memory_revision: self.memory_revision,
            memory_operation_id: self.memory_operation_id,
            summary: self.summary@,
            tombstone_operation_id: self.tombstone_operation_id,
        }
    }
}

/// One atomic plan step. Fields are used per kind.
#[derive(Clone, Copy, Debug, Default, Eq, PartialEq)]
pub struct PlanStep {
    pub kind: u8,
    pub x: i32,
    pub y: i32,
    pub z: i32,
    pub block: u16,
    pub player_id: PlayerId,
}

/// One persisted task payload.
///
/// The plan's model summary and generation are deliberately not persisted: a
/// plan summary is free model text rather than a task fact, and generation
/// only discards stale in-flight worker results.
#[derive(Clone, Debug, Default, PartialEq)]
pub struct StoredCompanionTask {
    pub command: String,
    pub plan_steps: Vec<PlanStep>,
    pub step_index: i32,
    pub state: u8,
    pub start_tick: u64,
    pub deadline_ticks: u64,
    pub fail_reason: u8,
}

/// The value of a task, its command as characters.
pub struct TaskView {
    pub command: Seq<char>,
    pub plan_steps: Seq<PlanStep>,
    pub step_index: i32,
    pub state: u8,
    pub start_tick: u64,
    pub deadline_ticks: u64,
    pub fail_reason: u8,
}

impl View for StoredCompanionTask {
    type V = TaskView;

    open spec fn view(&self) -> TaskView {
        TaskView {
            command: self.command@,
            plan_steps: self.plan_steps@,
            step_index: self.step_index,
            state: self.state,
            start_tick: self.start_tick,
            deadline_ticks: self.deadline_ticks,
            fail_reason: self.fail_reason,
        }
    }
}

/// One persisted task-domain payload: the current task, the FIFO commands, and
/// a summary that only carries schema v4 legacy text.
#[derive(Clone, Debug, Default, PartialEq)]
pub struct StoredCompanionQueue {
    pub id: PlayerId,
    pub has_current: bool,
    pub current: StoredCompanionTask,
    pub pending: Vec<String>,
    /// Only carried for schema v4 migration input; a v5 save rejects it.
    pub summary: String,
}

/// The value of a queue, its texts as characters.
pub struct QueueView {
    pub id: PlayerId,
    pub has_current: bool,
    pub current: TaskView,
    pub pending: Seq<Seq<char>>,
    pub summary: Seq<char>,
}

/// The characters of each string, in order.
pub open spec fn texts(v: Seq<String>) -> Seq<Seq<char>> {
    v.map_values(|s: String| s@)
}

impl View for StoredCompanionQueue {
    type V = QueueView;

    open spec fn view(&self) -> QueueView {
        QueueView {
            id: self.id,
            has_current: self.has_current,
            current: self.current@,
            pending: texts(self.pending@),
            summary: self.summary@,
        }
    }
}

/// The values of lifecycle records, in order.
pub open spec fn lifecycle_views(v: Seq<StoredCompanionLifecycle>) -> Seq<LifecycleView> {
    v.map_values(|l: StoredCompanionLifecycle| l@)
}

/// The values of queues, in order.
pub open spec fn queue_views(v: Seq<StoredCompanionQueue>) -> Seq<QueueView> {
    v.map_values(|q: StoredCompanionQueue| q@)
}

/// A decoded companion aggregate.
#[derive(Clone, Debug, Default, PartialEq)]
pub struct StoredCompanions {
    /// Schema the bytes came from; zero means no aggregate file exists yet.
    pub source_schema: u32,
    pub revision: u64,
    pub agent_namespace_id: Identity,
    pub records: Vec<CompanionBody>,
    pub lifecycles: Vec<StoredCompanionLifecycle>,
    pub queues: Vec<StoredCompanionQueue>,
}

/// The value of a decoded aggregate.
pub struct CompanionsView {
    pub source_schema: u32,
    pub revision: u64,
    pub agent_namespace_id: PlayerId,
    pub records: Seq<CompanionBody>,
    pub lifecycles: Seq<LifecycleView>,
    pub queues: Seq<QueueView>,
}

impl View for StoredCompanions {
    type V = CompanionsView;

    open spec fn view(&self) -> CompanionsView {
        CompanionsView {
            source_schema: self.source_schema,
            revision: self.revision,
            agent_namespace_id: self.agent_namespace_id,
            records: self.records@,
            lifecycles: lifecycle_views(self.lifecycles@),
            queues: queue_views(self.queues@),
        }
    }
}

/// A v5 companion aggregate save request.
///
/// `lifecycles` must be the same ID set as `records`, and queues may only
/// reference active records. Input vectors are read but never mutated.
#[derive(Clone, Debug, PartialEq)]
pub struct CompanionSave {
    pub revision: u64,
    pub agent_namespace_id: Identity,
    pub records: Vec<CompanionBody>,
    pub lifecycles: Vec<StoredCompanionLifecycle>,
    pub queues: Vec<StoredCompanionQueue>,
}

/// The value of a save request.
pub struct SaveView {
    pub revision: u64,
    pub agent_namespace_id: PlayerId,
    pub records: Seq<CompanionBody>,
    pub lifecycles: Seq<LifecycleView>,
    pub queues: Seq<QueueView>,
}

impl View for CompanionSave {
    type V = SaveView;

    open spec fn view(&self) -> SaveView {
        SaveView {
            revision: self.revision,
            agent_namespace_id: self.agent_namespace_id,
            records: self.records@,
            lifecycles: lifecycle_views(self.lifecycles@),
            queues: queue_views(self.queues@),
        }
    }
}

/// A body the codec accepts: a valid identity in the overworld with finite
/// orientation, a pitch within a quarter turn, and a canonical inventory.
pub open spec fn body_ok(b: CompanionBody) -> bool {
    &&& spec_id_is_valid(b.id.bytes@)
    &&& b.dimension == OVERWORLD
    &&& f32_finite(b.position@[0]) && f32_finite(b.position@[1]) && f32_finite(b.position@[2])
    &&& f32_finite(b.yaw)
    &&& f32_finite(b.pitch) && pitch_in_range(b.pitch)
    &&& inventory_valid(b.inventory)
}

/// A vertical step coordinate inside the world.
pub open spec fn step_y_ok(y: i32) -> bool {
    MIN_Y <= y < MAX_Y
}

/// One plan step's structure. v2 only ever wrote `go_to`; v3 onward accepts
/// the delivered kinds, keeps every unused field zero, and allows a follow
/// target only as the last step.
pub open spec fn step_ok(s: PlanStep, index: int, total: int, schema: u32) -> bool {
    if schema == SCHEMA_V2 {
        s.kind == PLAN_STEP_GO_TO && step_y_ok(s.y)
    } else if s.kind == PLAN_STEP_GO_TO || s.kind == PLAN_STEP_MINE {
        s.block == 0 && spec_id_is_zero(s.player_id.bytes@) && step_y_ok(s.y)
    } else if s.kind == PLAN_STEP_PLACE {
        spec_id_is_zero(s.player_id.bytes@) && step_y_ok(s.y)
    } else if s.kind == PLAN_STEP_FOLLOW {
        &&& s.x == 0 && s.y == 0 && s.z == 0 && s.block == 0
        &&& spec_id_is_valid(s.player_id.bytes@)
        &&& index == total - 1
    } else {
        false
    }
}

/// The plan holds a follow step.
pub open spec fn has_follow(steps: Seq<PlanStep>) -> bool {
    exists|i: int| 0 <= i < steps.len() && #[trigger] steps[i].kind == PLAN_STEP_FOLLOW
}

/// A task the codec accepts: a known state with a matching failure reason, a
/// bounded command, plan progress exactly while running, valid steps, and no
/// deadline on a sustained follow.
pub open spec fn task_ok(t: TaskView, schema: u32) -> bool {
    &&& TASK_QUEUED <= t.state <= TASK_STOPPED
    &&& if t.state == TASK_FAILED {
        TASK_FAIL_PLANNER_UNAVAILABLE <= t.fail_reason <= TASK_FAIL_INVENTORY_FULL
    } else {
        t.fail_reason == TASK_FAIL_NONE
    }
    &&& command_text_ok(t.command, MAX_TASK_COMMAND_BYTES as nat)
    &&& if t.state == TASK_RUNNING {
        t.plan_steps.len() > 0 && 0 <= t.step_index < t.plan_steps.len()
    } else {
        t.plan_steps.len() == 0 && t.step_index == 0 && t.start_tick == 0 && t.deadline_ticks == 0
    }
    &&& t.plan_steps.len() <= MAX_PLAN_STEPS
    &&& forall|i: int|
        0 <= i < t.plan_steps.len() ==> #[trigger] step_ok(
            t.plan_steps[i],
            i,
            t.plan_steps.len() as int,
            schema,
        )
    &&& has_follow(t.plan_steps) ==> t.deadline_ticks == 0
}

/// Every field of the task is zero.
pub open spec fn task_is_zero(t: TaskView) -> bool {
    &&& t.command.len() == 0
    &&& t.plan_steps.len() == 0
    &&& t.step_index == 0
    &&& t.state == 0
    &&& t.start_tick == 0
    &&& t.deadline_ticks == 0
    &&& t.fail_reason == TASK_FAIL_NONE
}

/// A queue the codec accepts: non-empty, with a valid identity, a valid task
/// exactly when it has one (else an all-zero task), and bounded FIFO entries
/// and summary.
pub open spec fn queue_ok(q: QueueView, schema: u32) -> bool {
    &&& q.has_current || q.pending.len() > 0 || q.summary.len() > 0
    &&& spec_id_is_valid(q.id.bytes@)
    &&& if q.has_current {
        task_ok(q.current, schema)
    } else {
        task_is_zero(q.current)
    }
    &&& q.pending.len() <= MAX_FIFO_ENTRIES
    &&& forall|i: int|
        0 <= i < q.pending.len() ==> command_text_ok(
            #[trigger] q.pending[i],
            MAX_TASK_COMMAND_BYTES as nat,
        )
    &&& free_text_ok(q.summary, MAX_SUMMARY_BYTES as nat)
}

/// A v5 lifecycle the codec accepts: an active record keeps no tombstone and
/// either a canonical-zero memory or a valid operation with a bounded summary;
/// an inactive record keeps only a valid tombstone.
pub open spec fn lifecycle_ok(l: LifecycleView) -> bool {
    &&& spec_id_is_valid(l.id.bytes@)
    &&& l.memory_epoch != 0
    &&& if l.active {
        &&& spec_id_is_zero(l.tombstone_operation_id.bytes@)
        &&& if l.memory_revision == 0 {
            spec_id_is_zero(l.memory_operation_id.bytes@) && l.summary.len() == 0
        } else {
            spec_id_is_valid(l.memory_operation_id.bytes@) && free_text_ok(
                l.summary,
                MAX_SUMMARY_BYTES as nat,
            )
        }
    } else {
        &&& l.memory_revision == 0
        &&& spec_id_is_zero(l.memory_operation_id.bytes@)
        &&& l.summary.len() == 0
        &&& spec_id_is_valid(l.tombstone_operation_id.bytes@)
    }
}

/// The bodies' ordering keys.
pub open spec fn body_keys(rs: Seq<CompanionBody>) -> Seq<u128> {
    rs.map_values(|b: CompanionBody| id_key(b.id))
}

/// The lifecycles' ordering keys.
pub open spec fn lifecycle_keys(ls: Seq<LifecycleView>) -> Seq<u128> {
    ls.map_values(|l: LifecycleView| id_key(l.id))
}

/// The queues' ordering keys.
pub open spec fn queue_keys(qs: Seq<QueueView>) -> Seq<u128> {
    qs.map_values(|q: QueueView| id_key(q.id))
}

/// The bodies in canonical ascending-ID order.
pub open spec fn sorted_bodies(rs: Seq<CompanionBody>) -> Seq<CompanionBody> {
    ascending_order(body_keys(rs)).map_values(|j: int| rs[j])
}

/// The lifecycles in canonical ascending-ID order.
pub open spec fn sorted_lifecycles(ls: Seq<LifecycleView>) -> Seq<LifecycleView> {
    ascending_order(lifecycle_keys(ls)).map_values(|j: int| ls[j])
}

/// No two keys are equal.
pub open spec fn distinct_keys(keys: Seq<u128>) -> bool {
    forall|j: int, k: int| 0 <= j < k < keys.len() ==> keys[j] != keys[k]
}

/// Some body carries the identity.
pub open spec fn has_body(rs: Seq<CompanionBody>, id: PlayerId) -> bool {
    exists|i: int| 0 <= i < rs.len() && #[trigger] rs[i].id == id
}

/// Some active lifecycle carries the identity.
pub open spec fn has_active(ls: Seq<LifecycleView>, id: PlayerId) -> bool {
    exists|i: int| 0 <= i < ls.len() && #[trigger] ls[i].id == id && ls[i].active
}

/// The number of active lifecycles.
pub open spec fn active_count(ls: Seq<LifecycleView>) -> nat
    decreases ls.len(),
{
    if ls.len() == 0 {
        0
    } else {
        active_count(ls.drop_last()) + if ls.last().active {
            1nat
        } else {
            0nat
        }
    }
}

/// A v5 save the encoder accepts.
pub open spec fn save_admitted(s: SaveView) -> bool {
    &&& s.revision != 0
    &&& spec_id_is_valid(s.agent_namespace_id.bytes@)
    &&& s.records.len() <= MAX_STORED
    &&& s.lifecycles.len() == s.records.len()
    &&& s.queues.len() <= MAX_ACTIVE
    &&& forall|i: int| 0 <= i < s.records.len() ==> #[trigger] body_ok(s.records[i])
    &&& distinct_keys(body_keys(s.records))
    &&& distinct_keys(lifecycle_keys(s.lifecycles))
    &&& forall|i: int|
        0 <= i < s.records.len() ==> (#[trigger] sorted_lifecycles(s.lifecycles)[i]).id
            == sorted_bodies(s.records)[i].id
    &&& forall|i: int| 0 <= i < s.lifecycles.len() ==> #[trigger] lifecycle_ok(s.lifecycles[i])
    &&& active_count(s.lifecycles) <= MAX_ACTIVE
    &&& forall|i: int|
        0 <= i < s.queues.len() ==> #[trigger] queue_ok(s.queues[i], CURRENT_SCHEMA)
    &&& distinct_keys(queue_keys(s.queues))
    &&& forall|i: int| 0 <= i < s.queues.len() ==> has_body(s.records, #[trigger] s.queues[i].id)
    &&& forall|i: int| 0 <= i < s.queues.len() ==> (#[trigger] s.queues[i]).summary.len() == 0
    &&& forall|i: int|
        0 <= i < s.queues.len() ==> has_active(s.lifecycles, #[trigger] s.queues[i].id)
}

/// Distinct identities are exactly distinct keys.
pub proof fn lemma_key_eq(a: PlayerId, b: PlayerId)
    ensures
        (id_key(a) == id_key(b)) == (a == b),
{
    if id_key(a) == id_key(b) {
        lemma_id_key_injective(a, b);
    }
}

/// Checks one body against the body contract.
pub fn validate_body(body: &CompanionBody) -> (res: Result<(), &'static str>)
    ensures
        res is Ok <==> body_ok(*body),
{
    if !body.id.is_valid() {
        return Err("invalid companion ID");
    }
    if body.dimension != OVERWORLD {
        return Err("unsupported companion dimension");
    }
    if !(is_finite(body.position[0]) && is_finite(body.position[1]) && is_finite(
        body.position[2],
    )) {
        return Err("non-finite companion position");
    }
    if !is_finite(body.yaw) {
        return Err("non-finite companion yaw");
    }
    if !is_finite(body.pitch) || !is_pitch_in_range(body.pitch) {
        return Err("invalid companion pitch");
    }
    if !body.inventory.is_valid() {
        return Err("invalid companion inventory");
    }
    Ok(())
}

/// Checks one plan step's structure.
fn validate_plan_step(step: &PlanStep, index: usize, total: usize, schema: u32) -> (res: Result<
    (),
    &'static str,
>)
    requires
        index < total,
    ensures
        res is Ok <==> step_ok(*step, index as int, total as int, schema),
{
    if schema == SCHEMA_V2 {
        if step.kind != PLAN_STEP_GO_TO {
            return Err("companion task plan step kind is not go_to");
        }
        if step.y < MIN_Y || step.y >= MAX_Y {
            return Err("companion task plan step Y outside world");
        }
        return Ok(());
    }
    if step.kind == PLAN_STEP_GO_TO || step.kind == PLAN_STEP_MINE {
        if step.block != 0 || !step.player_id.is_zero() {
            return Err("companion task plan step keeps unused payload");
        }
    } else if step.kind == PLAN_STEP_PLACE {
        if !step.player_id.is_zero() {
            return Err("companion task plan step keeps unused player payload");
        }
    } else if step.kind == PLAN_STEP_FOLLOW {
        if step.x != 0 || step.y != 0 || step.z != 0 || step.block != 0 {
            return Err("companion task plan step keeps unused coordinate payload");
        }
        if !step.player_id.is_valid() {
            return Err("companion task plan step follow target invalid");
        }
        if index != total - 1 {
            return Err("companion task plan step follow is not last");
        }
    } else {
        return Err("companion task plan step kind is not delivered");
    }
    if step.kind != PLAN_STEP_FOLLOW && (step.y < MIN_Y || step.y >= MAX_Y) {
        return Err("companion task plan step Y outside world");
    }
    Ok(())
}

/// Validates one task payload: enum and pairing rules, command bounds, plan
/// structure, and the "plan only persists while running" field coupling.
///
/// The schema only decides which step kinds exist; every other invariant is
/// schema independent, so encoding and decoding share this gate.
pub fn validate_task(task: &StoredCompanionTask, schema: u32) -> (res: Result<(), &'static str>)
    ensures
        res is Ok <==> task_ok(task@, schema),
{
    if task.state < TASK_QUEUED || task.state > TASK_STOPPED {
        return Err("companion task state outside enum");
    }
    if task.state == TASK_FAILED {
        if task.fail_reason < TASK_FAIL_PLANNER_UNAVAILABLE || task.fail_reason
            > TASK_FAIL_INVENTORY_FULL {
            return Err("companion task fail reason invalid");
        }
    } else if task.fail_reason != TASK_FAIL_NONE {
        return Err("companion task fail reason without failed state");
    }
    if let Err(fault) = check_command_text(&task.command, MAX_TASK_COMMAND_BYTES) {
        return Err(text_fault_message(TextField::TaskCommand, fault));
    }
    let n = task.plan_steps.len();
    if task.state == TASK_RUNNING {
        if n == 0 {
            return Err("running companion task has no plan steps");
        }
        if task.step_index < 0 || task.step_index as usize >= n {
            return Err("companion task step index outside plan");
        }
    } else if n != 0 || task.step_index != 0 || task.start_tick != 0 || task.deadline_ticks != 0 {
        return Err("companion task keeps plan progress outside running state");
    }
    if n > MAX_PLAN_STEPS {
        return Err("companion task plan steps exceed the limit");
    }
    let mut follow = false;
    let mut i: usize = 0;
    while i < n
        invariant
            n == task.plan_steps@.len(),
            i <= n,
            forall|j: int|
                0 <= j < i ==> #[trigger] step_ok(task.plan_steps@[j], j, n as int, schema),
            follow <==> exists|j: int|
                0 <= j < i && #[trigger] task.plan_steps@[j].kind == PLAN_STEP_FOLLOW,
        decreases n - i,
    {
        let step = &task.plan_steps[i];
        if let Err(detail) = validate_plan_step(step, i, n, schema) {
            return Err(detail);
        }
        if step.kind == PLAN_STEP_FOLLOW {
            follow = true;
        }
        i = i + 1;
    }
    // A sustained follow never persists a deadline: a zero deadline is the
    // runtime timeout exemption, and a nonzero one would wrongly re-arm the
    // timer after a restart.
    if follow && task.deadline_ticks != 0 {
        return Err("companion follow task keeps a deadline");
    }
    Ok(())
}

/// Reports whether a task payload is entirely zero.
fn task_is_zero_exec(task: &StoredCompanionTask) -> (b: bool)
    ensures
        b == task_is_zero(task@),
{
    task.command.as_str().is_empty() && task.plan_steps.len() == 0 && task.step_index == 0
        && task.state == 0 && task.start_tick == 0 && task.deadline_ticks == 0 && task.fail_reason
        == TASK_FAIL_NONE
}

/// Validates one queue payload.
///
/// When `has_current` is false the current task does not reach the disk, so it
/// must be entirely zero: a nonzero value cannot be expressed on disk and
/// accepting it would silently drop data.
pub fn validate_queue(queue: &StoredCompanionQueue, schema: u32) -> (res: Result<(), &'static str>)
    ensures
        res is Ok <==> queue_ok(queue@, schema),
{
    if !queue.has_current && queue.pending.len() == 0 && queue.summary.as_str().is_empty() {
        return Err("empty companion queue");
    }
    if !queue.id.is_valid() {
        return Err("invalid companion queue ID");
    }
    if queue.has_current {
        validate_task(&queue.current, schema)?;
    } else if !task_is_zero_exec(&queue.current) {
        return Err("companion queue keeps current task without HasCurrent");
    }
    let n = queue.pending.len();
    if n > MAX_FIFO_ENTRIES {
        return Err("companion FIFO depth exceeds the limit");
    }
    let mut i: usize = 0;
    while i < n
        invariant
            n == queue.pending@.len(),
            i <= n,
            forall|j: int|
                0 <= j < i ==> command_text_ok(
                    #[trigger] texts(queue.pending@)[j],
                    MAX_TASK_COMMAND_BYTES as nat,
                ),
        decreases n - i,
    {
        if let Err(fault) = check_command_text(&queue.pending[i], MAX_TASK_COMMAND_BYTES) {
            assert(texts(queue.pending@)[i as int] == queue.pending@[i as int]@);
            return Err(text_fault_message(TextField::FifoCommand, fault));
        }
        i = i + 1;
    }
    match check_free_text(&queue.summary, MAX_SUMMARY_BYTES) {
        Ok(()) => Ok(()),
        Err(fault) => Err(text_fault_message(TextField::Summary, fault)),
    }
}

/// Validates one v5 lifecycle record.
pub fn validate_v5_lifecycle(lifecycle: &StoredCompanionLifecycle) -> (res: Result<
    (),
    &'static str,
>)
    ensures
        res is Ok <==> lifecycle_ok(lifecycle@),
{
    if !lifecycle.id.is_valid() {
        return Err("invalid companion lifecycle ID");
    }
    if lifecycle.memory_epoch == 0 {
        return Err("zero companion memory epoch");
    }
    if lifecycle.active {
        if !lifecycle.tombstone_operation_id.is_zero() {
            return Err("active companion carries tombstone");
        }
        if lifecycle.memory_revision == 0 {
            if !lifecycle.memory_operation_id.is_zero() || !lifecycle.summary.as_str().is_empty() {
                return Err("invalid canonical-zero companion memory");
            }
            return Ok(());
        }
        if !lifecycle.memory_operation_id.is_valid() {
            return Err("invalid companion memory operation");
        }
        return match check_free_text(&lifecycle.summary, MAX_SUMMARY_BYTES) {
            Ok(()) => Ok(()),
            Err(fault) => Err(text_fault_message(TextField::Summary, fault)),
        };
    }
    if lifecycle.memory_revision != 0 || !lifecycle.memory_operation_id.is_zero()
        || !lifecycle.summary.as_str().is_empty() {
        return Err("inactive companion carries memory mirror");
    }
    if !lifecycle.tombstone_operation_id.is_valid() {
        return Err("invalid companion tombstone operation");
    }
    Ok(())
}

/// The ordering keys of the bodies.
fn body_key_vec(rs: &Vec<CompanionBody>) -> (keys: Vec<u128>)
    ensures
        keys@ == body_keys(rs@),
{
    let mut keys: Vec<u128> = Vec::new();
    let mut i: usize = 0;
    while i < rs.len()
        invariant
            i <= rs@.len(),
            keys@ == body_keys(rs@).take(i as int),
        decreases rs@.len() - i,
    {
        keys.push(rs[i].id.sort_key());
        assert(keys@ =~= body_keys(rs@).take(i + 1));
        i = i + 1;
    }
    assert(keys@ =~= body_keys(rs@));
    keys
}

/// The ordering keys of the lifecycles.
fn lifecycle_key_vec(ls: &Vec<StoredCompanionLifecycle>) -> (keys: Vec<u128>)
    ensures
        keys@ == lifecycle_keys(lifecycle_views(ls@)),
{
    let mut keys: Vec<u128> = Vec::new();
    let mut i: usize = 0;
    while i < ls.len()
        invariant
            i <= ls@.len(),
            keys@ == lifecycle_keys(lifecycle_views(ls@)).take(i as int),
        decreases ls@.len() - i,
    {
        keys.push(ls[i].id.sort_key());
        assert(keys@ =~= lifecycle_keys(lifecycle_views(ls@)).take(i + 1));
        i = i + 1;
    }
    assert(keys@ =~= lifecycle_keys(lifecycle_views(ls@)));
    keys
}

/// The ordering keys of the queues.
fn queue_key_vec(qs: &Vec<StoredCompanionQueue>) -> (keys: Vec<u128>)
    ensures
        keys@ == queue_keys(queue_views(qs@)),
{
    let mut keys: Vec<u128> = Vec::new();
    let mut i: usize = 0;
    while i < qs.len()
        invariant
            i <= qs@.len(),
            keys@ == queue_keys(queue_views(qs@)).take(i as int),
        decreases qs@.len() - i,
    {
        keys.push(qs[i].id.sort_key());
        assert(keys@ =~= queue_keys(queue_views(qs@)).take(i + 1));
        i = i + 1;
    }
    assert(keys@ =~= queue_keys(queue_views(qs@)));
    keys
}

/// Reports whether no two keys are equal.
fn keys_distinct(keys: &Vec<u128>) -> (b: bool)
    ensures
        b == distinct_keys(keys@),
{
    let n = keys.len();
    let mut j: usize = 0;
    while j < n
        invariant
            n == keys@.len(),
            j <= n,
            forall|a: int, b: int| 0 <= a < j && a < b < n ==> keys@[a] != keys@[b],
        decreases n - j,
    {
        let mut k: usize = j + 1;
        while k < n
            invariant
                n == keys@.len(),
                j < n,
                j < k <= n,
                forall|b: int| j < b < k ==> keys@[j as int] != keys@[b],
            decreases n - k,
        {
            if keys[j] == keys[k] {
                return false;
            }
            k = k + 1;
        }
        j = j + 1;
    }
    true
}

/// Reports whether some body carries `id`.
fn find_body(rs: &Vec<CompanionBody>, id: &PlayerId) -> (b: bool)
    ensures
        b == has_body(rs@, *id),
{
    let mut i: usize = 0;
    while i < rs.len()
        invariant
            i <= rs@.len(),
            forall|j: int| 0 <= j < i ==> rs@[j].id != *id,
        decreases rs@.len() - i,
    {
        if rs[i].id.same_as(id) {
            return true;
        }
        i = i + 1;
    }
    false
}

/// Reports whether some active lifecycle carries `id`.
fn find_active(ls: &Vec<StoredCompanionLifecycle>, id: &PlayerId) -> (b: bool)
    ensures
        b == has_active(lifecycle_views(ls@), *id),
{
    let ghost views = lifecycle_views(ls@);
    let mut i: usize = 0;
    while i < ls.len()
        invariant
            i <= ls@.len(),
            views == lifecycle_views(ls@),
            forall|j: int| 0 <= j < i ==> !(views[j].id == *id && views[j].active),
        decreases ls@.len() - i,
    {
        if ls[i].active && ls[i].id.same_as(id) {
            assert(views[i as int].id == *id && views[i as int].active);
            return true;
        }
        i = i + 1;
    }
    false
}

/// Counts the active lifecycles.
pub(crate) fn count_active(ls: &Vec<StoredCompanionLifecycle>) -> (n: usize)
    requires
        ls@.len() <= MAX_STORED,
    ensures
        n == active_count(lifecycle_views(ls@)),
{
    let ghost views = lifecycle_views(ls@);
    let mut count: usize = 0;
    let mut i: usize = 0;
    while i < ls.len()
        invariant
            i <= ls@.len() <= MAX_STORED,
            views == lifecycle_views(ls@),
            count == active_count(views.take(i as int)),
            count <= i,
        decreases ls@.len() - i,
    {
        assert(views.take(i + 1).drop_last() =~= views.take(i as int));
        if ls[i].active {
            count = count + 1;
        }
        i = i + 1;
    }
    assert(views.take(ls@.len() as int) =~= views);
    count
}

/// The refusal of a save holding more records than the aggregate stores.
pub open spec fn count_refusal(n: u64) -> Seq<char> {
    "companion count"@ + ": "@ + ""@ + decimal_text(n) + " exceeds limit 64"@
}

/// Validates a save request and returns the positions of its bodies and of
/// its lifecycles in canonical ascending-ID order.
pub fn canonical_v5_parts(save: &CompanionSave) -> (res: StorageResult<
    (Vec<usize>, Vec<usize>, Vec<usize>),
>)
    ensures
        res is Ok <==> save_admitted(save@),
        save.revision != 0 && spec_id_is_valid(save.agent_namespace_id.bytes@) && save.records@.len()
            > MAX_STORED ==> (res matches Err(StorageError::Corrupt(m)) && m@ == count_refusal(
            save.records@.len() as u64,
        )),
        res matches Ok(parts) ==> {
            let (ro, lo, qo) = parts;
            &&& ro@.len() == save.records@.len()
            &&& lo@.len() == save.lifecycles@.len()
            &&& qo@.len() == save.queues@.len()
            &&& forall|j: int|
                0 <= j < qo@.len() ==> qo@[j] as int == ascending_order(queue_keys(save@.queues))[j]
            &&& forall|j: int|
                0 <= j < ro@.len() ==> ro@[j] as int == ascending_order(
                    body_keys(save.records@),
                )[j]
            &&& forall|j: int|
                0 <= j < lo@.len() ==> lo@[j] as int == ascending_order(
                    lifecycle_keys(save@.lifecycles),
                )[j]
        },
        res matches Err(e) ==> e is Corrupt,
{
    let ghost sv = save@;
    if save.revision == 0 {
        return Err(corrupt("companion revision", "zero revision"));
    }
    if !save.agent_namespace_id.is_valid() {
        return Err(corrupt("companion agent namespace", "not a canonical UUIDv4"));
    }
    // Count gates run before any per-record scan: an oversized request reports
    // its count even when its first body is also invalid.
    let n = save.records.len();
    if n > MAX_STORED {
        return Err(corrupt_numbered("companion count", "", n as u64, " exceeds limit 64"));
    }
    if save.lifecycles.len() != n {
        return Err(corrupt("companion lifecycles", "set does not match records"));
    }
    if save.queues.len() > MAX_ACTIVE {
        return Err(corrupt("companion queues", "exceed the active limit"));
    }
    let mut i: usize = 0;
    while i < n
        invariant
            save.records@.len() <= MAX_STORED,
            n == save.records@.len(),
            i <= n,
            forall|j: int| 0 <= j < i ==> #[trigger] body_ok(save.records@[j]),
        decreases n - i,
    {
        if let Err(detail) = validate_body(&save.records[i]) {
            return Err(corrupt_at("companion record", i, detail));
        }
        i = i + 1;
    }
    let record_keys = body_key_vec(&save.records);
    if !keys_distinct(&record_keys) {
        return Err(corrupt("companion records", "duplicate companion ID"));
    }
    let life_keys = lifecycle_key_vec(&save.lifecycles);
    if !keys_distinct(&life_keys) {
        return Err(corrupt("companion lifecycles", "duplicate ID"));
    }
    let record_order = ascending_order_of(&record_keys);
    let life_order = ascending_order_of(&life_keys);
    proof {
        crate::canonical_order::lemma_order_of(record_keys@, n as nat);
        crate::canonical_order::lemma_order_of(life_keys@, n as nat);
    }
    let mut j: usize = 0;
    while j < n
        invariant
            save.records@.len() <= MAX_STORED,
            n == save.records@.len(),
            n == save.lifecycles@.len(),
            sv == save@,
            j <= n,
            record_order@.len() == n,
            life_order@.len() == n,
            forall|k: int|
                0 <= k < n ==> record_order@[k] as int == ascending_order(body_keys(sv.records))[k],
            forall|k: int|
                0 <= k < n ==> life_order@[k] as int == ascending_order(
                    lifecycle_keys(sv.lifecycles),
                )[k],
            crate::canonical_order::distinct_positions(ascending_order(body_keys(sv.records)), n as nat),
            crate::canonical_order::distinct_positions(
                ascending_order(lifecycle_keys(sv.lifecycles)),
                n as nat,
            ),
            forall|k: int|
                0 <= k < j ==> (#[trigger] sorted_lifecycles(sv.lifecycles)[k]).id
                    == sorted_bodies(sv.records)[k].id,
        decreases n - j,
    {
        let r = record_order[j];
        let l = life_order[j];
        assert(sorted_bodies(sv.records)[j as int] == sv.records[r as int]);
        assert(sorted_lifecycles(sv.lifecycles)[j as int] == sv.lifecycles[l as int]);
        if !save.lifecycles[l].id.same_as(&save.records[r].id) {
            return Err(corrupt("companion lifecycles", "set does not match records"));
        }
        j = j + 1;
    }
    let mut k: usize = 0;
    while k < n
        invariant
            save.records@.len() <= MAX_STORED,
            n == save.lifecycles@.len(),
            sv == save@,
            k <= n,
            forall|m: int| 0 <= m < k ==> #[trigger] lifecycle_ok(sv.lifecycles[m]),
        decreases n - k,
    {
        if let Err(detail) = validate_v5_lifecycle(&save.lifecycles[k]) {
            assert(sv.lifecycles[k as int] == save.lifecycles@[k as int]@);
            assert(!lifecycle_ok(sv.lifecycles[k as int]));
            return Err(corrupt_at("companion lifecycle", k, detail));
        }
        k = k + 1;
    }
    if count_active(&save.lifecycles) > MAX_ACTIVE {
        return Err(corrupt("companion active count", "exceeds the active limit"));
    }
    let q = save.queues.len();
    let mut m: usize = 0;
    while m < q
        invariant
            save.records@.len() <= MAX_STORED,
            q == save.queues@.len(),
            sv == save@,
            m <= q,
            forall|t: int| 0 <= t < m ==> #[trigger] queue_ok(sv.queues[t], CURRENT_SCHEMA),
        decreases q - m,
    {
        if let Err(detail) = validate_queue(&save.queues[m], CURRENT_SCHEMA) {
            assert(sv.queues[m as int] == save.queues@[m as int]@);
            assert(!queue_ok(sv.queues[m as int], CURRENT_SCHEMA));
            return Err(corrupt_at("companion queue", m, detail));
        }
        m = m + 1;
    }
    let q_keys = queue_key_vec(&save.queues);
    if !keys_distinct(&q_keys) {
        return Err(corrupt("companion queues", "duplicate companion queue ID"));
    }
    let mut t: usize = 0;
    while t < q
        invariant
            save.records@.len() <= MAX_STORED,
            q == save.queues@.len(),
            sv == save@,
            t <= q,
            forall|u: int| 0 <= u < t ==> has_body(sv.records, #[trigger] sv.queues[u].id),
            forall|u: int| 0 <= u < t ==> (#[trigger] sv.queues[u]).summary.len() == 0,
            forall|u: int| 0 <= u < t ==> has_active(sv.lifecycles, #[trigger] sv.queues[u].id),
        decreases q - t,
    {
        let queue = &save.queues[t];
        assert(sv.queues[t as int] == queue@);
        if !find_body(&save.records, &queue.id) {
            assert(!has_body(sv.records, sv.queues[t as int].id));
            return Err(corrupt("companion queues", "companion queue without body record"));
        }
        if !queue.summary.as_str().is_empty() {
            assert(sv.queues[t as int].summary.len() != 0);
            return Err(corrupt("companion queues", "v5 queue carries legacy summary"));
        }
        if !find_active(&save.lifecycles, &queue.id) {
            assert(!has_active(sv.lifecycles, sv.queues[t as int].id));
            return Err(corrupt("companion queues", "inactive companion carries task or FIFO"));
        }
        t = t + 1;
    }
    let queue_order = ascending_order_of(&q_keys);
    Ok((record_order, life_order, queue_order))
}

} // verus!
