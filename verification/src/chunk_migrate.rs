//! The chunk schema migration chain.
//!
//! Every step from the record's schema up to the current schema runs in
//! order, so a chunk read at any supported schema converges on one normalized
//! value. The chunk is taken by value, so a rejected migration cannot leave a
//! half-migrated record behind.
use crate::chunk::{
    CHEST_SLOTS, CHESTS_PER_CHUNK, CURRENT_SCHEMA, ChestSlot, Chunk, ChunkView, DROPS_PER_CHUNK,
    DropSlot, FURNACES_PER_CHUNK, FurnaceSlot, chest_with_generation, default_drop,
    furnace_with_generation, schema_supported, OLDEST_SCHEMA,
};
use crate::chunk_rules::is_tool;
use crate::error::{StorageError, StorageResult, corrupt, corrupt_numbered, decimal_text, future_version};
use crate::items::{ItemStack, item_max_durability, spec_item_max_durability};
use vstd::prelude::*;
use vstd::slice::slice_to_vec;

verus! {

broadcast use vstd::seq::group_seq_axioms;

/// Fills a missing durability on a tool stack; non-tools keep their value.
pub open spec fn spec_fill_full_durability(s: ItemStack) -> ItemStack {
    match spec_item_max_durability(s.item) {
        Some(full) => if s.durability == 0 {
            ItemStack { item: s.item, count: s.count, durability: full }
        } else {
            s
        },
        None => s,
    }
}

/// A drop slot that may receive a split tool item: inactive and not exhausted.
pub open spec fn reusable_drop(d: DropSlot) -> bool {
    !d.active && d.generation != u32::MAX
}

/// The lowest reusable slot at or after `i`.
pub open spec fn first_reusable_from(ds: Seq<DropSlot>, i: int) -> Option<int>
    decreases ds.len() - i,
{
    if i < 0 || i >= ds.len() {
        None
    } else if reusable_drop(ds[i]) {
        Some(i)
    } else {
        first_reusable_from(ds, i + 1)
    }
}

/// The slot one split item occupies: the target's next generation carrying a
/// single item of the source stack at the source's place and timers.
pub open spec fn split_copy(target: DropSlot, source: DropSlot) -> DropSlot {
    DropSlot {
        generation: (target.generation + 1) as u32,
        active: source.active,
        stack: ItemStack { item: source.stack.item, count: 1, durability: source.stack.durability },
        block_index: source.block_index,
        age_ticks: source.age_ticks,
        pickup_delay_ticks: source.pickup_delay_ticks,
    }
}

/// Places `n` single-item copies of `source`, each into the lowest reusable slot.
pub open spec fn place_copies(ds: Seq<DropSlot>, source: DropSlot, n: nat) -> Option<Seq<DropSlot>>
    decreases n,
{
    if n == 0 {
        Some(ds)
    } else {
        match place_copies(ds, source, (n - 1) as nat) {
            Some(d2) => match first_reusable_from(d2, 0) {
                Some(t) => Some(d2.update(t, split_copy(d2[t], source))),
                None => None,
            },
            None => None,
        }
    }
}

/// A legacy multi-item tool stack that the v4 migration splits.
pub open spec fn splits(source: DropSlot) -> bool {
    source.active && source.stack.count > 1 && is_tool(source.stack.item)
}

/// Splits the source stack at slot `i`: the slot keeps one item and each
/// further item moves into the lowest reusable slot.
pub open spec fn split_one(ds: Seq<DropSlot>, i: int, source: DropSlot) -> Option<Seq<DropSlot>> {
    if !splits(source) {
        Some(ds)
    } else {
        let kept = DropSlot {
            stack: ItemStack { item: ds[i].stack.item, count: 1, durability: ds[i].stack.durability },
            ..ds[i]
        };
        place_copies(ds.update(i, kept), source, (source.stack.count - 1) as nat)
    }
}

/// Splits the first `k` source slots, in slot order.
pub open spec fn split_all(ds: Seq<DropSlot>, sources: Seq<DropSlot>, k: nat) -> Option<Seq<DropSlot>>
    decreases k,
{
    if k == 0 {
        Some(ds)
    } else {
        match split_all(ds, sources, (k - 1) as nat) {
            Some(d2) => split_one(d2, k - 1, sources[k - 1]),
            None => None,
        }
    }
}

/// An active tool drop holding more than one item.
pub open spec fn multi_item_tool(d: DropSlot) -> bool {
    d.active && is_tool(d.stack.item) && d.stack.count > 1
}

/// Placing copies only writes single-item slots: a multi-item tool slot
/// afterwards was already there.
proof fn lemma_place_copies_single(ds: Seq<DropSlot>, source: DropSlot, n: nat)
    requires
        place_copies(ds, source, n) is Some,
    ensures
        place_copies(ds, source, n)->0.len() == ds.len(),
        forall|i: int|
            0 <= i < ds.len() && #[trigger] multi_item_tool(place_copies(ds, source, n)->0[i])
                ==> place_copies(ds, source, n)->0[i] == ds[i],
    decreases n,
{
    if n > 0 {
        lemma_place_copies_single(ds, source, (n - 1) as nat);
        let d2 = place_copies(ds, source, (n - 1) as nat)->0;
        let t = first_reusable_from(d2, 0)->0;
        lemma_first_reusable_in_range(d2, 0);
        assert(d2.len() == ds.len());
        let r = d2.update(t, split_copy(d2[t], source));
        assert(!multi_item_tool(split_copy(d2[t], source)));
        assert forall|i: int| 0 <= i < ds.len() && #[trigger] multi_item_tool(r[i]) implies r[i]
            == ds[i] by {
            if i != t {
                assert(r[i] == d2[i]);
                assert(multi_item_tool(d2[i]));
            }
        }
    }
}

/// After the first `k` sources are split, a multi-item tool slot is an
/// untouched source still to come.
proof fn lemma_split_all_single(ds: Seq<DropSlot>, k: nat)
    requires
        k <= ds.len(),
        split_all(ds, ds, k) is Some,
    ensures
        split_all(ds, ds, k)->0.len() == ds.len(),
        forall|i: int|
            0 <= i < ds.len() && #[trigger] multi_item_tool(split_all(ds, ds, k)->0[i]) ==> k <= i
                && split_all(ds, ds, k)->0[i] == ds[i],
    decreases k,
{
    if k > 0 {
        let j = k - 1;
        lemma_split_all_single(ds, j as nat);
        let d = split_all(ds, ds, j as nat)->0;
        let r = split_all(ds, ds, k)->0;
        if splits(ds[j]) {
            let kept = DropSlot {
                stack: ItemStack { item: d[j].stack.item, count: 1, durability: d[j].stack.durability },
                ..d[j]
            };
            let base = d.update(j, kept);
            lemma_place_copies_single(base, ds[j], (ds[j].stack.count - 1) as nat);
            assert forall|i: int| 0 <= i < ds.len() && #[trigger] multi_item_tool(r[i]) implies k
                <= i && r[i] == ds[i] by {
                assert(r[i] == base[i]);
                if i == j {
                    assert(!multi_item_tool(kept));
                }
                assert(base[i] == d[i]);
                assert(multi_item_tool(d[i]));
            }
        } else {
            assert forall|i: int| 0 <= i < ds.len() && #[trigger] multi_item_tool(r[i]) implies k
                <= i && r[i] == ds[i] by {
                assert(r[i] == d[i]);
                if i == j {
                    assert(d[i] == ds[i]);
                }
            }
        }
    }
}

/// The number of reusable slots at or after `i`.
pub open spec fn reusable_from(ds: Seq<DropSlot>, i: int) -> nat
    decreases ds.len() - i,
{
    if i < 0 || i >= ds.len() {
        0
    } else {
        (if reusable_drop(ds[i]) {
            1nat
        } else {
            0nat
        }) + reusable_from(ds, i + 1)
    }
}

/// The number of split copies the first `k` sources need: one per item beyond
/// the first of each legacy multi-item tool stack.
pub open spec fn copies_needed(sources: Seq<DropSlot>, k: nat) -> nat
    decreases k,
{
    if k == 0 {
        0
    } else {
        copies_needed(sources, (k - 1) as nat) + if splits(sources[k - 1]) {
            (sources[k - 1].stack.count - 1) as nat
        } else {
            0nat
        }
    }
}

/// A reusable slot is found exactly when one remains.
proof fn lemma_first_reusable_count(ds: Seq<DropSlot>, i: int)
    requires
        0 <= i,
    ensures
        (first_reusable_from(ds, i) is None) == (reusable_from(ds, i) == 0),
    decreases ds.len() - i,
{
    if i < ds.len() {
        lemma_first_reusable_count(ds, i + 1);
    }
}

/// Overwriting one slot changes the reusable count by that slot alone.
proof fn lemma_reusable_update(ds: Seq<DropSlot>, t: int, x: DropSlot, i: int)
    requires
        0 <= t < ds.len(),
        0 <= i,
    ensures
        reusable_from(ds.update(t, x), i) + (if i <= t && reusable_drop(ds[t]) {
            1nat
        } else {
            0nat
        }) == reusable_from(ds, i) + (if i <= t && reusable_drop(x) {
            1nat
        } else {
            0nat
        }),
    decreases ds.len() - i,
{
    if i < ds.len() {
        lemma_reusable_update(ds, t, x, i + 1);
    }
}

/// Placing `n` copies of an active source succeeds exactly when `n` reusable
/// slots remain, and uses up `n` of them.
proof fn lemma_place_copies_count(ds: Seq<DropSlot>, source: DropSlot, n: nat)
    requires
        source.active,
    ensures
        (place_copies(ds, source, n) is Some) == (n <= reusable_from(ds, 0)),
        place_copies(ds, source, n) matches Some(r) ==> r.len() == ds.len() && reusable_from(r, 0)
            + n == reusable_from(ds, 0),
    decreases n,
{
    if n > 0 {
        lemma_place_copies_count(ds, source, (n - 1) as nat);
        if let Some(d2) = place_copies(ds, source, (n - 1) as nat) {
            lemma_first_reusable_count(d2, 0);
            lemma_first_reusable_in_range(d2, 0);
            if let Some(t) = first_reusable_from(d2, 0) {
                lemma_reusable_update(d2, t, split_copy(d2[t], source), 0);
            }
        }
    }
}

/// The first `k` sources split exactly when their copies fit into the
/// reusable slots, and then use up that many.
proof fn lemma_split_all_count(ds: Seq<DropSlot>, k: nat)
    requires
        k <= ds.len(),
    ensures
        (split_all(ds, ds, k) is Some) == (copies_needed(ds, k) <= reusable_from(ds, 0)),
        split_all(ds, ds, k) matches Some(r) ==> r.len() == ds.len() && reusable_from(r, 0)
            + copies_needed(ds, k) == reusable_from(ds, 0),
    decreases k,
{
    if k > 0 {
        let j = k - 1;
        lemma_split_all_count(ds, j as nat);
        if let Some(d) = split_all(ds, ds, j as nat) {
            if splits(ds[j]) {
                let kept = DropSlot {
                    stack: ItemStack {
                        item: d[j].stack.item,
                        count: 1,
                        durability: d[j].stack.durability,
                    },
                    ..d[j]
                };
                lemma_reusable_update(d, j, kept, 0);
                lemma_place_copies_count(d.update(j, kept), ds[j], (ds[j].stack.count - 1) as nat);
            }
        }
    }
}

/// The legacy tool split succeeds exactly when the drops hold enough reusable
/// slots for every item beyond the first of each multi-item tool stack; it
/// then fills exactly that many of them.
pub proof fn lemma_split_succeeds_when_slots_suffice(ds: Seq<DropSlot>)
    ensures
        (split_all(ds, ds, ds.len()) is Some) == (copies_needed(ds, ds.len()) <= reusable_from(ds, 0)),
        split_all(ds, ds, ds.len()) matches Some(r) ==> reusable_from(r, 0) + copies_needed(
            ds,
            ds.len(),
        ) == reusable_from(ds, 0),
{
    lemma_split_all_count(ds, ds.len());
}

/// How many items of kind `item` the active drops at or after `i` hold.
pub open spec fn items_from(ds: Seq<DropSlot>, item: u16, i: int) -> int
    decreases ds.len() - i,
{
    if i < 0 || i >= ds.len() {
        0
    } else {
        (if ds[i].active && ds[i].stack.item == item {
            ds[i].stack.count as int
        } else {
            0
        }) + items_from(ds, item, i + 1)
    }
}

/// What one drop adds to the count of kind `item`.
pub open spec fn items_in(d: DropSlot, item: u16) -> int {
    if d.active && d.stack.item == item {
        d.stack.count as int
    } else {
        0
    }
}

/// Overwriting one slot changes the item count by that slot alone.
proof fn lemma_items_update(ds: Seq<DropSlot>, t: int, x: DropSlot, item: u16, i: int)
    requires
        0 <= t < ds.len(),
        0 <= i,
    ensures
        items_from(ds.update(t, x), item, i) + (if i <= t {
            items_in(ds[t], item)
        } else {
            0
        }) == items_from(ds, item, i) + (if i <= t {
            items_in(x, item)
        } else {
            0
        }),
    decreases ds.len() - i,
{
    if i < ds.len() {
        lemma_items_update(ds, t, x, item, i + 1);
    }
}

/// Placing `n` copies of an active source adds `n` items of its kind, and
/// only ever writes over reusable slots.
proof fn lemma_place_copies_items(ds: Seq<DropSlot>, source: DropSlot, n: nat, item: u16)
    requires
        source.active,
        place_copies(ds, source, n) is Some,
    ensures
        place_copies(ds, source, n)->0.len() == ds.len(),
        items_from(place_copies(ds, source, n)->0, item, 0) == items_from(ds, item, 0) + (
        if source.stack.item == item {
            n as int
        } else {
            0
        }),
        forall|i: int|
            0 <= i < ds.len() ==> reusable_drop(ds[i]) || #[trigger] place_copies(
                ds,
                source,
                n,
            )->0[i] == ds[i],
    decreases n,
{
    if n > 0 {
        lemma_place_copies_items(ds, source, (n - 1) as nat, item);
        let d2 = place_copies(ds, source, (n - 1) as nat)->0;
        lemma_first_reusable_in_range(d2, 0);
        let t = first_reusable_from(d2, 0)->0;
        let c = split_copy(d2[t], source);
        lemma_items_update(d2, t, c, item, 0);
        let r = d2.update(t, c);
        assert forall|i: int| 0 <= i < ds.len() implies reusable_drop(ds[i]) || #[trigger] r[i]
            == ds[i] by {
            if i == t && !reusable_drop(ds[i]) {
                assert(d2[i] == ds[i]);
            }
        }
    }
}

/// After the first `k` sources are split, every slot from `k` on that was not
/// reusable is untouched, and every kind keeps its item count.
proof fn lemma_split_all_items(ds: Seq<DropSlot>, k: nat, item: u16)
    requires
        k <= ds.len(),
        split_all(ds, ds, k) is Some,
    ensures
        split_all(ds, ds, k)->0.len() == ds.len(),
        items_from(split_all(ds, ds, k)->0, item, 0) == items_from(ds, item, 0),
        forall|i: int|
            k <= i < ds.len() && !reusable_drop(ds[i]) ==> #[trigger] split_all(ds, ds, k)->0[i]
                == ds[i],
    decreases k,
{
    if k > 0 {
        let j = k - 1;
        lemma_split_all_items(ds, j as nat, item);
        let d = split_all(ds, ds, j as nat)->0;
        if splits(ds[j]) {
            assert(d[j] == ds[j]);
            let kept = DropSlot {
                stack: ItemStack { item: d[j].stack.item, count: 1, durability: d[j].stack.durability },
                ..d[j]
            };
            lemma_items_update(d, j, kept, item, 0);
            let base = d.update(j, kept);
            lemma_place_copies_items(base, ds[j], (ds[j].stack.count - 1) as nat, item);
            let r = split_all(ds, ds, k)->0;
            assert forall|i: int| k <= i < ds.len() && !reusable_drop(ds[i]) implies #[trigger] r[i]
                == ds[i] by {
                assert(base[i] == d[i]);
                assert(d[i] == ds[i]);
            }
        }
    }
}

/// The legacy tool split leaves no active tool drop holding more than one
/// item: every such stack is spread one item per slot.
pub proof fn lemma_split_leaves_single_tools(ds: Seq<DropSlot>)
    requires
        split_all(ds, ds, ds.len()) is Some,
    ensures
        split_all(ds, ds, ds.len())->0.len() == ds.len(),
        forall|i: int|
            0 <= i < ds.len() ==> !#[trigger] multi_item_tool(split_all(ds, ds, ds.len())->0[i]),
{
    lemma_split_all_single(ds, ds.len());
}

/// Drops with every missing tool durability filled.
pub open spec fn filled_drops(ds: Seq<DropSlot>) -> Seq<DropSlot> {
    ds.map_values(
        |d: DropSlot|
            DropSlot {
                generation: d.generation,
                active: d.active,
                stack: spec_fill_full_durability(d.stack),
                block_index: d.block_index,
                age_ticks: d.age_ticks,
                pickup_delay_ticks: d.pickup_delay_ticks,
            },
    )
}

/// The v4 drop migration: fill durability, then split legacy tool stacks;
/// `None` when no reusable slot remains for a split item.
pub open spec fn spec_migrate_v4_drops(ds: Seq<DropSlot>) -> Option<Seq<DropSlot>> {
    split_all(filled_drops(ds), filled_drops(ds), ds.len())
}

/// The empty drop, furnace and chest arrays older schemas migrate to.
pub open spec fn default_drops() -> Seq<DropSlot> {
    Seq::new(DROPS_PER_CHUNK as nat, |i: int| default_drop())
}

pub open spec fn default_furnaces() -> Seq<FurnaceSlot> {
    Seq::new(FURNACES_PER_CHUNK as nat, |i: int| furnace_with_generation(0))
}

pub open spec fn default_chests() -> Seq<crate::chunk::ChestView> {
    Seq::new(CHESTS_PER_CHUNK as nat, |i: int| chest_with_generation(0))
}

/// The migration chain from `schema` to the current schema: schema 1 gains an
/// empty drop set, schema 3 an empty furnace set, schema 4 the drop migration,
/// schema 5 an empty chest set; every other step keeps the layout.
pub open spec fn spec_migrate(schema: u32, c: ChunkView) -> Option<ChunkView> {
    let c1 = if schema <= 1 {
        ChunkView { drops: default_drops(), ..c }
    } else {
        c
    };
    let c3 = if schema <= 3 {
        ChunkView { furnaces: default_furnaces(), ..c1 }
    } else {
        c1
    };
    let c4 = if schema <= 4 {
        match spec_migrate_v4_drops(c3.drops) {
            Some(ds) => Some(ChunkView { drops: ds, ..c3 }),
            None => None,
        }
    } else {
        Some(c3)
    };
    match c4 {
        Some(c4) => Some(
            if schema <= 5 {
                ChunkView { chests: default_chests(), ..c4 }
            } else {
                c4
            },
        ),
        None => None,
    }
}

/// Fills a missing durability on a tool stack; non-tools keep the zero value.
pub fn fill_full_durability(stack: ItemStack) -> (r: ItemStack)
    ensures
        r == spec_fill_full_durability(stack),
{
    match item_max_durability(stack.item) {
        Some(full) => if stack.durability == 0 {
            ItemStack { item: stack.item, count: stack.count, durability: full }
        } else {
            stack
        },
        None => stack,
    }
}

proof fn lemma_place_none_stays(ds: Seq<DropSlot>, source: DropSlot, n: nat, m: nat)
    requires
        n <= m,
        place_copies(ds, source, n) is None,
    ensures
        place_copies(ds, source, m) is None,
    decreases m,
{
    if n < m {
        lemma_place_none_stays(ds, source, n, (m - 1) as nat);
    }
}

proof fn lemma_split_none_stays(ds: Seq<DropSlot>, sources: Seq<DropSlot>, n: nat, m: nat)
    requires
        n <= m,
        split_all(ds, sources, n) is None,
    ensures
        split_all(ds, sources, m) is None,
    decreases m,
{
    if n < m {
        lemma_split_none_stays(ds, sources, n, (m - 1) as nat);
    }
}

proof fn lemma_first_reusable_in_range(ds: Seq<DropSlot>, i: int)
    ensures
        first_reusable_from(ds, i) matches Some(t) ==> i <= t < ds.len() && reusable_drop(ds[t]),
    decreases ds.len() - i,
{
    if 0 <= i < ds.len() && !reusable_drop(ds[i]) {
        lemma_first_reusable_in_range(ds, i + 1);
    }
}

fn first_reusable(drops: &Vec<DropSlot>) -> (r: Option<usize>)
    ensures
        match r {
            Some(t) => first_reusable_from(drops@, 0) == Some(t as int) && t < drops@.len()
                && reusable_drop(drops@[t as int]),
            None => first_reusable_from(drops@, 0) is None,
        },
{
    let mut i: usize = 0;
    while i < drops.len()
        invariant
            i <= drops@.len(),
            first_reusable_from(drops@, 0) == first_reusable_from(drops@, i as int),
        decreases drops@.len() - i,
    {
        if !drops[i].active && drops[i].generation != u32::MAX {
            proof {
                lemma_first_reusable_in_range(drops@, 0);
            }
            return Some(i);
        }
        i = i + 1;
    }
    None
}

/// Splits each legacy multi-item tool drop into one slot per item, reusing
/// the lowest inactive slot that has not been exhausted. The split is rejected
/// when no reusable slot remains: the record is corrupt rather than
/// repairable by dropping items.
pub fn split_legacy_tool_drop_stacks(drops: &mut Vec<DropSlot>) -> (res: StorageResult<()>)
    ensures
        res is Ok <==> split_all(old(drops)@, old(drops)@, old(drops)@.len()) is Some,
        res is Ok ==> Some(final(drops)@) == split_all(old(drops)@, old(drops)@, old(drops)@.len()),
        res matches Err(e) ==> e is Corrupt,
        res is Ok <==> copies_needed(old(drops)@, old(drops)@.len()) <= reusable_from(old(drops)@, 0),
        res is Ok ==> forall|item: u16|
            #[trigger] items_from(final(drops)@, item, 0) == items_from(old(drops)@, item, 0),
        res is Ok ==> forall|i: int|
            0 <= i < final(drops)@.len() ==> !#[trigger] multi_item_tool(final(drops)@[i]),
{
    proof {
        lemma_split_succeeds_when_slots_suffice(old(drops)@);
        if split_all(old(drops)@, old(drops)@, old(drops)@.len()) is Some {
            lemma_split_leaves_single_tools(old(drops)@);
            assert forall|item: u16| #[trigger] items_from(
                split_all(old(drops)@, old(drops)@, old(drops)@.len())->0,
                item,
                0,
            ) == items_from(old(drops)@, item, 0) by {
                lemma_split_all_items(old(drops)@, old(drops)@.len(), item);
            }
        }
    }
    let sources = slice_to_vec(drops.as_slice());
    let ghost orig = drops@;
    let mut k: usize = 0;
    while k < sources.len()
        invariant
            sources@ == orig,
            orig == old(drops)@,
                (split_all(orig, orig, orig.len()) is Some) == (copies_needed(orig, orig.len())
                    <= reusable_from(orig, 0)),
            k <= orig.len(),
            drops@.len() == orig.len(),
            split_all(orig, orig, k as nat) == Some(drops@),
        decreases orig.len() - k,
    {
        let source = sources[k];
        if source.active && source.stack.count > 1 && item_max_durability(source.stack.item).is_some() {
            let ghost before = drops@;
            let mut kept = drops[k];
            kept.stack.count = 1;
            drops.set(k, kept);
            let ghost base = drops@;
            assert(base == before.update(k as int, DropSlot {
                stack: ItemStack {
                    item: before[k as int].stack.item,
                    count: 1,
                    durability: before[k as int].stack.durability,
                },
                ..before[k as int]
            }));
            let mut j: u8 = 1;
            while j < source.stack.count
                invariant
                    1 <= j <= source.stack.count,
                    k < orig.len(),
                    orig == old(drops)@,
                (split_all(orig, orig, orig.len()) is Some) == (copies_needed(orig, orig.len())
                    <= reusable_from(orig, 0)),
                    source == orig[k as int],
                    splits(source),
                    split_all(orig, orig, k as nat) == Some(before),
                    base == before.update(k as int, DropSlot {
                        stack: ItemStack {
                            item: before[k as int].stack.item,
                            count: 1,
                            durability: before[k as int].stack.durability,
                        },
                        ..before[k as int]
                    }),
                    drops@.len() == orig.len(),
                    place_copies(base, source, (j - 1) as nat) == Some(drops@),
                decreases source.stack.count - j,
            {
                match first_reusable(&drops) {
                    Some(t) => {
                        let target = drops[t];
                        let copy = DropSlot {
                            generation: target.generation + 1,
                            active: source.active,
                            stack: ItemStack {
                                item: source.stack.item,
                                count: 1,
                                durability: source.stack.durability,
                            },
                            block_index: source.block_index,
                            age_ticks: source.age_ticks,
                            pickup_delay_ticks: source.pickup_delay_ticks,
                        };
                        drops.set(t, copy);
                    },
                    None => {
                        proof {
                            lemma_place_none_stays(
                                base,
                                source,
                                j as nat,
                                (source.stack.count - 1) as nat,
                            );
                            assert(split_all(orig, orig, (k + 1) as nat) is None);
                            lemma_split_none_stays(orig, orig, (k + 1) as nat, orig.len());
                        }
                        return Err(corrupt_numbered("legacy tool drop", "slot ", k as u64, " has insufficient reusable drop slots"));
                    },
                }
                j = j + 1;
            }
        }
        k = k + 1;
    }
    Ok(())
}

/// Thirty-two default drop slots.
pub fn default_drop_vec() -> (v: Vec<DropSlot>)
    ensures
        v@ == default_drops(),
{
    let mut drops: Vec<DropSlot> = Vec::with_capacity(DROPS_PER_CHUNK);
    let mut i: usize = 0;
    while i < DROPS_PER_CHUNK
        invariant
            i <= DROPS_PER_CHUNK,
            drops@ == Seq::new(i as nat, |k: int| default_drop()),
        decreases DROPS_PER_CHUNK - i,
    {
        drops.push(DropSlot {
            generation: 0,
            active: false,
            stack: ItemStack { item: 0, count: 0, durability: 0 },
            block_index: 0,
            age_ticks: 0,
            pickup_delay_ticks: 0,
        });
        assert(drops@ =~= Seq::new((i + 1) as nat, |k: int| default_drop()));
        i = i + 1;
    }
    drops
}

/// Thirty-two default furnace slots.
pub fn default_furnace_vec() -> (v: Vec<FurnaceSlot>)
    ensures
        v@ == default_furnaces(),
{
    let mut furnaces: Vec<FurnaceSlot> = Vec::with_capacity(FURNACES_PER_CHUNK);
    let mut i: usize = 0;
    while i < FURNACES_PER_CHUNK
        invariant
            i <= FURNACES_PER_CHUNK,
            furnaces@ == Seq::new(i as nat, |k: int| furnace_with_generation(0)),
        decreases FURNACES_PER_CHUNK - i,
    {
        let empty = ItemStack { item: 0, count: 0, durability: 0 };
        furnaces.push(FurnaceSlot {
            generation: 0,
            active: false,
            block_index: 0,
            input: empty,
            fuel: empty,
            output: empty,
            progress_ticks: 0,
            burn_ticks: 0,
        });
        assert(furnaces@ =~= Seq::new((i + 1) as nat, |k: int| furnace_with_generation(0)));
        i = i + 1;
    }
    furnaces
}

/// Sixteen default chest slots.
pub fn default_chest_vec() -> (v: Vec<ChestSlot>)
    ensures
        v@.map_values(|c: ChestSlot| c@) == default_chests(),
{
    let mut chests: Vec<ChestSlot> = Vec::with_capacity(CHESTS_PER_CHUNK);
    let mut i: usize = 0;
    while i < CHESTS_PER_CHUNK
        invariant
            i <= CHESTS_PER_CHUNK,
            chests@.map_values(|c: ChestSlot| c@) == Seq::new(
                i as nat,
                |k: int| chest_with_generation(0),
            ),
        decreases CHESTS_PER_CHUNK - i,
    {
        let empty = ItemStack { item: 0, count: 0, durability: 0 };
        let chest = ChestSlot { generation: 0, active: false, block_index: 0, items: [empty;CHEST_SLOTS] };
        assert(chest@.items =~= crate::chunk::empty_chest_items());
        let ghost before = chests@.map_values(|c: ChestSlot| c@);
        chests.push(chest);
        assert(chests@.map_values(|c: ChestSlot| c@) =~= before.push(chest@));
        assert(chests@.map_values(|c: ChestSlot| c@) =~= Seq::new(
            (i + 1) as nat,
            |k: int| chest_with_generation(0),
        ));
        i = i + 1;
    }
    chests
}

/// Applies the v4 drop migration: missing durability is filled with the
/// tool's full durability, and legacy multi-item tool stacks are split into
/// one slot per item.
pub fn migrate_v4_drops(drops: Vec<DropSlot>) -> (res: StorageResult<Vec<DropSlot>>)
    ensures
        res is Ok <==> spec_migrate_v4_drops(drops@) is Some,
        res matches Ok(v) ==> spec_migrate_v4_drops(drops@) == Some(v@),
        res matches Err(e) ==> e is Corrupt,
{
    let mut drops = drops;
    let ghost orig = drops@;
    let mut i: usize = 0;
    while i < drops.len()
        invariant
            i <= orig.len(),
            drops@.len() == orig.len(),
            forall|k: int| 0 <= k < i ==> #[trigger] drops@[k] == filled_drops(orig)[k],
            forall|k: int| i <= k < orig.len() ==> #[trigger] drops@[k] == orig[k],
        decreases orig.len() - i,
    {
        let mut d = drops[i];
        d.stack = fill_full_durability(d.stack);
        drops.set(i, d);
        i = i + 1;
    }
    assert(drops@ =~= filled_drops(orig));
    split_legacy_tool_drop_stacks(&mut drops)?;
    Ok(drops)
}

/// Normalizes a chunk read at `schema` to the current schema, reporting
/// whether any step ran.
pub fn migrate(schema: u32, chunk: Chunk) -> (res: StorageResult<(Chunk, bool)>)
    ensures
        res is Ok <==> schema_supported(schema) && spec_migrate(schema, chunk@) is Some,
        res matches Ok((c, migrated)) ==> spec_migrate(schema, chunk@) == Some(c@) && migrated == (
        schema < CURRENT_SCHEMA),
        res matches Err(e) ==> (e is FutureVersion <==> schema > CURRENT_SCHEMA),
        res matches Err(e) ==> (e is Corrupt <==> schema <= CURRENT_SCHEMA),
        res matches Err(StorageError::FutureVersion(m)) ==> m@ == "chunk schema"@ + ": "@
            + decimal_text(schema as u64),
        schema < OLDEST_SCHEMA ==> (res matches Err(StorageError::Corrupt(m)) && m@
            == "chunk migration"@ + ": "@ + "missing migration from schema "@ + decimal_text(
            schema as u64,
        ) + ""@),
{
    if schema > CURRENT_SCHEMA {
        return Err(future_version("chunk schema", schema));
    }
    if schema < OLDEST_SCHEMA {
        return Err(corrupt_numbered("chunk migration", "missing migration from schema ", schema as u64, ""));
    }
    let Chunk { sections, drops, furnaces, chests } = chunk;
    let drops = if schema <= 1 {
        default_drop_vec()
    } else {
        drops
    };
    let furnaces = if schema <= 3 {
        default_furnace_vec()
    } else {
        furnaces
    };
    let drops = if schema <= 4 {
        migrate_v4_drops(drops)?
    } else {
        drops
    };
    let chests = if schema <= 5 {
        default_chest_vec()
    } else {
        chests
    };
    let out = Chunk { sections, drops, furnaces, chests };
    proof {
        let c = chunk@;
        let c1 = if schema <= 1 {
            ChunkView { drops: default_drops(), ..c }
        } else {
            c
        };
        let c3 = if schema <= 3 {
            ChunkView { furnaces: default_furnaces(), ..c1 }
        } else {
            c1
        };
        assert(c3.drops == (if schema <= 1 { default_drops() } else { c.drops }));
        assert(out@.sections == c.sections);
    }
    Ok((out, schema < CURRENT_SCHEMA))
}

} // verus!
