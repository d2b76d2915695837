//! The canonical ascending-key order in which aggregate saves emit records.
//!
//! The order is a stable insertion sort of record positions by key. The
//! encoders compute it with the very same insertion steps, so the emitted
//! order is exactly `ascending_order` of the records' keys.
use vstd::prelude::*;

verus! {

broadcast use vstd::seq::group_seq_axioms;

/// Inserts position `i` into `order` after every position whose key is not
/// greater than `keys[i]`.
pub open spec fn insert_index(order: Seq<int>, keys: Seq<u128>, i: int) -> Seq<int>
    decreases order.len(),
{
    if order.len() == 0 {
        seq![i]
    } else if keys[i] < keys[order[0]] {
        seq![i] + order
    } else {
        seq![order[0]] + insert_index(order.drop_first(), keys, i)
    }
}

/// Where `insert_index` places `i`: after the leading positions whose keys
/// are not greater than `keys[i]`.
pub open spec fn insert_pos(order: Seq<int>, keys: Seq<u128>, i: int) -> int
    decreases order.len(),
{
    if order.len() == 0 {
        0
    } else if keys[i] < keys[order[0]] {
        0
    } else {
        1 + insert_pos(order.drop_first(), keys, i)
    }
}

/// Positions `0..n` of `keys` in ascending key order; equal keys keep their
/// input order.
pub open spec fn order_of(keys: Seq<u128>, n: nat) -> Seq<int>
    decreases n,
{
    if n == 0 {
        Seq::empty()
    } else {
        insert_index(order_of(keys, (n - 1) as nat), keys, n - 1)
    }
}

/// Every position of `keys` in ascending key order.
pub open spec fn ascending_order(keys: Seq<u128>) -> Seq<int> {
    order_of(keys, keys.len())
}

/// `order` lists distinct positions below `n`, `n` of them.
pub open spec fn distinct_positions(order: Seq<int>, n: nat) -> bool {
    &&& order.len() == n
    &&& forall|j: int| 0 <= j < n ==> 0 <= #[trigger] order[j] < n
    &&& forall|j: int, k: int| 0 <= j < k < n ==> order[j] != order[k]
}

/// Keys never decrease along `order`.
pub open spec fn keys_ascend(order: Seq<int>, keys: Seq<u128>) -> bool {
    forall|j: int, k: int| 0 <= j < k < order.len() ==> keys[order[j]] <= keys[order[k]]
}

/// Keys strictly increase from each position to the next.
pub open spec fn strictly_ascending(keys: Seq<u128>) -> bool {
    forall|j: int, k: int| 0 <= j < k < keys.len() ==> keys[j] < keys[k]
}

/// No two positions carry the same key.
pub open spec fn keys_distinct(keys: Seq<u128>) -> bool {
    forall|j: int, k: int| 0 <= j < k < keys.len() ==> keys[j] != keys[k]
}

/// `insert_index` splices `i` in at `insert_pos`, which is the first position
/// whose key exceeds `keys[i]`.
pub proof fn lemma_insert_index(order: Seq<int>, keys: Seq<u128>, i: int)
    ensures
        0 <= insert_pos(order, keys, i) <= order.len(),
        insert_index(order, keys, i) == order.take(insert_pos(order, keys, i)) + seq![i]
            + order.skip(insert_pos(order, keys, i)),
        forall|q: int|
            0 <= q < insert_pos(order, keys, i) ==> !(keys[i] < #[trigger] keys[order[q]]),
        insert_pos(order, keys, i) < order.len() ==> keys[i] < keys[order[insert_pos(
            order,
            keys,
            i,
        )]],
    decreases order.len(),
{
    if order.len() == 0 {
        assert(order.take(0) + seq![i] + order.skip(0) =~= seq![i]);
    } else if keys[i] < keys[order[0]] {
        assert(order.take(0) + seq![i] + order.skip(0) =~= seq![i] + order);
    } else {
        let rest = order.drop_first();
        lemma_insert_index(rest, keys, i);
        let p = insert_pos(rest, keys, i);
        assert(order.take(p + 1) + seq![i] + order.skip(p + 1) =~= seq![order[0]] + (rest.take(p)
            + seq![i] + rest.skip(p)));
        assert forall|q: int| 0 <= q < p + 1 implies !(keys[i] < #[trigger] keys[order[q]]) by {
            if q > 0 {
                assert(order[q] == rest[q - 1]);
            }
        }
        if p < rest.len() {
            assert(order[p + 1] == rest[p]);
        }
    }
}

/// Insertion keeps the order ascending and the positions distinct.
proof fn lemma_insert_keeps(order: Seq<int>, keys: Seq<u128>, i: int)
    requires
        0 <= i < keys.len(),
        distinct_positions(order, i as nat),
        keys_ascend(order, keys),
    ensures
        distinct_positions(insert_index(order, keys, i), (i + 1) as nat),
        keys_ascend(insert_index(order, keys, i), keys),
{
    lemma_insert_index(order, keys, i);
    let p = insert_pos(order, keys, i);
    let r = insert_index(order, keys, i);
    assert forall|j: int| 0 <= j < i + 1 implies 0 <= #[trigger] r[j] < i + 1 by {
        if j < p {
            assert(r[j] == order[j]);
        } else if j > p {
            assert(r[j] == order[j - 1]);
        }
    }
    assert forall|j: int, k: int| 0 <= j < k < i + 1 implies r[j] != r[k] by {
        if j < p && k < p {
            assert(r[j] == order[j] && r[k] == order[k]);
        } else if j < p && k == p {
            assert(r[j] == order[j]);
        } else if j < p && k > p {
            assert(r[j] == order[j] && r[k] == order[k - 1]);
        } else if j == p {
            assert(r[k] == order[k - 1]);
        } else {
            assert(r[j] == order[j - 1] && r[k] == order[k - 1]);
        }
    }
    assert forall|j: int, k: int| 0 <= j < k < r.len() implies keys[r[j]] <= keys[r[k]] by {
        if j < p && k < p {
            assert(r[j] == order[j] && r[k] == order[k]);
        } else if j < p && k == p {
            assert(r[j] == order[j]);
            assert(!(keys[i] < keys[order[j]]));
        } else if j < p && k > p {
            assert(r[j] == order[j] && r[k] == order[k - 1]);
        } else if j == p {
            assert(r[k] == order[k - 1]);
            assert(keys[i] < keys[order[p]]);
            if k - 1 > p {
                assert(keys[order[p]] <= keys[order[k - 1]]);
            }
        } else {
            assert(r[j] == order[j - 1] && r[k] == order[k - 1]);
        }
    }
}

/// The order of `n` positions lists each of them once, with ascending keys.
pub proof fn lemma_order_of(keys: Seq<u128>, n: nat)
    requires
        n <= keys.len(),
    ensures
        distinct_positions(order_of(keys, n), n),
        keys_ascend(order_of(keys, n), keys),
    decreases n,
{
    if n > 0 {
        lemma_order_of(keys, (n - 1) as nat);
        lemma_insert_keeps(order_of(keys, (n - 1) as nat), keys, n - 1);
    }
}

/// With distinct keys, keys strictly increase along the ascending order.
pub proof fn lemma_ascending_order_strict(keys: Seq<u128>)
    requires
        keys_distinct(keys),
    ensures
        distinct_positions(ascending_order(keys), keys.len()),
        forall|j: int, k: int|
            0 <= j < k < keys.len() ==> keys[ascending_order(keys)[j]] < keys[ascending_order(
                keys,
            )[k]],
{
    lemma_order_of(keys, keys.len());
    let o = ascending_order(keys);
    assert forall|j: int, k: int| 0 <= j < k < keys.len() implies keys[o[j]] < keys[o[k]] by {
        assert(o[j] != o[k]);
        assert(0 <= o[j] < keys.len() && 0 <= o[k] < keys.len());
        if o[j] < o[k] {
            assert(keys[o[j]] != keys[o[k]]);
        } else {
            assert(keys[o[k]] != keys[o[j]]);
        }
    }
}

/// Keys that already strictly ascend are left in place.
pub proof fn lemma_ascending_order_identity(keys: Seq<u128>, n: nat)
    requires
        n <= keys.len(),
        strictly_ascending(keys),
    ensures
        order_of(keys, n) == Seq::new(n, |j: int| j),
    decreases n,
{
    if n > 0 {
        let m = (n - 1) as nat;
        lemma_ascending_order_identity(keys, m);
        let prev = order_of(keys, m);
        lemma_insert_index(prev, keys, n - 1);
        let p = insert_pos(prev, keys, n - 1);
        if p < m {
            assert(prev[p] == p);
            assert(keys[p] < keys[n - 1]);
        }
        assert(prev.take(p) + seq![n - 1] + prev.skip(p) =~= Seq::new(n, |j: int| j));
    }
}

/// Computes `ascending_order(keys)` by stable insertion.
pub fn ascending_order_of(keys: &Vec<u128>) -> (order: Vec<usize>)
    ensures
        order@.len() == keys@.len(),
        forall|j: int| 0 <= j < keys@.len() ==> order@[j] as int == ascending_order(keys@)[j],
{
    let n = keys.len();
    let mut order: Vec<usize> = Vec::new();
    let mut i: usize = 0;
    while i < n
        invariant
            n == keys@.len(),
            i <= n,
            order@.len() == i,
            distinct_positions(order_of(keys@, i as nat), i as nat),
            forall|j: int| 0 <= j < i ==> order@[j] as int == order_of(keys@, i as nat)[j],
        decreases n - i,
    {
        let ghost prev = order_of(keys@, i as nat);
        proof {
            lemma_order_of(keys@, (i + 1) as nat);
            lemma_insert_index(prev, keys@, i as int);
        }
        let key = keys[i];
        let mut p: usize = 0;
        while p < order.len() && !(key < keys[order[p]])
            invariant
                n == keys@.len(),
                i < n,
                key == keys@[i as int],
                order@.len() == i,
                p <= i,
                distinct_positions(prev, i as nat),
                forall|j: int| 0 <= j < i ==> #[trigger] order@[j] as int == prev[j],
                forall|q: int| 0 <= q < p ==> !(keys@[i as int] < #[trigger] keys@[prev[q]]),
            decreases i - p,
        {
            p = p + 1;
        }
        proof {
            let ip = insert_pos(prev, keys@, i as int);
            if ip < p {
                assert(!(keys@[i as int] < keys@[prev[ip]]));
            }
            if p < ip {
                assert(!(keys@[i as int] < keys@[prev[p as int]]));
            }
        }
        order.insert(p, i);
        proof {
            let next = order_of(keys@, (i + 1) as nat);
            assert(next == prev.take(p as int) + seq![i as int] + prev.skip(p as int));
            assert forall|j: int| 0 <= j < i + 1 implies order@[j] as int == next[j] by {
                if j < p {
                    assert(next[j] == prev[j]);
                } else if j > p {
                    assert(next[j] == prev[j - 1]);
                }
            }
        }
        i = i + 1;
    }
    order
}


/// `ys` holds the items of `xs` in another order: `ys[i]` is `xs[p[i]]`, and
/// `p` lists every position of `xs` once.
pub open spec fn is_reordering<A>(xs: Seq<A>, ys: Seq<A>, p: Seq<int>) -> bool {
    &&& ys.len() == xs.len()
    &&& distinct_positions(p, xs.len())
    &&& forall|i: int| 0 <= i < ys.len() ==> #[trigger] ys[i] == xs[p[i]]
}

/// Position `x` occurs among the first `n` entries of `order`.
pub open spec fn occurs_in(order: Seq<int>, n: nat, x: int) -> bool {
    exists|j: int| 0 <= j < n && order[j] == x
}

/// An order of `n` distinct positions below `n` lists every such position.
pub proof fn lemma_positions_onto(order: Seq<int>, n: nat, x: int)
    requires
        distinct_positions(order, n),
        0 <= x < n,
    ensures
        occurs_in(order, n, x),
{
    broadcast use vstd::set::group_set_axioms, vstd::seq_lib::seq_to_set_is_finite;

    assert(order.no_duplicates()) by {
        assert forall|i: int, j: int|
            0 <= i < order.len() && 0 <= j < order.len() && i != j implies order[i] != order[j] by {
            if i < j {
                assert(order[i] != order[j]);
            } else {
                assert(order[j] != order[i]);
            }
        }
    }
    order.unique_seq_to_set();
    vstd::set_lib::lemma_int_range(0, n as int);
    let range = vstd::set_lib::set_int_range(0, n as int);
    assert(order.to_set().subset_of(range)) by {
        assert forall|v: int| order.to_set().contains(v) implies range.contains(v) by {
            let j = choose|j: int| 0 <= j < order.len() && order[j] == v;
            assert(0 <= order[j] < n);
        }
    }
    vstd::set_lib::lemma_subset_equality(order.to_set(), range);
    assert(range.contains(x));
    assert(order.to_set().contains(x));
}

/// A reordering can be undone: `xs` is in turn a reordering of `ys`.
pub proof fn lemma_inverse_reordering<A>(xs: Seq<A>, ys: Seq<A>, p: Seq<int>) -> (q: Seq<int>)
    requires
        is_reordering(xs, ys, p),
    ensures
        is_reordering(ys, xs, q),
        forall|i: int| 0 <= i < xs.len() ==> #[trigger] p[q[i]] == i,
{
    let n = xs.len();
    assert forall|i: int| 0 <= i < n implies #[trigger] occurs_in(p, n, i) by {
        lemma_positions_onto(p, n, i);
    }
    let q = Seq::new(n, |i: int| choose|j: int| 0 <= j < n && p[j] == i);
    assert forall|i: int| 0 <= i < n implies 0 <= #[trigger] q[i] < n && p[q[i]] == i by {
        assert(occurs_in(p, n, i));
    }
    assert forall|a: int, b: int| 0 <= a < b < n implies q[a] != q[b] by {
        assert(p[q[a]] == a && p[q[b]] == b);
    }
    assert forall|i: int| 0 <= i < n implies #[trigger] xs[i] == ys[q[i]] by {
        assert(p[q[i]] == i);
        assert(ys[q[i]] == xs[p[q[i]]]);
    }
    q
}

/// `s` holds the value `v` somewhere.
pub open spec fn holds_value(s: Seq<u128>, v: u128) -> bool {
    exists|b: int| 0 <= b < s.len() && s[b] == v
}

/// Two strictly ascending sequences of one length, each holding every value
/// of the other, agree up to position `j`.
proof fn lemma_strict_same_values(s1: Seq<u128>, s2: Seq<u128>, j: int)
    requires
        s1.len() == s2.len(),
        0 <= j < s1.len(),
        strictly_ascending(s1),
        strictly_ascending(s2),
        forall|a: int| 0 <= a < s1.len() ==> #[trigger] holds_value(s2, s1[a]),
        forall|a: int| 0 <= a < s2.len() ==> #[trigger] holds_value(s1, s2[a]),
    ensures
        forall|m: int| 0 <= m <= j ==> s1[m] == s2[m],
    decreases j,
{
    if j > 0 {
        lemma_strict_same_values(s1, s2, j - 1);
    }
    assert(holds_value(s2, s1[j]));
    let m = choose|b: int| 0 <= b < s2.len() && s2[b] == s1[j];
    if m < j {
        assert(s2[m] == s1[m]);
        assert(s1[m] < s1[j]);
    }
    assert(holds_value(s1, s2[j]));
    let m2 = choose|b: int| 0 <= b < s1.len() && s1[b] == s2[j];
    if m2 < j {
        assert(s1[m2] == s2[m2]);
        assert(s2[m2] < s2[j]);
    }
    if m > j {
        assert(s2[j] < s2[m]);
    }
    if m2 > j {
        assert(s1[j] < s1[m2]);
    }
}

/// Reordering items with distinct keys does not change which item comes
/// `j`-th in ascending key order: the reordered sequence's `j`-th item is the
/// original's `j`-th.
pub proof fn lemma_ascending_reorder(k1: Seq<u128>, k2: Seq<u128>, p: Seq<int>)
    requires
        is_reordering(k1, k2, p),
        keys_distinct(k1),
    ensures
        keys_distinct(k2),
        forall|j: int|
            0 <= j < k1.len() ==> p[#[trigger] ascending_order(k2)[j]] == ascending_order(k1)[j],
{
    let n = k1.len();
    assert forall|a: int, b: int| 0 <= a < b < n implies k2[a] != k2[b] by {
        assert(p[a] != p[b]);
        if p[a] < p[b] {
            assert(k1[p[a]] != k1[p[b]]);
        } else {
            assert(k1[p[b]] != k1[p[a]]);
        }
    }
    lemma_ascending_order_strict(k1);
    lemma_ascending_order_strict(k2);
    let o1 = ascending_order(k1);
    let o2 = ascending_order(k2);
    let s1 = Seq::new(n, |j: int| k1[o1[j]]);
    let s2 = Seq::new(n, |j: int| k2[o2[j]]);
    assert forall|a: int| 0 <= a < n implies #[trigger] holds_value(s2, s1[a]) by {
        let x = o1[a];
        lemma_positions_onto(p, n, x);
        assert(occurs_in(p, n, x));
        let c = choose|c: int| 0 <= c < n && p[c] == x;
        lemma_positions_onto(o2, n, c);
        assert(occurs_in(o2, n, c));
        let b = choose|b: int| 0 <= b < n && o2[b] == c;
        assert(s2[b] == k2[c]);
        assert(k2[c] == k1[p[c]]);
    }
    assert forall|a: int| 0 <= a < n implies #[trigger] holds_value(s1, s2[a]) by {
        let c = o2[a];
        let x = p[c];
        assert(k2[c] == k1[x]);
        lemma_positions_onto(o1, n, x);
        assert(occurs_in(o1, n, x));
        let b = choose|b: int| 0 <= b < n && o1[b] == x;
        assert(s1[b] == k1[x]);
    }
    if n > 0 {
        lemma_strict_same_values(s1, s2, n - 1);
    }
    assert forall|j: int| 0 <= j < n implies p[#[trigger] ascending_order(k2)[j]] == ascending_order(
        k1,
    )[j] by {
        assert(s1[j] == s2[j]);
        let c = o2[j];
        assert(k2[c] == k1[p[c]]);
        assert(0 <= p[c] < n && 0 <= o1[j] < n);
        if p[c] < o1[j] {
            assert(k1[p[c]] != k1[o1[j]]);
        } else if p[c] > o1[j] {
            assert(k1[o1[j]] != k1[p[c]]);
        }
    }
}

} // verus!
