//! The order of a companion save request's lists does not matter.
//!
//! Bodies, lifecycles and queues are identified by their companion IDs, so
//! the encoder admits a request exactly when it admits any reordering of its
//! lists, and writes the same canonical file for both.
use crate::canonical_order::{
    ascending_order, is_reordering, lemma_ascending_order_strict, lemma_ascending_reorder,
    lemma_inverse_reordering,
    lemma_positions_onto, occurs_in,
};
use crate::companion::{
    CompanionBody, LifecycleView, QueueView, SaveView, active_count, body_keys, distinct_keys,
    has_active, has_body, lemma_key_eq, lifecycle_keys, queue_keys, save_admitted, sorted_bodies,
    sorted_lifecycles,
};
use crate::companion_layout::{encoding, queue_for, v5_records_bytes};
use crate::identity::{PlayerId, id_key};
use vstd::prelude::*;

verus! {

broadcast use vstd::seq::group_seq_axioms;

/// Reordering bodies with distinct IDs leaves their canonical order unchanged.
proof fn lemma_sorted_bodies_reorder(xs: Seq<CompanionBody>, ys: Seq<CompanionBody>, p: Seq<int>)
    requires
        is_reordering(xs, ys, p),
        distinct_keys(body_keys(xs)),
    ensures
        distinct_keys(body_keys(ys)),
        sorted_bodies(ys) == sorted_bodies(xs),
{
    let k1 = body_keys(xs);
    let k2 = body_keys(ys);
    assert forall|i: int| 0 <= i < k2.len() implies #[trigger] k2[i] == k1[p[i]] by {
        assert(ys[i] == xs[p[i]]);
    }
    assert(is_reordering(k1, k2, p));
    lemma_ascending_reorder(k1, k2, p);
    lemma_ascending_order_strict(k1);
    lemma_ascending_order_strict(k2);
    assert forall|j: int| 0 <= j < xs.len() implies sorted_bodies(ys)[j] == sorted_bodies(xs)[j] by {
        let c = ascending_order(k2)[j];
        assert(p[c] == ascending_order(k1)[j]);
        assert(ys[c] == xs[p[c]]);
    }
    assert(sorted_bodies(ys) =~= sorted_bodies(xs));
}

/// Reordering lifecycles with distinct IDs leaves their canonical order unchanged.
proof fn lemma_sorted_lifecycles_reorder(
    xs: Seq<LifecycleView>,
    ys: Seq<LifecycleView>,
    p: Seq<int>,
)
    requires
        is_reordering(xs, ys, p),
        distinct_keys(lifecycle_keys(xs)),
    ensures
        distinct_keys(lifecycle_keys(ys)),
        sorted_lifecycles(ys) == sorted_lifecycles(xs),
{
    let k1 = lifecycle_keys(xs);
    let k2 = lifecycle_keys(ys);
    assert forall|i: int| 0 <= i < k2.len() implies #[trigger] k2[i] == k1[p[i]] by {
        assert(ys[i] == xs[p[i]]);
    }
    assert(is_reordering(k1, k2, p));
    lemma_ascending_reorder(k1, k2, p);
    lemma_ascending_order_strict(k1);
    lemma_ascending_order_strict(k2);
    assert forall|j: int| 0 <= j < xs.len() implies sorted_lifecycles(ys)[j]
        == sorted_lifecycles(xs)[j] by {
        let c = ascending_order(k2)[j];
        assert(p[c] == ascending_order(k1)[j]);
        assert(ys[c] == xs[p[c]]);
    }
    assert(sorted_lifecycles(ys) =~= sorted_lifecycles(xs));
}

/// Taking out one lifecycle takes out its own contribution to the count.
proof fn lemma_active_count_remove(ls: Seq<LifecycleView>, a: int)
    requires
        0 <= a < ls.len(),
    ensures
        active_count(ls) == active_count(ls.remove(a)) + if ls[a].active {
            1nat
        } else {
            0nat
        },
    decreases ls.len(),
{
    if a == ls.len() - 1 {
        assert(ls.remove(a) =~= ls.drop_last());
    } else {
        lemma_active_count_remove(ls.drop_last(), a);
        assert(ls.remove(a).drop_last() =~= ls.drop_last().remove(a));
        assert(ls.remove(a).last() == ls.last());
    }
}

/// The number of active lifecycles does not depend on their order.
proof fn lemma_active_count_reorder(xs: Seq<LifecycleView>, ys: Seq<LifecycleView>, p: Seq<int>)
    requires
        is_reordering(xs, ys, p),
    ensures
        active_count(ys) == active_count(xs),
    decreases xs.len(),
{
    let n = xs.len();
    if n > 0 {
        let a = p[n - 1];
        let xs2 = xs.remove(a);
        let ys2 = ys.drop_last();
        let p2 = Seq::new((n - 1) as nat, |i: int| if p[i] < a { p[i] } else { p[i] - 1 });
        assert forall|i: int| 0 <= i < n - 1 implies 0 <= #[trigger] p2[i] < n - 1 && xs2[p2[i]]
            == ys2[i] by {
            assert(p[i] != p[n - 1]);
            assert(ys[i] == xs[p[i]]);
        }
        assert forall|i: int, j: int| 0 <= i < j < n - 1 implies p2[i] != p2[j] by {
            assert(p[i] != p[j]);
            assert(p[i] != a && p[j] != a);
        }
        assert(is_reordering(xs2, ys2, p2));
        lemma_active_count_reorder(xs2, ys2, p2);
        lemma_active_count_remove(xs, a);
        assert(ys[n - 1] == xs[a]);
    }
}

/// With distinct IDs, the queue carrying `id` is the one at its position.
proof fn lemma_queue_for_at(qs: Seq<QueueView>, id: PlayerId, i: int)
    requires
        0 <= i < qs.len(),
        qs[i].id == id,
        forall|j: int| 0 <= j < qs.len() && j != i ==> qs[j].id != id,
    ensures
        queue_for(qs, id) == Some(qs[i]),
    decreases qs.len(),
{
    if i > 0 {
        assert(qs[0].id != id);
        lemma_queue_for_at(qs.drop_first(), id, i - 1);
    }
}

/// No queue carries `id`.
proof fn lemma_queue_for_none(qs: Seq<QueueView>, id: PlayerId)
    requires
        forall|j: int| 0 <= j < qs.len() ==> qs[j].id != id,
    ensures
        queue_for(qs, id) is None,
    decreases qs.len(),
{
    if qs.len() > 0 {
        assert(qs[0].id != id);
        lemma_queue_for_none(qs.drop_first(), id);
    }
}

/// Distinct queue keys are distinct queue IDs.
proof fn lemma_queue_ids_distinct(qs: Seq<QueueView>, i: int, j: int)
    requires
        distinct_keys(queue_keys(qs)),
        0 <= i < qs.len(),
        0 <= j < qs.len(),
        i != j,
    ensures
        qs[i].id != qs[j].id,
{
    lemma_key_eq(qs[i].id, qs[j].id);
    if i < j {
        assert(queue_keys(qs)[i] != queue_keys(qs)[j]);
    } else {
        assert(queue_keys(qs)[j] != queue_keys(qs)[i]);
    }
}

/// Reordered queues with distinct IDs give every ID the same queue.
proof fn lemma_queue_for_reorder(xs: Seq<QueueView>, ys: Seq<QueueView>, p: Seq<int>, id: PlayerId)
    requires
        is_reordering(xs, ys, p),
        distinct_keys(queue_keys(xs)),
    ensures
        queue_for(ys, id) == queue_for(xs, id),
{
    let n = xs.len();
    assert(distinct_keys(queue_keys(ys))) by {
        assert forall|a: int, b: int| 0 <= a < b < n implies queue_keys(ys)[a] != queue_keys(
            ys,
        )[b] by {
            assert(p[a] != p[b]);
            assert(ys[a] == xs[p[a]] && ys[b] == xs[p[b]]);
            if p[a] < p[b] {
                assert(queue_keys(xs)[p[a]] != queue_keys(xs)[p[b]]);
            } else {
                assert(queue_keys(xs)[p[b]] != queue_keys(xs)[p[a]]);
            }
        }
    }
    if exists|i: int| 0 <= i < n && ys[i].id == id {
        let i = choose|i: int| 0 <= i < n && ys[i].id == id;
        assert forall|j: int| 0 <= j < n && j != i implies ys[j].id != id by {
            lemma_queue_ids_distinct(ys, i, j);
        }
        lemma_queue_for_at(ys, id, i);
        assert(ys[i] == xs[p[i]]);
        assert forall|j: int| 0 <= j < n && j != p[i] implies xs[j].id != id by {
            lemma_queue_ids_distinct(xs, p[i], j);
        }
        lemma_queue_for_at(xs, id, p[i]);
    } else {
        lemma_queue_for_none(ys, id);
        assert forall|j: int| 0 <= j < n implies xs[j].id != id by {
            lemma_positions_onto(p, n, j);
            assert(occurs_in(p, n, j));
            let c = choose|c: int| 0 <= c < n && p[c] == j;
            assert(ys[c] == xs[j]);
        }
        lemma_queue_for_none(xs, id);
    }
}

/// The records written depend on the queues only through the queue each
/// body's ID carries.
proof fn lemma_records_bytes_same_queues(
    rs: Seq<CompanionBody>,
    ls: Seq<LifecycleView>,
    qs1: Seq<QueueView>,
    qs2: Seq<QueueView>,
    n: nat,
)
    requires
        n <= rs.len(),
        forall|id: PlayerId| #[trigger] queue_for(qs1, id) == queue_for(qs2, id),
    ensures
        v5_records_bytes(rs, ls, qs1, n) == v5_records_bytes(rs, ls, qs2, n),
    decreases n,
{
    if n > 0 {
        lemma_records_bytes_same_queues(rs, ls, qs1, qs2, (n - 1) as nat);
        assert(queue_for(qs1, rs[n - 1].id) == queue_for(qs2, rs[n - 1].id));
    }
}

/// The three lists of `s2` reorder those of `s1`, and the rest is the same.
pub open spec fn reorders(s1: SaveView, s2: SaveView, pr: Seq<int>, pl: Seq<int>, pq: Seq<int>) -> bool {
    &&& s2.revision == s1.revision
    &&& s2.agent_namespace_id == s1.agent_namespace_id
    &&& is_reordering(s1.records, s2.records, pr)
    &&& is_reordering(s1.lifecycles, s2.lifecycles, pl)
    &&& is_reordering(s1.queues, s2.queues, pq)
}

/// One direction of the law: a reordering of an admitted request is admitted
/// and encodes to the same file.
proof fn lemma_reorder_admitted(s1: SaveView, s2: SaveView, pr: Seq<int>, pl: Seq<int>, pq: Seq<int>)
    requires
        reorders(s1, s2, pr, pl, pq),
        save_admitted(s1),
    ensures
        save_admitted(s2),
        encoding(s2) == encoding(s1),
{
    let nr = s1.records.len();
    let nq = s1.queues.len();
    lemma_sorted_bodies_reorder(s1.records, s2.records, pr);
    lemma_sorted_lifecycles_reorder(s1.lifecycles, s2.lifecycles, pl);
    lemma_active_count_reorder(s1.lifecycles, s2.lifecycles, pl);
    assert forall|i: int| 0 <= i < nr implies #[trigger] crate::companion::body_ok(s2.records[i]) by {
        assert(s2.records[i] == s1.records[pr[i]]);
    }
    assert forall|i: int| 0 <= i < nr implies #[trigger] crate::companion::lifecycle_ok(
        s2.lifecycles[i],
    ) by {
        assert(s2.lifecycles[i] == s1.lifecycles[pl[i]]);
    }
    assert forall|i: int| 0 <= i < nr implies (#[trigger] sorted_lifecycles(s2.lifecycles)[i]).id
        == sorted_bodies(s2.records)[i].id by {
        assert(sorted_lifecycles(s1.lifecycles)[i].id == sorted_bodies(s1.records)[i].id);
    }
    let k1 = queue_keys(s1.queues);
    let k2 = queue_keys(s2.queues);
    assert forall|i: int| 0 <= i < k2.len() implies #[trigger] k2[i] == k1[pq[i]] by {
        assert(s2.queues[i] == s1.queues[pq[i]]);
    }
    assert(is_reordering(k1, k2, pq));
    lemma_ascending_reorder(k1, k2, pq);
    assert forall|i: int| 0 <= i < nq implies {
        &&& crate::companion::queue_ok(#[trigger] s2.queues[i], crate::companion::CURRENT_SCHEMA)
        &&& has_body(s2.records, s2.queues[i].id)
        &&& s2.queues[i].summary.len() == 0
        &&& has_active(s2.lifecycles, s2.queues[i].id)
    } by {
        let q = s2.queues[i];
        assert(q == s1.queues[pq[i]]);
        assert(crate::companion::queue_ok(s1.queues[pq[i]], crate::companion::CURRENT_SCHEMA));
        assert(has_body(s1.records, q.id));
        let r = choose|r: int| 0 <= r < nr && #[trigger] s1.records[r].id == q.id;
        lemma_positions_onto(pr, nr, r);
        assert(occurs_in(pr, nr, r));
        let c = choose|c: int| 0 <= c < nr && pr[c] == r;
        assert(s2.records[c] == s1.records[r]);
        assert(has_active(s1.lifecycles, q.id));
        let l = choose|l: int|
            0 <= l < nr && #[trigger] s1.lifecycles[l].id == q.id && s1.lifecycles[l].active;
        lemma_positions_onto(pl, nr, l);
        assert(occurs_in(pl, nr, l));
        let d = choose|d: int| 0 <= d < nr && pl[d] == l;
        assert(s2.lifecycles[d] == s1.lifecycles[l]);
    }
    assert(save_admitted(s2));
    assert forall|id: PlayerId| #[trigger] queue_for(s2.queues, id) == queue_for(s1.queues, id) by {
        lemma_queue_for_reorder(s1.queues, s2.queues, pq, id);
    }
    lemma_ascending_order_strict(body_keys(s1.records));
    assert(sorted_bodies(s1.records).len() == nr);
    lemma_ascending_order_strict(body_keys(s1.records));
    assert(sorted_bodies(s1.records).len() == nr);
    lemma_records_bytes_same_queues(
        sorted_bodies(s1.records),
        sorted_lifecycles(s1.lifecycles),
        s2.queues,
        s1.queues,
        nr,
    );
}

/// The order of a save request's lists does not matter: a request whose
/// bodies, lifecycles and queues are each reordered is admitted exactly when
/// the original is, and then encodes to the same canonical file.
pub proof fn lemma_encoding_ignores_list_order(
    s1: SaveView,
    s2: SaveView,
    pr: Seq<int>,
    pl: Seq<int>,
    pq: Seq<int>,
)
    requires
        reorders(s1, s2, pr, pl, pq),
    ensures
        save_admitted(s2) == save_admitted(s1),
        save_admitted(s1) ==> encoding(s2) == encoding(s1),
{
    if save_admitted(s1) {
        lemma_reorder_admitted(s1, s2, pr, pl, pq);
    }
    if save_admitted(s2) {
        let qr = lemma_inverse_reordering(s1.records, s2.records, pr);
        let ql = lemma_inverse_reordering(s1.lifecycles, s2.lifecycles, pl);
        let qq = lemma_inverse_reordering(s1.queues, s2.queues, pq);
        lemma_reorder_admitted(s2, s1, qr, ql, qq);
    }
}

} // verus!
