//! What a pass tells its caller to do: the order in which values are
//! computed, the trail along which gradients are handed over, and the
//! gradient stores that a reset empties.
//!
//! The lemmas show that a vertex which feeds several consumers is computed
//! once, after its operands, and collects the gradient of each consumer
//! slot exactly once.

use crate::wiring::{backward_visit, forward_visit, wired, zero_visit, Vertex};
use vstd::prelude::*;

verus! {

/// The vertices whose values a forward request on `id` has computed, in the
/// order in which they have to be computed: operands before consumers.
pub open spec fn forward_order(w: Seq<Vertex>, fc: Seq<nat>, id: int) -> Seq<int>
    decreases id,
{
    if id < 0 || id >= w.len() || !w[id].counted || fc[id] > 0 {
        Seq::empty()
    } else if !w[id].relays {
        seq![id]
    } else {
        let s1 = fc.update(id, 1);
        let first_ok = w[id].first is Some && 0 <= w[id].first->0 < id;
        let o1 = if first_ok {
            forward_order(w, s1, w[id].first->0)
        } else {
            Seq::empty()
        };
        let s2 = if first_ok {
            forward_visit(w, s1, w[id].first->0)
        } else {
            s1
        };
        let o2 = if w[id].second is Some && 0 <= w[id].second->0 < id {
            forward_order(w, s2, w[id].second->0)
        } else {
            Seq::empty()
        };
        (o1 + o2).push(id)
    }
}

/// Where a gradient comes from: from outside, or from the buffer that a
/// consumer keeps for one of its operands.
pub struct Origin {
    /// The consumer that hands the gradient on; none for a gradient from
    /// outside.
    pub consumer: Option<int>,
    /// The gradient is the one of the consumer's second operand.
    pub second: bool,
}

/// One gradient that is handed to a vertex.
pub struct Handover {
    pub target: int,
    pub origin: Origin,
    /// Number of gradients that the target had received before.
    pub earlier: nat,
}

/// The gradients that are handed over, in order, when `id` is handed a
/// gradient of the given origin.
pub open spec fn backward_trail(
    w: Seq<Vertex>,
    fc: Seq<nat>,
    bc: Seq<nat>,
    id: int,
    origin: Origin,
) -> Seq<Handover>
    decreases id,
{
    if id < 0 || id >= w.len() {
        Seq::empty()
    } else {
        let here = seq![Handover { target: id, origin, earlier: bc[id] }];
        let s1 = bc.update(id, bc[id] + 1);
        if w[id].counted && w[id].relays && s1[id] == fc[id] {
            let first_ok = w[id].first is Some && 0 <= w[id].first->0 < id;
            let t1 = if first_ok {
                backward_trail(
                    w,
                    fc,
                    s1,
                    w[id].first->0,
                    Origin { consumer: Some(id), second: false },
                )
            } else {
                Seq::empty()
            };
            let s2 = if first_ok {
                backward_visit(w, fc, s1, w[id].first->0)
            } else {
                s1
            };
            let t2 = if w[id].second is Some && 0 <= w[id].second->0 < id {
                backward_trail(
                    w,
                    fc,
                    s2,
                    w[id].second->0,
                    Origin { consumer: Some(id), second: true },
                )
            } else {
                Seq::empty()
            };
            here + t1 + t2
        } else {
            here
        }
    }
}

/// The gradient stores that have to be emptied when the gradients below `id`
/// are zeroed, by their vertices and in the order in which they are reached.
pub open spec fn zero_trail(w: Seq<Vertex>, fc: Seq<nat>, id: int) -> Seq<int>
    decreases id,
{
    if id < 0 || id >= w.len() {
        Seq::empty()
    } else if !w[id].counted {
        if w[id].stores {
            seq![id]
        } else {
            Seq::empty()
        }
    } else if fc[id] == 0 {
        Seq::empty()
    } else {
        let s1 = fc.update(id, 0);
        let first_ok = w[id].first is Some && 0 <= w[id].first->0 < id;
        let t1 = if first_ok {
            zero_trail(w, s1, w[id].first->0)
        } else {
            Seq::empty()
        };
        let s2 = if first_ok {
            zero_visit(w, s1, w[id].first->0)
        } else {
            s1
        };
        let t2 = if w[id].second is Some && 0 <= w[id].second->0 < id {
            zero_trail(w, s2, w[id].second->0)
        } else {
            Seq::empty()
        };
        t1 + t2
    }
}

/// Vertex `x` stands among the first `k` entries of the order.
pub open spec fn listed_before(order: Seq<int>, k: int, x: int) -> bool {
    exists|j: int| 0 <= j < k && j < order.len() && #[trigger] order[j] == x
}

/// The order lists, each once, the counted vertices up to `upper` that had
/// no forward visit in `fc` and have one in `after`.
pub open spec fn lists_evaluated(
    w: Seq<Vertex>,
    fc: Seq<nat>,
    after: Seq<nat>,
    upper: int,
    order: Seq<int>,
) -> bool {
    &&& forall|k: int|
        0 <= k < order.len() ==> {
            &&& 0 <= #[trigger] order[k] <= upper
            &&& order[k] < w.len()
            &&& w[order[k]].counted
            &&& fc[order[k]] == 0
            &&& after[order[k]] > 0
        }
    &&& forall|n: int|
        0 <= n < w.len() && w[n].counted && fc[n] == 0 && #[trigger] after[n] > 0 ==> listed_before(
            order,
            order.len() as int,
            n,
        )
    &&& forall|j: int, k: int|
        0 <= j < k < order.len() ==> #[trigger] order[j] != #[trigger] order[k]
}

/// The value of operand `x` is at hand when entry `k` of the order is
/// computed: `x` carries no counter, or was evaluated before the request,
/// or stands earlier in the order.
pub open spec fn at_hand(w: Seq<Vertex>, fc: Seq<nat>, order: Seq<int>, k: int, x: Option<int>) -> bool {
    x matches Some(a) ==> (0 <= a < w.len() && w[a].counted ==> fc[a] > 0 || listed_before(
        order,
        k,
        a,
    ))
}

/// Every relaying vertex of the order stands after the operands that it is
/// computed from.
pub open spec fn operands_first(w: Seq<Vertex>, fc: Seq<nat>, order: Seq<int>) -> bool {
    forall|k: int|
        0 <= k < order.len() && 0 <= #[trigger] order[k] < w.len() && w[order[k]].relays ==> at_hand(
            w,
            fc,
            order,
            k,
            w[order[k]].first,
        ) && at_hand(w, fc, order, k, w[order[k]].second)
}

/// A forward request lowers no counter, touches no vertex above its target
/// and none without a counter, and leaves a visit on its target.
pub proof fn lemma_forward_grows(w: Seq<Vertex>, fc: Seq<nat>, id: int)
    requires
        wired(w),
        fc.len() == w.len(),
    ensures
        forward_visit(w, fc, id).len() == fc.len(),
        forall|n: int| 0 <= n < w.len() ==> #[trigger] forward_visit(w, fc, id)[n] >= fc[n],
        forall|n: int|
            0 <= n < w.len() && (n > id || !w[n].counted) ==> #[trigger] forward_visit(
                w,
                fc,
                id,
            )[n] == fc[n],
        0 <= id < w.len() && w[id].counted ==> forward_visit(w, fc, id)[id] > 0,
    decreases id,
{
    if id < 0 || id >= w.len() || !w[id].counted {
    } else if fc[id] > 0 || !w[id].relays {
    } else {
        let s1 = fc.update(id, 1);
        let first_ok = w[id].first is Some && 0 <= w[id].first->0 < id;
        let s2 = if first_ok {
            forward_visit(w, s1, w[id].first->0)
        } else {
            s1
        };
        if first_ok {
            lemma_forward_grows(w, s1, w[id].first->0);
        }
        if w[id].second is Some && 0 <= w[id].second->0 < id {
            lemma_forward_grows(w, s2, w[id].second->0);
        }
    }
}

proof fn lemma_lists_joined(
    w: Seq<Vertex>,
    fc: Seq<nat>,
    s1: Seq<nat>,
    s2: Seq<nat>,
    s3: Seq<nat>,
    id: int,
    a: int,
    b: int,
    o1: Seq<int>,
    o2: Seq<int>,
)
    requires
        0 <= id < w.len(),
        w[id].counted,
        fc.len() == w.len(),
        s2.len() == w.len(),
        s3.len() == w.len(),
        fc[id] == 0,
        s1 == fc.update(id, 1),
        a < id,
        b < id,
        lists_evaluated(w, s1, s2, a, o1),
        lists_evaluated(w, s2, s3, b, o2),
        forall|n: int| 0 <= n < w.len() ==> #[trigger] s2[n] >= s1[n],
        forall|n: int| 0 <= n < w.len() ==> #[trigger] s3[n] >= s2[n],
    ensures
        lists_evaluated(w, fc, s3, id, (o1 + o2).push(id)),
{
    let order = (o1 + o2).push(id);
    let n1 = o1.len() as int;
    let n2 = o2.len() as int;
    assert forall|k: int| 0 <= k < order.len() implies {
        &&& 0 <= #[trigger] order[k] <= id
        &&& order[k] < w.len()
        &&& w[order[k]].counted
        &&& fc[order[k]] == 0
        &&& s3[order[k]] > 0
    } by {
        if k < n1 {
            assert(order[k] == o1[k]);
            assert(s3[o1[k]] >= s2[o1[k]]);
        } else if k < n1 + n2 {
            assert(order[k] == o2[k - n1]);
            assert(s2[o2[k - n1]] >= s1[o2[k - n1]]);
        } else {
            assert(s3[id] >= s2[id] && s2[id] >= s1[id]);
        }
    }
    assert forall|n: int|
        0 <= n < w.len() && w[n].counted && fc[n] == 0 && #[trigger] s3[n] > 0 implies listed_before(
        order,
        order.len() as int,
        n,
    ) by {
        if n == id {
            assert(order[n1 + n2] == id);
        } else if s2[n] > 0 {
            assert(listed_before(o1, n1, n));
            let j = choose|j: int| 0 <= j < n1 && j < o1.len() && #[trigger] o1[j] == n;
            assert(order[j] == n);
        } else {
            assert(listed_before(o2, n2, n));
            let j = choose|j: int| 0 <= j < n2 && j < o2.len() && #[trigger] o2[j] == n;
            assert(order[n1 + j] == n);
        }
    }
    assert forall|j: int, k: int| 0 <= j < k < order.len() implies #[trigger] order[j]
        != #[trigger] order[k] by {
        if j < n1 {
            assert(order[j] == o1[j]);
        } else if j < n1 + n2 {
            assert(order[j] == o2[j - n1]);
        }
        if k < n1 {
            assert(order[k] == o1[k]);
        } else if k < n1 + n2 {
            assert(order[k] == o2[k - n1]);
        }
    }
}

proof fn lemma_operands_joined(
    w: Seq<Vertex>,
    fc: Seq<nat>,
    s1: Seq<nat>,
    s2: Seq<nat>,
    s3: Seq<nat>,
    id: int,
    a: int,
    b: int,
    o1: Seq<int>,
    o2: Seq<int>,
)
    requires
        wired(w),
        0 <= id < w.len(),
        w[id].relays,
        fc.len() == w.len(),
        s2.len() == w.len(),
        s3.len() == w.len(),
        fc[id] == 0,
        s1 == fc.update(id, 1),
        a < id,
        b < id,
        w[id].first is Some ==> a == w[id].first->0 && (w[a].counted ==> s2[a] > 0),
        w[id].second is Some ==> b == w[id].second->0 && (w[b].counted ==> s3[b] > 0),
        lists_evaluated(w, s1, s2, a, o1),
        lists_evaluated(w, s2, s3, b, o2),
        lists_evaluated(w, fc, s3, id, (o1 + o2).push(id)),
        operands_first(w, s1, o1),
        operands_first(w, s2, o2),
        forall|n: int| 0 <= n < w.len() ==> #[trigger] s2[n] >= s1[n],
        forall|n: int| 0 <= n < w.len() ==> #[trigger] s3[n] >= s2[n],
    ensures
        operands_first(w, fc, (o1 + o2).push(id)),
{
    let order = (o1 + o2).push(id);
    let n1 = o1.len() as int;
    let n2 = o2.len() as int;
    assert forall|k: int|
        0 <= k < order.len() && 0 <= #[trigger] order[k] < w.len() && w[order[k]].relays implies at_hand(
        w,
        fc,
        order,
        k,
        w[order[k]].first,
    ) && at_hand(w, fc, order, k, w[order[k]].second) by {
        let n = order[k];
        if k < n1 {
            assert(n == o1[k]);
            assert(at_hand(w, s1, o1, k, w[n].first) && at_hand(w, s1, o1, k, w[n].second));
            lemma_at_hand_grows(w, s1, fc, o1, order, k, w[n].first, id);
            lemma_at_hand_grows(w, s1, fc, o1, order, k, w[n].second, id);
        } else if k < n1 + n2 {
            assert(n == o2[k - n1]);
            assert(at_hand(w, s2, o2, k - n1, w[n].first) && at_hand(
                w,
                s2,
                o2,
                k - n1,
                w[n].second,
            ));
            lemma_at_hand_shifted(w, fc, s1, s2, o1, o2, order, k - n1, w[n].first, id);
            lemma_at_hand_shifted(w, fc, s1, s2, o1, o2, order, k - n1, w[n].second, id);
        } else {
            assert(n == id);
            lemma_at_hand_last(w, fc, s3, order, w[id].first, id);
            lemma_at_hand_last(w, fc, s3, order, w[id].second, id);
        }
    }
}

proof fn lemma_at_hand_last(
    w: Seq<Vertex>,
    fc: Seq<nat>,
    s3: Seq<nat>,
    order: Seq<int>,
    x: Option<int>,
    id: int,
)
    requires
        order.len() > 0,
        order[order.len() - 1] == id,
        lists_evaluated(w, fc, s3, id, order),
        x matches Some(a) ==> a < id && (0 <= a < w.len() && w[a].counted ==> s3[a] > 0),
    ensures
        at_hand(w, fc, order, order.len() - 1, x),
{
    if x is Some {
        let a = x->0;
        if 0 <= a < w.len() && w[a].counted && fc[a] == 0 {
            assert(listed_before(order, order.len() as int, a));
            let j = choose|j: int| 0 <= j < order.len() && j < order.len() && #[trigger] order[j] == a;
            assert(j != order.len() - 1);
            assert(order[j] == a);
        }
    }
}

proof fn lemma_at_hand_grows(
    w: Seq<Vertex>,
    s1: Seq<nat>,
    fc: Seq<nat>,
    o1: Seq<int>,
    order: Seq<int>,
    k: int,
    x: Option<int>,
    id: int,
)
    requires
        0 <= id < w.len(),
        fc.len() == w.len(),
        s1 == fc.update(id, 1),
        at_hand(w, s1, o1, k, x),
        x matches Some(a) ==> a < id,
        forall|j: int| 0 <= j < o1.len() ==> j < order.len() && #[trigger] o1[j] == order[j],
    ensures
        at_hand(w, fc, order, k, x),
{
    if x is Some {
        let a = x->0;
        if 0 <= a < w.len() && w[a].counted && fc[a] == 0 {
            assert(listed_before(o1, k, a));
            let j = choose|j: int| 0 <= j < k && j < o1.len() && #[trigger] o1[j] == a;
            assert(order[j] == a);
        }
    }
}

proof fn lemma_at_hand_shifted(
    w: Seq<Vertex>,
    fc: Seq<nat>,
    s1: Seq<nat>,
    s2: Seq<nat>,
    o1: Seq<int>,
    o2: Seq<int>,
    order: Seq<int>,
    k: int,
    x: Option<int>,
    id: int,
)
    requires
        0 <= id < w.len(),
        fc.len() == w.len(),
        s1 == fc.update(id, 1),
        s2.len() == w.len(),
        0 <= k,
        at_hand(w, s2, o2, k, x),
        x matches Some(a) ==> a < id,
        forall|m: int|
            0 <= m < w.len() && w[m].counted && s1[m] == 0 && #[trigger] s2[m] > 0 ==> listed_before(
                o1,
                o1.len() as int,
                m,
            ),
        forall|j: int| 0 <= j < o1.len() ==> j < order.len() && #[trigger] o1[j] == order[j],
        forall|j: int|
            0 <= j < o2.len() ==> o1.len() + j < order.len() && #[trigger] o2[j] == order[o1.len()
                + j],
    ensures
        at_hand(w, fc, order, o1.len() + k, x),
{
    if x is Some {
        let a = x->0;
        if 0 <= a < w.len() && w[a].counted && fc[a] == 0 {
            if s2[a] > 0 {
                assert(s1[a] == 0);
                assert(listed_before(o1, o1.len() as int, a));
                let j = choose|j: int| 0 <= j < o1.len() && j < o1.len() && #[trigger] o1[j] == a;
                assert(order[j] == a);
            } else {
                assert(listed_before(o2, k, a));
                let j = choose|j: int| 0 <= j < k && j < o2.len() && #[trigger] o2[j] == a;
                assert(order[o1.len() + j] == a);
            }
        }
    }
}

/// The order of a forward request lists exactly the vertices that the
/// request has evaluated, each once, and each after the operands that it
/// is computed from: a vertex that feeds several consumers is computed
/// once.
pub proof fn lemma_forward_order(w: Seq<Vertex>, fc: Seq<nat>, id: int)
    requires
        wired(w),
        fc.len() == w.len(),
    ensures
        lists_evaluated(w, fc, forward_visit(w, fc, id), id, forward_order(w, fc, id)),
        operands_first(w, fc, forward_order(w, fc, id)),
    decreases id,
{
    let order = forward_order(w, fc, id);
    lemma_forward_grows(w, fc, id);
    if id < 0 || id >= w.len() || !w[id].counted || fc[id] > 0 {
        assert(order.len() == 0);
    } else if !w[id].relays {
        assert(order[0] == id);
    } else {
        let s1 = fc.update(id, 1);
        let first_ok = w[id].first is Some && 0 <= w[id].first->0 < id;
        let a = if first_ok {
            w[id].first->0
        } else {
            -1
        };
        let o1 = forward_order(w, s1, a);
        let s2 = forward_visit(w, s1, a);
        let second_ok = w[id].second is Some && 0 <= w[id].second->0 < id;
        let b = if second_ok {
            w[id].second->0
        } else {
            -1
        };
        let o2 = forward_order(w, s2, b);
        let s3 = forward_visit(w, s2, b);
        if first_ok {
            lemma_forward_order(w, s1, a);
            lemma_forward_grows(w, s1, a);
        } else {
            assert(o1.len() == 0);
        }
        if second_ok {
            lemma_forward_order(w, s2, b);
            lemma_forward_grows(w, s2, b);
        } else {
            assert(o2.len() == 0);
        }
        assert(order == (o1 + o2).push(id));
        assert(forward_visit(w, fc, id) == s3);
        lemma_lists_joined(w, fc, s1, s2, s3, id, a, b, o1, o2);
        lemma_operands_joined(w, fc, s1, s2, s3, id, a, b, o1, o2);
    }
}

/// Every gradient of a trail is handed to a vertex of the graph.
pub proof fn lemma_trail_targets(
    w: Seq<Vertex>,
    fc: Seq<nat>,
    bc: Seq<nat>,
    id: int,
    origin: Origin,
)
    ensures
        forall|k: int|
            0 <= k < backward_trail(w, fc, bc, id, origin).len() ==> 0 <= (#[trigger] backward_trail(
                w,
                fc,
                bc,
                id,
                origin,
            )[k]).target < w.len(),
    decreases id,
{
    if 0 <= id < w.len() {
        let s1 = bc.update(id, bc[id] + 1);
        if w[id].counted && w[id].relays && s1[id] == fc[id] {
            let first_ok = w[id].first is Some && 0 <= w[id].first->0 < id;
            if first_ok {
                lemma_trail_targets(w, fc, s1, w[id].first->0, Origin { consumer: Some(id), second: false });
            }
            let s2 = if first_ok {
                backward_visit(w, fc, s1, w[id].first->0)
            } else {
                s1
            };
            if w[id].second is Some && 0 <= w[id].second->0 < id {
                lemma_trail_targets(w, fc, s2, w[id].second->0, Origin { consumer: Some(id), second: true });
            }
        }
    }
}

/// The trail hands vertex `n` a gradient that finds `e` earlier ones.
pub open spec fn handed(trail: Seq<Handover>, n: int, e: int) -> bool {
    exists|k: int| 0 <= k < trail.len() && (#[trigger] trail[k]).target == n && trail[k].earlier == e
}

/// The gradients of the trail reach every counted vertex in turn: the
/// vertex whose backward counter goes from `bc[n]` to `after[n]` is handed
/// one gradient for each count in between, in rising order, and no other.
pub open spec fn hands_in_turn(
    w: Seq<Vertex>,
    bc: Seq<nat>,
    after: Seq<nat>,
    upper: int,
    trail: Seq<Handover>,
) -> bool {
    &&& forall|k: int|
        0 <= k < trail.len() ==> {
            &&& 0 <= (#[trigger] trail[k]).target <= upper
            &&& trail[k].target < w.len()
            &&& w[trail[k].target].counted ==> bc[trail[k].target] <= trail[k].earlier
                < after[trail[k].target]
        }
    &&& forall|j: int, k: int|
        0 <= j < k < trail.len() && (#[trigger] trail[j]).target == (#[trigger] trail[k]).target
            && w[trail[k].target].counted ==> trail[j].earlier < trail[k].earlier
    &&& forall|n: int, e: int|
        0 <= n < w.len() && w[n].counted && bc[n] <= e < after[n] ==> #[trigger] handed(
            trail,
            n,
            e,
        )
}

/// The operand slot of `v` that an origin names.
pub open spec fn slot(v: Vertex, second: bool) -> Option<int> {
    if second {
        v.second
    } else {
        v.first
    }
}

/// Every gradient of the trail after the first is handed on by a consumer
/// of its target that had an unanswered forward visit before and has none
/// now, out of the buffer of the slot that holds the target; and no buffer
/// is handed on twice.
pub open spec fn relayed_once(
    w: Seq<Vertex>,
    fc: Seq<nat>,
    bc: Seq<nat>,
    after: Seq<nat>,
    upper: int,
    trail: Seq<Handover>,
) -> bool {
    &&& forall|k: int|
        0 < k < trail.len() ==> {
            &&& (#[trigger] trail[k]).origin.consumer matches Some(c) && {
                &&& 0 <= c <= upper
                &&& c < w.len()
                &&& w[c].relays
                &&& bc[c] < fc[c] <= after[c]
                &&& slot(w[c], trail[k].origin.second) == Some(trail[k].target)
            }
        }
    &&& forall|j: int, k: int|
        0 < j < k < trail.len() ==> (#[trigger] trail[j]).origin != (#[trigger] trail[k]).origin
}

/// The trail hands vertex `t` the gradient that consumer `c` keeps for the
/// given operand slot.
pub open spec fn handed_from(trail: Seq<Handover>, c: int, second: bool, t: int) -> bool {
    exists|k: int|
        0 <= k < trail.len() && (#[trigger] trail[k]).origin == (Origin {
            consumer: Some(c),
            second,
        }) && trail[k].target == t
}

/// Every vertex that was drained while the backward counters went from `bc`
/// to `after` has handed the gradient of each of its operand slots to the
/// operand in it.
pub open spec fn relayed_all(
    w: Seq<Vertex>,
    fc: Seq<nat>,
    bc: Seq<nat>,
    after: Seq<nat>,
    trail: Seq<Handover>,
) -> bool {
    forall|c: int, second: bool|
        0 <= c < w.len() && w[c].relays && bc[c] < fc[c] <= after[c] && slot(w[c], second) is Some
            ==> #[trigger] handed_from(trail, c, second, slot(w[c], second)->0)
}

/// Handing over a gradient lowers no counter, touches no vertex above its
/// target and none without a counter, and counts on its target.
pub proof fn lemma_backward_grows(w: Seq<Vertex>, fc: Seq<nat>, bc: Seq<nat>, id: int)
    requires
        wired(w),
        bc.len() == w.len(),
    ensures
        backward_visit(w, fc, bc, id).len() == bc.len(),
        forall|n: int| 0 <= n < w.len() ==> #[trigger] backward_visit(w, fc, bc, id)[n] >= bc[n],
        forall|n: int|
            0 <= n < w.len() && (n > id || !w[n].counted) ==> #[trigger] backward_visit(
                w,
                fc,
                bc,
                id,
            )[n] == bc[n],
        0 <= id < w.len() && w[id].counted ==> backward_visit(w, fc, bc, id)[id] == bc[id] + 1,
    decreases id,
{
    if id < 0 || id >= w.len() || !w[id].counted {
    } else {
        let s1 = bc.update(id, bc[id] + 1);
        if w[id].relays && s1[id] == fc[id] {
            let first_ok = w[id].first is Some && 0 <= w[id].first->0 < id;
            let s2 = if first_ok {
                backward_visit(w, fc, s1, w[id].first->0)
            } else {
                s1
            };
            if first_ok {
                lemma_backward_grows(w, fc, s1, w[id].first->0);
            }
            if w[id].second is Some && 0 <= w[id].second->0 < id {
                lemma_backward_grows(w, fc, s2, w[id].second->0);
            }
        }
    }
}

proof fn lemma_hands_joined(
    w: Seq<Vertex>,
    bc: Seq<nat>,
    s1: Seq<nat>,
    s2: Seq<nat>,
    s3: Seq<nat>,
    id: int,
    a: int,
    b: int,
    here: Seq<Handover>,
    t1: Seq<Handover>,
    t2: Seq<Handover>,
)
    requires
        0 <= id < w.len(),
        w[id].counted,
        bc.len() == w.len(),
        s2.len() == w.len(),
        s3.len() == w.len(),
        s1 == bc.update(id, bc[id] + 1),
        a < id,
        b < id,
        here.len() == 1,
        here[0].target == id,
        here[0].earlier == bc[id],
        hands_in_turn(w, s1, s2, a, t1),
        hands_in_turn(w, s2, s3, b, t2),
        forall|n: int| 0 <= n < w.len() ==> #[trigger] s2[n] >= s1[n],
        forall|n: int| 0 <= n < w.len() ==> #[trigger] s3[n] >= s2[n],
        s2[id] == s1[id],
        s3[id] == s1[id],
    ensures
        hands_in_turn(w, bc, s3, id, here + t1 + t2),
{
    let trail = here + t1 + t2;
    let n1 = t1.len() as int;
    let n2 = t2.len() as int;
    assert forall|k: int| 0 <= k < trail.len() implies {
        &&& 0 <= (#[trigger] trail[k]).target <= id
        &&& trail[k].target < w.len()
        &&& w[trail[k].target].counted ==> bc[trail[k].target] <= trail[k].earlier
            < s3[trail[k].target]
    } by {
        if k == 0 {
            assert(trail[k] == here[0]);
        } else if k < 1 + n1 {
            assert(trail[k] == t1[k - 1]);
            let n = t1[k - 1].target;
            assert(s3[n] >= s2[n]);
        } else {
            assert(trail[k] == t2[k - 1 - n1]);
            let n = t2[k - 1 - n1].target;
            assert(s2[n] >= s1[n]);
        }
    }
    assert forall|j: int, k: int|
        0 <= j < k < trail.len() && (#[trigger] trail[j]).target == (#[trigger] trail[k]).target
            && w[trail[k].target].counted implies trail[j].earlier < trail[k].earlier by {
        let n = trail[k].target;
        if j == 0 {
            assert(trail[j] == here[0]);
            if k < 1 + n1 {
                assert(trail[k] == t1[k - 1]);
            } else {
                assert(trail[k] == t2[k - 1 - n1]);
            }
        } else if j < 1 + n1 {
            assert(trail[j] == t1[j - 1]);
            if k < 1 + n1 {
                assert(trail[k] == t1[k - 1]);
            } else {
                assert(trail[k] == t2[k - 1 - n1]);
            }
        } else {
            assert(trail[j] == t2[j - 1 - n1]);
            assert(trail[k] == t2[k - 1 - n1]);
        }
    }
    assert forall|n: int, e: int|
        0 <= n < w.len() && w[n].counted && bc[n] <= e < s3[n] implies #[trigger] handed(
        trail,
        n,
        e,
    ) by {
        if n == id {
            assert(trail[0] == here[0]);
        } else if e < s2[n] {
            assert(handed(t1, n, e));
            let k = choose|k: int|
                0 <= k < t1.len() && (#[trigger] t1[k]).target == n && t1[k].earlier == e;
            assert(trail[1 + k] == t1[k]);
        } else {
            assert(handed(t2, n, e));
            let k = choose|k: int|
                0 <= k < t2.len() && (#[trigger] t2[k]).target == n && t2[k].earlier == e;
            assert(trail[1 + n1 + k] == t2[k]);
        }
    }
}

proof fn lemma_relays_joined(
    w: Seq<Vertex>,
    fc: Seq<nat>,
    bc: Seq<nat>,
    s1: Seq<nat>,
    s2: Seq<nat>,
    s3: Seq<nat>,
    id: int,
    a: int,
    b: int,
    here: Seq<Handover>,
    t1: Seq<Handover>,
    t2: Seq<Handover>,
)
    requires
        0 <= id < w.len(),
        w[id].relays,
        bc.len() == w.len(),
        s2.len() == w.len(),
        s3.len() == w.len(),
        s1 == bc.update(id, bc[id] + 1),
        s1[id] == fc[id],
        a < id,
        b < id,
        here.len() == 1,
        t1.len() > 0 ==> t1[0].target == a && w[id].first == Some(a) && t1[0].origin == (Origin {
            consumer: Some(id),
            second: false,
        }),
        t2.len() > 0 ==> t2[0].target == b && w[id].second == Some(b) && t2[0].origin == (Origin {
            consumer: Some(id),
            second: true,
        }),
        relayed_once(w, fc, s1, s2, a, t1),
        relayed_once(w, fc, s2, s3, b, t2),
        forall|n: int| 0 <= n < w.len() ==> #[trigger] s2[n] >= s1[n],
        forall|n: int| 0 <= n < w.len() ==> #[trigger] s3[n] >= s2[n],
        s2[id] == s1[id],
        s3[id] == s1[id],
    ensures
        relayed_once(w, fc, bc, s3, id, here + t1 + t2),
{
    let trail = here + t1 + t2;
    let n1 = t1.len() as int;
    let n2 = t2.len() as int;
    assert forall|k: int| 0 < k < trail.len() implies {
        &&& (#[trigger] trail[k]).origin.consumer matches Some(c) && {
            &&& 0 <= c <= id
            &&& c < w.len()
            &&& w[c].relays
            &&& bc[c] < fc[c] <= s3[c]
            &&& slot(w[c], trail[k].origin.second) == Some(trail[k].target)
        }
    } by {
        if k < 1 + n1 {
            assert(trail[k] == t1[k - 1]);
            if k > 1 {
                let c = t1[k - 1].origin.consumer->0;
                assert(s3[c] >= s2[c]);
            }
        } else {
            assert(trail[k] == t2[k - 1 - n1]);
            if k > 1 + n1 {
                let c = t2[k - 1 - n1].origin.consumer->0;
                assert(s2[c] >= s1[c]);
            }
        }
    }
    assert forall|j: int, k: int| 0 < j < k < trail.len() implies (#[trigger] trail[j]).origin != (
    #[trigger] trail[k]).origin by {
        if j < 1 + n1 {
            assert(trail[j] == t1[j - 1]);
        } else {
            assert(trail[j] == t2[j - 1 - n1]);
        }
        if k < 1 + n1 {
            assert(trail[k] == t1[k - 1]);
        } else {
            assert(trail[k] == t2[k - 1 - n1]);
        }
    }
}

proof fn lemma_relayed_all_joined(
    w: Seq<Vertex>,
    fc: Seq<nat>,
    bc: Seq<nat>,
    s1: Seq<nat>,
    s2: Seq<nat>,
    s3: Seq<nat>,
    id: int,
    a: int,
    b: int,
    here: Seq<Handover>,
    t1: Seq<Handover>,
    t2: Seq<Handover>,
)
    requires
        wired(w),
        0 <= id < w.len(),
        w[id].relays,
        bc.len() == w.len(),
        s2.len() == w.len(),
        s3.len() == w.len(),
        s1 == bc.update(id, bc[id] + 1),
        a < id,
        b < id,
        here.len() == 1,
        w[id].first is Some ==> a == w[id].first->0 && t1.len() > 0 && t1[0].target == a
            && t1[0].origin == (Origin { consumer: Some(id), second: false }),
        w[id].second is Some ==> b == w[id].second->0 && t2.len() > 0 && t2[0].target == b
            && t2[0].origin == (Origin { consumer: Some(id), second: true }),
        relayed_all(w, fc, s1, s2, t1),
        relayed_all(w, fc, s2, s3, t2),
        forall|n: int| 0 <= n < w.len() ==> #[trigger] s2[n] >= s1[n],
        forall|n: int| 0 <= n < w.len() ==> #[trigger] s3[n] >= s2[n],
        forall|n: int| id <= n < w.len() ==> #[trigger] s3[n] == s1[n],
    ensures
        relayed_all(w, fc, bc, s3, here + t1 + t2),
{
    let trail = here + t1 + t2;
    let n1 = t1.len() as int;
    assert forall|c: int, second: bool|
        0 <= c < w.len() && w[c].relays && bc[c] < fc[c] <= s3[c] && slot(w[c], second) is Some implies #[trigger] handed_from(
        trail,
        c,
        second,
        slot(w[c], second)->0,
    ) by {
        let t = slot(w[c], second)->0;
        if c == id {
            if second {
                assert(trail[1 + n1] == t2[0]);
            } else {
                assert(trail[1] == t1[0]);
            }
        } else if c > id {
            assert(s3[c] == s1[c]);
        } else if fc[c] <= s2[c] {
            assert(handed_from(t1, c, second, t));
            let k = choose|k: int|
                0 <= k < t1.len() && (#[trigger] t1[k]).origin == (Origin {
                    consumer: Some(c),
                    second,
                }) && t1[k].target == t;
            assert(trail[1 + k] == t1[k]);
        } else {
            assert(handed_from(t2, c, second, t));
            let k = choose|k: int|
                0 <= k < t2.len() && (#[trigger] t2[k]).origin == (Origin {
                    consumer: Some(c),
                    second,
                }) && t2[k].target == t;
            assert(trail[1 + n1 + k] == t2[k]);
        }
    }
}

/// In a backward pass every counted vertex is handed its gradients in turn,
/// the first that it receives in a round before all others, and every
/// gradient but the one from outside is read from the buffer of a consumer
/// that has just been drained, no buffer twice and every buffer of a
/// drained consumer once: the gradients that a shared vertex collects are
/// those of its consumers, each exactly once.
pub proof fn lemma_backward_trail(w: Seq<Vertex>, fc: Seq<nat>, bc: Seq<nat>, id: int, origin: Origin)
    requires
        wired(w),
        bc.len() == w.len(),
    ensures
        hands_in_turn(
            w,
            bc,
            backward_visit(w, fc, bc, id),
            id,
            backward_trail(w, fc, bc, id, origin),
        ),
        relayed_once(
            w,
            fc,
            bc,
            backward_visit(w, fc, bc, id),
            id,
            backward_trail(w, fc, bc, id, origin),
        ),
        relayed_all(
            w,
            fc,
            bc,
            backward_visit(w, fc, bc, id),
            backward_trail(w, fc, bc, id, origin),
        ),
        0 <= id < w.len() ==> backward_trail(w, fc, bc, id, origin).len() > 0 && backward_trail(
            w,
            fc,
            bc,
            id,
            origin,
        )[0] == (Handover { target: id, origin, earlier: bc[id] }),
        !(0 <= id < w.len()) ==> backward_trail(w, fc, bc, id, origin).len() == 0,
    decreases id,
{
    let trail = backward_trail(w, fc, bc, id, origin);
    lemma_backward_grows(w, fc, bc, id);
    if id < 0 || id >= w.len() {
    } else {
        let here = seq![Handover { target: id, origin, earlier: bc[id] }];
        let s1 = bc.update(id, bc[id] + 1);
        if w[id].counted && w[id].relays && s1[id] == fc[id] {
            let first_ok = w[id].first is Some && 0 <= w[id].first->0 < id;
            let a = if first_ok {
                w[id].first->0
            } else {
                -1
            };
            let o1 = Origin { consumer: Some(id), second: false };
            let t1 = backward_trail(w, fc, s1, a, o1);
            let s2 = backward_visit(w, fc, s1, a);
            let second_ok = w[id].second is Some && 0 <= w[id].second->0 < id;
            let b = if second_ok {
                w[id].second->0
            } else {
                -1
            };
            let o2 = Origin { consumer: Some(id), second: true };
            let t2 = backward_trail(w, fc, s2, b, o2);
            let s3 = backward_visit(w, fc, s2, b);
            if first_ok {
                lemma_backward_trail(w, fc, s1, a, o1);
                lemma_backward_grows(w, fc, s1, a);
            } else {
                assert(t1.len() == 0);
            }
            if second_ok {
                lemma_backward_trail(w, fc, s2, b, o2);
                lemma_backward_grows(w, fc, s2, b);
            } else {
                assert(t2.len() == 0);
            }
            assert(trail == here + t1 + t2);
            assert(backward_visit(w, fc, bc, id) == s3);
            lemma_hands_joined(w, bc, s1, s2, s3, id, a, b, here, t1, t2);
            lemma_relays_joined(w, fc, bc, s1, s2, s3, id, a, b, here, t1, t2);
            lemma_relayed_all_joined(w, fc, bc, s1, s2, s3, id, a, b, here, t1, t2);
            assert(trail[0] == here[0]);
        } else {
            assert(trail == here);
            assert(trail[0] == here[0]);
            if w[id].counted {
                assert(handed(trail, id, bc[id] as int));
            }
        }
    }
}

} // verus!
