//! The mathematics of pass counting on a shared graph.
//!
//! A graph is a sequence of vertices whose operands precede them. A forward
//! request evaluates a vertex once per round and is passed on to the operands
//! only by that first visit; a gradient is passed on to the operands only
//! when every forward visit has been answered. The lemmas here show that the
//! counters of every vertex are then exactly the requests made on it from
//! outside plus the visits that its consumers owe it.

use vstd::prelude::*;

verus! {

/// How one vertex is wired into the graph.
pub struct Vertex {
    /// Position of the first operand.
    pub first: Option<int>,
    /// Position of the second operand.
    pub second: Option<int>,
    /// The vertex carries a pass counter; inputs and parameters do not.
    pub counted: bool,
    /// The vertex passes requests and gradients on to its operands.
    pub relays: bool,
    /// The vertex owns a gradient store: it is a parameter.
    pub stores: bool,
}

/// Operands precede their consumers, and only counted vertices relay.
pub open spec fn wired(w: Seq<Vertex>) -> bool {
    forall|i: int|
        0 <= i < w.len() ==> {
            &&& (#[trigger] w[i]).first matches Some(a) ==> 0 <= a < i
            &&& w[i].second matches Some(b) ==> 0 <= b < i
            &&& w[i].relays ==> w[i].counted
        }
}

/// Number of operand slots of `v` that hold vertex `n`.
pub open spec fn weight(v: Vertex, n: int) -> nat {
    (if v.first == Some(n) {
        1nat
    } else {
        0nat
    }) + (if v.second == Some(n) {
        1nat
    } else {
        0nat
    })
}

/// Number of operand slots that hold `n`, among the vertices before `upto`
/// that are switched on.
pub open spec fn inflow(w: Seq<Vertex>, on: Seq<bool>, n: int, upto: int) -> nat
    decreases upto,
{
    if upto <= 0 {
        0
    } else {
        inflow(w, on, n, upto - 1) + (if on[upto - 1] {
            weight(w[upto - 1], n)
        } else {
            0nat
        })
    }
}

/// The vertices that have passed a forward request on to their operands.
pub open spec fn feeding(w: Seq<Vertex>, fc: Seq<nat>) -> Seq<bool> {
    Seq::new(w.len(), |c: int| w[c].relays && fc[c] > 0)
}

/// The vertices that have passed their gradient on to their operands.
pub open spec fn drained(w: Seq<Vertex>, fc: Seq<nat>, bc: Seq<nat>) -> Seq<bool> {
    Seq::new(w.len(), |c: int| w[c].relays && fc[c] > 0 && bc[c] == fc[c])
}

/// Forward visits that `n` received from its consumers.
pub open spec fn forward_inflow(w: Seq<Vertex>, fc: Seq<nat>, n: int) -> nat {
    inflow(w, feeding(w, fc), n, w.len() as int)
}

/// Backward visits that `n` received from its consumers.
pub open spec fn backward_inflow(w: Seq<Vertex>, fc: Seq<nat>, bc: Seq<nat>, n: int) -> nat {
    inflow(w, drained(w, fc, bc), n, w.len() as int)
}

/// Forward visits of `n` that no consumer accounts for: the requests made
/// on it from outside.
pub open spec fn requested_forward(w: Seq<Vertex>, fc: Seq<nat>, n: int) -> int {
    fc[n] - forward_inflow(w, fc, n)
}

/// Backward visits of `n` that no consumer accounts for.
pub open spec fn requested_backward(w: Seq<Vertex>, fc: Seq<nat>, bc: Seq<nat>, n: int) -> int {
    bc[n] - backward_inflow(w, fc, bc, n)
}

/// The forward counters after a forward request on `id`.
pub open spec fn forward_visit(w: Seq<Vertex>, fc: Seq<nat>, id: int) -> Seq<nat>
    decreases id,
{
    if id < 0 || id >= w.len() || !w[id].counted {
        fc
    } else if fc[id] > 0 || !w[id].relays {
        fc.update(id, fc[id] + 1)
    } else {
        let s1 = fc.update(id, 1);
        let s2 = if w[id].first is Some && 0 <= w[id].first->0 < id {
            forward_visit(w, s1, w[id].first->0)
        } else {
            s1
        };
        if w[id].second is Some && 0 <= w[id].second->0 < id {
            forward_visit(w, s2, w[id].second->0)
        } else {
            s2
        }
    }
}

/// The backward counters after a gradient is handed to `id`.
pub open spec fn backward_visit(w: Seq<Vertex>, fc: Seq<nat>, bc: Seq<nat>, id: int) -> Seq<nat>
    decreases id,
{
    if id < 0 || id >= w.len() || !w[id].counted {
        bc
    } else {
        let s1 = bc.update(id, bc[id] + 1);
        if w[id].relays && s1[id] == fc[id] {
            let s2 = if w[id].first is Some && 0 <= w[id].first->0 < id {
                backward_visit(w, fc, s1, w[id].first->0)
            } else {
                s1
            };
            if w[id].second is Some && 0 <= w[id].second->0 < id {
                backward_visit(w, fc, s2, w[id].second->0)
            } else {
                s2
            }
        } else {
            s1
        }
    }
}

/// The forward counters after the gradients below `id` are zeroed.
pub open spec fn zero_visit(w: Seq<Vertex>, fc: Seq<nat>, id: int) -> Seq<nat>
    decreases id,
{
    if id < 0 || id >= w.len() || !w[id].counted || fc[id] == 0 {
        fc
    } else {
        let s1 = fc.update(id, 0);
        let s2 = if w[id].first is Some && 0 <= w[id].first->0 < id {
            zero_visit(w, s1, w[id].first->0)
        } else {
            s1
        };
        if w[id].second is Some && 0 <= w[id].second->0 < id {
            zero_visit(w, s2, w[id].second->0)
        } else {
            s2
        }
    }
}

/// Switching one vertex changes the inflow by that vertex's weight.
pub proof fn lemma_inflow_switch(w: Seq<Vertex>, on: Seq<bool>, k: int, b: bool, n: int, upto: int)
    requires
        0 <= k < on.len(),
        upto <= on.len(),
    ensures
        inflow(w, on.update(k, b), n, upto) + (if k < upto && on[k] {
            weight(w[k], n)
        } else {
            0nat
        }) == inflow(w, on, n, upto) + (if k < upto && b {
            weight(w[k], n)
        } else {
            0nat
        }),
    decreases upto,
{
    if upto > 0 {
        lemma_inflow_switch(w, on, k, b, n, upto - 1);
    }
}

/// An operand slot counts at most twice per vertex.
pub proof fn lemma_inflow_bound(w: Seq<Vertex>, on: Seq<bool>, n: int, upto: int)
    requires
        0 <= upto,
    ensures
        inflow(w, on, n, upto) <= 2 * upto,
    decreases upto,
{
    if upto > 0 {
        lemma_inflow_bound(w, on, n, upto - 1);
    }
}

/// Switching on more vertices cannot lower the inflow.
pub proof fn lemma_inflow_monotone(w: Seq<Vertex>, on1: Seq<bool>, on2: Seq<bool>, n: int, upto: int)
    requires
        upto <= on1.len(),
        upto <= on2.len(),
        forall|c: int| 0 <= c < upto && on1[c] ==> on2[c],
    ensures
        inflow(w, on1, n, upto) <= inflow(w, on2, n, upto),
    decreases upto,
{
    if upto > 0 {
        lemma_inflow_monotone(w, on1, on2, n, upto - 1);
    }
}

/// The inflow depends only on the vertices that hold `n` in a slot.
pub proof fn lemma_inflow_agree(w: Seq<Vertex>, on1: Seq<bool>, on2: Seq<bool>, n: int, upto: int)
    requires
        upto <= on1.len(),
        upto <= on2.len(),
        forall|c: int| 0 <= c < upto && weight(w[c], n) > 0 ==> on1[c] == on2[c],
    ensures
        inflow(w, on1, n, upto) == inflow(w, on2, n, upto),
    decreases upto,
{
    if upto > 0 {
        lemma_inflow_agree(w, on1, on2, n, upto - 1);
    }
}

/// A positive inflow comes from some vertex that is switched on.
pub proof fn lemma_inflow_witness(w: Seq<Vertex>, on: Seq<bool>, n: int, upto: int) -> (c: int)
    requires
        upto <= on.len(),
        inflow(w, on, n, upto) > 0,
    ensures
        0 <= c < upto,
        on[c],
        weight(w[c], n) > 0,
    decreases upto,
{
    if on[upto - 1] && weight(w[upto - 1], n) > 0 {
        upto - 1
    } else {
        lemma_inflow_witness(w, on, n, upto - 1)
    }
}

/// Counters in which no vertex has been visited.
pub open spec fn untouched(len: nat) -> Seq<nat> {
    Seq::new(len, |i: int| 0nat)
}

/// Every backward visit answers a forward visit: no vertex was handed more
/// gradients from outside than values were requested from it.
pub open spec fn answerable(w: Seq<Vertex>, fc: Seq<nat>, bc: Seq<nat>) -> bool {
    forall|n: int|
        0 <= n < w.len() && w[n].counted ==> #[trigger] requested_backward(w, fc, bc, n)
            <= requested_forward(w, fc, n)
}

proof fn lemma_feeding_update(w: Seq<Vertex>, fc: Seq<nat>, id: int, v: nat)
    requires
        fc.len() == w.len(),
        0 <= id < w.len(),
    ensures
        feeding(w, fc.update(id, v)) == feeding(w, fc).update(id, w[id].relays && v > 0),
{
    assert(feeding(w, fc.update(id, v)) =~= feeding(w, fc).update(id, w[id].relays && v > 0));
}

proof fn lemma_drained_update(w: Seq<Vertex>, fc: Seq<nat>, bc: Seq<nat>, id: int, v: nat)
    requires
        fc.len() == w.len(),
        bc.len() == w.len(),
        0 <= id < w.len(),
    ensures
        drained(w, fc, bc.update(id, v)) == drained(w, fc, bc).update(
            id,
            w[id].relays && fc[id] > 0 && v == fc[id],
        ),
{
    assert(drained(w, fc, bc.update(id, v)) =~= drained(w, fc, bc).update(
        id,
        w[id].relays && fc[id] > 0 && v == fc[id],
    ));
}

/// A forward request adds one outside request on its target and none
/// elsewhere: every other visit it causes is owed by a consumer.
pub proof fn lemma_forward_visit(w: Seq<Vertex>, fc: Seq<nat>, id: int)
    requires
        wired(w),
        fc.len() == w.len(),
    ensures
        forward_visit(w, fc, id).len() == fc.len(),
        forall|n: int|
            0 <= n < w.len() && w[n].counted ==> #[trigger] requested_forward(
                w,
                forward_visit(w, fc, id),
                n,
            ) == requested_forward(w, fc, n) + (if n == id {
                1int
            } else {
                0int
            }),
        forall|n: int| 0 <= n < w.len() ==> #[trigger] forward_visit(w, fc, id)[n] >= fc[n],
        forall|n: int|
            0 <= n < w.len() && (n > id || !w[n].counted) ==> #[trigger] forward_visit(
                w,
                fc,
                id,
            )[n] == fc[n],
    decreases id,
{
    let len = w.len() as int;
    let r = forward_visit(w, fc, id);
    if id < 0 || id >= len || !w[id].counted {
    } else if fc[id] > 0 || !w[id].relays {
        lemma_feeding_update(w, fc, id, fc[id] + 1);
        assert(feeding(w, r) =~= feeding(w, fc));
    } else {
        let s1 = fc.update(id, 1);
        lemma_feeding_update(w, fc, id, 1);
        assert forall|n: int| 0 <= n < len implies #[trigger] requested_forward(w, s1, n)
            == requested_forward(w, fc, n) + (if n == id {
            1int
        } else {
            0int
        }) - weight(w[id], n) by {
            lemma_inflow_switch(w, feeding(w, fc), id, true, n, len);
        }
        let first_ok = w[id].first is Some && 0 <= w[id].first->0 < id;
        let s2 = if first_ok {
            forward_visit(w, s1, w[id].first->0)
        } else {
            s1
        };
        if first_ok {
            lemma_forward_visit(w, s1, w[id].first->0);
        }
        let second_ok = w[id].second is Some && 0 <= w[id].second->0 < id;
        if second_ok {
            lemma_forward_visit(w, s2, w[id].second->0);
        }
        assert forall|n: int| 0 <= n < len && w[n].counted implies #[trigger] requested_forward(
            w,
            r,
            n,
        ) == requested_forward(w, fc, n) + (if n == id {
            1int
        } else {
            0int
        }) by {
            assert(requested_forward(w, s1, n) == requested_forward(w, fc, n) + (if n == id {
                1int
            } else {
                0int
            }) - weight(w[id], n));
            assert(requested_forward(w, s2, n) == requested_forward(w, s1, n) + (if first_ok && n
                == w[id].first->0 {
                1int
            } else {
                0int
            }));
        }
    }
}

/// A vertex that may still be handed a gradient has an unanswered forward
/// visit.
pub proof fn lemma_backward_room(w: Seq<Vertex>, fc: Seq<nat>, bc: Seq<nat>, id: int)
    requires
        fc.len() == w.len(),
        bc.len() == w.len(),
        0 <= id < w.len(),
        requested_backward(w, fc, bc, id) < requested_forward(w, fc, id),
    ensures
        bc[id] < fc[id],
{
    lemma_inflow_monotone(w, drained(w, fc, bc), feeding(w, fc), id, w.len() as int);
}

/// Where every backward visit answers a forward visit, no backward counter
/// exceeds its forward counter.
pub proof fn lemma_answerable_counts(w: Seq<Vertex>, fc: Seq<nat>, bc: Seq<nat>, n: int)
    requires
        fc.len() == w.len(),
        bc.len() == w.len(),
        0 <= n < w.len(),
        requested_backward(w, fc, bc, n) <= requested_forward(w, fc, n),
    ensures
        bc[n] <= fc[n],
{
    lemma_inflow_monotone(w, drained(w, fc, bc), feeding(w, fc), n, w.len() as int);
}

/// Handing a gradient to a vertex adds one outside gradient on it and none
/// elsewhere: every other visit it causes is owed by a drained consumer.
pub proof fn lemma_backward_visit(w: Seq<Vertex>, fc: Seq<nat>, bc: Seq<nat>, id: int)
    requires
        wired(w),
        fc.len() == w.len(),
        bc.len() == w.len(),
        answerable(w, fc, bc),
        0 <= id < w.len() && w[id].counted ==> requested_backward(w, fc, bc, id)
            < requested_forward(w, fc, id),
    ensures
        backward_visit(w, fc, bc, id).len() == bc.len(),
        forall|n: int|
            0 <= n < w.len() && w[n].counted ==> #[trigger] requested_backward(
                w,
                fc,
                backward_visit(w, fc, bc, id),
                n,
            ) == requested_backward(w, fc, bc, n) + (if n == id {
                1int
            } else {
                0int
            }),
        forall|n: int| 0 <= n < w.len() ==> #[trigger] backward_visit(w, fc, bc, id)[n] >= bc[n],
        forall|n: int|
            0 <= n < w.len() && (n > id || !w[n].counted) ==> #[trigger] backward_visit(
                w,
                fc,
                bc,
                id,
            )[n] == bc[n],
        answerable(w, fc, backward_visit(w, fc, bc, id)),
    decreases id,
{
    let len = w.len() as int;
    let r = backward_visit(w, fc, bc, id);
    if id < 0 || id >= len || !w[id].counted {
    } else {
        let s1 = bc.update(id, bc[id] + 1);
        lemma_backward_room(w, fc, bc, id);
        lemma_drained_update(w, fc, bc, id, bc[id] + 1);
        if w[id].relays && s1[id] == fc[id] {
            assert forall|n: int| 0 <= n < len implies #[trigger] requested_backward(w, fc, s1, n)
                == requested_backward(w, fc, bc, n) + (if n == id {
                1int
            } else {
                0int
            }) - weight(w[id], n) by {
                lemma_inflow_switch(w, drained(w, fc, bc), id, true, n, len);
            }
            assert(answerable(w, fc, s1)) by {
                assert forall|n: int| 0 <= n < len && w[n].counted implies #[trigger] requested_backward(
                    w, fc, s1, n) <= requested_forward(w, fc, n) by {
                    assert(requested_backward(w, fc, bc, n) <= requested_forward(w, fc, n));
                }
            }
            let first_ok = w[id].first is Some && 0 <= w[id].first->0 < id;
            let s2 = if first_ok {
                backward_visit(w, fc, s1, w[id].first->0)
            } else {
                s1
            };
            if first_ok {
                let a = w[id].first->0;
                assert(requested_backward(w, fc, bc, a) <= requested_forward(w, fc, a) || !w[a].counted);
                lemma_backward_visit(w, fc, s1, a);
            }
            let second_ok = w[id].second is Some && 0 <= w[id].second->0 < id;
            if second_ok {
                let b = w[id].second->0;
                assert(requested_backward(w, fc, bc, b) <= requested_forward(w, fc, b) || !w[b].counted);
                assert(requested_backward(w, fc, s1, b) == requested_backward(w, fc, bc, b) - weight(w[id], b));
                lemma_backward_visit(w, fc, s2, b);
            }
            assert forall|n: int| 0 <= n < len && w[n].counted implies #[trigger] requested_backward(
                w,
                fc,
                r,
                n,
            ) == requested_backward(w, fc, bc, n) + (if n == id {
                1int
            } else {
                0int
            }) by {
                assert(requested_backward(w, fc, s1, n) == requested_backward(w, fc, bc, n) + (if n
                    == id {
                    1int
                } else {
                    0int
                }) - weight(w[id], n));
                assert(requested_backward(w, fc, s2, n) == requested_backward(w, fc, s1, n) + (
                if first_ok && n == w[id].first->0 {
                    1int
                } else {
                    0int
                }));
            }
        } else {
            assert(drained(w, fc, s1) =~= drained(w, fc, bc));
        }
        assert(answerable(w, fc, r)) by {
            assert forall|n: int| 0 <= n < len && w[n].counted implies #[trigger] requested_backward(
                w, fc, r, n) <= requested_forward(w, fc, n) by {
                assert(requested_backward(w, fc, bc, n) <= requested_forward(w, fc, n));
            }
        }
    }
}

/// The operands of `n` that carry a counter hold no forward visit.
pub open spec fn operands_clear(w: Seq<Vertex>, fc: Seq<nat>, n: int) -> bool {
    &&& (w[n].first matches Some(a) ==> 0 <= a < w.len() && w[a].counted ==> fc[a] == 0)
    &&& (w[n].second matches Some(b) ==> 0 <= b < w.len() && w[b].counted ==> fc[b] == 0)
}

/// Zeroing clears its target, changes no counter except to zero, and leaves
/// below every vertex that it cleared only cleared operands.
pub proof fn lemma_zero_visit(w: Seq<Vertex>, fc: Seq<nat>, id: int)
    requires
        wired(w),
        fc.len() == w.len(),
    ensures
        zero_visit(w, fc, id).len() == fc.len(),
        0 <= id < w.len() && w[id].counted ==> zero_visit(w, fc, id)[id] == 0,
        forall|n: int|
            0 <= n < w.len() ==> #[trigger] zero_visit(w, fc, id)[n] == fc[n] || zero_visit(
                w,
                fc,
                id,
            )[n] == 0,
        forall|n: int|
            0 <= n < w.len() && (n > id || !w[n].counted) ==> #[trigger] zero_visit(w, fc, id)[n]
                == fc[n],
        forall|n: int|
            0 <= n < w.len() && w[n].counted && fc[n] > 0 && #[trigger] zero_visit(w, fc, id)[n]
                == 0 ==> operands_clear(w, zero_visit(w, fc, id), n),
    decreases id,
{
    let len = w.len() as int;
    let r = zero_visit(w, fc, id);
    if id < 0 || id >= len || !w[id].counted || fc[id] == 0 {
    } else {
        let s1 = fc.update(id, 0);
        let first_ok = w[id].first is Some && 0 <= w[id].first->0 < id;
        let s2 = if first_ok {
            zero_visit(w, s1, w[id].first->0)
        } else {
            s1
        };
        if first_ok {
            lemma_zero_visit(w, s1, w[id].first->0);
        }
        let second_ok = w[id].second is Some && 0 <= w[id].second->0 < id;
        if second_ok {
            lemma_zero_visit(w, s2, w[id].second->0);
        }
        assert forall|n: int|
            0 <= n < len && w[n].counted && fc[n] > 0 && #[trigger] r[n] == 0 implies operands_clear(
            w,
            r,
            n,
        ) by {
            if n == id {
                assert(s2[n] == s1[n] || s2[n] == 0);
            } else if s1[n] > 0 && s2[n] == 0 {
                assert(operands_clear(w, s2, n));
                assert(forall|m: int| 0 <= m < len ==> #[trigger] r[m] == s2[m] || r[m] == 0);
            } else {
                assert(s2[n] == s1[n] || s2[n] == 0);
                assert(s2[n] > 0 && r[n] == 0);
            }
        }
    }
}

proof fn lemma_zero_visit_all(w: Seq<Vertex>, fc: Seq<nat>, root: int, k: int)
    requires
        wired(w),
        fc.len() == w.len(),
        0 <= k <= w.len(),
        forall|n: int|
            0 <= n < w.len() && w[n].counted && n != root && fc[n] > 0
                ==> #[trigger] requested_forward(w, fc, n) <= 0,
    ensures
        forall|n: int| k <= n < w.len() && w[n].counted ==> #[trigger] zero_visit(w, fc, root)[n] == 0,
    decreases w.len() - k,
{
    let len = w.len() as int;
    let r = zero_visit(w, fc, root);
    lemma_zero_visit(w, fc, root);
    if k < len {
        lemma_zero_visit_all(w, fc, root, k + 1);
        if w[k].counted && r[k] > 0 {
            assert(r[k] == fc[k]);
            assert(k != root);
            assert(requested_forward(w, fc, k) <= 0);
            let c = lemma_inflow_witness(w, feeding(w, fc), k, len);
            assert(c > k);
            assert(w[c].counted && fc[c] > 0);
            assert(r[c] == 0);
            assert(operands_clear(w, r, c));
            assert(false);
        }
    }
}

/// After a round that was requested on `root` alone, zeroing from `root`
/// leaves no forward visit on any vertex.
pub proof fn lemma_zero_resets(w: Seq<Vertex>, fc: Seq<nat>, root: int)
    requires
        wired(w),
        fc.len() == w.len(),
        forall|n: int|
            0 <= n < w.len() && w[n].counted && n != root && fc[n] > 0
                ==> #[trigger] requested_forward(w, fc, n) <= 0,
    ensures
        forall|n: int| 0 <= n < w.len() && w[n].counted ==> #[trigger] zero_visit(w, fc, root)[n] == 0,
{
    lemma_zero_visit_all(w, fc, root, 0);
}

proof fn lemma_inflow_off(w: Seq<Vertex>, on: Seq<bool>, n: int, upto: int)
    requires
        upto <= on.len(),
        forall|c: int| 0 <= c < upto ==> !on[c],
    ensures
        inflow(w, on, n, upto) == 0,
    decreases upto,
{
    if upto > 0 {
        lemma_inflow_off(w, on, n, upto - 1);
    }
}

/// Counters without visits hold no request.
pub proof fn lemma_untouched(w: Seq<Vertex>, fc: Seq<nat>, n: int)
    requires
        fc.len() == w.len(),
        0 <= n < w.len(),
    ensures
        requested_forward(w, untouched(w.len()), n) == 0,
        requested_backward(w, fc, untouched(w.len()), n) == 0 - backward_inflow(
            w,
            fc,
            untouched(w.len()),
            n,
        ),
        requested_backward(w, fc, untouched(w.len()), n) == 0,
{
    lemma_inflow_off(w, feeding(w, untouched(w.len())), n, w.len() as int);
    lemma_inflow_off(w, drained(w, fc, untouched(w.len())), n, w.len() as int);
}

proof fn lemma_answered_from(w: Seq<Vertex>, fc: Seq<nat>, bc: Seq<nat>, k: int)
    requires
        wired(w),
        fc.len() == w.len(),
        bc.len() == w.len(),
        0 <= k <= w.len(),
        forall|n: int|
            0 <= n < w.len() && w[n].counted ==> #[trigger] requested_backward(w, fc, bc, n)
                == requested_forward(w, fc, n),
    ensures
        forall|n: int| k <= n < w.len() && w[n].counted ==> #[trigger] bc[n] == fc[n],
    decreases w.len() - k,
{
    let len = w.len() as int;
    if k < len {
        lemma_answered_from(w, fc, bc, k + 1);
        if w[k].counted {
            assert forall|c: int| 0 <= c < len && weight(w[c], k) > 0 implies drained(w, fc, bc)[c]
                == feeding(w, fc)[c] by {
                assert(c > k);
                if w[c].relays {
                    assert(bc[c] == fc[c]);
                }
            }
            lemma_inflow_agree(w, drained(w, fc, bc), feeding(w, fc), k, len);
            assert(requested_backward(w, fc, bc, k) == requested_forward(w, fc, k));
        }
    }
}

/// Where as many gradients were handed to each vertex from outside as
/// values were requested from it, every forward visit in the graph has been
/// answered by exactly one backward visit.
pub proof fn lemma_answered(w: Seq<Vertex>, fc: Seq<nat>, bc: Seq<nat>)
    requires
        wired(w),
        fc.len() == w.len(),
        bc.len() == w.len(),
        forall|n: int|
            0 <= n < w.len() && w[n].counted ==> #[trigger] requested_backward(w, fc, bc, n)
                == requested_forward(w, fc, n),
    ensures
        forall|n: int| 0 <= n < w.len() && w[n].counted ==> #[trigger] bc[n] == fc[n],
{
    lemma_answered_from(w, fc, bc, 0);
}

/// One round on a graph: a value is requested from `root` and one gradient
/// is handed to it. Afterwards a vertex whose value feeds `k` operand slots
/// of evaluated consumers has received exactly `k` forward visits and
/// exactly `k` backward visits (one more each for `root` itself).
pub proof fn lemma_round(w: Seq<Vertex>, root: int)
    requires
        wired(w),
        0 <= root < w.len(),
        w[root].counted,
    ensures
        ({
            let fc = forward_visit(w, untouched(w.len()), root);
            let bc = backward_visit(w, fc, untouched(w.len()), root);
            forall|n: int|
                0 <= n < w.len() && w[n].counted ==> {
                    &&& #[trigger] fc[n] == forward_inflow(w, fc, n) + (if n == root {
                        1nat
                    } else {
                        0nat
                    })
                    &&& bc[n] == fc[n]
                }
        }),
{
    let zero = untouched(w.len());
    let fc = forward_visit(w, zero, root);
    lemma_forward_visit(w, zero, root);
    assert forall|n: int| 0 <= n < w.len() && w[n].counted implies #[trigger] requested_forward(
        w,
        fc,
        n,
    ) == (if n == root {
        1int
    } else {
        0int
    }) by {
        lemma_untouched(w, fc, n);
    }
    assert forall|n: int| 0 <= n < w.len() implies #[trigger] requested_backward(w, fc, zero, n)
        == 0 by {
        lemma_untouched(w, fc, n);
    }
    assert(answerable(w, fc, zero));
    lemma_backward_visit(w, fc, zero, root);
    let bc = backward_visit(w, fc, zero, root);
    lemma_answered(w, fc, bc);
    assert forall|n: int| 0 <= n < w.len() && w[n].counted implies {
        &&& #[trigger] fc[n] == forward_inflow(w, fc, n) + (if n == root {
            1nat
        } else {
            0nat
        })
        &&& bc[n] == fc[n]
    } by {
        assert(requested_forward(w, fc, n) == (if n == root {
            1int
        } else {
            0int
        }));
    }
}

/// No vertex has been requested from outside more than `limit` times, and
/// `id` less often than that.
pub open spec fn forward_room(w: Seq<Vertex>, fc: Seq<nat>, id: int, limit: int) -> bool {
    &&& forall|n: int|
        0 <= n < w.len() && w[n].counted ==> #[trigger] requested_forward(w, fc, n) <= limit
    &&& 0 <= id < w.len() && w[id].counted ==> requested_forward(w, fc, id) < limit
}

/// Every backward visit answers a forward visit, and `id` has a forward
/// request from outside that no gradient has answered yet.
pub open spec fn backward_ready(w: Seq<Vertex>, fc: Seq<nat>, bc: Seq<nat>, id: int) -> bool {
    &&& answerable(w, fc, bc)
    &&& 0 <= id < w.len() && w[id].counted ==> requested_backward(w, fc, bc, id)
        < requested_forward(w, fc, id)
}

/// With room for a request, the counter of the vertex stays below the limit
/// plus two visits per vertex of the graph.
pub proof fn lemma_forward_room(w: Seq<Vertex>, fc: Seq<nat>, id: int, limit: int)
    requires
        fc.len() == w.len(),
        0 <= id < w.len(),
        w[id].counted,
        forward_room(w, fc, id, limit),
    ensures
        fc[id] < limit + 2 * w.len(),
{
    lemma_inflow_bound(w, feeding(w, fc), id, w.len() as int);
}

/// A first visit leaves room for the requests that it passes on.
pub proof fn lemma_forward_room_operands(w: Seq<Vertex>, fc: Seq<nat>, id: int, limit: int)
    requires
        wired(w),
        fc.len() == w.len(),
        0 <= id < w.len(),
        w[id].relays,
        fc[id] == 0,
        forward_room(w, fc, id, limit),
    ensures
        ({
            let s1 = fc.update(id, 1);
            let s2 = if w[id].first is Some {
                forward_visit(w, s1, w[id].first->0)
            } else {
                s1
            };
            &&& w[id].first is Some ==> forward_room(w, s1, w[id].first->0, limit)
            &&& w[id].second is Some ==> forward_room(w, s2, w[id].second->0, limit)
        }),
{
    let len = w.len() as int;
    let s1 = fc.update(id, 1);
    lemma_feeding_update(w, fc, id, 1);
    assert forall|n: int| 0 <= n < len implies #[trigger] requested_forward(w, s1, n)
        == requested_forward(w, fc, n) + (if n == id {
        1int
    } else {
        0int
    }) - weight(w[id], n) by {
        lemma_inflow_switch(w, feeding(w, fc), id, true, n, len);
    }
    assert forall|n: int| 0 <= n < len && w[n].counted implies #[trigger] requested_forward(
        w,
        s1,
        n,
    ) <= limit by {
        assert(requested_forward(w, fc, n) <= limit);
    }
    if w[id].first is Some {
        let a = w[id].first->0;
        assert(requested_forward(w, fc, a) <= limit || !w[a].counted);
        lemma_forward_visit(w, s1, a);
    }
    let s2 = if w[id].first is Some {
        forward_visit(w, s1, w[id].first->0)
    } else {
        s1
    };
    if w[id].second is Some {
        let b = w[id].second->0;
        assert(requested_forward(w, fc, b) <= limit || !w[b].counted);
        assert(requested_forward(w, s1, b) == requested_forward(w, fc, b) - weight(w[id], b));
        assert forall|n: int| 0 <= n < len && w[n].counted implies #[trigger] requested_forward(
            w,
            s2,
            n,
        ) <= limit by {
            assert(requested_forward(w, fc, n) <= limit);
            assert(requested_forward(w, s1, n) == requested_forward(w, fc, n) + (if n == id {
                1int
            } else {
                0int
            }) - weight(w[id], n));
        }
    }
}

/// A vertex that hands its gradient on leaves its operands ready for it.
pub proof fn lemma_backward_ready_operands(w: Seq<Vertex>, fc: Seq<nat>, bc: Seq<nat>, id: int)
    requires
        wired(w),
        fc.len() == w.len(),
        bc.len() == w.len(),
        0 <= id < w.len(),
        w[id].relays,
        bc[id] + 1 == fc[id],
        backward_ready(w, fc, bc, id),
    ensures
        ({
            let s1 = bc.update(id, bc[id] + 1);
            let s2 = if w[id].first is Some {
                backward_visit(w, fc, s1, w[id].first->0)
            } else {
                s1
            };
            &&& w[id].first is Some ==> backward_ready(w, fc, s1, w[id].first->0)
            &&& w[id].second is Some ==> backward_ready(w, fc, s2, w[id].second->0)
        }),
{
    let len = w.len() as int;
    let s1 = bc.update(id, bc[id] + 1);
    lemma_drained_update(w, fc, bc, id, bc[id] + 1);
    assert forall|n: int| 0 <= n < len implies #[trigger] requested_backward(w, fc, s1, n)
        == requested_backward(w, fc, bc, n) + (if n == id {
        1int
    } else {
        0int
    }) - weight(w[id], n) by {
        lemma_inflow_switch(w, drained(w, fc, bc), id, true, n, len);
    }
    assert(answerable(w, fc, s1)) by {
        assert forall|n: int| 0 <= n < len && w[n].counted implies #[trigger] requested_backward(
            w,
            fc,
            s1,
            n,
        ) <= requested_forward(w, fc, n) by {
            assert(requested_backward(w, fc, bc, n) <= requested_forward(w, fc, n));
        }
    }
    if w[id].first is Some {
        let a = w[id].first->0;
        assert(requested_backward(w, fc, bc, a) <= requested_forward(w, fc, a) || !w[a].counted);
        lemma_backward_visit(w, fc, s1, a);
    }
    if w[id].second is Some {
        let b = w[id].second->0;
        assert(requested_backward(w, fc, bc, b) <= requested_forward(w, fc, b) || !w[b].counted);
        assert(requested_backward(w, fc, s1, b) == requested_backward(w, fc, bc, b) - weight(
            w[id],
            b,
        ));
    }
}

/// The backward counters after a reset that took the forward counters from
/// `fc` to `fc2`: a vertex whose forward counter was cleared has lost its
/// backward visits too.
pub open spec fn cleared(bc: Seq<nat>, fc: Seq<nat>, fc2: Seq<nat>) -> Seq<nat> {
    Seq::new(
        bc.len(),
        |n: int|
            if fc[n] > 0 && fc2[n] == 0 {
                0nat
            } else {
                bc[n]
            },
    )
}

} // verus!
