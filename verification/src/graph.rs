//! A computation graph as an arena of vertices.
//!
//! Operands are named by their position and stand before their consumers,
//! so that a vertex can feed any number of consumers and no cycle can be
//! built. The graph takes the decisions of the forward pass, the backward
//! pass and the reset, keeps the pass counters, and tells its caller which
//! arrays to compute in which order.

use crate::counter::ForwardAction;
use crate::graph_node::GraphNode;
use crate::indices::{rows_fit, rows_in_range};
use crate::node::{propagation, Clearing, NodeKind, Operand, Profile, Propagation};
use crate::plans::{
    backward_trail, forward_order, hands_in_turn, lemma_backward_trail, lemma_forward_grows,
    lemma_forward_order, lemma_trail_targets, lists_evaluated, operands_first, relayed_all,
    relayed_once, zero_trail, Handover,
    Origin,
};
use crate::wiring::{
    answerable, backward_ready, backward_visit, cleared, drained, feeding, forward_inflow,
    forward_room,
    forward_visit, inflow, lemma_answerable_counts, lemma_answered, lemma_backward_ready_operands,
    lemma_backward_room, lemma_backward_visit, lemma_forward_room, lemma_forward_room_operands,
    lemma_forward_visit, lemma_inflow_bound, lemma_round, lemma_untouched, lemma_zero_resets, lemma_zero_visit,
    requested_backward, requested_forward, untouched, wired, zero_visit, Vertex,
};
use vstd::prelude::*;

verus! {

/// Most vertices that a graph holds.
pub const CAPACITY: usize = 0x4000_0000;

/// Most requests from outside that a vertex takes between two resets.
pub const REQUEST_LIMIT: usize = usize::MAX - 2 * CAPACITY - 1;

/// Where a gradient is read from.
#[derive(Debug, Clone, Copy, PartialEq, Eq, Structural)]
pub enum Source {
    /// The gradient that the caller of the backward pass supplies.
    Seed,
    /// The buffer that the given vertex keeps for its first operand.
    First(usize),
    /// The buffer that the given vertex keeps for its second operand.
    Second(usize),
}

/// One step of a backward pass: a gradient that a vertex is handed.
#[derive(Debug, Clone, Copy, PartialEq, Eq, Structural)]
pub struct Delivery {
    /// The vertex that receives the gradient.
    pub target: usize,
    /// Where the gradient is read from.
    pub source: Source,
    /// What the target does with it.
    pub handling: Propagation,
}

/// How a vertex with the given profile is wired.
pub open spec fn vertex_of(p: Profile) -> Vertex {
    Vertex {
        first: match p.first {
            Some(a) => Some(a.id as int),
            None => None,
        },
        second: match p.second {
            Some(b) => Some(b.id as int),
            None => None,
        },
        counted: p.kind.counted(),
        relays: p.kind.relays(),
        stores: p.kind is Parameter,
    }
}

/// The vertex with the given profile at position `id` as a consumer sees
/// it; a list of indices is no operand.
pub open spec fn operand_of(p: Profile, id: usize) -> Option<Operand> {
    match p.shape {
        Some(shape) => Some(
            Operand {
                id,
                shape,
                needs_gradient: p.needs_gradient,
                parameter: p.kind is Parameter,
            },
        ),
        None => None,
    }
}

/// The positions as machine words.
pub open spec fn positions(s: Seq<int>) -> Seq<usize> {
    Seq::new(s.len(), |k: int| s[k] as usize)
}

/// The origin of a gradient that is read from `source`.
pub open spec fn origin_of(source: Source) -> Origin {
    match source {
        Source::Seed => Origin { consumer: None, second: false },
        Source::First(c) => Origin { consumer: Some(c as int), second: false },
        Source::Second(c) => Origin { consumer: Some(c as int), second: true },
    }
}

/// Where a gradient of the given origin is read from.
pub open spec fn source_of(origin: Origin) -> Source {
    match origin.consumer {
        None => Source::Seed,
        Some(c) => if origin.second {
            Source::Second(c as usize)
        } else {
            Source::First(c as usize)
        },
    }
}

/// A computation graph.
#[derive(Debug)]
pub struct Graph {
    nodes: Vec<GraphNode>,
}

impl Graph {
    /// The vertices, in the order in which they were added.
    pub closed spec fn nodes(&self) -> Seq<GraphNode> {
        self.nodes@
    }

    /// What is fixed about the vertex at `id`.
    pub open spec fn profile(&self, id: int) -> Profile {
        self.nodes()[id].profile()
    }

    /// How the vertices are wired.
    pub open spec fn wiring(&self) -> Seq<Vertex> {
        Seq::new(self.nodes().len(), |i: int| vertex_of(self.nodes()[i].profile()))
    }

    /// The forward counters of the vertices.
    pub open spec fn forward_counts(&self) -> Seq<nat> {
        Seq::new(self.nodes().len(), |i: int| self.nodes()[i].forward_calls())
    }

    /// The backward counters of the vertices.
    pub open spec fn backward_counts(&self) -> Seq<nat> {
        Seq::new(self.nodes().len(), |i: int| self.nodes()[i].backward_calls())
    }

    /// The operands that a profile names are vertices of the graph, and are
    /// what the profile says of them.
    pub open spec fn fits(&self, p: Profile) -> bool {
        &&& p.first matches Some(a) ==> self.holds(a)
        &&& p.second matches Some(b) ==> self.holds(b)
        &&& p.index matches Some(j) ==> j < self.nodes().len() && self.profile(
            j as int,
        ).kind is IndexInput
    }

    /// The operand is the vertex at its position.
    pub open spec fn holds(&self, a: Operand) -> bool {
        a.id < self.nodes().len() && operand_of(self.profile(a.id as int), a.id) == Some(a)
    }

    /// The vertex at `i` names vertices before it.
    pub open spec fn linked(&self, i: int) -> bool {
        let p = self.profile(i);
        &&& self.fits(p)
        &&& p.first matches Some(a) ==> a.id < i
        &&& p.second matches Some(b) ==> b.id < i
        &&& p.index matches Some(j) ==> j < i
    }

    /// Every vertex is well formed and names operands that stand before it.
    pub open spec fn wf(&self) -> bool {
        &&& self.nodes().len() <= CAPACITY
        &&& forall|i: int| 0 <= i < self.nodes().len() ==> (#[trigger] self.nodes()[i]).wf()
        &&& forall|i: int| 0 <= i < self.nodes().len() ==> #[trigger] self.linked(i)
    }

    /// Both graphs have the same vertices, wired in the same way, and the
    /// same lists of indices at their index inputs.
    pub open spec fn same_wiring(&self, other: &Graph) -> bool {
        &&& self.nodes().len() == other.nodes().len()
        &&& forall|i: int|
            0 <= i < self.nodes().len() ==> (#[trigger] self.nodes()[i]).profile()
                == other.nodes()[i].profile()
        &&& forall|i: int|
            0 <= i < self.nodes().len() && self.profile(i).kind is IndexInput ==> (
            #[trigger] self.nodes()[i]).indices() == other.nodes()[i].indices()
    }

    /// The row selection at `i` can take the indices that its index input
    /// holds: there are as many as before, and each names a row of the
    /// parameter.
    pub open spec fn index_ready(&self, i: int) -> bool {
        let p = self.profile(i);
        rows_fit(
            self.nodes()[p.index->0 as int].indices(),
            p.shape->0.rows,
            p.first->0.shape.rows,
        )
    }

    /// Every row selection can take the indices that its index input holds.
    pub open spec fn indices_ready(&self) -> bool {
        forall|i: int|
            0 <= i < self.nodes().len() && self.profile(i).kind is Index
                ==> #[trigger] self.index_ready(i)
    }

    /// Requests for the value of `n` that came from outside the graph since
    /// the last reset.
    #[verifier::inline]
    pub open spec fn requested_forward(&self, n: int) -> int {
        requested_forward(self.wiring(), self.forward_counts(), n)
    }

    /// Gradients that were handed to `n` from outside the graph since the
    /// last reset.
    #[verifier::inline]
    pub open spec fn requested_backward(&self, n: int) -> int {
        requested_backward(self.wiring(), self.forward_counts(), self.backward_counts(), n)
    }

    /// The counters have room for a request on `root`.
    pub open spec fn forward_ready(&self, root: int) -> bool {
        forward_room(self.wiring(), self.forward_counts(), root, REQUEST_LIMIT as int)
    }

    /// A gradient can be handed to `root`: a request on it is unanswered,
    /// and no vertex was handed more gradients than values were requested.
    pub open spec fn backward_ready(&self, root: int) -> bool {
        backward_ready(self.wiring(), self.forward_counts(), self.backward_counts(), root)
    }

    /// The wiring of a well-formed graph has operands before consumers.
    pub proof fn lemma_wired(&self)
        requires
            self.wf(),
        ensures
            wired(self.wiring()),
            self.wiring().len() == self.nodes().len(),
            self.forward_counts().len() == self.nodes().len(),
            self.backward_counts().len() == self.nodes().len(),
    {
        let w = self.wiring();
        assert forall|i: int| 0 <= i < w.len() implies {
            &&& (#[trigger] w[i]).first matches Some(a) ==> 0 <= a < i
            &&& w[i].second matches Some(b) ==> 0 <= b < i
            &&& w[i].relays ==> w[i].counted
        } by {
            assert(self.linked(i));
        }
    }

    /// A graph without vertices.
    pub fn new() -> (graph: Graph)
        ensures
            graph.wf(),
            graph.nodes().len() == 0,
    {
        Graph { nodes: Vec::new() }
    }

    /// Number of vertices.
    pub fn len(&self) -> (len: usize)
        ensures
            len == self.nodes().len(),
    {
        self.nodes.len()
    }

    /// The vertex at `id`.
    pub fn node(&self, id: usize) -> (node: &GraphNode)
        requires
            id < self.nodes().len(),
        ensures
            *node == self.nodes()[id as int],
    {
        &self.nodes[id]
    }

    /// The vertex at `id` as a consumer sees it, if there is such a vertex
    /// and it holds an array.
    pub fn operand(&self, id: usize) -> (operand: Option<Operand>)
        requires
            self.wf(),
        ensures
            operand == (if id < self.nodes().len() {
                operand_of(self.profile(id as int), id)
            } else {
                None
            }),
    {
        if id >= self.nodes.len() {
            return None;
        }
        let p = self.nodes[id].describe();
        match p.shape {
            Some(shape) => Some(
                Operand {
                    id,
                    shape,
                    needs_gradient: p.needs_gradient,
                    parameter: matches!(p.kind, NodeKind::Parameter),
                },
            ),
            None => None,
        }
    }

    /// Whether the operand is the vertex at its position.
    fn holds_operand(&self, a: &Operand) -> (ok: bool)
        requires
            self.wf(),
        ensures
            ok == self.holds(*a),
    {
        match self.operand(a.id) {
            Some(b) => b.shape == a.shape && b.needs_gradient == a.needs_gradient && b.parameter
                == a.parameter,
            None => false,
        }
    }

    /// Whether the operands that the profile names are vertices of the
    /// graph, and are what the profile says of them.
    pub fn accepts(&self, p: &Profile) -> (ok: bool)
        requires
            self.wf(),
        ensures
            ok == self.fits(*p),
    {
        let first_ok = match &p.first {
            Some(a) => self.holds_operand(a),
            None => true,
        };
        let second_ok = match &p.second {
            Some(b) => self.holds_operand(b),
            None => true,
        };
        let index_ok = match p.index {
            Some(j) => j < self.nodes.len() && matches!(
                self.nodes[j].describe().kind,
                NodeKind::IndexInput
            ),
            None => true,
        };
        first_ok && second_ok && index_ok
    }

    /// Adds a vertex and returns its position. The vertex is refused where
    /// an operand that it names is no vertex of this graph, or not the one
    /// that the vertex was built over, or where the graph is full.
    pub fn push(&mut self, node: GraphNode) -> (id: Option<usize>)
        requires
            old(self).wf(),
            node.wf(),
        ensures
            final(self).wf(),
            id is Some <==> old(self).nodes().len() < CAPACITY && old(self).fits(node.profile()),
            match id {
                Some(i) => i == old(self).nodes().len() && final(self).nodes() == old(
                    self,
                ).nodes().push(node),
                None => final(self).nodes() == old(self).nodes(),
            },
    {
        if self.nodes.len() >= CAPACITY {
            return None;
        }
        let p = node.describe();
        if !self.accepts(&p) {
            return None;
        }
        let id = self.nodes.len();
        self.nodes.push(node);
        proof {
            let before = old(self);
            assert forall|i: int| 0 <= i < self.nodes().len() implies #[trigger] self.linked(i) by {
                if i < id {
                    assert(before.linked(i));
                    assert(self.nodes()[i] == before.nodes()[i]);
                }
            }
        }
        Some(id)
    }

    /// The row selections of this graph that were evaluated since `before`
    /// hold the indices of their index inputs; the others hold what they
    /// held.
    pub open spec fn refreshed(&self, before: &Graph) -> bool {
        forall|i: int|
            0 <= i < self.nodes().len() && self.profile(i).kind is Index ==> (
            #[trigger] self.nodes()[i]).indices() == (if before.nodes()[i].forward_calls() == 0
                && self.nodes()[i].forward_calls() > 0 {
                before.nodes()[before.profile(i).index->0 as int].indices()
            } else {
                before.nodes()[i].indices()
            })
    }

    /// No vertex holds other indices than in `before`.
    pub open spec fn same_indices(&self, before: &Graph) -> bool {
        forall|i: int|
            0 <= i < self.nodes().len() ==> (#[trigger] self.nodes()[i]).indices()
                == before.nodes()[i].indices()
    }

    /// What follows for the graph when one vertex has changed its counts.
    proof fn lemma_touched(&self, before: &Graph, id: int)
        requires
            before.wf(),
            self.nodes().len() == before.nodes().len(),
            0 <= id < self.nodes().len(),
            forall|j: int|
                0 <= j < self.nodes().len() && j != id ==> self.nodes()[j] == before.nodes()[j],
            self.nodes()[id].wf(),
            self.nodes()[id].profile() == before.nodes()[id].profile(),
            before.profile(id).kind is IndexInput ==> self.nodes()[id].indices()
                == before.nodes()[id].indices(),
        ensures
            self.wf(),
            self.same_wiring(before),
            self.wiring() == before.wiring(),
            self.forward_counts() == before.forward_counts().update(
                id,
                self.nodes()[id].forward_calls(),
            ),
            self.backward_counts() == before.backward_counts().update(
                id,
                self.nodes()[id].backward_calls(),
            ),
    {
        assert forall|i: int| 0 <= i < self.nodes().len() implies #[trigger] self.linked(i) by {
            assert(before.linked(i));
        }
        assert(self.wiring() =~= before.wiring());
        assert(self.forward_counts() =~= before.forward_counts().update(
            id,
            self.nodes()[id].forward_calls(),
        ));
        assert(self.backward_counts() =~= before.backward_counts().update(
            id,
            self.nodes()[id].backward_calls(),
        ));
    }

    /// Graphs with the same wiring have the same wiring as a sequence, and
    /// are ready for the same index lists.
    pub proof fn lemma_same_wiring(&self, before: &Graph)
        requires
            self.wf(),
            before.wf(),
            self.same_wiring(before),
        ensures
            self.wiring() == before.wiring(),
            before.indices_ready() ==> self.indices_ready(),
    {
        assert(self.wiring() =~= before.wiring());
        if before.indices_ready() {
            assert forall|i: int|
                0 <= i < self.nodes().len() && self.profile(i).kind is Index implies #[trigger] self.index_ready(
                i,
            ) by {
                assert(before.index_ready(i));
                assert(before.linked(i));
                assert(self.linked(i));
                before.nodes()[i].lemma_wf();
                let j = before.profile(i).index->0 as int;
                assert(self.nodes()[j].indices() == before.nodes()[j].indices());
            }
        }
    }

    /// The forward pass below `id`.
    fn visit_forward(&mut self, id: usize, order: &mut Vec<usize>)
        requires
            old(self).wf(),
            id < old(self).nodes().len(),
            old(self).indices_ready(),
            old(self).forward_ready(id as int),
        ensures
            final(self).wf(),
            final(self).same_wiring(old(self)),
            final(self).refreshed(old(self)),
            final(self).forward_counts() == forward_visit(
                old(self).wiring(),
                old(self).forward_counts(),
                id as int,
            ),
            final(self).backward_counts() == old(self).backward_counts(),
            final(order)@ == old(order)@ + positions(
                forward_order(old(self).wiring(), old(self).forward_counts(), id as int),
            ),
        decreases id,
    {
        let ghost w = self.wiring();
        let ghost fc = self.forward_counts();
        let ghost limit = REQUEST_LIMIT as int;
        proof {
            self.lemma_wired();
            self.nodes()[id as int].lemma_wf();
            assert(self.linked(id as int));
            if w[id as int].counted {
                lemma_forward_room(w, fc, id as int, limit);
            }
        }
        let action = self.nodes[id].forward();
        let ghost g1 = *self;
        proof {
            g1.lemma_touched(old(self), id as int);
            assert(positions(Seq::<int>::empty()) =~= Seq::<usize>::empty());
        }
        match action {
            ForwardAction::Cached => {
                proof {
                    assert(order@ =~= old(order)@ + Seq::<usize>::empty());
                }
                return
            },
            ForwardAction::Evaluate => {},
        }
        let p = self.nodes[id].describe();
        if p.kind.is_relaying() {
            proof {
                lemma_forward_room_operands(w, fc, id as int, limit);
            }
            match p.first {
                Some(a) => {
                    proof {
                        g1.lemma_same_wiring(old(self));
                    }
                    self.visit_forward(a.id, order);
                },
                None => {},
            }
            let ghost g2 = *self;
            let ghost s1 = fc.update(id as int, 1);
            proof {
                lemma_forward_visit(w, s1, position_of(p.first));
                g2.lemma_same_wiring(&g1);
                g2.lemma_same_wiring(old(self));
            }
            match p.second {
                Some(b) => {
                    self.visit_forward(b.id, order);
                },
                None => {},
            }
            proof {
                let s2 = g2.forward_counts();
                lemma_forward_visit(w, s2, position_of(p.second));
                self.lemma_same_wiring(&g2);
                let s3 = self.forward_counts();
                assert forall|i: int|
                    0 <= i < self.nodes().len() && self.profile(i).kind is Index implies (
                #[trigger] self.nodes()[i]).indices() == (if old(self).nodes()[i].forward_calls()
                    == 0 && self.nodes()[i].forward_calls() > 0 {
                    old(self).nodes()[old(self).profile(i).index->0 as int].indices()
                } else {
                    old(self).nodes()[i].indices()
                }) by {
                    let j = old(self).profile(i).index->0 as int;
                    assert(old(self).linked(i));
                    old(self).nodes()[i].lemma_wf();
                    assert(g1.nodes()[i] == old(self).nodes()[i]);
                    assert(g1.nodes()[j] == old(self).nodes()[j]);
                    assert(g2.nodes()[j].indices() == g1.nodes()[j].indices());
                    assert(g2.profile(i).kind is Index);
                    assert(g2.nodes()[i].indices() == (if g1.nodes()[i].forward_calls() == 0
                        && g2.nodes()[i].forward_calls() > 0 {
                        g1.nodes()[j].indices()
                    } else {
                        g1.nodes()[i].indices()
                    }));
                    assert(s1[i] == g1.nodes()[i].forward_calls());
                    assert(s2[i] == g2.nodes()[i].forward_calls());
                    assert(s3[i] == self.nodes()[i].forward_calls());
                    assert(s2[i] >= s1[i]);
                    assert(s3[i] >= s2[i]);
                }
            }
        } else {
            match p.index {
                Some(j) => {
                    let list = self.nodes[j].indices_copy();
                    proof {
                        assert(old(self).index_ready(id as int));
                        assert(self.nodes()[j as int] == old(self).nodes()[j as int]);
                    }
                    self.nodes[id].refresh(list.as_slice());
                    proof {
                        self.lemma_touched(&g1, id as int);
                        assert(self.forward_counts() =~= g1.forward_counts());
                        assert(self.backward_counts() =~= g1.backward_counts());
                    }
                },
                None => {},
            }
        }
        order.push(id);
        proof {
            let done = forward_order(w, fc, id as int);
            assert(order@ =~= old(order)@ + positions(done));
        }
    }

    /// The step of a backward pass in which a gradient is handed over.
    pub open spec fn delivery(&self, h: Handover) -> Delivery {
        Delivery {
            target: h.target as usize,
            source: source_of(h.origin),
            handling: propagation(
                self.profile(h.target).kind,
                self.nodes()[h.target].forward_calls(),
                h.earlier,
            ),
        }
    }

    /// The steps of a backward pass in which the gradients are handed over.
    pub open spec fn deliveries(&self, trail: Seq<Handover>) -> Seq<Delivery> {
        Seq::new(trail.len(), |k: int| self.delivery(trail[k]))
    }

    /// Graphs that agree in wiring and forward counters describe a trail
    /// by the same steps.
    proof fn lemma_deliveries(&self, before: &Graph, trail: Seq<Handover>)
        requires
            self.same_wiring(before),
            self.forward_counts() == before.forward_counts(),
            forall|k: int| 0 <= k < trail.len() ==> 0 <= (#[trigger] trail[k]).target < self.nodes().len(),
        ensures
            self.deliveries(trail) == before.deliveries(trail),
    {
        assert forall|k: int| 0 <= k < trail.len() implies self.delivery(trail[k])
            == before.delivery(trail[k]) by {
            let t = trail[k].target;
            assert(self.forward_counts()[t] == self.nodes()[t].forward_calls());
            assert(before.forward_counts()[t] == before.nodes()[t].forward_calls());
        }
        assert(self.deliveries(trail) =~= before.deliveries(trail));
    }

    /// The backward pass below `id`.
    fn visit_backward(&mut self, id: usize, source: Source, plan: &mut Vec<Delivery>)
        requires
            old(self).wf(),
            id < old(self).nodes().len(),
            old(self).backward_ready(id as int),
        ensures
            final(self).wf(),
            final(self).same_wiring(old(self)),
            final(self).same_indices(old(self)),
            final(self).forward_counts() == old(self).forward_counts(),
            final(self).backward_counts() == backward_visit(
                old(self).wiring(),
                old(self).forward_counts(),
                old(self).backward_counts(),
                id as int,
            ),
            final(plan)@ == old(plan)@ + old(self).deliveries(
                backward_trail(
                    old(self).wiring(),
                    old(self).forward_counts(),
                    old(self).backward_counts(),
                    id as int,
                    origin_of(source),
                ),
            ),
        decreases id,
    {
        let ghost w = self.wiring();
        let ghost fc = self.forward_counts();
        let ghost bc = self.backward_counts();
        let ghost origin = origin_of(source);
        proof {
            self.lemma_wired();
            self.nodes()[id as int].lemma_wf();
            assert(self.linked(id as int));
            if w[id as int].counted {
                lemma_backward_room(w, fc, bc, id as int);
            }
        }
        let handling = self.nodes[id].backward();
        let ghost g1 = *self;
        let ghost here = seq![Handover { target: id as int, origin, earlier: bc[id as int] }];
        proof {
            g1.lemma_touched(old(self), id as int);
            assert(g1.forward_counts() =~= fc);
        }
        plan.push(Delivery { target: id, source, handling });
        proof {
            assert(plan@ =~= old(plan)@ + old(self).deliveries(here));
        }
        let relay = match handling {
            Propagation::Fold { action: _, relay } => relay,
            _ => false,
        };
        if !relay {
            proof {
                if !w[id as int].counted {
                    assert(g1.backward_counts() =~= bc);
                }
            }
            return;
        }
        let p = self.nodes[id].describe();
        let ghost s1 = bc.update(id as int, bc[id as int] + 1);
        proof {
            lemma_backward_ready_operands(w, fc, bc, id as int);
        }
        match p.first {
            Some(a) => {
                self.visit_backward(a.id, Source::First(id), plan);
            },
            None => {},
        }
        let ghost g2 = *self;
        let ghost t1 = backward_trail(
            w,
            fc,
            s1,
            position_of(p.first),
            Origin { consumer: Some(id as int), second: false },
        );
        proof {
            lemma_backward_visit(w, fc, s1, position_of(p.first));
            lemma_trail_targets(w, fc, s1, position_of(p.first), Origin { consumer: Some(id as int), second: false });
            g1.lemma_deliveries(old(self), t1);
            g2.lemma_same_wiring(&g1);
        }
        match p.second {
            Some(b) => {
                self.visit_backward(b.id, Source::Second(id), plan);
            },
            None => {},
        }
        proof {
            let s2 = g2.backward_counts();
            let t2 = backward_trail(
                w,
                fc,
                s2,
                position_of(p.second),
                Origin { consumer: Some(id as int), second: true },
            );
            lemma_trail_targets(w, fc, s2, position_of(p.second), Origin { consumer: Some(id as int), second: true });
            g2.lemma_deliveries(old(self), t2);
            self.lemma_same_wiring(&g2);
            let whole = backward_trail(w, fc, bc, id as int, origin);
            assert(whole == here + t1 + t2);
            assert(old(self).deliveries(whole) =~= old(self).deliveries(here) + old(self).deliveries(t1)
                + old(self).deliveries(t2));
            assert(plan@ =~= old(plan)@ + old(self).deliveries(whole));
        }
    }

    /// The reset below `id`.
    fn visit_zero(&mut self, id: usize, stores: &mut Vec<usize>)
        requires
            old(self).wf(),
            id < old(self).nodes().len(),
        ensures
            final(self).wf(),
            final(self).same_wiring(old(self)),
            final(self).same_indices(old(self)),
            final(self).forward_counts() == zero_visit(
                old(self).wiring(),
                old(self).forward_counts(),
                id as int,
            ),
            final(self).backward_counts() == cleared(
                old(self).backward_counts(),
                old(self).forward_counts(),
                final(self).forward_counts(),
            ),
            final(stores)@ == old(stores)@ + positions(
                zero_trail(old(self).wiring(), old(self).forward_counts(), id as int),
            ),
        decreases id,
    {
        let ghost w = self.wiring();
        let ghost fc = self.forward_counts();
        let ghost bc = self.backward_counts();
        proof {
            self.lemma_wired();
            self.nodes()[id as int].lemma_wf();
            assert(self.linked(id as int));
            assert(positions(Seq::<int>::empty()) =~= Seq::<usize>::empty());
        }
        let reset = self.nodes[id].zero_gradient();
        let ghost g1 = *self;
        proof {
            g1.lemma_touched(old(self), id as int);
        }
        match reset {
            Clearing::Nothing => {
                proof {
                    assert(g1.forward_counts() =~= fc);
                    assert(g1.backward_counts() =~= cleared(bc, fc, fc));
                    assert(stores@ =~= old(stores)@ + Seq::<usize>::empty());
                }
                return;
            },
            Clearing::Accumulator => {
                stores.push(id);
                proof {
                    assert(g1.forward_counts() =~= fc);
                    assert(g1.backward_counts() =~= cleared(bc, fc, fc));
                    assert(positions(seq![id as int]) =~= seq![id]);
                    assert(stores@ =~= old(stores)@ + seq![id]);
                }
                return;
            },
            Clearing::Operands => {},
        }
        let p = self.nodes[id].describe();
        let ghost s1 = fc.update(id as int, 0);
        let ghost b1 = bc.update(id as int, 0);
        proof {
            assert(g1.forward_counts() == s1);
            assert(g1.backward_counts() == b1);
        }
        match p.first {
            Some(a) => {
                self.visit_zero(a.id, stores);
            },
            None => {},
        }
        let ghost g2 = *self;
        let ghost s2 = g2.forward_counts();
        let ghost t1 = zero_trail(w, s1, position_of(p.first));
        proof {
            lemma_zero_visit(w, s1, position_of(p.first));
            g2.lemma_same_wiring(&g1);
            if p.first is None {
                assert(t1 =~= Seq::<int>::empty());
                assert(g2.backward_counts() =~= cleared(b1, s1, s2));
            }
        }
        match p.second {
            Some(b) => {
                self.visit_zero(b.id, stores);
            },
            None => {},
        }
        proof {
            let s3 = self.forward_counts();
            let t2 = zero_trail(w, s2, position_of(p.second));
            lemma_zero_visit(w, s2, position_of(p.second));
            self.lemma_same_wiring(&g2);
            if p.second is None {
                assert(t2 =~= Seq::<int>::empty());
                assert(self.backward_counts() =~= cleared(g2.backward_counts(), s2, s3));
            }
            assert(self.backward_counts() =~= cleared(bc, fc, s3));
            assert(positions(t1 + t2) =~= positions(t1) + positions(t2));
            assert(stores@ =~= old(stores)@ + positions(t1 + t2));
        }
    }

    /// No vertex has been visited since the last reset.
    pub open spec fn is_reset(&self) -> bool {
        self.is_zero() && self.is_idle()
    }

    /// No vertex holds a forward visit.
    pub open spec fn is_zero(&self) -> bool {
        forall|i: int| 0 <= i < self.nodes().len() ==> #[trigger] self.forward_counts()[i] == 0
    }

    /// No vertex holds a backward visit.
    pub open spec fn is_idle(&self) -> bool {
        forall|i: int| 0 <= i < self.nodes().len() ==> #[trigger] self.backward_counts()[i] == 0
    }

    /// No value was requested from outside of any visited vertex but `root`.
    pub open spec fn rooted_at(&self, root: int) -> bool {
        forall|n: int|
            0 <= n < self.nodes().len() && self.profile(n).kind.counted() && n != root
                && self.forward_counts()[n] > 0 ==> #[trigger] self.requested_forward(n) <= 0
    }

    /// No vertex holds more backward visits than forward visits.
    pub open spec fn bounded(&self) -> bool {
        forall|i: int|
            0 <= i < self.nodes().len() ==> #[trigger] self.backward_counts()[i]
                <= self.forward_counts()[i]
    }

    /// Every forward visit has been answered by a backward visit.
    pub open spec fn is_drained(&self) -> bool {
        forall|i: int|
            0 <= i < self.nodes().len() ==> #[trigger] self.backward_counts()[i]
                == self.forward_counts()[i]
    }

    /// A graph without visits holds no request, and has room for one on any
    /// vertex.
    pub proof fn lemma_reset_ready(&self, root: int)
        requires
            self.wf(),
            self.is_reset(),
        ensures
            self.forward_ready(root),
            forall|n: int|
                0 <= n < self.nodes().len() ==> #[trigger] self.requested_forward(n) == 0
                    && self.requested_backward(n) == 0,
    {
        let len = self.nodes().len();
        assert(self.forward_counts() =~= untouched(len));
        assert(self.backward_counts() =~= untouched(len));
        assert forall|n: int| 0 <= n < len implies #[trigger] self.requested_forward(n) == 0
            && self.requested_backward(n) == 0 by {
            lemma_untouched(self.wiring(), self.forward_counts(), n);
        }
        assert forall|n: int| 0 <= n < len implies #[trigger] requested_forward(
            self.wiring(),
            self.forward_counts(),
            n,
        ) == 0 by {
            assert(self.requested_forward(n) == 0);
        }
    }

    /// Before the first gradient of a round is handed over, no gradient is
    /// counted as handed in from outside, and a gradient can be handed to
    /// every vertex whose value was requested from outside.
    pub proof fn lemma_backward_ready(&self, root: int)
        requires
            self.wf(),
            self.is_idle(),
            forall|n: int|
                0 <= n < self.nodes().len() && self.profile(n).kind.counted()
                    ==> #[trigger] self.requested_forward(n) >= 0,
            0 <= root < self.nodes().len() && self.profile(root).kind.counted()
                ==> self.requested_forward(root) > 0,
        ensures
            self.backward_ready(root),
            forall|n: int|
                0 <= n < self.nodes().len() ==> #[trigger] self.requested_backward(n) == 0,
    {
        let len = self.nodes().len();
        let w = self.wiring();
        let fc = self.forward_counts();
        assert(self.backward_counts() =~= untouched(len));
        assert forall|n: int| 0 <= n < len implies #[trigger] self.requested_backward(n) == 0 by {
            lemma_untouched(w, fc, n);
        }
        assert forall|n: int| 0 <= n < len && w[n].counted implies #[trigger] requested_backward(
            w,
            fc,
            self.backward_counts(),
            n,
        ) <= requested_forward(w, fc, n) by {
            assert(self.requested_backward(n) == 0);
            assert(self.requested_forward(n) >= 0);
        }
        if 0 <= root < len {
            assert(self.requested_backward(root) == 0);
        }
    }

    /// One round on a reset graph: the value of `root` is requested and one
    /// gradient is handed to it. Afterwards a vertex that stands in `k`
    /// operand slots of evaluated consumers has received exactly `k`
    /// forward visits and exactly `k` backward visits, and `root` one more
    /// of each.
    pub proof fn lemma_round(&self, root: int)
        requires
            self.wf(),
            self.is_reset(),
            0 <= root < self.nodes().len(),
            self.profile(root).kind.counted(),
        ensures
            ({
                let w = self.wiring();
                let fc = forward_visit(w, self.forward_counts(), root);
                let bc = backward_visit(w, fc, self.backward_counts(), root);
                forall|n: int|
                    0 <= n < w.len() && w[n].counted ==> {
                        &&& #[trigger] fc[n] == forward_inflow(w, fc, n) + (if n == root {
                            1nat
                        } else {
                            0nat
                        })
                        &&& bc[n] == fc[n]
                    }
            }),
    {
        self.lemma_wired();
        assert(self.forward_counts() =~= untouched(self.nodes().len()));
        assert(self.backward_counts() =~= untouched(self.nodes().len()));
        lemma_round(self.wiring(), root);
    }

    /// Where every request from outside has been answered by a gradient
    /// from outside, and all requests were made on `root`, every forward
    /// visit in the graph has been answered by one backward visit, and the
    /// graph can be reset from `root`.
    pub proof fn lemma_round_complete(&self, root: int)
        requires
            self.wf(),
            forall|n: int|
                0 <= n < self.nodes().len() && self.profile(n).kind.counted()
                    ==> #[trigger] self.requested_backward(n) == self.requested_forward(n),
            forall|n: int|
                0 <= n < self.nodes().len() && self.profile(n).kind.counted() && n != root
                    ==> #[trigger] self.requested_forward(n) == 0,
        ensures
            self.is_drained(),
            self.bounded(),
            self.rooted_at(root),
    {
        let w = self.wiring();
        let fc = self.forward_counts();
        let bc = self.backward_counts();
        self.lemma_wired();
        assert forall|n: int| 0 <= n < w.len() && w[n].counted implies #[trigger] requested_backward(
            w,
            fc,
            bc,
            n,
        ) == requested_forward(w, fc, n) by {
            assert(self.requested_backward(n) == self.requested_forward(n));
        }
        lemma_answered(w, fc, bc);
        assert forall|i: int| 0 <= i < self.nodes().len() implies #[trigger] bc[i] == fc[i] by {
            self.nodes()[i].lemma_wf();
        }
    }

    /// Requests the value of `root`.
    ///
    /// Every vertex below `root` that has to be evaluated is visited, once
    /// for each operand slot of an evaluated consumer that holds it, and
    /// counts these visits. Returned are the vertices whose values the
    /// caller has to compute, in the order in which to compute them; a
    /// vertex that was evaluated earlier in the round is not among them.
    pub fn forward(&mut self, root: usize) -> (order: Vec<usize>)
        requires
            old(self).wf(),
            root < old(self).nodes().len(),
            old(self).indices_ready(),
            old(self).forward_ready(root as int),
        ensures
            final(self).wf(),
            final(self).same_wiring(old(self)),
            final(self).wiring() == old(self).wiring(),
            final(self).indices_ready(),
            final(self).refreshed(old(self)),
            final(self).forward_counts() == forward_visit(
                old(self).wiring(),
                old(self).forward_counts(),
                root as int,
            ),
            final(self).backward_counts() == old(self).backward_counts(),
            order@ == positions(
                forward_order(old(self).wiring(), old(self).forward_counts(), root as int),
            ),
            forall|n: int|
                0 <= n < final(self).nodes().len() && final(self).profile(n).kind.counted()
                    ==> #[trigger] final(self).requested_forward(n) == old(self).requested_forward(
                    n,
                ) + (if n == root {
                    1int
                } else {
                    0int
                }),
            old(self).bounded() ==> final(self).bounded(),
            lists_evaluated(
                old(self).wiring(),
                old(self).forward_counts(),
                final(self).forward_counts(),
                root as int,
                forward_order(old(self).wiring(), old(self).forward_counts(), root as int),
            ),
            operands_first(
                old(self).wiring(),
                old(self).forward_counts(),
                forward_order(old(self).wiring(), old(self).forward_counts(), root as int),
            ),
    {
        let mut order: Vec<usize> = Vec::new();
        self.visit_forward(root, &mut order);
        proof {
            old(self).lemma_wired();
            lemma_forward_order(old(self).wiring(), old(self).forward_counts(), root as int);
            lemma_forward_grows(old(self).wiring(), old(self).forward_counts(), root as int);
            if old(self).bounded() {
                assert forall|i: int| 0 <= i < self.nodes().len() implies #[trigger] self.backward_counts()[i]
                    <= self.forward_counts()[i] by {
                    assert(old(self).backward_counts()[i] <= old(self).forward_counts()[i]);
                    assert(forward_visit(
                        old(self).wiring(),
                        old(self).forward_counts(),
                        root as int,
                    )[i] >= old(self).forward_counts()[i]);
                }
            }
            self.lemma_same_wiring(old(self));
            lemma_forward_visit(old(self).wiring(), old(self).forward_counts(), root as int);
            assert(order@ =~= positions(
                forward_order(old(self).wiring(), old(self).forward_counts(), root as int),
            ));
        }
        order
    }

    /// Hands a gradient to `root`.
    ///
    /// The gradient is counted, and where it answers the last forward visit
    /// of a vertex, the vertex hands its collected gradient on to its
    /// operands. Returned are the steps that the caller has to carry out on
    /// the arrays, in order: for each gradient that is handed over, the
    /// vertex that receives it, the buffer it is read from, and what the
    /// vertex does with it. The first gradient that reaches a vertex in a
    /// round is assigned, every later one is added.
    pub fn backward(&mut self, root: usize) -> (plan: Vec<Delivery>)
        requires
            old(self).wf(),
            root < old(self).nodes().len(),
            old(self).backward_ready(root as int),
        ensures
            final(self).wf(),
            final(self).same_wiring(old(self)),
            final(self).wiring() == old(self).wiring(),
            final(self).same_indices(old(self)),
            final(self).forward_counts() == old(self).forward_counts(),
            final(self).backward_counts() == backward_visit(
                old(self).wiring(),
                old(self).forward_counts(),
                old(self).backward_counts(),
                root as int,
            ),
            plan@ == old(self).deliveries(
                backward_trail(
                    old(self).wiring(),
                    old(self).forward_counts(),
                    old(self).backward_counts(),
                    root as int,
                    origin_of(Source::Seed),
                ),
            ),
            forall|n: int|
                0 <= n < final(self).nodes().len() && final(self).profile(n).kind.counted()
                    ==> #[trigger] final(self).requested_backward(n) == old(
                    self,
                ).requested_backward(n) + (if n == root {
                    1int
                } else {
                    0int
                }),
            answerable(
                final(self).wiring(),
                final(self).forward_counts(),
                final(self).backward_counts(),
            ),
            final(self).bounded(),
            hands_in_turn(
                old(self).wiring(),
                old(self).backward_counts(),
                final(self).backward_counts(),
                root as int,
                backward_trail(
                    old(self).wiring(),
                    old(self).forward_counts(),
                    old(self).backward_counts(),
                    root as int,
                    origin_of(Source::Seed),
                ),
            ),
            relayed_all(
                old(self).wiring(),
                old(self).forward_counts(),
                old(self).backward_counts(),
                final(self).backward_counts(),
                backward_trail(
                    old(self).wiring(),
                    old(self).forward_counts(),
                    old(self).backward_counts(),
                    root as int,
                    origin_of(Source::Seed),
                ),
            ),
            relayed_once(
                old(self).wiring(),
                old(self).forward_counts(),
                old(self).backward_counts(),
                final(self).backward_counts(),
                root as int,
                backward_trail(
                    old(self).wiring(),
                    old(self).forward_counts(),
                    old(self).backward_counts(),
                    root as int,
                    origin_of(Source::Seed),
                ),
            ),
    {
        let mut plan: Vec<Delivery> = Vec::new();
        self.visit_backward(root, Source::Seed, &mut plan);
        proof {
            old(self).lemma_wired();
            lemma_backward_trail(
                old(self).wiring(),
                old(self).forward_counts(),
                old(self).backward_counts(),
                root as int,
                origin_of(Source::Seed),
            );
            self.lemma_same_wiring(old(self));
            lemma_backward_visit(
                old(self).wiring(),
                old(self).forward_counts(),
                old(self).backward_counts(),
                root as int,
            );
            let trail = backward_trail(
                old(self).wiring(),
                old(self).forward_counts(),
                old(self).backward_counts(),
                root as int,
                origin_of(Source::Seed),
            );
            assert(plan@ =~= old(self).deliveries(trail));
            assert forall|i: int| 0 <= i < self.nodes().len() implies #[trigger] self.backward_counts()[i]
                <= self.forward_counts()[i] by {
                self.nodes()[i].lemma_wf();
                if self.profile(i).kind.counted() {
                    lemma_answerable_counts(
                        self.wiring(),
                        self.forward_counts(),
                        self.backward_counts(),
                        i,
                    );
                }
            }
        }
        plan
    }

    /// Resets the vertices below `root` for the next round.
    ///
    /// A vertex that was visited has its operands reset and its counter
    /// cleared; a vertex that was not visited is left alone, and nothing
    /// below it is looked at. Returned are the parameters whose gradient
    /// stores the caller has to empty. After a round that was requested on
    /// `root` alone no vertex holds a visit. A vertex is reset whether or
    /// not every forward visit on it has been answered.
    pub fn zero_gradient(&mut self, root: usize) -> (stores: Vec<usize>)
        requires
            old(self).wf(),
            root < old(self).nodes().len(),
        ensures
            final(self).wf(),
            final(self).same_wiring(old(self)),
            final(self).wiring() == old(self).wiring(),
            final(self).same_indices(old(self)),
            final(self).forward_counts() == zero_visit(
                old(self).wiring(),
                old(self).forward_counts(),
                root as int,
            ),
            final(self).backward_counts() == cleared(
                old(self).backward_counts(),
                old(self).forward_counts(),
                final(self).forward_counts(),
            ),
            stores@ == positions(
                zero_trail(old(self).wiring(), old(self).forward_counts(), root as int),
            ),
            old(self).bounded() ==> final(self).bounded(),
            old(self).rooted_at(root as int) ==> final(self).is_zero(),
            old(self).rooted_at(root as int) && old(self).bounded() ==> final(self).is_reset(),
    {
        let mut stores: Vec<usize> = Vec::new();
        self.visit_zero(root, &mut stores);
        proof {
            let w = old(self).wiring();
            let fc = old(self).forward_counts();
            old(self).lemma_wired();
            self.lemma_same_wiring(old(self));
            assert(stores@ =~= positions(zero_trail(w, fc, root as int)));
            lemma_zero_visit(w, fc, root as int);
            if old(self).bounded() {
                assert forall|i: int| 0 <= i < self.nodes().len() implies #[trigger] self.backward_counts()[i]
                    <= self.forward_counts()[i] by {
                    assert(old(self).backward_counts()[i] <= fc[i]);
                    assert(zero_visit(w, fc, root as int)[i] == fc[i] || zero_visit(
                        w,
                        fc,
                        root as int,
                    )[i] == 0);
                }
            }
            if old(self).rooted_at(root as int) {
                assert forall|n: int|
                    0 <= n < w.len() && w[n].counted && n != root && fc[n] > 0 implies #[trigger] requested_forward(
                    w,
                    fc,
                    n,
                ) <= 0 by {
                    assert(old(self).requested_forward(n) <= 0);
                }
                lemma_zero_resets(w, fc, root as int);
                self.lemma_same_wiring(old(self));
                assert forall|i: int| 0 <= i < self.nodes().len() implies #[trigger] self.forward_counts()[i]
                    == 0 by {
                    self.nodes()[i].lemma_wf();
                }
            }
        }
        stores
    }

    /// Number of forward visits of the vertex at `id` since the last reset.
    pub fn forward_count(&self, id: usize) -> (count: usize)
        requires
            self.wf(),
            id < self.nodes().len(),
        ensures
            count == self.nodes()[id as int].forward_calls(),
    {
        self.nodes[id].visits().0
    }

    /// Number of backward visits of the vertex at `id` since the last reset.
    pub fn backward_count(&self, id: usize) -> (count: usize)
        requires
            self.wf(),
            id < self.nodes().len(),
        ensures
            count == self.nodes()[id as int].backward_calls(),
    {
        self.nodes[id].visits().1
    }

    /// What is fixed about the vertex at `id`.
    pub fn describe(&self, id: usize) -> (profile: Profile)
        requires
            self.wf(),
            id < self.nodes().len(),
        ensures
            profile == self.profile(id as int),
    {
        self.nodes[id].describe()
    }

    /// Replaces the indices of the index list at `id` by a copy of
    /// `indices`, and tells whether there is an index list at `id`.
    pub fn set_indices(&mut self, id: usize, indices: &[usize]) -> (done: bool)
        requires
            old(self).wf(),
        ensures
            final(self).wf(),
            final(self).nodes().len() == old(self).nodes().len(),
            forall|i: int|
                0 <= i < final(self).nodes().len() ==> (#[trigger] final(self).nodes()[i]).profile()
                    == old(self).nodes()[i].profile(),
            final(self).forward_counts() == old(self).forward_counts(),
            final(self).backward_counts() == old(self).backward_counts(),
            done == (id < old(self).nodes().len() && old(self).profile(id as int).kind is IndexInput),
            forall|i: int|
                0 <= i < final(self).nodes().len() ==> (#[trigger] final(self).nodes()[i]).indices()
                    == (if done && i == id {
                    indices@
                } else {
                    old(self).nodes()[i].indices()
                }),
    {
        if id >= self.nodes.len() {
            proof {
                assert(self.forward_counts() =~= old(self).forward_counts());
            }
            return false;
        }
        let done = self.nodes[id].set_indices(indices);
        proof {
            assert forall|i: int| 0 <= i < self.nodes().len() implies #[trigger] self.linked(i) by {
                assert(old(self).linked(i));
            }
            assert(self.forward_counts() =~= old(self).forward_counts());
            assert(self.backward_counts() =~= old(self).backward_counts());
        }
        done
    }

    /// Whether every row selection can take the indices that its index
    /// input holds.
    pub fn indices_fit(&self) -> (ok: bool)
        requires
            self.wf(),
        ensures
            ok == self.indices_ready(),
    {
        let mut i: usize = 0;
        while i < self.nodes.len()
            invariant
                self.wf(),
                i <= self.nodes().len(),
                forall|k: int|
                    0 <= k < i && self.profile(k).kind is Index ==> #[trigger] self.index_ready(k),
            decreases self.nodes().len() - i,
        {
            let p = self.nodes[i].describe();
            if matches!(p.kind, NodeKind::Index) {
                proof {
                    self.nodes()[i as int].lemma_wf();
                    assert(self.linked(i as int));
                }
                match (p.index, p.shape, p.first) {
                    (Some(j), Some(shape), Some(a)) => {
                        let list = self.nodes[j].indices_copy();
                        if !rows_in_range(list.as_slice(), shape.rows, a.shape.rows) {
                            proof {
                                assert(!self.index_ready(i as int));
                            }
                            return false;
                        }
                    },
                    _ => {},
                }
            }
            i += 1;
        }
        true
    }

    /// Clears the counter of the log-softmax vertex at `id` without
    /// touching its operand, and tells whether there is such a vertex. A
    /// loss that is fused with the vertex computes the operand's gradient
    /// itself and has to reset the counter that no gradient will drain.
    pub fn zero_counter(&mut self, id: usize) -> (done: bool)
        requires
            old(self).wf(),
        ensures
            final(self).wf(),
            final(self).same_wiring(old(self)),
            final(self).same_indices(old(self)),
            done == (id < old(self).nodes().len() && old(self).profile(id as int).kind is LogSoftmax),
            final(self).forward_counts() == (if done {
                old(self).forward_counts().update(id as int, 0)
            } else {
                old(self).forward_counts()
            }),
            final(self).backward_counts() == (if done {
                old(self).backward_counts().update(id as int, 0)
            } else {
                old(self).backward_counts()
            }),
    {
        if id >= self.nodes.len() {
            return false;
        }
        let done = self.nodes[id].zero_counter();
        proof {
            self.lemma_touched(old(self), id as int);
            if !done {
                assert(self.forward_counts() =~= old(self).forward_counts());
                assert(self.backward_counts() =~= old(self).backward_counts());
            }
        }
        done
    }

    /// The vertices that are switched on when visits are traced: those
    /// that have passed a request on, or only those among them that have
    /// passed their gradient on.
    pub open spec fn switched(&self, drained_only: bool) -> Seq<bool> {
        if drained_only {
            drained(self.wiring(), self.forward_counts(), self.backward_counts())
        } else {
            feeding(self.wiring(), self.forward_counts())
        }
    }

    /// For every vertex the number of visits that its consumers owe it:
    /// forward visits, or backward visits where `drained_only` is set.
    pub fn inflows(&self, drained_only: bool) -> (flows: Vec<usize>)
        requires
            self.wf(),
        ensures
            flows@.len() == self.nodes().len(),
            forall|n: int|
                0 <= n < flows@.len() ==> #[trigger] flows@[n] == inflow(
                    self.wiring(),
                    self.switched(drained_only),
                    n,
                    self.nodes().len() as int,
                ),
            forall|n: int| 0 <= n < flows@.len() ==> #[trigger] flows@[n] <= 2 * CAPACITY,
    {
        let len = self.nodes.len();
        let ghost w = self.wiring();
        let ghost on = self.switched(drained_only);
        let mut flows: Vec<usize> = Vec::new();
        let mut k: usize = 0;
        while k < len
            invariant
                k <= len,
                flows@.len() == k,
                forall|n: int| 0 <= n < k ==> #[trigger] flows@[n] == 0,
            decreases len - k,
        {
            flows.push(0);
            k += 1;
        }
        let mut c: usize = 0;
        while c < len
            invariant
                self.wf(),
                len == self.nodes().len(),
                w == self.wiring(),
                on == self.switched(drained_only),
                c <= len,
                flows@.len() == len,
                forall|n: int| 0 <= n < len ==> #[trigger] flows@[n] == inflow(w, on, n, c as int),
            decreases len - c,
        {
            let p = self.nodes[c].describe();
            let counts = self.nodes[c].visits();
            let on_c = p.kind.is_relaying() && counts.0 > 0 && (!drained_only || counts.1
                == counts.0);
            proof {
                assert(self.linked(c as int));
                assert(on[c as int] == on_c);
                assert forall|n: int| 0 <= n < len implies inflow(w, on, n, c as int) <= 2 * c by {
                    lemma_inflow_bound(w, on, n, c as int);
                }
            }
            if on_c {
                match p.first {
                    Some(a) => {
                        let bumped = flows[a.id] + 1;
                        flows[a.id] = bumped;
                    },
                    None => {},
                }
                match p.second {
                    Some(b) => {
                        proof {
                            lemma_inflow_bound(w, on, b.id as int, c as int);
                        }
                        let bumped = flows[b.id] + 1;
                        flows[b.id] = bumped;
                    },
                    None => {},
                }
            }
            c += 1;
        }
        proof {
            assert forall|n: int| 0 <= n < flows@.len() implies #[trigger] flows@[n] <= 2
                * CAPACITY by {
                lemma_inflow_bound(w, on, n, len as int);
            }
        }
        flows
    }

    /// Whether the counters have room for a request on `root`.
    pub fn has_forward_room(&self, root: usize) -> (ok: bool)
        requires
            self.wf(),
        ensures
            ok == self.forward_ready(root as int),
    {
        let flows = self.inflows(false);
        let mut n: usize = 0;
        while n < self.nodes.len()
            invariant
                self.wf(),
                n <= self.nodes().len(),
                flows@.len() == self.nodes().len(),
                forall|k: int|
                    0 <= k < flows@.len() ==> #[trigger] flows@[k] == inflow(
                        self.wiring(),
                        self.switched(false),
                        k,
                        self.nodes().len() as int,
                    ),
                forall|k: int| 0 <= k < flows@.len() ==> #[trigger] flows@[k] <= 2 * CAPACITY,
                forall|k: int|
                    0 <= k < n && self.wiring()[k].counted ==> #[trigger] self.requested_forward(k)
                        <= REQUEST_LIMIT && (k == root ==> self.requested_forward(k)
                        < REQUEST_LIMIT),
            decreases self.nodes().len() - n,
        {
            let p = self.nodes[n].describe();
            if p.kind.is_counted() {
                let count = self.nodes[n].visits().0;
                let bound = REQUEST_LIMIT + flows[n];
                proof {
                    assert(self.forward_counts()[n as int] == count);
                }
                if count > bound || (n == root && count == bound) {
                    proof {
                        assert(self.requested_forward(n as int) > REQUEST_LIMIT || (n == root
                            && self.requested_forward(n as int) == REQUEST_LIMIT));
                    }
                    return false;
                }
            }
            n += 1;
        }
        true
    }

    /// Whether a gradient can be handed to `root`: a request on it is
    /// unanswered, and no vertex was handed more gradients than values were
    /// requested from it.
    pub fn has_backward_room(&self, root: usize) -> (ok: bool)
        requires
            self.wf(),
        ensures
            ok == self.backward_ready(root as int),
    {
        let forward = self.inflows(false);
        let backward = self.inflows(true);
        let mut n: usize = 0;
        while n < self.nodes.len()
            invariant
                self.wf(),
                n <= self.nodes().len(),
                forward@.len() == self.nodes().len(),
                backward@.len() == self.nodes().len(),
                forall|k: int|
                    0 <= k < forward@.len() ==> #[trigger] forward@[k] == inflow(
                        self.wiring(),
                        self.switched(false),
                        k,
                        self.nodes().len() as int,
                    ),
                forall|k: int|
                    0 <= k < backward@.len() ==> #[trigger] backward@[k] == inflow(
                        self.wiring(),
                        self.switched(true),
                        k,
                        self.nodes().len() as int,
                    ),
                forall|k: int|
                    0 <= k < n && self.wiring()[k].counted ==> #[trigger] self.requested_backward(k)
                        <= self.requested_forward(k) && (k == root ==> self.requested_backward(k)
                        < self.requested_forward(k)),
            decreases self.nodes().len() - n,
        {
            let p = self.nodes[n].describe();
            if p.kind.is_counted() {
                let counts = self.nodes[n].visits();
                let answered: u128 = counts.1 as u128 + forward[n] as u128;
                let asked: u128 = counts.0 as u128 + backward[n] as u128;
                proof {
                    assert(self.forward_counts()[n as int] == counts.0);
                    assert(self.backward_counts()[n as int] == counts.1);
                }
                if answered > asked || (n == root && answered == asked) {
                    proof {
                        assert(self.requested_backward(n as int) > self.requested_forward(
                            n as int,
                        ) || (n == root && self.requested_backward(n as int)
                            == self.requested_forward(n as int)));
                    }
                    return false;
                }
            }
            n += 1;
        }
        true
    }

    /// Requests the value of `root` as [`Graph::forward`] does, where the
    /// graph is ready for it, and does nothing where it is not: where
    /// there is no vertex at `root`, where an index list does not fit its
    /// row selection, or where the counters have no room.
    pub fn try_forward(&mut self, root: usize) -> (order: Option<Vec<usize>>)
        requires
            old(self).wf(),
        ensures
            final(self).wf(),
            order is Some <==> root < old(self).nodes().len() && old(self).indices_ready() && old(
                self,
            ).forward_ready(root as int),
            order is None ==> *final(self) == *old(self),
            order matches Some(list) ==> {
                &&& final(self).same_wiring(old(self))
                &&& final(self).refreshed(old(self))
                &&& final(self).forward_counts() == forward_visit(
                    old(self).wiring(),
                    old(self).forward_counts(),
                    root as int,
                )
                &&& final(self).backward_counts() == old(self).backward_counts()
                &&& list@ == positions(
                    forward_order(old(self).wiring(), old(self).forward_counts(), root as int),
                )
            },
    {
        if root >= self.nodes.len() || !self.indices_fit() || !self.has_forward_room(root) {
            return None;
        }
        Some(self.forward(root))
    }

    /// Hands a gradient to `root` as [`Graph::backward`] does, where the
    /// graph is ready for it, and does nothing where it is not: where
    /// there is no vertex at `root`, where no request on `root` is
    /// unanswered, or where a vertex holds more gradients than requests.
    pub fn try_backward(&mut self, root: usize) -> (plan: Option<Vec<Delivery>>)
        requires
            old(self).wf(),
        ensures
            final(self).wf(),
            plan is Some <==> root < old(self).nodes().len() && old(self).backward_ready(
                root as int,
            ),
            plan is None ==> *final(self) == *old(self),
            plan matches Some(steps) ==> {
                &&& final(self).same_wiring(old(self))
                &&& final(self).same_indices(old(self))
                &&& final(self).forward_counts() == old(self).forward_counts()
                &&& final(self).backward_counts() == backward_visit(
                    old(self).wiring(),
                    old(self).forward_counts(),
                    old(self).backward_counts(),
                    root as int,
                )
                &&& steps@ == old(self).deliveries(
                    backward_trail(
                        old(self).wiring(),
                        old(self).forward_counts(),
                        old(self).backward_counts(),
                        root as int,
                        origin_of(Source::Seed),
                    ),
                )
            },
    {
        if root >= self.nodes.len() || !self.has_backward_room(root) {
            return None;
        }
        Some(self.backward(root))
    }
}

/// The position that an operand names, or a position that no vertex has.
pub open spec fn position_of(operand: Option<Operand>) -> int {
    match operand {
        Some(a) => a.id as int,
        None => -1,
    }
}

} // verus!
