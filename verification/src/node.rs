//! What every vertex of a computation graph has in common.

use crate::counter::{BackwardAction, ForwardAction};
use crate::shape::{Axis, Shape};
use vstd::prelude::*;

verus! {

/// The operation that a node performs.
#[derive(Debug, Clone, Copy, PartialEq, Eq, Structural)]
pub enum NodeKind {
    Input,
    Parameter,
    IndexInput,
    Add,
    Sub,
    Mul,
    Div,
    Dot,
    VectorDot,
    Concatenate(Axis),
    Square,
    Log,
    Tanh,
    Sigmoid,
    Relu,
    Neg,
    Exp,
    Transpose,
    Softmax,
    LogSoftmax,
    Sum,
    Index,
}

impl NodeKind {
    /// The node carries a pass counter: it is no input and no parameter.
    pub open spec fn counted(self) -> bool {
        !(self is Input || self is Parameter || self is IndexInput)
    }

    /// The node passes requests and gradients on to its operands. A row
    /// selection does not: it writes into its parameter's gradient store.
    pub open spec fn relays(self) -> bool {
        self.counted() && !(self is Index)
    }

    /// Whether the node carries a pass counter.
    pub fn is_counted(&self) -> (counted: bool)
        ensures
            counted == self.counted(),
    {
        match self {
            NodeKind::Input | NodeKind::Parameter | NodeKind::IndexInput => false,
            _ => true,
        }
    }

    /// Whether the node passes requests and gradients on to its operands.
    pub fn is_relaying(&self) -> (relays: bool)
        ensures
            relays == self.relays(),
    {
        match self {
            NodeKind::Input | NodeKind::Parameter | NodeKind::IndexInput | NodeKind::Index => false,
            _ => true,
        }
    }
}

/// A node as its consumers see it: where it stands in the graph, the shape
/// of its value and whether gradients have to flow into it.
#[derive(Debug, Clone, Copy, PartialEq, Eq, Structural)]
pub struct Operand {
    pub id: usize,
    pub shape: Shape,
    pub needs_gradient: bool,
    /// The node is a parameter.
    pub parameter: bool,
}

/// What is fixed about a node when it is built.
#[derive(Debug, Clone, Copy)]
pub struct Profile {
    pub kind: NodeKind,
    /// Shape of the node's value; a list of indices has none.
    pub shape: Option<Shape>,
    pub needs_gradient: bool,
    pub first: Option<Operand>,
    pub second: Option<Operand>,
    /// Position of the index list that a row selection reads.
    pub index: Option<usize>,
}

impl Profile {
    /// The shape, the operands and the gradient flag obey the rule of the
    /// node's kind.
    pub open spec fn consistent(self) -> bool {
        match self.kind {
            NodeKind::Input => {
                &&& self.shape is Some
                &&& !self.needs_gradient
                &&& self.first is None
                &&& self.second is None
                &&& self.index is None
            },
            NodeKind::Parameter => {
                &&& self.shape is Some
                &&& self.needs_gradient
                &&& self.first is None
                &&& self.second is None
                &&& self.index is None
            },
            NodeKind::IndexInput => {
                &&& self.shape is None
                &&& !self.needs_gradient
                &&& self.first is None
                &&& self.second is None
                &&& self.index is None
            },
            NodeKind::Index => {
                &&& self.first is Some
                &&& self.second is None
                &&& self.index is Some
                &&& self.first->0.parameter
                &&& self.shape is Some
                &&& self.shape->0.cols == self.first->0.shape.cols
                &&& self.needs_gradient == self.first->0.needs_gradient
            },
            NodeKind::Add | NodeKind::Sub | NodeKind::Mul | NodeKind::Div => {
                &&& self.binary()
                &&& self.first->0.shape == self.second->0.shape
                &&& self.shape == Some(self.first->0.shape)
            },
            NodeKind::Dot => {
                &&& self.binary()
                &&& self.first->0.shape.multiplies(&self.second->0.shape)
                &&& self.shape == Some(self.first->0.shape.product(&self.second->0.shape))
            },
            NodeKind::VectorDot => {
                &&& self.binary()
                &&& self.first->0.shape == self.second->0.shape
                &&& self.shape == Some(self.first->0.shape.row_dots())
            },
            NodeKind::Concatenate(axis) => {
                &&& self.binary()
                &&& self.first->0.shape.joins(&self.second->0.shape, axis)
                &&& self.shape == Some(self.first->0.shape.joined(&self.second->0.shape, axis))
            },
            NodeKind::Transpose => {
                &&& self.unary()
                &&& self.shape == Some(self.first->0.shape.transposed())
            },
            NodeKind::Sum => {
                &&& self.unary()
                &&& self.shape == Some(Shape::scalar())
            },
            _ => {
                &&& self.unary()
                &&& self.shape == Some(self.first->0.shape)
            },
        }
    }

    /// Two operands, and gradients are needed where one of them needs them.
    pub open spec fn binary(self) -> bool {
        &&& self.first is Some
        &&& self.second is Some
        &&& self.index is None
        &&& self.needs_gradient == (self.first->0.needs_gradient || self.second->0.needs_gradient)
    }

    /// One operand, and gradients are needed where it needs them.
    pub open spec fn unary(self) -> bool {
        &&& self.first is Some
        &&& self.second is None
        &&& self.index is None
        &&& self.needs_gradient == self.first->0.needs_gradient
    }

    /// The profile of a node with two operands.
    pub open spec fn of_binary(kind: NodeKind, shape: Shape, lhs: Operand, rhs: Operand) -> Profile {
        Profile {
            kind,
            shape: Some(shape),
            needs_gradient: lhs.needs_gradient || rhs.needs_gradient,
            first: Some(lhs),
            second: Some(rhs),
            index: None,
        }
    }

    /// The profile of a node with one operand.
    pub open spec fn of_unary(kind: NodeKind, shape: Shape, operand: Operand) -> Profile {
        Profile {
            kind,
            shape: Some(shape),
            needs_gradient: operand.needs_gradient,
            first: Some(operand),
            second: None,
            index: None,
        }
    }

    /// The profile of an input or a parameter.
    pub open spec fn of_leaf(kind: NodeKind, shape: Shape) -> Profile {
        Profile {
            kind,
            shape: Some(shape),
            needs_gradient: kind is Parameter,
            first: None,
            second: None,
            index: None,
        }
    }
}

/// What a node does with a gradient that is handed to it.
#[derive(Debug, Clone, Copy, PartialEq, Eq, Structural)]
pub enum Propagation {
    /// The node has no use for gradients.
    Discard,
    /// A parameter adds the gradient to the dense gradient of its store,
    /// as `GradientAccumulator::accumulate_dense` does.
    Accumulate,
    /// A row selection records the gradient, with the rows it selected, as a
    /// sparse contribution to its parameter.
    Scatter,
    /// An operation folds the gradient into the gradient buffers of its
    /// operands, and hands these buffers on when `relay` is set.
    Fold { action: BackwardAction, relay: bool },
}

/// What has to be reset when a node is asked to zero its gradients.
#[derive(Debug, Clone, Copy, PartialEq, Eq, Structural)]
pub enum Clearing {
    /// Nothing: the node was not visited, or holds no gradient.
    Nothing,
    /// The gradient store of a parameter.
    Accumulator,
    /// The node's counter, which has been cleared, and its operands.
    Operands,
}

/// The answer of a node of the given kind to a forward request, after
/// `forward_calls` earlier requests.
pub open spec fn forward_action(kind: NodeKind, forward_calls: nat) -> ForwardAction {
    if kind.counted() && forward_calls == 0 {
        ForwardAction::Evaluate
    } else {
        ForwardAction::Cached
    }
}

/// What a node of the given kind does with a gradient, after `forward_calls`
/// forward requests and `backward_calls` earlier gradients.
pub open spec fn propagation(kind: NodeKind, forward_calls: nat, backward_calls: nat) -> Propagation {
    match kind {
        NodeKind::Input | NodeKind::IndexInput => Propagation::Discard,
        NodeKind::Parameter => Propagation::Accumulate,
        NodeKind::Index => Propagation::Scatter,
        _ => Propagation::Fold {
            action: if backward_calls == 0 {
                BackwardAction::Assign
            } else {
                BackwardAction::Increment
            },
            relay: backward_calls + 1 == forward_calls,
        },
    }
}

/// What a node of the given kind resets after `forward_calls` forward
/// requests.
pub open spec fn clearing(kind: NodeKind, forward_calls: nat) -> Clearing {
    if kind is Parameter {
        Clearing::Accumulator
    } else if kind.counted() && forward_calls != 0 {
        Clearing::Operands
    } else {
        Clearing::Nothing
    }
}

/// A vertex of a computation graph.
///
/// A node keeps what is fixed about it together with the count of the
/// visits of the current round. Its methods take the decisions of a pass;
/// computing on the arrays is left to the caller, who is told what to do.
pub trait Node {
    /// What the node's value is described by.
    type Value;

    /// What is fixed about the node.
    spec fn profile(&self) -> Profile;

    /// Forward requests received since the last reset.
    spec fn forward_calls(&self) -> nat;

    /// Gradients received since the last reset.
    spec fn backward_calls(&self) -> nat;

    /// The node is in a state that its constructor or its methods left.
    spec fn wf(&self) -> bool;

    /// A well-formed node has a consistent profile, and counts visits only
    /// if its kind carries a counter.
    proof fn lemma_wf(&self)
        requires
            self.wf(),
        ensures
            self.profile().consistent(),
            !self.profile().kind.counted() ==> self.forward_calls() == 0 && self.backward_calls()
                == 0,
    ;

    /// Records a request for the node's value and tells whether the value
    /// has to be computed: on the first request of a round, after the same
    /// request has been made on the operands.
    fn forward(&mut self) -> (action: ForwardAction)
        requires
            old(self).wf(),
            old(self).forward_calls() < usize::MAX,
        ensures
            final(self).wf(),
            final(self).profile() == old(self).profile(),
            final(self).backward_calls() == old(self).backward_calls(),
            final(self).forward_calls() == old(self).forward_calls() + (if old(
                self,
            ).profile().kind.counted() {
                1nat
            } else {
                0nat
            }),
            action == forward_action(old(self).profile().kind, old(self).forward_calls()),
    ;

    /// Records a gradient that is handed to the node and tells what to do
    /// with it.
    fn backward(&mut self) -> (handling: Propagation)
        requires
            old(self).wf(),
            old(self).profile().kind.counted() ==> old(self).backward_calls() < old(
                self,
            ).forward_calls(),
        ensures
            final(self).wf(),
            final(self).profile() == old(self).profile(),
            final(self).forward_calls() == old(self).forward_calls(),
            final(self).backward_calls() == old(self).backward_calls() + (if old(
                self,
            ).profile().kind.counted() {
                1nat
            } else {
                0nat
            }),
            handling == propagation(
                old(self).profile().kind,
                old(self).forward_calls(),
                old(self).backward_calls(),
            ),
    ;

    /// What describes the node's value.
    fn value(&self) -> (value: Self::Value)
        requires
            self.wf(),
    ;

    /// Whether gradients have to flow into the node.
    fn needs_gradient(&self) -> (needed: bool)
        requires
            self.wf(),
        ensures
            needed == self.profile().needs_gradient,
    ;

    /// Resets the node for the next round and tells what else has to be
    /// reset: a node that was visited clears its counter and has its
    /// operands zeroed. The node is reset whether or not every forward
    /// visit has been answered by a gradient.
    fn zero_gradient(&mut self) -> (reset: Clearing)
        requires
            old(self).wf(),
        ensures
            final(self).wf(),
            final(self).profile() == old(self).profile(),
            reset == clearing(old(self).profile().kind, old(self).forward_calls()),
            reset is Operands ==> final(self).forward_calls() == 0 && final(self).backward_calls()
                == 0,
            !(reset is Operands) ==> final(self).forward_calls() == old(self).forward_calls()
                && final(self).backward_calls() == old(self).backward_calls(),
    ;

    /// The forward requests and the gradients counted since the last reset.
    fn visits(&self) -> (counts: (usize, usize))
        requires
            self.wf(),
        ensures
            counts.0 == self.forward_calls(),
            counts.1 == self.backward_calls(),
    ;

    /// The node's profile.
    fn describe(&self) -> (profile: Profile)
        requires
            self.wf(),
        ensures
            profile == self.profile(),
    ;
}

} // verus!
