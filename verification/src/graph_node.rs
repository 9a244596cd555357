//! The vertices that a graph can hold, as one type.

use crate::binary::{AddNode, ConcatenateNode, DivNode, DotNode, MulNode, SubNode, VectorDotNode};
use crate::leaves::{InputNode, ParameterNode};
use crate::select::{IndexInputNode, IndexNode, copy_indices};
use crate::softmax::{LogSoftmaxNode, SoftmaxNode};
use crate::unary::{ExpNode, LogNode, NegNode, ReluNode, SigmoidNode, SquareNode, SumNode, TanhNode, TransposeNode};
use crate::counter::ForwardAction;
use crate::indices::rows_fit;
use crate::node::{clearing, forward_action, propagation, Clearing, Node, Profile, Propagation};
use vstd::prelude::*;

verus! {

/// A vertex of any kind.
#[derive(Debug)]
pub enum GraphNode {
    Input(InputNode),
    Parameter(ParameterNode),
    IndexInput(IndexInputNode),
    Add(AddNode),
    Sub(SubNode),
    Mul(MulNode),
    Div(DivNode),
    Dot(DotNode),
    VectorDot(VectorDotNode),
    Concatenate(ConcatenateNode),
    Square(SquareNode),
    Log(LogNode),
    Tanh(TanhNode),
    Sigmoid(SigmoidNode),
    Relu(ReluNode),
    Neg(NegNode),
    Exp(ExpNode),
    Transpose(TransposeNode),
    Softmax(SoftmaxNode),
    LogSoftmax(LogSoftmaxNode),
    Sum(SumNode),
    Index(IndexNode),
}

impl GraphNode {
    /// What is fixed about the vertex.
    pub closed spec fn profile(&self) -> Profile {
        match self {
            GraphNode::Input(node) => node.profile(),
            GraphNode::Parameter(node) => node.profile(),
            GraphNode::IndexInput(node) => node.profile(),
            GraphNode::Add(node) => node.profile(),
            GraphNode::Sub(node) => node.profile(),
            GraphNode::Mul(node) => node.profile(),
            GraphNode::Div(node) => node.profile(),
            GraphNode::Dot(node) => node.profile(),
            GraphNode::VectorDot(node) => node.profile(),
            GraphNode::Concatenate(node) => node.profile(),
            GraphNode::Square(node) => node.profile(),
            GraphNode::Log(node) => node.profile(),
            GraphNode::Tanh(node) => node.profile(),
            GraphNode::Sigmoid(node) => node.profile(),
            GraphNode::Relu(node) => node.profile(),
            GraphNode::Neg(node) => node.profile(),
            GraphNode::Exp(node) => node.profile(),
            GraphNode::Transpose(node) => node.profile(),
            GraphNode::Softmax(node) => node.profile(),
            GraphNode::LogSoftmax(node) => node.profile(),
            GraphNode::Sum(node) => node.profile(),
            GraphNode::Index(node) => node.profile(),
        }
    }

    /// Forward requests received since the last reset.
    pub closed spec fn forward_calls(&self) -> nat {
        match self {
            GraphNode::Input(node) => node.forward_calls(),
            GraphNode::Parameter(node) => node.forward_calls(),
            GraphNode::IndexInput(node) => node.forward_calls(),
            GraphNode::Add(node) => node.forward_calls(),
            GraphNode::Sub(node) => node.forward_calls(),
            GraphNode::Mul(node) => node.forward_calls(),
            GraphNode::Div(node) => node.forward_calls(),
            GraphNode::Dot(node) => node.forward_calls(),
            GraphNode::VectorDot(node) => node.forward_calls(),
            GraphNode::Concatenate(node) => node.forward_calls(),
            GraphNode::Square(node) => node.forward_calls(),
            GraphNode::Log(node) => node.forward_calls(),
            GraphNode::Tanh(node) => node.forward_calls(),
            GraphNode::Sigmoid(node) => node.forward_calls(),
            GraphNode::Relu(node) => node.forward_calls(),
            GraphNode::Neg(node) => node.forward_calls(),
            GraphNode::Exp(node) => node.forward_calls(),
            GraphNode::Transpose(node) => node.forward_calls(),
            GraphNode::Softmax(node) => node.forward_calls(),
            GraphNode::LogSoftmax(node) => node.forward_calls(),
            GraphNode::Sum(node) => node.forward_calls(),
            GraphNode::Index(node) => node.forward_calls(),
        }
    }

    /// Gradients received since the last reset.
    pub closed spec fn backward_calls(&self) -> nat {
        match self {
            GraphNode::Input(node) => node.backward_calls(),
            GraphNode::Parameter(node) => node.backward_calls(),
            GraphNode::IndexInput(node) => node.backward_calls(),
            GraphNode::Add(node) => node.backward_calls(),
            GraphNode::Sub(node) => node.backward_calls(),
            GraphNode::Mul(node) => node.backward_calls(),
            GraphNode::Div(node) => node.backward_calls(),
            GraphNode::Dot(node) => node.backward_calls(),
            GraphNode::VectorDot(node) => node.backward_calls(),
            GraphNode::Concatenate(node) => node.backward_calls(),
            GraphNode::Square(node) => node.backward_calls(),
            GraphNode::Log(node) => node.backward_calls(),
            GraphNode::Tanh(node) => node.backward_calls(),
            GraphNode::Sigmoid(node) => node.backward_calls(),
            GraphNode::Relu(node) => node.backward_calls(),
            GraphNode::Neg(node) => node.backward_calls(),
            GraphNode::Exp(node) => node.backward_calls(),
            GraphNode::Transpose(node) => node.backward_calls(),
            GraphNode::Softmax(node) => node.backward_calls(),
            GraphNode::LogSoftmax(node) => node.backward_calls(),
            GraphNode::Sum(node) => node.backward_calls(),
            GraphNode::Index(node) => node.backward_calls(),
        }
    }

    /// The vertex is in a state that its constructor or its methods left,
    /// and is of the kind that its profile names.
    pub closed spec fn wf(&self) -> bool {
        match self {
            GraphNode::Input(node) => node.wf() && node.profile().kind is Input,
            GraphNode::Parameter(node) => node.wf() && node.profile().kind is Parameter,
            GraphNode::IndexInput(node) => node.wf() && node.profile().kind is IndexInput,
            GraphNode::Add(node) => node.wf() && node.profile().kind is Add,
            GraphNode::Sub(node) => node.wf() && node.profile().kind is Sub,
            GraphNode::Mul(node) => node.wf() && node.profile().kind is Mul,
            GraphNode::Div(node) => node.wf() && node.profile().kind is Div,
            GraphNode::Dot(node) => node.wf() && node.profile().kind is Dot,
            GraphNode::VectorDot(node) => node.wf() && node.profile().kind is VectorDot,
            GraphNode::Concatenate(node) => node.wf() && node.profile().kind is Concatenate,
            GraphNode::Square(node) => node.wf() && node.profile().kind is Square,
            GraphNode::Log(node) => node.wf() && node.profile().kind is Log,
            GraphNode::Tanh(node) => node.wf() && node.profile().kind is Tanh,
            GraphNode::Sigmoid(node) => node.wf() && node.profile().kind is Sigmoid,
            GraphNode::Relu(node) => node.wf() && node.profile().kind is Relu,
            GraphNode::Neg(node) => node.wf() && node.profile().kind is Neg,
            GraphNode::Exp(node) => node.wf() && node.profile().kind is Exp,
            GraphNode::Transpose(node) => node.wf() && node.profile().kind is Transpose,
            GraphNode::Softmax(node) => node.wf() && node.profile().kind is Softmax,
            GraphNode::LogSoftmax(node) => node.wf() && node.profile().kind is LogSoftmax,
            GraphNode::Sum(node) => node.wf() && node.profile().kind is Sum,
            GraphNode::Index(node) => node.wf() && node.profile().kind is Index,
        }
    }

    /// The indices that the vertex holds: those of an index list, those by
    /// which a row selection last selected, none otherwise.
    pub closed spec fn indices(&self) -> Seq<usize> {
        match self {
            GraphNode::IndexInput(node) => node.indices(),
            GraphNode::Index(node) => node.active(),
            _ => Seq::empty(),
        }
    }

    /// A well-formed vertex has a consistent profile, and counts visits only
    /// if its kind carries a counter.
    pub proof fn lemma_wf(&self)
        requires
            self.wf(),
        ensures
            self.profile().consistent(),
            !self.profile().kind.counted() ==> self.forward_calls() == 0 && self.backward_calls()
                == 0,
            self.profile().kind is Index ==> rows_fit(
                self.indices(),
                self.profile().shape->0.rows,
                self.profile().first->0.shape.rows,
            ),
    {
        match self {
            GraphNode::Index(node) => {
                node.lemma_wf();
                node.lemma_active();
            },
            GraphNode::Input(node) => node.lemma_wf(),
            GraphNode::Parameter(node) => node.lemma_wf(),
            GraphNode::IndexInput(node) => node.lemma_wf(),
            GraphNode::Add(node) => node.lemma_wf(),
            GraphNode::Sub(node) => node.lemma_wf(),
            GraphNode::Mul(node) => node.lemma_wf(),
            GraphNode::Div(node) => node.lemma_wf(),
            GraphNode::Dot(node) => node.lemma_wf(),
            GraphNode::VectorDot(node) => node.lemma_wf(),
            GraphNode::Concatenate(node) => node.lemma_wf(),
            GraphNode::Square(node) => node.lemma_wf(),
            GraphNode::Log(node) => node.lemma_wf(),
            GraphNode::Tanh(node) => node.lemma_wf(),
            GraphNode::Sigmoid(node) => node.lemma_wf(),
            GraphNode::Relu(node) => node.lemma_wf(),
            GraphNode::Neg(node) => node.lemma_wf(),
            GraphNode::Exp(node) => node.lemma_wf(),
            GraphNode::Transpose(node) => node.lemma_wf(),
            GraphNode::Softmax(node) => node.lemma_wf(),
            GraphNode::LogSoftmax(node) => node.lemma_wf(),
            GraphNode::Sum(node) => node.lemma_wf(),
        }
    }

    /// What the vertex is said to be is what is said of the node inside.
    pub proof fn lemma_inside(&self)
        ensures
            self.wf() == (match self {
                GraphNode::Input(node) => node.wf() && node.profile().kind is Input,
                GraphNode::Parameter(node) => node.wf() && node.profile().kind is Parameter,
                GraphNode::IndexInput(node) => node.wf() && node.profile().kind is IndexInput,
                GraphNode::Add(node) => node.wf() && node.profile().kind is Add,
                GraphNode::Sub(node) => node.wf() && node.profile().kind is Sub,
                GraphNode::Mul(node) => node.wf() && node.profile().kind is Mul,
                GraphNode::Div(node) => node.wf() && node.profile().kind is Div,
                GraphNode::Dot(node) => node.wf() && node.profile().kind is Dot,
                GraphNode::VectorDot(node) => node.wf() && node.profile().kind is VectorDot,
                GraphNode::Concatenate(node) => node.wf() && node.profile().kind is Concatenate,
                GraphNode::Square(node) => node.wf() && node.profile().kind is Square,
                GraphNode::Log(node) => node.wf() && node.profile().kind is Log,
                GraphNode::Tanh(node) => node.wf() && node.profile().kind is Tanh,
                GraphNode::Sigmoid(node) => node.wf() && node.profile().kind is Sigmoid,
                GraphNode::Relu(node) => node.wf() && node.profile().kind is Relu,
                GraphNode::Neg(node) => node.wf() && node.profile().kind is Neg,
                GraphNode::Exp(node) => node.wf() && node.profile().kind is Exp,
                GraphNode::Transpose(node) => node.wf() && node.profile().kind is Transpose,
                GraphNode::Softmax(node) => node.wf() && node.profile().kind is Softmax,
                GraphNode::LogSoftmax(node) => node.wf() && node.profile().kind is LogSoftmax,
                GraphNode::Sum(node) => node.wf() && node.profile().kind is Sum,
                GraphNode::Index(node) => node.wf() && node.profile().kind is Index,
            }),
            self.profile() == (match self {
                GraphNode::Input(node) => node.profile(),
                GraphNode::Parameter(node) => node.profile(),
                GraphNode::IndexInput(node) => node.profile(),
                GraphNode::Add(node) => node.profile(),
                GraphNode::Sub(node) => node.profile(),
                GraphNode::Mul(node) => node.profile(),
                GraphNode::Div(node) => node.profile(),
                GraphNode::Dot(node) => node.profile(),
                GraphNode::VectorDot(node) => node.profile(),
                GraphNode::Concatenate(node) => node.profile(),
                GraphNode::Square(node) => node.profile(),
                GraphNode::Log(node) => node.profile(),
                GraphNode::Tanh(node) => node.profile(),
                GraphNode::Sigmoid(node) => node.profile(),
                GraphNode::Relu(node) => node.profile(),
                GraphNode::Neg(node) => node.profile(),
                GraphNode::Exp(node) => node.profile(),
                GraphNode::Transpose(node) => node.profile(),
                GraphNode::Softmax(node) => node.profile(),
                GraphNode::LogSoftmax(node) => node.profile(),
                GraphNode::Sum(node) => node.profile(),
                GraphNode::Index(node) => node.profile(),
            }),
            self.forward_calls() == (match self {
                GraphNode::Input(node) => node.forward_calls(),
                GraphNode::Parameter(node) => node.forward_calls(),
                GraphNode::IndexInput(node) => node.forward_calls(),
                GraphNode::Add(node) => node.forward_calls(),
                GraphNode::Sub(node) => node.forward_calls(),
                GraphNode::Mul(node) => node.forward_calls(),
                GraphNode::Div(node) => node.forward_calls(),
                GraphNode::Dot(node) => node.forward_calls(),
                GraphNode::VectorDot(node) => node.forward_calls(),
                GraphNode::Concatenate(node) => node.forward_calls(),
                GraphNode::Square(node) => node.forward_calls(),
                GraphNode::Log(node) => node.forward_calls(),
                GraphNode::Tanh(node) => node.forward_calls(),
                GraphNode::Sigmoid(node) => node.forward_calls(),
                GraphNode::Relu(node) => node.forward_calls(),
                GraphNode::Neg(node) => node.forward_calls(),
                GraphNode::Exp(node) => node.forward_calls(),
                GraphNode::Transpose(node) => node.forward_calls(),
                GraphNode::Softmax(node) => node.forward_calls(),
                GraphNode::LogSoftmax(node) => node.forward_calls(),
                GraphNode::Sum(node) => node.forward_calls(),
                GraphNode::Index(node) => node.forward_calls(),
            }),
            self.backward_calls() == (match self {
                GraphNode::Input(node) => node.backward_calls(),
                GraphNode::Parameter(node) => node.backward_calls(),
                GraphNode::IndexInput(node) => node.backward_calls(),
                GraphNode::Add(node) => node.backward_calls(),
                GraphNode::Sub(node) => node.backward_calls(),
                GraphNode::Mul(node) => node.backward_calls(),
                GraphNode::Div(node) => node.backward_calls(),
                GraphNode::Dot(node) => node.backward_calls(),
                GraphNode::VectorDot(node) => node.backward_calls(),
                GraphNode::Concatenate(node) => node.backward_calls(),
                GraphNode::Square(node) => node.backward_calls(),
                GraphNode::Log(node) => node.backward_calls(),
                GraphNode::Tanh(node) => node.backward_calls(),
                GraphNode::Sigmoid(node) => node.backward_calls(),
                GraphNode::Relu(node) => node.backward_calls(),
                GraphNode::Neg(node) => node.backward_calls(),
                GraphNode::Exp(node) => node.backward_calls(),
                GraphNode::Transpose(node) => node.backward_calls(),
                GraphNode::Softmax(node) => node.backward_calls(),
                GraphNode::LogSoftmax(node) => node.backward_calls(),
                GraphNode::Sum(node) => node.backward_calls(),
                GraphNode::Index(node) => node.backward_calls(),
            }),
            self.indices() == (match self {
                GraphNode::IndexInput(node) => node.indices(),
                GraphNode::Index(node) => node.active(),
                _ => Seq::empty(),
            }),
    {
    }

    /// Records a request for the value; see [`Node::forward`].
    pub fn forward(&mut self) -> (action: ForwardAction)
        requires
            old(self).wf(),
            old(self).forward_calls() < usize::MAX,
        ensures
            final(self).wf(),
            final(self).profile() == old(self).profile(),
            final(self).indices() == old(self).indices(),
            final(self).backward_calls() == old(self).backward_calls(),
            final(self).forward_calls() == old(self).forward_calls() + (if old(
                self,
            ).profile().kind.counted() {
                1nat
            } else {
                0nat
            }),
            action == forward_action(old(self).profile().kind, old(self).forward_calls()),
    {
        match self {
            GraphNode::Input(node) => node.forward(),
            GraphNode::Parameter(node) => node.forward(),
            GraphNode::IndexInput(node) => node.forward(),
            GraphNode::Add(node) => node.forward(),
            GraphNode::Sub(node) => node.forward(),
            GraphNode::Mul(node) => node.forward(),
            GraphNode::Div(node) => node.forward(),
            GraphNode::Dot(node) => node.forward(),
            GraphNode::VectorDot(node) => node.forward(),
            GraphNode::Concatenate(node) => node.forward(),
            GraphNode::Square(node) => node.forward(),
            GraphNode::Log(node) => node.forward(),
            GraphNode::Tanh(node) => node.forward(),
            GraphNode::Sigmoid(node) => node.forward(),
            GraphNode::Relu(node) => node.forward(),
            GraphNode::Neg(node) => node.forward(),
            GraphNode::Exp(node) => node.forward(),
            GraphNode::Transpose(node) => node.forward(),
            GraphNode::Softmax(node) => node.forward(),
            GraphNode::LogSoftmax(node) => node.forward(),
            GraphNode::Sum(node) => node.forward(),
            GraphNode::Index(node) => node.forward(),
        }
    }

    /// Records a gradient that is handed over; see [`Node::backward`].
    pub fn backward(&mut self) -> (handling: Propagation)
        requires
            old(self).wf(),
            old(self).profile().kind.counted() ==> old(self).backward_calls() < old(
                self,
            ).forward_calls(),
        ensures
            final(self).wf(),
            final(self).profile() == old(self).profile(),
            final(self).indices() == old(self).indices(),
            final(self).forward_calls() == old(self).forward_calls(),
            final(self).backward_calls() == old(self).backward_calls() + (if old(
                self,
            ).profile().kind.counted() {
                1nat
            } else {
                0nat
            }),
            handling == propagation(
                old(self).profile().kind,
                old(self).forward_calls(),
                old(self).backward_calls(),
            ),
    {
        match self {
            GraphNode::Input(node) => node.backward(),
            GraphNode::Parameter(node) => node.backward(),
            GraphNode::IndexInput(node) => node.backward(),
            GraphNode::Add(node) => node.backward(),
            GraphNode::Sub(node) => node.backward(),
            GraphNode::Mul(node) => node.backward(),
            GraphNode::Div(node) => node.backward(),
            GraphNode::Dot(node) => node.backward(),
            GraphNode::VectorDot(node) => node.backward(),
            GraphNode::Concatenate(node) => node.backward(),
            GraphNode::Square(node) => node.backward(),
            GraphNode::Log(node) => node.backward(),
            GraphNode::Tanh(node) => node.backward(),
            GraphNode::Sigmoid(node) => node.backward(),
            GraphNode::Relu(node) => node.backward(),
            GraphNode::Neg(node) => node.backward(),
            GraphNode::Exp(node) => node.backward(),
            GraphNode::Transpose(node) => node.backward(),
            GraphNode::Softmax(node) => node.backward(),
            GraphNode::LogSoftmax(node) => node.backward(),
            GraphNode::Sum(node) => node.backward(),
            GraphNode::Index(node) => node.backward(),
        }
    }

    /// Resets the vertex for the next round; see [`Node::zero_gradient`].
    pub fn zero_gradient(&mut self) -> (reset: Clearing)
        requires
            old(self).wf(),
        ensures
            final(self).wf(),
            final(self).profile() == old(self).profile(),
            final(self).indices() == old(self).indices(),
            reset == clearing(old(self).profile().kind, old(self).forward_calls()),
            reset is Operands ==> final(self).forward_calls() == 0 && final(self).backward_calls()
                == 0,
            !(reset is Operands) ==> final(self).forward_calls() == old(self).forward_calls()
                && final(self).backward_calls() == old(self).backward_calls(),
    {
        match self {
            GraphNode::Input(node) => node.zero_gradient(),
            GraphNode::Parameter(node) => node.zero_gradient(),
            GraphNode::IndexInput(node) => node.zero_gradient(),
            GraphNode::Add(node) => node.zero_gradient(),
            GraphNode::Sub(node) => node.zero_gradient(),
            GraphNode::Mul(node) => node.zero_gradient(),
            GraphNode::Div(node) => node.zero_gradient(),
            GraphNode::Dot(node) => node.zero_gradient(),
            GraphNode::VectorDot(node) => node.zero_gradient(),
            GraphNode::Concatenate(node) => node.zero_gradient(),
            GraphNode::Square(node) => node.zero_gradient(),
            GraphNode::Log(node) => node.zero_gradient(),
            GraphNode::Tanh(node) => node.zero_gradient(),
            GraphNode::Sigmoid(node) => node.zero_gradient(),
            GraphNode::Relu(node) => node.zero_gradient(),
            GraphNode::Neg(node) => node.zero_gradient(),
            GraphNode::Exp(node) => node.zero_gradient(),
            GraphNode::Transpose(node) => node.zero_gradient(),
            GraphNode::Softmax(node) => node.zero_gradient(),
            GraphNode::LogSoftmax(node) => node.zero_gradient(),
            GraphNode::Sum(node) => node.zero_gradient(),
            GraphNode::Index(node) => node.zero_gradient(),
        }
    }

    /// The forward requests and the gradients counted since the last reset.
    pub fn visits(&self) -> (counts: (usize, usize))
        requires
            self.wf(),
        ensures
            counts.0 == self.forward_calls(),
            counts.1 == self.backward_calls(),
    {
        match self {
            GraphNode::Input(node) => node.visits(),
            GraphNode::Parameter(node) => node.visits(),
            GraphNode::IndexInput(node) => node.visits(),
            GraphNode::Add(node) => node.visits(),
            GraphNode::Sub(node) => node.visits(),
            GraphNode::Mul(node) => node.visits(),
            GraphNode::Div(node) => node.visits(),
            GraphNode::Dot(node) => node.visits(),
            GraphNode::VectorDot(node) => node.visits(),
            GraphNode::Concatenate(node) => node.visits(),
            GraphNode::Square(node) => node.visits(),
            GraphNode::Log(node) => node.visits(),
            GraphNode::Tanh(node) => node.visits(),
            GraphNode::Sigmoid(node) => node.visits(),
            GraphNode::Relu(node) => node.visits(),
            GraphNode::Neg(node) => node.visits(),
            GraphNode::Exp(node) => node.visits(),
            GraphNode::Transpose(node) => node.visits(),
            GraphNode::Softmax(node) => node.visits(),
            GraphNode::LogSoftmax(node) => node.visits(),
            GraphNode::Sum(node) => node.visits(),
            GraphNode::Index(node) => node.visits(),
        }
    }

    /// The profile of the vertex.
    pub fn describe(&self) -> (profile: Profile)
        requires
            self.wf(),
        ensures
            profile == self.profile(),
    {
        match self {
            GraphNode::Input(node) => node.describe(),
            GraphNode::Parameter(node) => node.describe(),
            GraphNode::IndexInput(node) => node.describe(),
            GraphNode::Add(node) => node.describe(),
            GraphNode::Sub(node) => node.describe(),
            GraphNode::Mul(node) => node.describe(),
            GraphNode::Div(node) => node.describe(),
            GraphNode::Dot(node) => node.describe(),
            GraphNode::VectorDot(node) => node.describe(),
            GraphNode::Concatenate(node) => node.describe(),
            GraphNode::Square(node) => node.describe(),
            GraphNode::Log(node) => node.describe(),
            GraphNode::Tanh(node) => node.describe(),
            GraphNode::Sigmoid(node) => node.describe(),
            GraphNode::Relu(node) => node.describe(),
            GraphNode::Neg(node) => node.describe(),
            GraphNode::Exp(node) => node.describe(),
            GraphNode::Transpose(node) => node.describe(),
            GraphNode::Softmax(node) => node.describe(),
            GraphNode::LogSoftmax(node) => node.describe(),
            GraphNode::Sum(node) => node.describe(),
            GraphNode::Index(node) => node.describe(),
        }
    }

    /// Makes a copy of `indices` the indices by which a row selection
    /// selects.
    pub fn refresh(&mut self, indices: &[usize])
        requires
            old(self).wf(),
            old(self).profile().kind is Index,
            rows_fit(
                indices@,
                old(self).profile().shape->0.rows,
                old(self).profile().first->0.shape.rows,
            ),
        ensures
            final(self).wf(),
            final(self).profile() == old(self).profile(),
            final(self).forward_calls() == old(self).forward_calls(),
            final(self).backward_calls() == old(self).backward_calls(),
            final(self).indices() == indices@,
    {
        match self {
            GraphNode::Index(node) => node.refresh(indices),
            _ => {},
        }
    }

    /// Replaces the indices of an index list by a copy of `indices`, and
    /// tells whether the vertex is an index list.
    pub fn set_indices(&mut self, indices: &[usize]) -> (done: bool)
        requires
            old(self).wf(),
        ensures
            final(self).wf(),
            final(self).profile() == old(self).profile(),
            final(self).forward_calls() == old(self).forward_calls(),
            final(self).backward_calls() == old(self).backward_calls(),
            done == (old(self).profile().kind is IndexInput),
            final(self).indices() == (if done {
                indices@
            } else {
                old(self).indices()
            }),
    {
        match self {
            GraphNode::IndexInput(node) => {
                node.set(indices);
                true
            },
            _ => false,
        }
    }

    /// Clears the counter of a log-softmax vertex without touching its
    /// operand, and tells whether the vertex is one.
    pub fn zero_counter(&mut self) -> (done: bool)
        requires
            old(self).wf(),
        ensures
            final(self).wf(),
            final(self).profile() == old(self).profile(),
            final(self).indices() == old(self).indices(),
            done == (old(self).profile().kind is LogSoftmax),
            final(self).forward_calls() == (if done {
                0nat
            } else {
                old(self).forward_calls()
            }),
            final(self).backward_calls() == (if done {
                0nat
            } else {
                old(self).backward_calls()
            }),
    {
        match self {
            GraphNode::LogSoftmax(node) => {
                node.zero_counter();
                true
            },
            _ => false,
        }
    }

    /// A copy of the indices that the vertex holds.
    pub fn indices_copy(&self) -> (indices: Vec<usize>)
        ensures
            indices@ == self.indices(),
    {
        match self {
            GraphNode::IndexInput(node) => copy_indices(node.as_slice()),
            GraphNode::Index(node) => copy_indices(node.indices()),
            _ => Vec::new(),
        }
    }

    /// Whether gradients have to flow into the vertex.
    pub fn needs_gradient(&self) -> (needed: bool)
        requires
            self.wf(),
        ensures
            needed == self.profile().needs_gradient,
    {
        match self {
            GraphNode::Input(node) => node.needs_gradient(),
            GraphNode::Parameter(node) => node.needs_gradient(),
            GraphNode::IndexInput(node) => node.needs_gradient(),
            GraphNode::Add(node) => node.needs_gradient(),
            GraphNode::Sub(node) => node.needs_gradient(),
            GraphNode::Mul(node) => node.needs_gradient(),
            GraphNode::Div(node) => node.needs_gradient(),
            GraphNode::Dot(node) => node.needs_gradient(),
            GraphNode::VectorDot(node) => node.needs_gradient(),
            GraphNode::Concatenate(node) => node.needs_gradient(),
            GraphNode::Square(node) => node.needs_gradient(),
            GraphNode::Log(node) => node.needs_gradient(),
            GraphNode::Tanh(node) => node.needs_gradient(),
            GraphNode::Sigmoid(node) => node.needs_gradient(),
            GraphNode::Relu(node) => node.needs_gradient(),
            GraphNode::Neg(node) => node.needs_gradient(),
            GraphNode::Exp(node) => node.needs_gradient(),
            GraphNode::Transpose(node) => node.needs_gradient(),
            GraphNode::Softmax(node) => node.needs_gradient(),
            GraphNode::LogSoftmax(node) => node.needs_gradient(),
            GraphNode::Sum(node) => node.needs_gradient(),
            GraphNode::Index(node) => node.needs_gradient(),
        }
    }
}

} // verus!
