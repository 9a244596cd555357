//! The normalised exponential and its logarithm.

use crate::counter::{ForwardAction, PassCounter};
use crate::node::{Clearing, Node, NodeKind, Operand, Profile, Propagation};
use crate::shape::{Shape};
use vstd::prelude::*;

verus! {

/// Normalised exponential of a row.
///
/// Forward: the largest element is subtracted from every element, the
/// differences are exponentiated and divided by their sum.
///
/// Backward: the Jacobian `J` of the value `s` is built, with `s_i * (1 -
/// s_i)` on the diagonal and `-s_i * s_j` elsewhere, and the operand
/// receives the gradient times `J`; the first gradient of a round is
/// written to the buffer, later ones are added to it.
#[derive(Debug)]
pub struct SoftmaxNode {
    value: Shape,
    jacobian: Shape,
    operand_gradient: Shape,
    operand: Operand,
    needs_gradient: bool,
    counter: PassCounter,
}

impl SoftmaxNode {
    /// A node over the operand, not visited yet.
    pub fn new(operand: Operand) -> (node: SoftmaxNode)
        ensures
            node.wf(),
            node.profile() == Profile::of_unary(NodeKind::Softmax, operand.shape, operand),
            node.forward_calls() == 0,
            node.backward_calls() == 0,
    {
        let needs_gradient = operand.needs_gradient;
        let value = operand.shape;
        SoftmaxNode {
            value,
            jacobian: Shape { rows: operand.shape.cols, cols: operand.shape.cols },
            operand_gradient: operand.shape,
            operand,
            needs_gradient,
            counter: PassCounter::default(),
        }
    }

    /// Shape of the matrix of partial derivatives of the value.
    pub fn jacobian(&self) -> (shape: Shape)
        requires
            self.wf(),
        ensures
            shape == self.profile().first->0.shape.jacobian(),
    {
        self.jacobian
    }

    /// Shape of the buffer that collects the operand's gradient.
    pub fn operand_gradient(&self) -> (shape: Shape)
        requires
            self.wf(),
        ensures
            shape == self.profile().first->0.shape,
    {
        self.operand_gradient
    }
}

impl Node for SoftmaxNode {
    type Value = Shape;

    closed spec fn profile(&self) -> Profile {
        Profile {
            kind: NodeKind::Softmax,
            shape: Some(self.value),
            needs_gradient: self.needs_gradient,
            first: Some(self.operand),
            second: None,
            index: None,
        }
    }

    closed spec fn forward_calls(&self) -> nat {
        self.counter.forward_calls()
    }

    closed spec fn backward_calls(&self) -> nat {
        self.counter.backward_calls()
    }

    closed spec fn wf(&self) -> bool {
        &&& self.profile().consistent()
        &&& self.jacobian == self.operand.shape.jacobian()
        &&& self.operand_gradient == self.operand.shape
    }

    proof fn lemma_wf(&self) {
    }

    fn forward(&mut self) -> (action: ForwardAction) {
        self.counter.forward()
    }

    fn backward(&mut self) -> (handling: Propagation) {
        proof {
            self.counter.lemma_bounded();
        }
        let action = self.counter.backward();
        let relay = self.counter.recurse_backward();
        Propagation::Fold { action, relay }
    }

    fn value(&self) -> (value: Shape)
        ensures
            Some(value) == self.profile().shape,
    {
        self.value
    }

    fn needs_gradient(&self) -> (needed: bool) {
        self.needs_gradient
    }

    fn zero_gradient(&mut self) -> (reset: Clearing) {
        if !self.counter.is_zero() {
            self.counter.clear();
            Clearing::Operands
        } else {
            Clearing::Nothing
        }
    }

    fn visits(&self) -> (counts: (usize, usize)) {
        (self.counter.forward_count(), self.counter.backward_count())
    }

    fn describe(&self) -> (profile: Profile) {
        Profile {
            kind: NodeKind::Softmax,
            shape: Some(self.value),
            needs_gradient: self.needs_gradient,
            first: Some(self.operand),
            second: None,
            index: None,
        }
    }
}

/// Logarithm of the normalised exponential of a row.
///
/// Forward: with `m` the largest element, the value is `x - (m + ln
/// sum(exp(x - m)))`; the normalised exponential itself is never formed.
///
/// Backward: element `i` of the operand receives `gradient_i - exp(value_i)
/// * sum(gradient)`, without any Jacobian; the first gradient of a round is
/// written to the buffer, later ones are added to it.
#[derive(Debug)]
pub struct LogSoftmaxNode {
    value: Shape,
    operand_gradient: Shape,
    operand: Operand,
    needs_gradient: bool,
    counter: PassCounter,
}

impl LogSoftmaxNode {
    /// A node over the operand, not visited yet.
    pub fn new(operand: Operand) -> (node: LogSoftmaxNode)
        ensures
            node.wf(),
            node.profile() == Profile::of_unary(NodeKind::LogSoftmax, operand.shape, operand),
            node.forward_calls() == 0,
            node.backward_calls() == 0,
    {
        let needs_gradient = operand.needs_gradient;
        let value = operand.shape;
        LogSoftmaxNode {
            value,
            operand_gradient: operand.shape,
            operand,
            needs_gradient,
            counter: PassCounter::default(),
        }
    }

    /// Shape of the buffer that collects the operand's gradient.
    pub fn operand_gradient(&self) -> (shape: Shape)
        requires
            self.wf(),
        ensures
            shape == self.profile().first->0.shape,
    {
        self.operand_gradient
    }

    /// Clears the counter. A loss that is fused with this node computes the
    /// operand's gradient itself and never hands a gradient to the node, so
    /// that the counter has to be reset from outside.
    pub fn zero_counter(&mut self)
        requires
            old(self).wf(),
        ensures
            final(self).wf(),
            final(self).profile() == old(self).profile(),
            final(self).forward_calls() == 0,
            final(self).backward_calls() == 0,
    {
        self.counter.clear();
    }
}

impl Node for LogSoftmaxNode {
    type Value = Shape;

    closed spec fn profile(&self) -> Profile {
        Profile {
            kind: NodeKind::LogSoftmax,
            shape: Some(self.value),
            needs_gradient: self.needs_gradient,
            first: Some(self.operand),
            second: None,
            index: None,
        }
    }

    closed spec fn forward_calls(&self) -> nat {
        self.counter.forward_calls()
    }

    closed spec fn backward_calls(&self) -> nat {
        self.counter.backward_calls()
    }

    closed spec fn wf(&self) -> bool {
        &&& self.profile().consistent()
        &&& self.operand_gradient == self.operand.shape
    }

    proof fn lemma_wf(&self) {
    }

    fn forward(&mut self) -> (action: ForwardAction) {
        self.counter.forward()
    }

    fn backward(&mut self) -> (handling: Propagation) {
        proof {
            self.counter.lemma_bounded();
        }
        let action = self.counter.backward();
        let relay = self.counter.recurse_backward();
        Propagation::Fold { action, relay }
    }

    fn value(&self) -> (value: Shape)
        ensures
            Some(value) == self.profile().shape,
    {
        self.value
    }

    fn needs_gradient(&self) -> (needed: bool) {
        self.needs_gradient
    }

    fn zero_gradient(&mut self) -> (reset: Clearing) {
        if !self.counter.is_zero() {
            self.counter.clear();
            Clearing::Operands
        } else {
            Clearing::Nothing
        }
    }

    fn visits(&self) -> (counts: (usize, usize)) {
        (self.counter.forward_count(), self.counter.backward_count())
    }

    fn describe(&self) -> (profile: Profile) {
        Profile {
            kind: NodeKind::LogSoftmax,
            shape: Some(self.value),
            needs_gradient: self.needs_gradient,
            first: Some(self.operand),
            second: None,
            index: None,
        }
    }
}

} // verus!
