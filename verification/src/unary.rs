//! Operations on one operand whose result follows from its elements one by one or all at once.

use crate::counter::{BackwardAction, ForwardAction, PassCounter};
use crate::node::{Clearing, Node, NodeKind, Operand, Profile, Propagation};
use crate::rows::{merged_transposed, transpose_gradient, transpose_into, transposed};
use crate::shape::Shape;
use vstd::prelude::*;

verus! {

/// Elementwise square.
///
/// Forward: the value is `x^2`.
///
/// Backward: the operand receives `2 * x * gradient`; the first gradient of
/// a round is written to the buffer, later ones are added to it.
#[derive(Debug)]
pub struct SquareNode {
    value: Shape,
    operand_gradient: Shape,
    operand: Operand,
    needs_gradient: bool,
    counter: PassCounter,
}

impl SquareNode {
    /// A node over the operand, not visited yet.
    pub fn new(operand: Operand) -> (node: SquareNode)
        ensures
            node.wf(),
            node.profile() == Profile::of_unary(NodeKind::Square, operand.shape, operand),
            node.forward_calls() == 0,
            node.backward_calls() == 0,
    {
        let needs_gradient = operand.needs_gradient;
        let value = operand.shape;
        SquareNode {
            value,
            operand_gradient: operand.shape,
            operand,
            needs_gradient,
            counter: PassCounter::default(),
        }
    }

    /// Shape of the buffer that collects the operand's gradient.
    pub fn operand_gradient(&self) -> (shape: Shape)
        requires
            self.wf(),
        ensures
            shape == self.profile().first->0.shape,
    {
        self.operand_gradient
    }
}

impl Node for SquareNode {
    type Value = Shape;

    closed spec fn profile(&self) -> Profile {
        Profile {
            kind: NodeKind::Square,
            shape: Some(self.value),
            needs_gradient: self.needs_gradient,
            first: Some(self.operand),
            second: None,
            index: None,
        }
    }

    closed spec fn forward_calls(&self) -> nat {
        self.counter.forward_calls()
    }

    closed spec fn backward_calls(&self) -> nat {
        self.counter.backward_calls()
    }

    closed spec fn wf(&self) -> bool {
        &&& self.profile().consistent()
        &&& self.operand_gradient == self.operand.shape
    }

    proof fn lemma_wf(&self) {
    }

    fn forward(&mut self) -> (action: ForwardAction) {
        self.counter.forward()
    }

    fn backward(&mut self) -> (handling: Propagation) {
        proof {
            self.counter.lemma_bounded();
        }
        let action = self.counter.backward();
        let relay = self.counter.recurse_backward();
        Propagation::Fold { action, relay }
    }

    fn value(&self) -> (value: Shape)
        ensures
            Some(value) == self.profile().shape,
    {
        self.value
    }

    fn needs_gradient(&self) -> (needed: bool) {
        self.needs_gradient
    }

    fn zero_gradient(&mut self) -> (reset: Clearing) {
        if !self.counter.is_zero() {
            self.counter.clear();
            Clearing::Operands
        } else {
            Clearing::Nothing
        }
    }

    fn visits(&self) -> (counts: (usize, usize)) {
        (self.counter.forward_count(), self.counter.backward_count())
    }

    fn describe(&self) -> (profile: Profile) {
        Profile {
            kind: NodeKind::Square,
            shape: Some(self.value),
            needs_gradient: self.needs_gradient,
            first: Some(self.operand),
            second: None,
            index: None,
        }
    }
}

/// Elementwise natural logarithm.
///
/// Forward: the value is `ln x`.
///
/// Backward: the operand receives `gradient / x`; the first gradient of a
/// round is written to the buffer, later ones are added to it.
#[derive(Debug)]
pub struct LogNode {
    value: Shape,
    operand_gradient: Shape,
    operand: Operand,
    needs_gradient: bool,
    counter: PassCounter,
}

impl LogNode {
    /// A node over the operand, not visited yet.
    pub fn new(operand: Operand) -> (node: LogNode)
        ensures
            node.wf(),
            node.profile() == Profile::of_unary(NodeKind::Log, operand.shape, operand),
            node.forward_calls() == 0,
            node.backward_calls() == 0,
    {
        let needs_gradient = operand.needs_gradient;
        let value = operand.shape;
        LogNode {
            value,
            operand_gradient: operand.shape,
            operand,
            needs_gradient,
            counter: PassCounter::default(),
        }
    }

    /// Shape of the buffer that collects the operand's gradient.
    pub fn operand_gradient(&self) -> (shape: Shape)
        requires
            self.wf(),
        ensures
            shape == self.profile().first->0.shape,
    {
        self.operand_gradient
    }
}

impl Node for LogNode {
    type Value = Shape;

    closed spec fn profile(&self) -> Profile {
        Profile {
            kind: NodeKind::Log,
            shape: Some(self.value),
            needs_gradient: self.needs_gradient,
            first: Some(self.operand),
            second: None,
            index: None,
        }
    }

    closed spec fn forward_calls(&self) -> nat {
        self.counter.forward_calls()
    }

    closed spec fn backward_calls(&self) -> nat {
        self.counter.backward_calls()
    }

    closed spec fn wf(&self) -> bool {
        &&& self.profile().consistent()
        &&& self.operand_gradient == self.operand.shape
    }

    proof fn lemma_wf(&self) {
    }

    fn forward(&mut self) -> (action: ForwardAction) {
        self.counter.forward()
    }

    fn backward(&mut self) -> (handling: Propagation) {
        proof {
            self.counter.lemma_bounded();
        }
        let action = self.counter.backward();
        let relay = self.counter.recurse_backward();
        Propagation::Fold { action, relay }
    }

    fn value(&self) -> (value: Shape)
        ensures
            Some(value) == self.profile().shape,
    {
        self.value
    }

    fn needs_gradient(&self) -> (needed: bool) {
        self.needs_gradient
    }

    fn zero_gradient(&mut self) -> (reset: Clearing) {
        if !self.counter.is_zero() {
            self.counter.clear();
            Clearing::Operands
        } else {
            Clearing::Nothing
        }
    }

    fn visits(&self) -> (counts: (usize, usize)) {
        (self.counter.forward_count(), self.counter.backward_count())
    }

    fn describe(&self) -> (profile: Profile) {
        Profile {
            kind: NodeKind::Log,
            shape: Some(self.value),
            needs_gradient: self.needs_gradient,
            first: Some(self.operand),
            second: None,
            index: None,
        }
    }
}

/// Elementwise hyperbolic tangent.
///
/// Forward: the value is `tanh x`.
///
/// Backward: the operand receives `gradient * (1 - value^2)`; the first
/// gradient of a round is written to the buffer, later ones are added to
/// it.
#[derive(Debug)]
pub struct TanhNode {
    value: Shape,
    operand_gradient: Shape,
    operand: Operand,
    needs_gradient: bool,
    counter: PassCounter,
}

impl TanhNode {
    /// A node over the operand, not visited yet.
    pub fn new(operand: Operand) -> (node: TanhNode)
        ensures
            node.wf(),
            node.profile() == Profile::of_unary(NodeKind::Tanh, operand.shape, operand),
            node.forward_calls() == 0,
            node.backward_calls() == 0,
    {
        let needs_gradient = operand.needs_gradient;
        let value = operand.shape;
        TanhNode {
            value,
            operand_gradient: operand.shape,
            operand,
            needs_gradient,
            counter: PassCounter::default(),
        }
    }

    /// Shape of the buffer that collects the operand's gradient.
    pub fn operand_gradient(&self) -> (shape: Shape)
        requires
            self.wf(),
        ensures
            shape == self.profile().first->0.shape,
    {
        self.operand_gradient
    }
}

impl Node for TanhNode {
    type Value = Shape;

    closed spec fn profile(&self) -> Profile {
        Profile {
            kind: NodeKind::Tanh,
            shape: Some(self.value),
            needs_gradient: self.needs_gradient,
            first: Some(self.operand),
            second: None,
            index: None,
        }
    }

    closed spec fn forward_calls(&self) -> nat {
        self.counter.forward_calls()
    }

    closed spec fn backward_calls(&self) -> nat {
        self.counter.backward_calls()
    }

    closed spec fn wf(&self) -> bool {
        &&& self.profile().consistent()
        &&& self.operand_gradient == self.operand.shape
    }

    proof fn lemma_wf(&self) {
    }

    fn forward(&mut self) -> (action: ForwardAction) {
        self.counter.forward()
    }

    fn backward(&mut self) -> (handling: Propagation) {
        proof {
            self.counter.lemma_bounded();
        }
        let action = self.counter.backward();
        let relay = self.counter.recurse_backward();
        Propagation::Fold { action, relay }
    }

    fn value(&self) -> (value: Shape)
        ensures
            Some(value) == self.profile().shape,
    {
        self.value
    }

    fn needs_gradient(&self) -> (needed: bool) {
        self.needs_gradient
    }

    fn zero_gradient(&mut self) -> (reset: Clearing) {
        if !self.counter.is_zero() {
            self.counter.clear();
            Clearing::Operands
        } else {
            Clearing::Nothing
        }
    }

    fn visits(&self) -> (counts: (usize, usize)) {
        (self.counter.forward_count(), self.counter.backward_count())
    }

    fn describe(&self) -> (profile: Profile) {
        Profile {
            kind: NodeKind::Tanh,
            shape: Some(self.value),
            needs_gradient: self.needs_gradient,
            first: Some(self.operand),
            second: None,
            index: None,
        }
    }
}

/// Elementwise logistic function.
///
/// Forward: the value is `1 / (1 + e^-x)`.
///
/// Backward: the operand receives `gradient * value * (1 - value)`; the
/// first gradient of a round is written to the buffer, later ones are added
/// to it.
#[derive(Debug)]
pub struct SigmoidNode {
    value: Shape,
    operand_gradient: Shape,
    operand: Operand,
    needs_gradient: bool,
    counter: PassCounter,
}

impl SigmoidNode {
    /// A node over the operand, not visited yet.
    pub fn new(operand: Operand) -> (node: SigmoidNode)
        ensures
            node.wf(),
            node.profile() == Profile::of_unary(NodeKind::Sigmoid, operand.shape, operand),
            node.forward_calls() == 0,
            node.backward_calls() == 0,
    {
        let needs_gradient = operand.needs_gradient;
        let value = operand.shape;
        SigmoidNode {
            value,
            operand_gradient: operand.shape,
            operand,
            needs_gradient,
            counter: PassCounter::default(),
        }
    }

    /// Shape of the buffer that collects the operand's gradient.
    pub fn operand_gradient(&self) -> (shape: Shape)
        requires
            self.wf(),
        ensures
            shape == self.profile().first->0.shape,
    {
        self.operand_gradient
    }
}

impl Node for SigmoidNode {
    type Value = Shape;

    closed spec fn profile(&self) -> Profile {
        Profile {
            kind: NodeKind::Sigmoid,
            shape: Some(self.value),
            needs_gradient: self.needs_gradient,
            first: Some(self.operand),
            second: None,
            index: None,
        }
    }

    closed spec fn forward_calls(&self) -> nat {
        self.counter.forward_calls()
    }

    closed spec fn backward_calls(&self) -> nat {
        self.counter.backward_calls()
    }

    closed spec fn wf(&self) -> bool {
        &&& self.profile().consistent()
        &&& self.operand_gradient == self.operand.shape
    }

    proof fn lemma_wf(&self) {
    }

    fn forward(&mut self) -> (action: ForwardAction) {
        self.counter.forward()
    }

    fn backward(&mut self) -> (handling: Propagation) {
        proof {
            self.counter.lemma_bounded();
        }
        let action = self.counter.backward();
        let relay = self.counter.recurse_backward();
        Propagation::Fold { action, relay }
    }

    fn value(&self) -> (value: Shape)
        ensures
            Some(value) == self.profile().shape,
    {
        self.value
    }

    fn needs_gradient(&self) -> (needed: bool) {
        self.needs_gradient
    }

    fn zero_gradient(&mut self) -> (reset: Clearing) {
        if !self.counter.is_zero() {
            self.counter.clear();
            Clearing::Operands
        } else {
            Clearing::Nothing
        }
    }

    fn visits(&self) -> (counts: (usize, usize)) {
        (self.counter.forward_count(), self.counter.backward_count())
    }

    fn describe(&self) -> (profile: Profile) {
        Profile {
            kind: NodeKind::Sigmoid,
            shape: Some(self.value),
            needs_gradient: self.needs_gradient,
            first: Some(self.operand),
            second: None,
            index: None,
        }
    }
}

/// Elementwise rectifier.
///
/// Forward: the value is `x` where `x` is positive and zero elsewhere.
///
/// Backward: the operand receives the gradient where the value is positive
/// and zero elsewhere; the first gradient of a round is written to the
/// buffer, later ones are added to it.
#[derive(Debug)]
pub struct ReluNode {
    value: Shape,
    operand_gradient: Shape,
    operand: Operand,
    needs_gradient: bool,
    counter: PassCounter,
}

impl ReluNode {
    /// A node over the operand, not visited yet.
    pub fn new(operand: Operand) -> (node: ReluNode)
        ensures
            node.wf(),
            node.profile() == Profile::of_unary(NodeKind::Relu, operand.shape, operand),
            node.forward_calls() == 0,
            node.backward_calls() == 0,
    {
        let needs_gradient = operand.needs_gradient;
        let value = operand.shape;
        ReluNode {
            value,
            operand_gradient: operand.shape,
            operand,
            needs_gradient,
            counter: PassCounter::default(),
        }
    }

    /// Shape of the buffer that collects the operand's gradient.
    pub fn operand_gradient(&self) -> (shape: Shape)
        requires
            self.wf(),
        ensures
            shape == self.profile().first->0.shape,
    {
        self.operand_gradient
    }
}

impl Node for ReluNode {
    type Value = Shape;

    closed spec fn profile(&self) -> Profile {
        Profile {
            kind: NodeKind::Relu,
            shape: Some(self.value),
            needs_gradient: self.needs_gradient,
            first: Some(self.operand),
            second: None,
            index: None,
        }
    }

    closed spec fn forward_calls(&self) -> nat {
        self.counter.forward_calls()
    }

    closed spec fn backward_calls(&self) -> nat {
        self.counter.backward_calls()
    }

    closed spec fn wf(&self) -> bool {
        &&& self.profile().consistent()
        &&& self.operand_gradient == self.operand.shape
    }

    proof fn lemma_wf(&self) {
    }

    fn forward(&mut self) -> (action: ForwardAction) {
        self.counter.forward()
    }

    fn backward(&mut self) -> (handling: Propagation) {
        proof {
            self.counter.lemma_bounded();
        }
        let action = self.counter.backward();
        let relay = self.counter.recurse_backward();
        Propagation::Fold { action, relay }
    }

    fn value(&self) -> (value: Shape)
        ensures
            Some(value) == self.profile().shape,
    {
        self.value
    }

    fn needs_gradient(&self) -> (needed: bool) {
        self.needs_gradient
    }

    fn zero_gradient(&mut self) -> (reset: Clearing) {
        if !self.counter.is_zero() {
            self.counter.clear();
            Clearing::Operands
        } else {
            Clearing::Nothing
        }
    }

    fn visits(&self) -> (counts: (usize, usize)) {
        (self.counter.forward_count(), self.counter.backward_count())
    }

    fn describe(&self) -> (profile: Profile) {
        Profile {
            kind: NodeKind::Relu,
            shape: Some(self.value),
            needs_gradient: self.needs_gradient,
            first: Some(self.operand),
            second: None,
            index: None,
        }
    }
}

/// Elementwise negation.
///
/// Forward: the value is `-x`.
///
/// Backward: the operand receives the negated gradient; the first gradient
/// of a round is written to the buffer, later ones are added to it.
#[derive(Debug)]
pub struct NegNode {
    value: Shape,
    operand_gradient: Shape,
    operand: Operand,
    needs_gradient: bool,
    counter: PassCounter,
}

impl NegNode {
    /// A node over the operand, not visited yet.
    pub fn new(operand: Operand) -> (node: NegNode)
        ensures
            node.wf(),
            node.profile() == Profile::of_unary(NodeKind::Neg, operand.shape, operand),
            node.forward_calls() == 0,
            node.backward_calls() == 0,
    {
        let needs_gradient = operand.needs_gradient;
        let value = operand.shape;
        NegNode {
            value,
            operand_gradient: operand.shape,
            operand,
            needs_gradient,
            counter: PassCounter::default(),
        }
    }

    /// Shape of the buffer that collects the operand's gradient.
    pub fn operand_gradient(&self) -> (shape: Shape)
        requires
            self.wf(),
        ensures
            shape == self.profile().first->0.shape,
    {
        self.operand_gradient
    }
}

impl Node for NegNode {
    type Value = Shape;

    closed spec fn profile(&self) -> Profile {
        Profile {
            kind: NodeKind::Neg,
            shape: Some(self.value),
            needs_gradient: self.needs_gradient,
            first: Some(self.operand),
            second: None,
            index: None,
        }
    }

    closed spec fn forward_calls(&self) -> nat {
        self.counter.forward_calls()
    }

    closed spec fn backward_calls(&self) -> nat {
        self.counter.backward_calls()
    }

    closed spec fn wf(&self) -> bool {
        &&& self.profile().consistent()
        &&& self.operand_gradient == self.operand.shape
    }

    proof fn lemma_wf(&self) {
    }

    fn forward(&mut self) -> (action: ForwardAction) {
        self.counter.forward()
    }

    fn backward(&mut self) -> (handling: Propagation) {
        proof {
            self.counter.lemma_bounded();
        }
        let action = self.counter.backward();
        let relay = self.counter.recurse_backward();
        Propagation::Fold { action, relay }
    }

    fn value(&self) -> (value: Shape)
        ensures
            Some(value) == self.profile().shape,
    {
        self.value
    }

    fn needs_gradient(&self) -> (needed: bool) {
        self.needs_gradient
    }

    fn zero_gradient(&mut self) -> (reset: Clearing) {
        if !self.counter.is_zero() {
            self.counter.clear();
            Clearing::Operands
        } else {
            Clearing::Nothing
        }
    }

    fn visits(&self) -> (counts: (usize, usize)) {
        (self.counter.forward_count(), self.counter.backward_count())
    }

    fn describe(&self) -> (profile: Profile) {
        Profile {
            kind: NodeKind::Neg,
            shape: Some(self.value),
            needs_gradient: self.needs_gradient,
            first: Some(self.operand),
            second: None,
            index: None,
        }
    }
}

/// Elementwise exponential.
///
/// Forward: the value is `e^x`.
///
/// Backward: the operand receives `value * gradient`; the first gradient of
/// a round is written to the buffer, later ones are added to it.
#[derive(Debug)]
pub struct ExpNode {
    value: Shape,
    operand_gradient: Shape,
    operand: Operand,
    needs_gradient: bool,
    counter: PassCounter,
}

impl ExpNode {
    /// A node over the operand, not visited yet.
    pub fn new(operand: Operand) -> (node: ExpNode)
        ensures
            node.wf(),
            node.profile() == Profile::of_unary(NodeKind::Exp, operand.shape, operand),
            node.forward_calls() == 0,
            node.backward_calls() == 0,
    {
        let needs_gradient = operand.needs_gradient;
        let value = operand.shape;
        ExpNode {
            value,
            operand_gradient: operand.shape,
            operand,
            needs_gradient,
            counter: PassCounter::default(),
        }
    }

    /// Shape of the buffer that collects the operand's gradient.
    pub fn operand_gradient(&self) -> (shape: Shape)
        requires
            self.wf(),
        ensures
            shape == self.profile().first->0.shape,
    {
        self.operand_gradient
    }
}

impl Node for ExpNode {
    type Value = Shape;

    closed spec fn profile(&self) -> Profile {
        Profile {
            kind: NodeKind::Exp,
            shape: Some(self.value),
            needs_gradient: self.needs_gradient,
            first: Some(self.operand),
            second: None,
            index: None,
        }
    }

    closed spec fn forward_calls(&self) -> nat {
        self.counter.forward_calls()
    }

    closed spec fn backward_calls(&self) -> nat {
        self.counter.backward_calls()
    }

    closed spec fn wf(&self) -> bool {
        &&& self.profile().consistent()
        &&& self.operand_gradient == self.operand.shape
    }

    proof fn lemma_wf(&self) {
    }

    fn forward(&mut self) -> (action: ForwardAction) {
        self.counter.forward()
    }

    fn backward(&mut self) -> (handling: Propagation) {
        proof {
            self.counter.lemma_bounded();
        }
        let action = self.counter.backward();
        let relay = self.counter.recurse_backward();
        Propagation::Fold { action, relay }
    }

    fn value(&self) -> (value: Shape)
        ensures
            Some(value) == self.profile().shape,
    {
        self.value
    }

    fn needs_gradient(&self) -> (needed: bool) {
        self.needs_gradient
    }

    fn zero_gradient(&mut self) -> (reset: Clearing) {
        if !self.counter.is_zero() {
            self.counter.clear();
            Clearing::Operands
        } else {
            Clearing::Nothing
        }
    }

    fn visits(&self) -> (counts: (usize, usize)) {
        (self.counter.forward_count(), self.counter.backward_count())
    }

    fn describe(&self) -> (profile: Profile) {
        Profile {
            kind: NodeKind::Exp,
            shape: Some(self.value),
            needs_gradient: self.needs_gradient,
            first: Some(self.operand),
            second: None,
            index: None,
        }
    }
}

/// The operand with rows and columns exchanged.
///
/// Forward: the value is the transposed operand.
///
/// Backward: the operand receives the transposed gradient; the first
/// gradient of a round is written to the buffer, later ones are added to
/// it.
#[derive(Debug)]
pub struct TransposeNode {
    value: Shape,
    gradient: Shape,
    operand: Operand,
    needs_gradient: bool,
    counter: PassCounter,
}

impl TransposeNode {
    /// A node over the operand, not visited yet.
    pub fn new(operand: Operand) -> (node: TransposeNode)
        ensures
            node.wf(),
            node.profile() == Profile::of_unary(NodeKind::Transpose, operand.shape.transposed(), operand),
            node.forward_calls() == 0,
            node.backward_calls() == 0,
    {
        let needs_gradient = operand.needs_gradient;
        let value = operand.shape.transpose();
        TransposeNode {
            value,
            gradient: operand.shape,
            operand,
            needs_gradient,
            counter: PassCounter::default(),
        }
    }

    /// Shape of the buffer that collects the operand's gradient.
    pub fn gradient(&self) -> (shape: Shape)
        requires
            self.wf(),
        ensures
            shape == self.profile().first->0.shape,
    {
        self.gradient
    }

    /// Writes the operand's value, given by its elements row after row,
    /// with rows and columns exchanged to `dest`.
    pub fn transpose_value<T: Copy>(&self, dest: &mut Vec<T>, operand: &[T])
        requires
            self.wf(),
            operand@.len() == self.profile().first->0.shape.size(),
            old(dest)@.len() == self.profile().shape->0.size(),
        ensures
            transposed(
                final(dest)@,
                operand@,
                self.profile().first->0.shape.rows as int,
                self.profile().first->0.shape.cols as int,
            ),
    {
        transpose_into(dest, operand, self.operand.shape.rows, self.operand.shape.cols)
    }

    /// Merges a gradient of the node's value, with rows and columns
    /// exchanged, into the gradient buffer of the operand. The buffer is
    /// assigned or incremented as `op` says, and `plus` adds two elements.
    pub fn transpose_gradient<T: Copy, F: Fn(T, T) -> T>(
        &self,
        gradient: &[T],
        buffer: &mut Vec<T>,
        op: &BackwardAction,
        plus: F,
    )
        requires
            self.wf(),
            old(buffer)@.len() == self.profile().first->0.shape.size(),
            gradient@.len() == self.profile().shape->0.size(),
            *op is Increment ==> forall|a: T, b: T| plus.requires((a, b)),
        ensures
            merged_transposed(
                old(buffer)@,
                gradient@,
                final(buffer)@,
                self.profile().first->0.shape.rows as int,
                self.profile().first->0.shape.cols as int,
                *op,
                plus,
            ),
    {
        transpose_gradient(
            gradient,
            buffer,
            self.operand.shape.rows,
            self.operand.shape.cols,
            op,
            plus,
        )
    }
}

impl Node for TransposeNode {
    type Value = Shape;

    closed spec fn profile(&self) -> Profile {
        Profile {
            kind: NodeKind::Transpose,
            shape: Some(self.value),
            needs_gradient: self.needs_gradient,
            first: Some(self.operand),
            second: None,
            index: None,
        }
    }

    closed spec fn forward_calls(&self) -> nat {
        self.counter.forward_calls()
    }

    closed spec fn backward_calls(&self) -> nat {
        self.counter.backward_calls()
    }

    closed spec fn wf(&self) -> bool {
        &&& self.profile().consistent()
        &&& self.gradient == self.operand.shape
    }

    proof fn lemma_wf(&self) {
    }

    fn forward(&mut self) -> (action: ForwardAction) {
        self.counter.forward()
    }

    fn backward(&mut self) -> (handling: Propagation) {
        proof {
            self.counter.lemma_bounded();
        }
        let action = self.counter.backward();
        let relay = self.counter.recurse_backward();
        Propagation::Fold { action, relay }
    }

    fn value(&self) -> (value: Shape)
        ensures
            Some(value) == self.profile().shape,
    {
        self.value
    }

    fn needs_gradient(&self) -> (needed: bool) {
        self.needs_gradient
    }

    fn zero_gradient(&mut self) -> (reset: Clearing) {
        if !self.counter.is_zero() {
            self.counter.clear();
            Clearing::Operands
        } else {
            Clearing::Nothing
        }
    }

    fn visits(&self) -> (counts: (usize, usize)) {
        (self.counter.forward_count(), self.counter.backward_count())
    }

    fn describe(&self) -> (profile: Profile) {
        Profile {
            kind: NodeKind::Transpose,
            shape: Some(self.value),
            needs_gradient: self.needs_gradient,
            first: Some(self.operand),
            second: None,
            index: None,
        }
    }
}

/// Sum of all elements of the operand.
///
/// Forward: the value is a single number, the sum of the elements.
///
/// Backward: every element of the operand receives the single number of the
/// gradient; the first gradient of a round is written to the buffer, later
/// ones are added to it.
#[derive(Debug)]
pub struct SumNode {
    value: Shape,
    operand_gradient: Shape,
    operand: Operand,
    needs_gradient: bool,
    counter: PassCounter,
}

impl SumNode {
    /// A node over the operand, not visited yet.
    pub fn new(operand: Operand) -> (node: SumNode)
        ensures
            node.wf(),
            node.profile() == Profile::of_unary(NodeKind::Sum, Shape::scalar(), operand),
            node.forward_calls() == 0,
            node.backward_calls() == 0,
    {
        let needs_gradient = operand.needs_gradient;
        let value = Shape { rows: 1, cols: 1 };
        SumNode {
            value,
            operand_gradient: operand.shape,
            operand,
            needs_gradient,
            counter: PassCounter::default(),
        }
    }

    /// Shape of the buffer that collects the operand's gradient.
    pub fn operand_gradient(&self) -> (shape: Shape)
        requires
            self.wf(),
        ensures
            shape == self.profile().first->0.shape,
    {
        self.operand_gradient
    }
}

impl Node for SumNode {
    type Value = Shape;

    closed spec fn profile(&self) -> Profile {
        Profile {
            kind: NodeKind::Sum,
            shape: Some(self.value),
            needs_gradient: self.needs_gradient,
            first: Some(self.operand),
            second: None,
            index: None,
        }
    }

    closed spec fn forward_calls(&self) -> nat {
        self.counter.forward_calls()
    }

    closed spec fn backward_calls(&self) -> nat {
        self.counter.backward_calls()
    }

    closed spec fn wf(&self) -> bool {
        &&& self.profile().consistent()
        &&& self.operand_gradient == self.operand.shape
    }

    proof fn lemma_wf(&self) {
    }

    fn forward(&mut self) -> (action: ForwardAction) {
        self.counter.forward()
    }

    fn backward(&mut self) -> (handling: Propagation) {
        proof {
            self.counter.lemma_bounded();
        }
        let action = self.counter.backward();
        let relay = self.counter.recurse_backward();
        Propagation::Fold { action, relay }
    }

    fn value(&self) -> (value: Shape)
        ensures
            Some(value) == self.profile().shape,
    {
        self.value
    }

    fn needs_gradient(&self) -> (needed: bool) {
        self.needs_gradient
    }

    fn zero_gradient(&mut self) -> (reset: Clearing) {
        if !self.counter.is_zero() {
            self.counter.clear();
            Clearing::Operands
        } else {
            Clearing::Nothing
        }
    }

    fn visits(&self) -> (counts: (usize, usize)) {
        (self.counter.forward_count(), self.counter.backward_count())
    }

    fn describe(&self) -> (profile: Profile) {
        Profile {
            kind: NodeKind::Sum,
            shape: Some(self.value),
            needs_gradient: self.needs_gradient,
            first: Some(self.operand),
            second: None,
            index: None,
        }
    }
}

} // verus!
