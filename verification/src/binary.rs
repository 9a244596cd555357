//! Operations on two operands.

use crate::counter::{BackwardAction, ForwardAction, PassCounter};
use crate::node::{Clearing, Node, NodeKind, Operand, Profile, Propagation};
use crate::shape::{Axis, Shape};
use crate::stack::{
    column_wise_stack, column_wise_stack_gradient, lemma_rows_joined, merged_all, row_wise_stack,
    row_wise_stack_gradient, stacked_columns, unstacked_columns,
};
use vstd::prelude::*;

verus! {

/// Elementwise sum of two arrays of one shape.
///
/// Forward: the value is `lhs + rhs`.
///
/// Backward: both operands receive the incoming gradient; the first
/// gradient of a round is written to the buffer, later ones are added to
/// it.
#[derive(Debug)]
pub struct AddNode {
    value: Shape,
    gradient: Shape,
    lhs: Operand,
    rhs: Operand,
    needs_gradient: bool,
    counter: PassCounter,
}

impl AddNode {
    /// A node over the two operands, not visited yet.
    pub fn new(lhs: Operand, rhs: Operand) -> (node: AddNode)
        requires
            lhs.shape == rhs.shape,
        ensures
            node.wf(),
            node.profile() == Profile::of_binary(NodeKind::Add, lhs.shape, lhs, rhs),
            node.forward_calls() == 0,
            node.backward_calls() == 0,
    {
        let needs_gradient = lhs.needs_gradient || rhs.needs_gradient;
        let value = lhs.shape;
        AddNode {
            value,
            gradient: rhs.shape,
            lhs,
            rhs,
            needs_gradient,
            counter: PassCounter::default(),
        }
    }

    /// Shape of the buffer that collects the gradient of both operands.
    pub fn gradient(&self) -> (shape: Shape)
        requires
            self.wf(),
        ensures
            shape == self.profile().second->0.shape,
    {
        self.gradient
    }
}

impl Node for AddNode {
    type Value = Shape;

    closed spec fn profile(&self) -> Profile {
        Profile {
            kind: NodeKind::Add,
            shape: Some(self.value),
            needs_gradient: self.needs_gradient,
            first: Some(self.lhs),
            second: Some(self.rhs),
            index: None,
        }
    }

    closed spec fn forward_calls(&self) -> nat {
        self.counter.forward_calls()
    }

    closed spec fn backward_calls(&self) -> nat {
        self.counter.backward_calls()
    }

    closed spec fn wf(&self) -> bool {
        &&& self.profile().consistent()
        &&& self.gradient == self.rhs.shape
    }

    proof fn lemma_wf(&self) {
    }

    fn forward(&mut self) -> (action: ForwardAction) {
        self.counter.forward()
    }

    fn backward(&mut self) -> (handling: Propagation) {
        proof {
            self.counter.lemma_bounded();
        }
        let action = self.counter.backward();
        let relay = self.counter.recurse_backward();
        Propagation::Fold { action, relay }
    }

    fn value(&self) -> (value: Shape)
        ensures
            Some(value) == self.profile().shape,
    {
        self.value
    }

    fn needs_gradient(&self) -> (needed: bool) {
        self.needs_gradient
    }

    fn zero_gradient(&mut self) -> (reset: Clearing) {
        if !self.counter.is_zero() {
            self.counter.clear();
            Clearing::Operands
        } else {
            Clearing::Nothing
        }
    }

    fn visits(&self) -> (counts: (usize, usize)) {
        (self.counter.forward_count(), self.counter.backward_count())
    }

    fn describe(&self) -> (profile: Profile) {
        Profile {
            kind: NodeKind::Add,
            shape: Some(self.value),
            needs_gradient: self.needs_gradient,
            first: Some(self.lhs),
            second: Some(self.rhs),
            index: None,
        }
    }
}

/// Elementwise difference of two arrays of one shape.
///
/// Forward: the value is `lhs - rhs`.
///
/// Backward: the first operand receives the incoming gradient, the second
/// its negation; the first gradient of a round is written to the buffer,
/// later ones are added to it.
#[derive(Debug)]
pub struct SubNode {
    value: Shape,
    lhs_gradient: Shape,
    rhs_gradient: Shape,
    lhs: Operand,
    rhs: Operand,
    needs_gradient: bool,
    counter: PassCounter,
}

impl SubNode {
    /// A node over the two operands, not visited yet.
    pub fn new(lhs: Operand, rhs: Operand) -> (node: SubNode)
        requires
            lhs.shape == rhs.shape,
        ensures
            node.wf(),
            node.profile() == Profile::of_binary(NodeKind::Sub, lhs.shape, lhs, rhs),
            node.forward_calls() == 0,
            node.backward_calls() == 0,
    {
        let needs_gradient = lhs.needs_gradient || rhs.needs_gradient;
        let value = lhs.shape;
        SubNode {
            value,
            lhs_gradient: lhs.shape,
            rhs_gradient: rhs.shape,
            lhs,
            rhs,
            needs_gradient,
            counter: PassCounter::default(),
        }
    }

    /// Shape of the buffer that collects the first operand's gradient.
    pub fn lhs_gradient(&self) -> (shape: Shape)
        requires
            self.wf(),
        ensures
            shape == self.profile().first->0.shape,
    {
        self.lhs_gradient
    }

    /// Shape of the buffer that collects the second operand's gradient.
    pub fn rhs_gradient(&self) -> (shape: Shape)
        requires
            self.wf(),
        ensures
            shape == self.profile().second->0.shape,
    {
        self.rhs_gradient
    }
}

impl Node for SubNode {
    type Value = Shape;

    closed spec fn profile(&self) -> Profile {
        Profile {
            kind: NodeKind::Sub,
            shape: Some(self.value),
            needs_gradient: self.needs_gradient,
            first: Some(self.lhs),
            second: Some(self.rhs),
            index: None,
        }
    }

    closed spec fn forward_calls(&self) -> nat {
        self.counter.forward_calls()
    }

    closed spec fn backward_calls(&self) -> nat {
        self.counter.backward_calls()
    }

    closed spec fn wf(&self) -> bool {
        &&& self.profile().consistent()
        &&& self.lhs_gradient == self.lhs.shape
        &&& self.rhs_gradient == self.rhs.shape
    }

    proof fn lemma_wf(&self) {
    }

    fn forward(&mut self) -> (action: ForwardAction) {
        self.counter.forward()
    }

    fn backward(&mut self) -> (handling: Propagation) {
        proof {
            self.counter.lemma_bounded();
        }
        let action = self.counter.backward();
        let relay = self.counter.recurse_backward();
        Propagation::Fold { action, relay }
    }

    fn value(&self) -> (value: Shape)
        ensures
            Some(value) == self.profile().shape,
    {
        self.value
    }

    fn needs_gradient(&self) -> (needed: bool) {
        self.needs_gradient
    }

    fn zero_gradient(&mut self) -> (reset: Clearing) {
        if !self.counter.is_zero() {
            self.counter.clear();
            Clearing::Operands
        } else {
            Clearing::Nothing
        }
    }

    fn visits(&self) -> (counts: (usize, usize)) {
        (self.counter.forward_count(), self.counter.backward_count())
    }

    fn describe(&self) -> (profile: Profile) {
        Profile {
            kind: NodeKind::Sub,
            shape: Some(self.value),
            needs_gradient: self.needs_gradient,
            first: Some(self.lhs),
            second: Some(self.rhs),
            index: None,
        }
    }
}

/// Elementwise product of two arrays of one shape.
///
/// Forward: the value is `lhs * rhs`, element by element.
///
/// Backward: the first operand receives `rhs * gradient`, the second `lhs *
/// gradient`; the first gradient of a round is written to the buffer, later
/// ones are added to it.
#[derive(Debug)]
pub struct MulNode {
    value: Shape,
    lhs_gradient: Shape,
    rhs_gradient: Shape,
    lhs: Operand,
    rhs: Operand,
    needs_gradient: bool,
    counter: PassCounter,
}

impl MulNode {
    /// A node over the two operands, not visited yet.
    pub fn new(lhs: Operand, rhs: Operand) -> (node: MulNode)
        requires
            lhs.shape == rhs.shape,
        ensures
            node.wf(),
            node.profile() == Profile::of_binary(NodeKind::Mul, lhs.shape, lhs, rhs),
            node.forward_calls() == 0,
            node.backward_calls() == 0,
    {
        let needs_gradient = lhs.needs_gradient || rhs.needs_gradient;
        let value = lhs.shape;
        MulNode {
            value,
            lhs_gradient: lhs.shape,
            rhs_gradient: rhs.shape,
            lhs,
            rhs,
            needs_gradient,
            counter: PassCounter::default(),
        }
    }

    /// Shape of the buffer that collects the first operand's gradient.
    pub fn lhs_gradient(&self) -> (shape: Shape)
        requires
            self.wf(),
        ensures
            shape == self.profile().first->0.shape,
    {
        self.lhs_gradient
    }

    /// Shape of the buffer that collects the second operand's gradient.
    pub fn rhs_gradient(&self) -> (shape: Shape)
        requires
            self.wf(),
        ensures
            shape == self.profile().second->0.shape,
    {
        self.rhs_gradient
    }
}

impl Node for MulNode {
    type Value = Shape;

    closed spec fn profile(&self) -> Profile {
        Profile {
            kind: NodeKind::Mul,
            shape: Some(self.value),
            needs_gradient: self.needs_gradient,
            first: Some(self.lhs),
            second: Some(self.rhs),
            index: None,
        }
    }

    closed spec fn forward_calls(&self) -> nat {
        self.counter.forward_calls()
    }

    closed spec fn backward_calls(&self) -> nat {
        self.counter.backward_calls()
    }

    closed spec fn wf(&self) -> bool {
        &&& self.profile().consistent()
        &&& self.lhs_gradient == self.lhs.shape
        &&& self.rhs_gradient == self.rhs.shape
    }

    proof fn lemma_wf(&self) {
    }

    fn forward(&mut self) -> (action: ForwardAction) {
        self.counter.forward()
    }

    fn backward(&mut self) -> (handling: Propagation) {
        proof {
            self.counter.lemma_bounded();
        }
        let action = self.counter.backward();
        let relay = self.counter.recurse_backward();
        Propagation::Fold { action, relay }
    }

    fn value(&self) -> (value: Shape)
        ensures
            Some(value) == self.profile().shape,
    {
        self.value
    }

    fn needs_gradient(&self) -> (needed: bool) {
        self.needs_gradient
    }

    fn zero_gradient(&mut self) -> (reset: Clearing) {
        if !self.counter.is_zero() {
            self.counter.clear();
            Clearing::Operands
        } else {
            Clearing::Nothing
        }
    }

    fn visits(&self) -> (counts: (usize, usize)) {
        (self.counter.forward_count(), self.counter.backward_count())
    }

    fn describe(&self) -> (profile: Profile) {
        Profile {
            kind: NodeKind::Mul,
            shape: Some(self.value),
            needs_gradient: self.needs_gradient,
            first: Some(self.lhs),
            second: Some(self.rhs),
            index: None,
        }
    }
}

/// Elementwise quotient of two arrays of one shape.
///
/// Forward: the value is `lhs / rhs`, element by element.
///
/// Backward: the first operand receives `gradient / rhs`, the second `-lhs
/// / rhs^2 * gradient`; the first gradient of a round is written to the
/// buffer, later ones are added to it.
#[derive(Debug)]
pub struct DivNode {
    value: Shape,
    lhs_gradient: Shape,
    rhs_gradient: Shape,
    lhs: Operand,
    rhs: Operand,
    needs_gradient: bool,
    counter: PassCounter,
}

impl DivNode {
    /// A node over the two operands, not visited yet.
    pub fn new(lhs: Operand, rhs: Operand) -> (node: DivNode)
        requires
            lhs.shape == rhs.shape,
        ensures
            node.wf(),
            node.profile() == Profile::of_binary(NodeKind::Div, lhs.shape, lhs, rhs),
            node.forward_calls() == 0,
            node.backward_calls() == 0,
    {
        let needs_gradient = lhs.needs_gradient || rhs.needs_gradient;
        let value = lhs.shape;
        DivNode {
            value,
            lhs_gradient: lhs.shape,
            rhs_gradient: rhs.shape,
            lhs,
            rhs,
            needs_gradient,
            counter: PassCounter::default(),
        }
    }

    /// Shape of the buffer that collects the first operand's gradient.
    pub fn lhs_gradient(&self) -> (shape: Shape)
        requires
            self.wf(),
        ensures
            shape == self.profile().first->0.shape,
    {
        self.lhs_gradient
    }

    /// Shape of the buffer that collects the second operand's gradient.
    pub fn rhs_gradient(&self) -> (shape: Shape)
        requires
            self.wf(),
        ensures
            shape == self.profile().second->0.shape,
    {
        self.rhs_gradient
    }
}

impl Node for DivNode {
    type Value = Shape;

    closed spec fn profile(&self) -> Profile {
        Profile {
            kind: NodeKind::Div,
            shape: Some(self.value),
            needs_gradient: self.needs_gradient,
            first: Some(self.lhs),
            second: Some(self.rhs),
            index: None,
        }
    }

    closed spec fn forward_calls(&self) -> nat {
        self.counter.forward_calls()
    }

    closed spec fn backward_calls(&self) -> nat {
        self.counter.backward_calls()
    }

    closed spec fn wf(&self) -> bool {
        &&& self.profile().consistent()
        &&& self.lhs_gradient == self.lhs.shape
        &&& self.rhs_gradient == self.rhs.shape
    }

    proof fn lemma_wf(&self) {
    }

    fn forward(&mut self) -> (action: ForwardAction) {
        self.counter.forward()
    }

    fn backward(&mut self) -> (handling: Propagation) {
        proof {
            self.counter.lemma_bounded();
        }
        let action = self.counter.backward();
        let relay = self.counter.recurse_backward();
        Propagation::Fold { action, relay }
    }

    fn value(&self) -> (value: Shape)
        ensures
            Some(value) == self.profile().shape,
    {
        self.value
    }

    fn needs_gradient(&self) -> (needed: bool) {
        self.needs_gradient
    }

    fn zero_gradient(&mut self) -> (reset: Clearing) {
        if !self.counter.is_zero() {
            self.counter.clear();
            Clearing::Operands
        } else {
            Clearing::Nothing
        }
    }

    fn visits(&self) -> (counts: (usize, usize)) {
        (self.counter.forward_count(), self.counter.backward_count())
    }

    fn describe(&self) -> (profile: Profile) {
        Profile {
            kind: NodeKind::Div,
            shape: Some(self.value),
            needs_gradient: self.needs_gradient,
            first: Some(self.lhs),
            second: Some(self.rhs),
            index: None,
        }
    }
}

/// Matrix product of an array with as many columns as the other has rows.
///
/// Forward: the value is the matrix product of `lhs` and `rhs`.
///
/// Backward: the first operand receives the gradient times the transposed
/// `rhs`, the second the transposed `lhs` times the gradient; the first
/// gradient of a round is written to the buffer, later ones are added to
/// it.
#[derive(Debug)]
pub struct DotNode {
    value: Shape,
    lhs_gradient: Shape,
    rhs_gradient: Shape,
    lhs: Operand,
    rhs: Operand,
    needs_gradient: bool,
    counter: PassCounter,
}

impl DotNode {
    /// A node over the two operands, not visited yet.
    pub fn new(lhs: Operand, rhs: Operand) -> (node: DotNode)
        requires
            lhs.shape.multiplies(&rhs.shape),
        ensures
            node.wf(),
            node.profile() == Profile::of_binary(NodeKind::Dot, lhs.shape.product(&rhs.shape), lhs, rhs),
            node.forward_calls() == 0,
            node.backward_calls() == 0,
    {
        let needs_gradient = lhs.needs_gradient || rhs.needs_gradient;
        let value = Shape { rows: lhs.shape.rows, cols: rhs.shape.cols };
        DotNode {
            value,
            lhs_gradient: lhs.shape,
            rhs_gradient: rhs.shape,
            lhs,
            rhs,
            needs_gradient,
            counter: PassCounter::default(),
        }
    }

    /// Shape of the buffer that collects the first operand's gradient.
    pub fn lhs_gradient(&self) -> (shape: Shape)
        requires
            self.wf(),
        ensures
            shape == self.profile().first->0.shape,
    {
        self.lhs_gradient
    }

    /// Shape of the buffer that collects the second operand's gradient.
    pub fn rhs_gradient(&self) -> (shape: Shape)
        requires
            self.wf(),
        ensures
            shape == self.profile().second->0.shape,
    {
        self.rhs_gradient
    }
}

impl Node for DotNode {
    type Value = Shape;

    closed spec fn profile(&self) -> Profile {
        Profile {
            kind: NodeKind::Dot,
            shape: Some(self.value),
            needs_gradient: self.needs_gradient,
            first: Some(self.lhs),
            second: Some(self.rhs),
            index: None,
        }
    }

    closed spec fn forward_calls(&self) -> nat {
        self.counter.forward_calls()
    }

    closed spec fn backward_calls(&self) -> nat {
        self.counter.backward_calls()
    }

    closed spec fn wf(&self) -> bool {
        &&& self.profile().consistent()
        &&& self.lhs_gradient == self.lhs.shape
        &&& self.rhs_gradient == self.rhs.shape
    }

    proof fn lemma_wf(&self) {
    }

    fn forward(&mut self) -> (action: ForwardAction) {
        self.counter.forward()
    }

    fn backward(&mut self) -> (handling: Propagation) {
        proof {
            self.counter.lemma_bounded();
        }
        let action = self.counter.backward();
        let relay = self.counter.recurse_backward();
        Propagation::Fold { action, relay }
    }

    fn value(&self) -> (value: Shape)
        ensures
            Some(value) == self.profile().shape,
    {
        self.value
    }

    fn needs_gradient(&self) -> (needed: bool) {
        self.needs_gradient
    }

    fn zero_gradient(&mut self) -> (reset: Clearing) {
        if !self.counter.is_zero() {
            self.counter.clear();
            Clearing::Operands
        } else {
            Clearing::Nothing
        }
    }

    fn visits(&self) -> (counts: (usize, usize)) {
        (self.counter.forward_count(), self.counter.backward_count())
    }

    fn describe(&self) -> (profile: Profile) {
        Profile {
            kind: NodeKind::Dot,
            shape: Some(self.value),
            needs_gradient: self.needs_gradient,
            first: Some(self.lhs),
            second: Some(self.rhs),
            index: None,
        }
    }
}

/// Dot products of the corresponding rows of two arrays of one shape.
///
/// Forward: the value is a column with the dot product of row `r` of `lhs`
/// and row `r` of `rhs` in row `r`.
///
/// Backward: row `r` of the first operand receives row `r` of `rhs` scaled
/// by entry `r` of the gradient, and the second operand the same with
/// `lhs`; the first gradient of a round is written to the buffer, later
/// ones are added to it.
#[derive(Debug)]
pub struct VectorDotNode {
    value: Shape,
    lhs_gradient: Shape,
    rhs_gradient: Shape,
    lhs: Operand,
    rhs: Operand,
    needs_gradient: bool,
    counter: PassCounter,
}

impl VectorDotNode {
    /// A node over the two operands, not visited yet.
    pub fn new(lhs: Operand, rhs: Operand) -> (node: VectorDotNode)
        requires
            lhs.shape == rhs.shape,
        ensures
            node.wf(),
            node.profile() == Profile::of_binary(NodeKind::VectorDot, lhs.shape.row_dots(), lhs, rhs),
            node.forward_calls() == 0,
            node.backward_calls() == 0,
    {
        let needs_gradient = lhs.needs_gradient || rhs.needs_gradient;
        let value = Shape { rows: lhs.shape.rows, cols: 1 };
        VectorDotNode {
            value,
            lhs_gradient: lhs.shape,
            rhs_gradient: rhs.shape,
            lhs,
            rhs,
            needs_gradient,
            counter: PassCounter::default(),
        }
    }

    /// Shape of the buffer that collects the first operand's gradient.
    pub fn lhs_gradient(&self) -> (shape: Shape)
        requires
            self.wf(),
        ensures
            shape == self.profile().first->0.shape,
    {
        self.lhs_gradient
    }

    /// Shape of the buffer that collects the second operand's gradient.
    pub fn rhs_gradient(&self) -> (shape: Shape)
        requires
            self.wf(),
        ensures
            shape == self.profile().second->0.shape,
    {
        self.rhs_gradient
    }
}

impl Node for VectorDotNode {
    type Value = Shape;

    closed spec fn profile(&self) -> Profile {
        Profile {
            kind: NodeKind::VectorDot,
            shape: Some(self.value),
            needs_gradient: self.needs_gradient,
            first: Some(self.lhs),
            second: Some(self.rhs),
            index: None,
        }
    }

    closed spec fn forward_calls(&self) -> nat {
        self.counter.forward_calls()
    }

    closed spec fn backward_calls(&self) -> nat {
        self.counter.backward_calls()
    }

    closed spec fn wf(&self) -> bool {
        &&& self.profile().consistent()
        &&& self.lhs_gradient == self.lhs.shape
        &&& self.rhs_gradient == self.rhs.shape
    }

    proof fn lemma_wf(&self) {
    }

    fn forward(&mut self) -> (action: ForwardAction) {
        self.counter.forward()
    }

    fn backward(&mut self) -> (handling: Propagation) {
        proof {
            self.counter.lemma_bounded();
        }
        let action = self.counter.backward();
        let relay = self.counter.recurse_backward();
        Propagation::Fold { action, relay }
    }

    fn value(&self) -> (value: Shape)
        ensures
            Some(value) == self.profile().shape,
    {
        self.value
    }

    fn needs_gradient(&self) -> (needed: bool) {
        self.needs_gradient
    }

    fn zero_gradient(&mut self) -> (reset: Clearing) {
        if !self.counter.is_zero() {
            self.counter.clear();
            Clearing::Operands
        } else {
            Clearing::Nothing
        }
    }

    fn visits(&self) -> (counts: (usize, usize)) {
        (self.counter.forward_count(), self.counter.backward_count())
    }

    fn describe(&self) -> (profile: Profile) {
        Profile {
            kind: NodeKind::VectorDot,
            shape: Some(self.value),
            needs_gradient: self.needs_gradient,
            first: Some(self.lhs),
            second: Some(self.rhs),
            index: None,
        }
    }
}

/// Two arrays joined along an axis.
///
/// Forward: the value holds the rows (or columns) of `lhs` followed by
/// those of `rhs`.
///
/// Backward: each operand receives the part of the gradient that lies over
/// its rows (or columns); the first gradient of a round is written to the
/// buffer, later ones are added to it.
#[derive(Debug)]
pub struct ConcatenateNode {
    axis: Axis,
    value: Shape,
    lhs_gradient: Shape,
    rhs_gradient: Shape,
    lhs: Operand,
    rhs: Operand,
    needs_gradient: bool,
    counter: PassCounter,
}

impl ConcatenateNode {
    /// A node over the two operands, not visited yet.
    pub fn new(lhs: Operand, rhs: Operand, axis: Axis) -> (node: ConcatenateNode)
        requires
            lhs.shape.joins(&rhs.shape, axis),
        ensures
            node.wf(),
            node.profile() == Profile::of_binary(NodeKind::Concatenate(axis), lhs.shape.joined(&rhs.shape, axis), lhs, rhs),
            node.forward_calls() == 0,
            node.backward_calls() == 0,
    {
        let needs_gradient = lhs.needs_gradient || rhs.needs_gradient;
        let value = lhs.shape.join(&rhs.shape, axis);
        ConcatenateNode {
            axis,
            value,
            lhs_gradient: lhs.shape,
            rhs_gradient: rhs.shape,
            lhs,
            rhs,
            needs_gradient,
            counter: PassCounter::default(),
        }
    }

    /// Shape of the buffer that collects the first operand's gradient.
    pub fn lhs_gradient(&self) -> (shape: Shape)
        requires
            self.wf(),
        ensures
            shape == self.profile().first->0.shape,
    {
        self.lhs_gradient
    }

    /// Shape of the buffer that collects the second operand's gradient.
    pub fn rhs_gradient(&self) -> (shape: Shape)
        requires
            self.wf(),
        ensures
            shape == self.profile().second->0.shape,
    {
        self.rhs_gradient
    }

    /// The axis along which the operands are joined.
    pub fn axis(&self) -> (axis: Axis)
        requires
            self.wf(),
        ensures
            self.profile().kind == NodeKind::Concatenate(axis),
    {
        self.axis
    }

    /// Joins the elements of the operands' values, given row after row, to
    /// the elements of the node's value in `dest`.
    pub fn join_values<T: Copy>(&self, dest: &mut Vec<T>, lhs: &[T], rhs: &[T])
        requires
            self.wf(),
            lhs@.len() == self.profile().first->0.shape.size(),
            rhs@.len() == self.profile().second->0.shape.size(),
            old(dest)@.len() == self.profile().shape->0.size(),
        ensures
            match self.profile().kind {
                NodeKind::Concatenate(Axis::Columns) => stacked_columns(
                    final(dest)@,
                    lhs@,
                    rhs@,
                    self.profile().first->0.shape.rows as int,
                    self.profile().first->0.shape.cols as int,
                    self.profile().second->0.shape.cols as int,
                ),
                _ => final(dest)@ == lhs@ + rhs@,
            },
    {
        match self.axis {
            Axis::Rows => {
                proof {
                    lemma_rows_joined(
                        self.lhs.shape.rows as int,
                        self.rhs.shape.rows as int,
                        self.lhs.shape.cols as int,
                    );
                }
                row_wise_stack(dest, lhs, rhs)
            },
            Axis::Columns => column_wise_stack(
                dest,
                lhs,
                rhs,
                self.lhs.shape.rows,
                self.lhs.shape.cols,
                self.rhs.shape.cols,
            ),
        }
    }

    /// Takes a gradient of the node's value apart and merges the parts into
    /// the gradient buffers of the operands; all are given by their
    /// elements row after row. The buffers are assigned or incremented as
    /// `op` says, and `plus` adds two elements.
    pub fn split_gradient<T: Copy, F: Fn(T, T) -> T>(
        &self,
        gradient: &[T],
        lhs_gradient: &mut Vec<T>,
        rhs_gradient: &mut Vec<T>,
        op: &BackwardAction,
        plus: F,
    )
        requires
            self.wf(),
            old(lhs_gradient)@.len() == self.profile().first->0.shape.size(),
            old(rhs_gradient)@.len() == self.profile().second->0.shape.size(),
            gradient@.len() == self.profile().shape->0.size(),
            *op is Increment ==> forall|a: T, b: T| plus.requires((a, b)),
        ensures
            match self.profile().kind {
                NodeKind::Concatenate(Axis::Columns) => unstacked_columns(
                    gradient@,
                    old(lhs_gradient)@,
                    old(rhs_gradient)@,
                    final(lhs_gradient)@,
                    final(rhs_gradient)@,
                    self.profile().first->0.shape.rows as int,
                    self.profile().first->0.shape.cols as int,
                    self.profile().second->0.shape.cols as int,
                    *op,
                    plus,
                ),
                _ => merged_all(
                    old(lhs_gradient)@,
                    gradient@.subrange(0, old(lhs_gradient)@.len() as int),
                    final(lhs_gradient)@,
                    *op,
                    plus,
                ) && merged_all(
                    old(rhs_gradient)@,
                    gradient@.subrange(old(lhs_gradient)@.len() as int, gradient@.len() as int),
                    final(rhs_gradient)@,
                    *op,
                    plus,
                ),
            },
    {
        match self.axis {
            Axis::Rows => {
                proof {
                    lemma_rows_joined(
                        self.lhs.shape.rows as int,
                        self.rhs.shape.rows as int,
                        self.lhs.shape.cols as int,
                    );
                }
                row_wise_stack_gradient(gradient, lhs_gradient, rhs_gradient, op, plus)
            },
            Axis::Columns => column_wise_stack_gradient(
                gradient,
                lhs_gradient,
                rhs_gradient,
                self.lhs.shape.rows,
                self.lhs.shape.cols,
                self.rhs.shape.cols,
                op,
                plus,
            ),
        }
    }
}

impl Node for ConcatenateNode {
    type Value = Shape;

    closed spec fn profile(&self) -> Profile {
        Profile {
            kind: NodeKind::Concatenate(self.axis),
            shape: Some(self.value),
            needs_gradient: self.needs_gradient,
            first: Some(self.lhs),
            second: Some(self.rhs),
            index: None,
        }
    }

    closed spec fn forward_calls(&self) -> nat {
        self.counter.forward_calls()
    }

    closed spec fn backward_calls(&self) -> nat {
        self.counter.backward_calls()
    }

    closed spec fn wf(&self) -> bool {
        &&& self.profile().consistent()
        &&& self.lhs_gradient == self.lhs.shape
        &&& self.rhs_gradient == self.rhs.shape
    }

    proof fn lemma_wf(&self) {
    }

    fn forward(&mut self) -> (action: ForwardAction) {
        self.counter.forward()
    }

    fn backward(&mut self) -> (handling: Propagation) {
        proof {
            self.counter.lemma_bounded();
        }
        let action = self.counter.backward();
        let relay = self.counter.recurse_backward();
        Propagation::Fold { action, relay }
    }

    fn value(&self) -> (value: Shape)
        ensures
            Some(value) == self.profile().shape,
    {
        self.value
    }

    fn needs_gradient(&self) -> (needed: bool) {
        self.needs_gradient
    }

    fn zero_gradient(&mut self) -> (reset: Clearing) {
        if !self.counter.is_zero() {
            self.counter.clear();
            Clearing::Operands
        } else {
            Clearing::Nothing
        }
    }

    fn visits(&self) -> (counts: (usize, usize)) {
        (self.counter.forward_count(), self.counter.backward_count())
    }

    fn describe(&self) -> (profile: Profile) {
        Profile {
            kind: NodeKind::Concatenate(self.axis),
            shape: Some(self.value),
            needs_gradient: self.needs_gradient,
            first: Some(self.lhs),
            second: Some(self.rhs),
            index: None,
        }
    }
}

} // verus!
