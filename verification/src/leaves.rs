//! The vertices without operands: inputs and parameters.

use crate::counter::ForwardAction;
use crate::node::{Clearing, Node, NodeKind, Profile, Propagation};
use crate::shape::Shape;
use vstd::prelude::*;

verus! {

/// An array that is fed into the graph from outside. Its shape is fixed
/// when the node is built.
///
/// Forward: nothing is computed. Backward: gradients are discarded.
#[derive(Debug)]
pub struct InputNode {
    value: Shape,
}

impl InputNode {
    /// An input that holds an array of the given shape.
    pub fn new(value: Shape) -> (node: InputNode)
        ensures
            node.wf(),
            node.profile() == Profile::of_leaf(NodeKind::Input, value),
    {
        InputNode { value }
    }
}

impl Node for InputNode {
    type Value = Shape;

    closed spec fn profile(&self) -> Profile {
        Profile::of_leaf(NodeKind::Input, self.value)
    }

    open spec fn forward_calls(&self) -> nat {
        0
    }

    open spec fn backward_calls(&self) -> nat {
        0
    }

    closed spec fn wf(&self) -> bool {
        true
    }

    proof fn lemma_wf(&self) {
    }

    fn forward(&mut self) -> (action: ForwardAction) {
        ForwardAction::Cached
    }

    fn backward(&mut self) -> (handling: Propagation) {
        Propagation::Discard
    }

    fn value(&self) -> (value: Shape)
        ensures
            Some(value) == self.profile().shape,
    {
        self.value
    }

    fn needs_gradient(&self) -> (needed: bool) {
        false
    }

    fn zero_gradient(&mut self) -> (reset: Clearing) {
        Clearing::Nothing
    }

    fn visits(&self) -> (counts: (usize, usize)) {
        (0, 0)
    }

    fn describe(&self) -> (profile: Profile) {
        Profile {
            kind: NodeKind::Input,
            shape: Some(self.value),
            needs_gradient: false,
            first: None,
            second: None,
            index: None,
        }
    }
}

/// The values that an optimiser adjusts. The node stands for a buffer of
/// the given shape, which may be shared with the parameter nodes of other
/// graphs, and for the gradient store that belongs to this node alone.
///
/// Forward: nothing is computed. Backward: every gradient is added to the
/// dense gradient of the store, by `GradientAccumulator::accumulate_dense`,
/// and never assigned.
#[derive(Debug)]
pub struct ParameterNode {
    value: Shape,
}

impl ParameterNode {
    /// A parameter that holds an array of the given shape.
    pub fn new(value: Shape) -> (node: ParameterNode)
        ensures
            node.wf(),
            node.profile() == Profile::of_leaf(NodeKind::Parameter, value),
    {
        ParameterNode { value }
    }

    /// Shape of the dense gradient that the node's store collects.
    pub fn dense_shape(&self) -> (shape: (usize, usize))
        requires
            self.wf(),
        ensures
            self.profile().shape == Some(Shape { rows: shape.0, cols: shape.1 }),
    {
        (self.value.rows, self.value.cols)
    }
}

impl Node for ParameterNode {
    type Value = Shape;

    closed spec fn profile(&self) -> Profile {
        Profile::of_leaf(NodeKind::Parameter, self.value)
    }

    open spec fn forward_calls(&self) -> nat {
        0
    }

    open spec fn backward_calls(&self) -> nat {
        0
    }

    closed spec fn wf(&self) -> bool {
        true
    }

    proof fn lemma_wf(&self) {
    }

    fn forward(&mut self) -> (action: ForwardAction) {
        ForwardAction::Cached
    }

    fn backward(&mut self) -> (handling: Propagation) {
        Propagation::Accumulate
    }

    fn value(&self) -> (value: Shape)
        ensures
            Some(value) == self.profile().shape,
    {
        self.value
    }

    fn needs_gradient(&self) -> (needed: bool) {
        true
    }

    fn zero_gradient(&mut self) -> (reset: Clearing) {
        Clearing::Accumulator
    }

    fn visits(&self) -> (counts: (usize, usize)) {
        (0, 0)
    }

    fn describe(&self) -> (profile: Profile) {
        Profile {
            kind: NodeKind::Parameter,
            shape: Some(self.value),
            needs_gradient: true,
            first: None,
            second: None,
            index: None,
        }
    }
}

} // verus!
