//! Selection of rows of a parameter by a list of indices, as an embedding
//! layer needs it.

use crate::counter::{ForwardAction, PassCounter};
use crate::indices::{rows_fit, rows_in_range, IndexList, INDEX_LIMIT};
use crate::node::{Clearing, Node, NodeKind, Operand, Profile, Propagation};
use crate::rows::{select_rows, selected_rows};
use crate::shape::Shape;
use vstd::prelude::*;

verus! {

/// A copy of the indices in a vector.
pub fn copy_indices(indices: &[usize]) -> (copy: Vec<usize>)
    ensures
        copy@ == indices@,
{
    let mut copy: Vec<usize> = Vec::new();
    let mut k: usize = 0;
    while k < indices.len()
        invariant
            k <= indices@.len(),
            copy@ == indices@.subrange(0, k as int),
        decreases indices@.len() - k,
    {
        copy.push(indices[k]);
        proof {
            assert(copy@ =~= indices@.subrange(0, k + 1));
        }
        k += 1;
    }
    proof {
        assert(copy@ =~= indices@);
    }
    copy
}

/// A list of row indices that is fed into the graph from outside.
///
/// Forward: nothing is computed. Backward: gradients are discarded.
#[derive(Debug)]
pub struct IndexInputNode {
    value: IndexList,
}

impl IndexInputNode {
    /// The indices that the node holds.
    pub closed spec fn indices(&self) -> Seq<usize> {
        self.value@
    }

    /// An input that holds a copy of the given indices.
    pub fn new(value: &[usize]) -> (node: IndexInputNode)
        ensures
            node.wf(),
            node.indices() == value@,
    {
        IndexInputNode { value: IndexList::from_slice(value) }
    }

    /// Replaces the indices by a copy of the given ones.
    pub fn set(&mut self, value: &[usize])
        ensures
            final(self).wf(),
            final(self).indices() == value@,
    {
        self.value = IndexList::from_slice(value);
    }

    /// The indices that the node holds.
    pub fn as_slice(&self) -> (indices: &[usize])
        ensures
            indices@ == self.indices(),
    {
        self.value.as_slice()
    }
}

impl Node for IndexInputNode {
    type Value = Vec<usize>;

    open spec fn profile(&self) -> Profile {
        Profile {
            kind: NodeKind::IndexInput,
            shape: None,
            needs_gradient: false,
            first: None,
            second: None,
            index: None,
        }
    }

    open spec fn forward_calls(&self) -> nat {
        0
    }

    open spec fn backward_calls(&self) -> nat {
        0
    }

    open spec fn wf(&self) -> bool {
        true
    }

    proof fn lemma_wf(&self) {
    }

    fn forward(&mut self) -> (action: ForwardAction)
        ensures
            final(self).indices() == old(self).indices(),
    {
        ForwardAction::Cached
    }

    fn backward(&mut self) -> (handling: Propagation)
        ensures
            final(self).indices() == old(self).indices(),
    {
        Propagation::Discard
    }

    fn value(&self) -> (value: Vec<usize>)
        ensures
            value@ == self.indices(),
    {
        copy_indices(self.value.as_slice())
    }

    fn needs_gradient(&self) -> (needed: bool) {
        false
    }

    fn zero_gradient(&mut self) -> (reset: Clearing)
        ensures
            final(self).indices() == old(self).indices(),
    {
        Clearing::Nothing
    }

    fn visits(&self) -> (counts: (usize, usize)) {
        (0, 0)
    }

    fn describe(&self) -> (profile: Profile) {
        Profile {
            kind: NodeKind::IndexInput,
            shape: None,
            needs_gradient: false,
            first: None,
            second: None,
            index: None,
        }
    }
}

/// The rows of a parameter that a list of indices selects, in the order of
/// the list.
///
/// Forward: row `k` of the value is the row of the parameter that index `k`
/// of the list names; the list is read anew in every round and keeps its
/// length. Backward: no gradient of the parameter's shape is built; every
/// incoming gradient goes, together with the list of the round, into the
/// parameter's gradient store as a sparse contribution.
#[derive(Debug)]
pub struct IndexNode {
    value: Shape,
    index_value: IndexList,
    operand_gradient: Shape,
    index: usize,
    operand: Operand,
    needs_gradient: bool,
    counter: PassCounter,
}

impl IndexNode {
    /// The indices by which the value was last selected.
    pub closed spec fn active(&self) -> Seq<usize> {
        self.index_value@
    }

    /// A node that selects the rows of the parameter `operand` that
    /// `indices` names; `index` is the place of the index list in the graph.
    pub fn new(operand: Operand, index: usize, indices: &[usize]) -> (node: IndexNode)
        requires
            operand.parameter,
            indices@.len() <= INDEX_LIMIT,
            forall|k: int| 0 <= k < indices@.len() ==> indices@[k] < operand.shape.rows,
        ensures
            node.wf(),
            node.profile() == (Profile {
                kind: NodeKind::Index,
                shape: Some(operand.shape.selection(indices@.len())),
                needs_gradient: operand.needs_gradient,
                first: Some(operand),
                second: None,
                index: Some(index),
            }),
            node.active() == indices@,
            node.forward_calls() == 0,
            node.backward_calls() == 0,
    {
        let value = Shape { rows: indices.len(), cols: operand.shape.cols };
        IndexNode {
            value,
            index_value: IndexList::from_slice(indices),
            operand_gradient: value,
            index,
            operand,
            needs_gradient: operand.needs_gradient,
            counter: PassCounter::default(),
        }
    }

    /// Whether the indices can take the place of the active ones: there
    /// are as many as the value has rows, and each names a row of the
    /// parameter.
    pub open spec fn accepts(&self, indices: Seq<usize>) -> bool {
        rows_fit(indices, self.profile().shape->0.rows, self.profile().first->0.shape.rows)
    }

    /// The active indices name rows of the parameter, one per row of the
    /// value.
    pub proof fn lemma_active(&self)
        requires
            self.wf(),
        ensures
            self.accepts(self.active()),
            self.profile().shape->0.rows <= INDEX_LIMIT,
    {
    }

    /// Whether `indices` can take the place of the active indices.
    pub fn can_take(&self, indices: &[usize]) -> (ok: bool)
        requires
            self.wf(),
        ensures
            ok == self.accepts(indices@),
    {
        rows_in_range(indices, self.value.rows, self.operand.shape.rows)
    }

    /// Makes a copy of `indices` the active indices.
    pub fn refresh(&mut self, indices: &[usize])
        requires
            old(self).wf(),
            old(self).accepts(indices@),
        ensures
            final(self).wf(),
            final(self).profile() == old(self).profile(),
            final(self).forward_calls() == old(self).forward_calls(),
            final(self).backward_calls() == old(self).backward_calls(),
            final(self).active() == indices@,
    {
        self.index_value.assign(indices);
    }

    /// The active indices.
    pub fn indices(&self) -> (indices: &[usize])
        ensures
            indices@ == self.active(),
    {
        self.index_value.as_slice()
    }

    /// Copies the rows of the parameter's value that the active indices
    /// name to the rows of the node's value in `dest`; both are given by
    /// their elements row after row.
    pub fn select<T: Copy>(&self, dest: &mut Vec<T>, operand: &[T])
        requires
            self.wf(),
            operand@.len() == self.profile().first->0.shape.size(),
            old(dest)@.len() == self.profile().shape->0.size(),
        ensures
            selected_rows(
                final(dest)@,
                operand@,
                self.active(),
                self.profile().first->0.shape.cols as int,
            ),
    {
        select_rows(
            dest,
            operand,
            self.index_value.as_slice(),
            self.operand.shape.rows,
            self.operand.shape.cols,
        )
    }

    /// Shape of the gradients that the node takes.
    pub fn operand_gradient(&self) -> (shape: Shape)
        requires
            self.wf(),
        ensures
            Some(shape) == self.profile().shape,
    {
        self.operand_gradient
    }
}

impl Node for IndexNode {
    type Value = Shape;

    closed spec fn profile(&self) -> Profile {
        Profile {
            kind: NodeKind::Index,
            shape: Some(self.value),
            needs_gradient: self.needs_gradient,
            first: Some(self.operand),
            second: None,
            index: Some(self.index),
        }
    }

    closed spec fn forward_calls(&self) -> nat {
        self.counter.forward_calls()
    }

    closed spec fn backward_calls(&self) -> nat {
        self.counter.backward_calls()
    }

    closed spec fn wf(&self) -> bool {
        &&& self.profile().consistent()
        &&& self.operand_gradient == self.value
        &&& self.value.rows <= INDEX_LIMIT
        &&& rows_fit(self.index_value@, self.value.rows, self.operand.shape.rows)
    }

    proof fn lemma_wf(&self) {
    }

    fn forward(&mut self) -> (action: ForwardAction)
        ensures
            final(self).active() == old(self).active(),
    {
        self.counter.forward()
    }

    fn backward(&mut self) -> (handling: Propagation)
        ensures
            final(self).active() == old(self).active(),
    {
        proof {
            self.counter.lemma_bounded();
        }
        let _ = self.counter.backward();
        Propagation::Scatter
    }

    fn value(&self) -> (value: Shape)
        ensures
            Some(value) == self.profile().shape,
    {
        self.value
    }

    fn needs_gradient(&self) -> (needed: bool) {
        self.needs_gradient
    }

    fn zero_gradient(&mut self) -> (reset: Clearing)
        ensures
            final(self).active() == old(self).active(),
    {
        if !self.counter.is_zero() {
            self.counter.clear();
            Clearing::Operands
        } else {
            Clearing::Nothing
        }
    }

    fn visits(&self) -> (counts: (usize, usize)) {
        (self.counter.forward_count(), self.counter.backward_count())
    }

    fn describe(&self) -> (profile: Profile) {
        Profile {
            kind: NodeKind::Index,
            shape: Some(self.value),
            needs_gradient: self.needs_gradient,
            first: Some(self.operand),
            second: None,
            index: Some(self.index),
        }
    }
}

} // verus!
