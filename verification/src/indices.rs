//! Row-index lists, kept in small vectors that stay on the stack while short.

use smallvec::SmallVec;
use vstd::prelude::*;

verus! {

/// Longest index list that a node takes over.
pub const INDEX_LIMIT: usize = 0x0800_0000;

/// A list of row indices, held in a `smallvec::SmallVec` with room for four
/// indices before it moves to the heap.
#[verifier::external_body]
#[derive(Debug)]
pub struct IndexList {
    inner: SmallVec<[usize; 4]>,
}

/// The indices that a list holds, in order.
pub uninterp spec fn index_list(list: IndexList) -> Seq<usize>;

impl View for IndexList {
    type V = Seq<usize>;

    open spec fn view(&self) -> Seq<usize> {
        index_list(*self)
    }
}

/// `SmallVec::from_slice`: a new vector that holds a copy of the slice's
/// elements in the slice's order.
#[verifier::external_body]
fn small_vec_from_slice(slice: &[usize]) -> (list: IndexList)
    ensures
        index_list(list) == slice@,
{
    IndexList { inner: SmallVec::from_slice(slice) }
}

/// `SmallVec::len`: the number of elements held.
#[verifier::external_body]
fn small_vec_len(list: &IndexList) -> (len: usize)
    ensures
        len == index_list(*list).len(),
{
    list.inner.len()
}

/// `SmallVec::as_slice`: the elements held, in order.
#[verifier::external_body]
fn small_vec_as_slice(list: &IndexList) -> (slice: &[usize])
    ensures
        slice@ == index_list(*list),
{
    list.inner.as_slice()
}

/// `SmallVec::clear`: drops every element and keeps the storage.
#[verifier::external_body]
fn small_vec_clear(list: &mut IndexList)
    ensures
        index_list(*final(list)) == Seq::<usize>::empty(),
{
    list.inner.clear()
}

/// `SmallVec::extend_from_slice`: appends a copy of the slice's elements.
/// It reserves room first and panics when the new capacity cannot be laid
/// out, which the bound on the length excludes.
#[verifier::external_body]
fn small_vec_extend_from_slice(list: &mut IndexList, slice: &[usize])
    requires
        index_list(*old(list)).len() + slice@.len() <= INDEX_LIMIT,
    ensures
        index_list(*final(list)) == index_list(*old(list)) + slice@,
{
    list.inner.extend_from_slice(slice)
}

impl IndexList {
    /// A list with a copy of the given indices.
    pub fn from_slice(indices: &[usize]) -> (list: IndexList)
        ensures
            list@ == indices@,
    {
        small_vec_from_slice(indices)
    }

    /// Number of indices in the list.
    pub fn len(&self) -> (len: usize)
        ensures
            len == self@.len(),
    {
        small_vec_len(self)
    }

    /// The indices of the list.
    pub fn as_slice(&self) -> (slice: &[usize])
        ensures
            slice@ == self@,
    {
        small_vec_as_slice(self)
    }

    /// Replaces the contents by a copy of the given indices and keeps the
    /// storage.
    pub fn assign(&mut self, indices: &[usize])
        requires
            indices@.len() <= INDEX_LIMIT,
        ensures
            final(self)@ == indices@,
    {
        small_vec_clear(self);
        small_vec_extend_from_slice(self, indices);
    }

    /// Whether the list has `count` indices, all of them below `bound`.
    pub fn fits(&self, count: usize, bound: usize) -> (ok: bool)
        ensures
            ok == rows_fit(self@, count, bound),
    {
        let slice = small_vec_as_slice(self);
        rows_in_range(slice, count, bound)
    }
}

/// There are `count` indices, all of them rows of an array with `bound` rows.
pub open spec fn rows_fit(indices: Seq<usize>, count: usize, bound: usize) -> bool {
    &&& indices.len() == count
    &&& forall|k: int| 0 <= k < indices.len() ==> indices[k] < bound
}

/// Whether the slice has `count` indices, all of them below `bound`.
pub fn rows_in_range(indices: &[usize], count: usize, bound: usize) -> (ok: bool)
    ensures
        ok == rows_fit(indices@, count, bound),
{
    if indices.len() != count {
        return false;
    }
    let mut k: usize = 0;
    while k < indices.len()
        invariant
            k <= indices@.len(),
            forall|j: int| 0 <= j < k ==> indices@[j] < bound,
        decreases indices@.len() - k,
    {
        if indices[k] >= bound {
            return false;
        }
        k += 1;
    }
    true
}

} // verus!
