//! Gradients that reach only some rows of a parameter.

use crate::select::copy_indices;
use vstd::prelude::*;

verus! {

/// What a sequence of slots holds: for each slot the rows it speaks of and
/// the gradient for these rows.
pub open spec fn contributions<A>(slots: Seq<(Vec<usize>, A)>) -> Seq<(Seq<usize>, A)> {
    Seq::new(slots.len(), |i: int| (slots[i].0@, slots[i].1))
}

/// A list of sparse gradient contributions, each a list of rows with the
/// gradient for these rows.
///
/// The slots of the list are kept when it is cleared, and are used again by
/// the contributions that follow: the list of rows of a used slot keeps
/// its storage.
#[derive(Debug)]
pub struct SparseGradientStore<A> {
    len: usize,
    data: Vec<(Vec<usize>, A)>,
}

impl<A> View for SparseGradientStore<A> {
    type V = Seq<(Seq<usize>, A)>;

    /// The contributions since the store was last cleared, oldest first.
    closed spec fn view(&self) -> Seq<(Seq<usize>, A)> {
        contributions(self.data@.subrange(0, self.len as int))
    }
}

impl<A> SparseGradientStore<A> {
    /// The contributions lie in slots of the store.
    pub closed spec fn wf(&self) -> bool {
        self.len <= self.data@.len()
    }

    /// Number of slots, used or not.
    pub closed spec fn slots(&self) -> nat {
        self.data@.len()
    }

    /// The contributions of a well-formed store lie in its slots: there are
    /// at most as many contributions as slots.
    pub proof fn lemma_within(&self)
        requires
            self.wf(),
        ensures
            self@.len() <= self.slots(),
    {
    }

    /// A store without contributions and without slots.
    pub fn new() -> (store: Self)
        ensures
            store.wf(),
            store@.len() == 0,
            store.slots() == 0,
    {
        SparseGradientStore { len: 0, data: Vec::new() }
    }

    /// Number of contributions.
    pub fn len(&self) -> (len: usize)
        requires
            self.wf(),
        ensures
            len == self@.len(),
    {
        self.len
    }

    /// Appends a contribution: the gradient `gradient.1` for the rows
    /// `gradient.0`. It takes the first unused slot, and a new one where all
    /// are used.
    pub fn push(&mut self, gradient: (&[usize], A))
        requires
            old(self).wf(),
        ensures
            final(self).wf(),
            final(self)@ == old(self)@.push((gradient.0@, gradient.1)),
            final(self)@.len() <= final(self).slots(),
            final(self).slots() == (if old(self)@.len() < old(self).slots() {
                old(self).slots()
            } else {
                old(self).slots() + 1
            }),
    {
        let (index, value) = gradient;
        if self.len < self.data.len() {
            let slot = &mut self.data[self.len];
            slot.0.clear();
            let mut k: usize = 0;
            while k < index.len()
                invariant
                    k <= index@.len(),
                    slot.0@ == index@.subrange(0, k as int),
                decreases index@.len() - k,
            {
                slot.0.push(index[k]);
                proof {
                    assert(slot.0@ =~= index@.subrange(0, k + 1));
                }
                k += 1;
            }
            proof {
                assert(slot.0@ =~= index@);
            }
            slot.1 = value;
            self.len += 1;
        } else {
            self.data.push((copy_indices(index), value));
            self.len = self.data.len();
        }
        proof {
            assert(self@ =~= old(self)@.push((gradient.0@, gradient.1)));
        }
    }

    /// The contributions, oldest first.
    pub fn as_slice(&self) -> (slots: &[(Vec<usize>, A)])
        requires
            self.wf(),
        ensures
            contributions(slots@) == self@,
    {
        vstd::slice::slice_subrange(self.data.as_slice(), 0, self.len)
    }

    /// The contributions, oldest first, for changing them in place.
    pub fn as_slice_mut(&mut self) -> (slots: &mut [(Vec<usize>, A)])
        requires
            old(self).wf(),
        ensures
            contributions(slots@) == old(self)@,
            final(slots)@.len() == slots@.len() ==> final(self).wf() && final(self)@
                == contributions(final(slots)@) && final(self).slots() == old(self).slots(),
    {
        let len = self.len;
        let (head, tail) = self.data.as_mut_slice().split_at_mut(len);
        assert(final(tail)@ == tail@);
        assert(final(head)@.len() == head@.len() ==> (final(head)@ + tail@).subrange(0, len as int)
            =~= final(head)@);
        head
    }

    /// Forgets the contributions and keeps the slots.
    pub fn clear(&mut self)
        ensures
            final(self).wf(),
            final(self)@.len() == 0,
            final(self).slots() == old(self).slots(),
    {
        self.len = 0;
    }
}

} // verus!
