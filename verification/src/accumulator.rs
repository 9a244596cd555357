//! The gradient store of a parameter: one dense gradient of the parameter's
//! shape, and a list of sparse contributions to some of its rows.

use crate::sparse::SparseGradientStore;
use vstd::prelude::*;

verus! {

/// Something that gradients of type `T` can be added to.
pub trait GradientSink<T> {
    /// The sink is in a state that its constructor or its methods left.
    spec fn ready(&self) -> bool;

    /// Adds the gradient to what the sink holds.
    fn accumulate_gradient(&mut self, gradient: T)
        requires
            old(self).ready(),
        ensures
            final(self).ready(),
    ;
}

/// The gradients that a parameter has collected in a round.
///
/// The dense gradient is made when it is first asked for. `has_dense` says
/// whether a gradient was added to it since the last reset.
#[derive(Debug)]
pub struct GradientAccumulator<A> {
    pub dense_shape: (usize, usize),
    pub dense_gradient: Option<A>,
    pub sparse_gradient: SparseGradientStore<A>,
    pub has_dense: bool,
}

impl<A> GradientAccumulator<A> {
    /// The sparse contributions lie in slots of their store.
    pub open spec fn wf(&self) -> bool {
        self.sparse_gradient.wf()
    }

    /// A store for a parameter of the given shape, without any gradient.
    pub fn new(dense_shape: (usize, usize)) -> (store: Self)
        ensures
            store.wf(),
            store.dense_shape == dense_shape,
            store.dense_gradient is None,
            store.sparse_gradient@.len() == 0,
            !store.has_dense,
    {
        GradientAccumulator {
            dense_shape,
            dense_gradient: None,
            sparse_gradient: SparseGradientStore::new(),
            has_dense: false,
        }
    }

    /// The dense gradient, for reading and changing it. Where there is none
    /// yet, `zeros` makes it for the shape of the parameter.
    pub fn dense_gradient<F: FnOnce((usize, usize)) -> A>(&mut self, zeros: F) -> (buffer: &mut A)
        requires
            old(self).dense_gradient is None ==> zeros.requires((old(self).dense_shape,)),
        ensures
            match old(self).dense_gradient {
                Some(a) => *buffer == a,
                None => zeros.ensures((old(self).dense_shape,), *buffer),
            },
            final(self).dense_gradient == Some(*final(buffer)),
            final(self).dense_shape == old(self).dense_shape,
            final(self).sparse_gradient == old(self).sparse_gradient,
            final(self).has_dense == old(self).has_dense,
    {
        let shape = self.dense_shape;
        match self.dense_gradient.take() {
            Some(a) => self.dense_gradient.insert(a),
            None => self.dense_gradient.insert(zeros(shape)),
        }
    }

    /// Adds a gradient of the parameter's shape to the dense gradient and
    /// marks the dense gradient as used. Where there is no dense gradient
    /// yet, `zeros` makes it for the shape of the parameter; `plus` adds the
    /// gradient to it. A gradient is always added, never assigned: the
    /// store is emptied by [`GradientAccumulator::zero_gradient`] alone.
    pub fn accumulate_dense<G, Z: FnOnce((usize, usize)) -> A, P: FnOnce(A, G) -> A>(
        &mut self,
        gradient: G,
        zeros: Z,
        plus: P,
    )
        requires
            old(self).wf(),
            old(self).dense_gradient is None ==> zeros.requires((old(self).dense_shape,)),
            forall|a: A| plus.requires((a, gradient)),
        ensures
            final(self).wf(),
            final(self).has_dense,
            final(self).dense_shape == old(self).dense_shape,
            final(self).sparse_gradient == old(self).sparse_gradient,
            final(self).dense_gradient matches Some(b) && (match old(self).dense_gradient {
                Some(a) => plus.ensures((a, gradient), b),
                None => exists|z: A|
                    zeros.ensures((old(self).dense_shape,), z) && plus.ensures((z, gradient), b),
            }),
    {
        let shape = self.dense_shape;
        let buffer = match self.dense_gradient.take() {
            Some(a) => a,
            None => zeros(shape),
        };
        self.dense_gradient = Some(plus(buffer, gradient));
        self.has_dense = true;
    }

    /// Resets the store for the next round: the dense gradient, where there
    /// is one, is replaced by what `clear` makes of it, which is the same
    /// array with zeros in it, and the sparse contributions are forgotten.
    /// The dense gradient is cleared whether or not it is marked as used,
    /// so that nothing written to it outlasts a reset. No storage is given
    /// up.
    pub fn zero_gradient<F: FnOnce(A) -> A>(&mut self, clear: F)
        requires
            old(self).wf(),
            old(self).dense_gradient matches Some(a) ==> clear.requires((a,)),
        ensures
            final(self).wf(),
            final(self).dense_shape == old(self).dense_shape,
            !final(self).has_dense,
            final(self).sparse_gradient@.len() == 0,
            final(self).sparse_gradient.slots() == old(self).sparse_gradient.slots(),
            match old(self).dense_gradient {
                Some(a) => final(self).dense_gradient matches Some(b) && clear.ensures((a,), b),
                None => final(self).dense_gradient is None,
            },
    {
        match self.dense_gradient.take() {
            Some(a) => {
                self.dense_gradient = Some(clear(a));
            },
            None => {},
        }
        self.sparse_gradient.clear();
        self.has_dense = false;
    }
}

impl<'a, A> GradientSink<(&'a [usize], A)> for GradientAccumulator<A> {
    open spec fn ready(&self) -> bool {
        self.wf()
    }

    /// Appends the gradient `gradient.1` for the rows `gradient.0` to the
    /// sparse contributions.
    fn accumulate_gradient(&mut self, gradient: (&'a [usize], A))
        ensures
            final(self).sparse_gradient@ == old(self).sparse_gradient@.push(
                (gradient.0@, gradient.1),
            ),
            final(self).dense_shape == old(self).dense_shape,
            final(self).dense_gradient == old(self).dense_gradient,
            final(self).has_dense == old(self).has_dense,
    {
        self.sparse_gradient.push(gradient);
    }
}

} // verus!
