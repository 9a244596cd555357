//! The buffers behind a parameter that several graphs can share.

use vstd::prelude::*;

verus! {

/// The values of a parameter together with the statistics that an optimiser
/// keeps for it: the accumulated squared gradients, the moments, and the
/// number of updates.
///
/// The parameter nodes of any number of graphs may stand for one such
/// object. How they reach it at the same time is left to the owner of the
/// object.
#[derive(Debug)]
pub struct HogwildParameter<A> {
    pub value: A,
    pub squared_gradients: A,
    pub moments: A,
    pub num_updates: i32,
}

impl<A> HogwildParameter<A> {
    /// A parameter with the given values that was never updated. Its
    /// statistics are what `zeros_like` makes for the values: arrays of the
    /// same shape that hold zeros.
    pub fn new<F: Fn(&A) -> A>(value: A, zeros_like: F) -> (parameter: Self)
        requires
            zeros_like.requires((&value,)),
        ensures
            parameter.value == value,
            zeros_like.ensures((&value,), parameter.squared_gradients),
            zeros_like.ensures((&value,), parameter.moments),
            parameter.num_updates == 0,
    {
        let squared_gradients = zeros_like(&value);
        let moments = zeros_like(&value);
        HogwildParameter { value, squared_gradients, moments, num_updates: 0 }
    }

    /// The values of the parameter.
    pub fn value(&self) -> (value: &A)
        ensures
            *value == self.value,
    {
        &self.value
    }

    /// The squared gradients that were accumulated for the parameter.
    pub fn squared_gradients(&self) -> (statistics: &A)
        ensures
            *statistics == self.squared_gradients,
    {
        &self.squared_gradients
    }
}

} // verus!
