//! Per-node bookkeeping that tells the first visit of a round from later ones.

use vstd::prelude::*;

verus! {

/// What a node has to do when it is asked for its value.
#[derive(Debug, Clone, Copy, PartialEq, Eq, Structural)]
pub enum ForwardAction {
    /// First request of the round: the value has to be computed.
    Evaluate,
    /// The value was already computed in this round.
    Cached,
}

/// How an incoming gradient is folded into a gradient buffer.
#[derive(Debug, Clone, Copy, PartialEq, Eq, Structural)]
pub enum BackwardAction {
    /// First gradient of the round: the buffer is overwritten.
    Assign,
    /// A further gradient of the round: it is added to the buffer.
    Increment,
}

/// Counts the forward and the backward visits a node received since the
/// last reset.
#[derive(Debug)]
pub struct PassCounter {
    forward_count: usize,
    backward_count: usize,
}

impl PassCounter {
    /// Number of forward visits since the last reset.
    pub closed spec fn forward_calls(&self) -> nat {
        self.forward_count as nat
    }

    /// Number of backward visits since the last reset.
    pub closed spec fn backward_calls(&self) -> nat {
        self.backward_count as nat
    }

    /// No visit has been counted.
    pub open spec fn is_fresh(&self) -> bool {
        self.forward_calls() == 0 && self.backward_calls() == 0
    }

    /// Every forward visit has been answered by a backward visit.
    pub open spec fn is_drained(&self) -> bool {
        self.backward_calls() == self.forward_calls()
    }

    /// Both counts fit a machine word.
    pub proof fn lemma_bounded(&self)
        ensures
            self.forward_calls() <= usize::MAX,
            self.backward_calls() <= usize::MAX,
    {
    }

    /// A counter without visits.
    pub fn new() -> (counter: PassCounter)
        ensures
            counter.is_fresh(),
    {
        PassCounter { forward_count: 0, backward_count: 0 }
    }

    /// Number of forward visits since the last reset.
    pub fn forward_count(&self) -> (count: usize)
        ensures
            count == self.forward_calls(),
    {
        self.forward_count
    }

    /// Number of backward visits since the last reset.
    pub fn backward_count(&self) -> (count: usize)
        ensures
            count == self.backward_calls(),
    {
        self.backward_count
    }

    /// Forgets all visits.
    pub fn clear(&mut self)
        ensures
            final(self).is_fresh(),
    {
        self.forward_count = 0;
        self.backward_count = 0;
    }

    /// Whether no forward visit has been counted.
    ///
    /// The answer is given for every counter, also for one whose forward
    /// visits have not all been answered: the function behaves as an
    /// optimised build does, in which no check for unanswered visits is
    /// compiled. A caller that wants the check asks
    /// [`PassCounter::recurse_backward`] first.
    pub fn is_zero(&self) -> (zero: bool)
        ensures
            zero == (self.forward_calls() == 0),
    {
        self.forward_count == 0
    }

    /// Whether every forward visit has been answered, so that the gradient
    /// collected so far is complete and can be handed upstream.
    pub fn recurse_backward(&self) -> (drained: bool)
        requires
            self.backward_calls() <= self.forward_calls(),
        ensures
            drained == self.is_drained(),
    {
        self.backward_count == self.forward_count
    }

    /// Counts a forward visit.
    pub fn forward(&mut self) -> (action: ForwardAction)
        requires
            old(self).forward_calls() < usize::MAX,
        ensures
            final(self).forward_calls() == old(self).forward_calls() + 1,
            final(self).backward_calls() == old(self).backward_calls(),
            action == if old(self).forward_calls() == 0 {
                ForwardAction::Evaluate
            } else {
                ForwardAction::Cached
            },
    {
        let count: usize = self.forward_count;
        self.forward_count = count + 1;
        if count == 0 {
            ForwardAction::Evaluate
        } else {
            ForwardAction::Cached
        }
    }

    /// Counts a backward visit.
    pub fn backward(&mut self) -> (action: BackwardAction)
        requires
            old(self).backward_calls() < usize::MAX,
        ensures
            final(self).backward_calls() == old(self).backward_calls() + 1,
            final(self).forward_calls() == old(self).forward_calls(),
            action == if old(self).backward_calls() == 0 {
                BackwardAction::Assign
            } else {
                BackwardAction::Increment
            },
    {
        let count: usize = self.backward_count;
        self.backward_count = count + 1;
        if count == 0 {
            BackwardAction::Assign
        } else {
            BackwardAction::Increment
        }
    }
}

impl Default for PassCounter {
    fn default() -> (counter: PassCounter)
        ensures
            counter.is_fresh(),
    {
        PassCounter::new()
    }
}

} // verus!
