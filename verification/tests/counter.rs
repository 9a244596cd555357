use wyrm::counter::{BackwardAction, ForwardAction, PassCounter};

#[test]
fn fresh_counter_is_zero_and_drained() {
    let counter = PassCounter::default();
    assert!(counter.is_zero());
    assert!(counter.recurse_backward());
    assert_eq!(counter.forward_count(), 0);
    assert_eq!(counter.backward_count(), 0);
}

#[test]
fn first_forward_evaluates_later_ones_are_cached() {
    let mut counter = PassCounter::new();
    assert_eq!(counter.forward(), ForwardAction::Evaluate);
    assert_eq!(counter.forward(), ForwardAction::Cached);
    assert_eq!(counter.forward(), ForwardAction::Cached);
    assert_eq!(counter.forward_count(), 3);
    assert_eq!(counter.backward_count(), 0);
    assert!(!counter.is_zero());
}

#[test]
fn first_backward_assigns_later_ones_increment() {
    let mut counter = PassCounter::new();
    counter.forward();
    counter.forward();
    counter.forward();
    assert_eq!(counter.backward(), BackwardAction::Assign);
    assert_eq!(counter.backward(), BackwardAction::Increment);
    assert_eq!(counter.backward(), BackwardAction::Increment);
    assert_eq!(counter.backward_count(), 3);
    assert_eq!(counter.forward_count(), 3);
}

#[test]
fn recursion_waits_for_every_consumer() {
    let mut counter = PassCounter::new();
    counter.forward();
    counter.forward();
    assert!(!counter.recurse_backward());
    counter.backward();
    assert!(!counter.recurse_backward());
    counter.backward();
    assert!(counter.recurse_backward());
}

#[test]
fn clear_resets_both_counts() {
    let mut counter = PassCounter::new();
    counter.forward();
    counter.forward();
    counter.backward();
    counter.clear();
    assert!(counter.is_zero());
    assert_eq!(counter.forward_count(), 0);
    assert_eq!(counter.backward_count(), 0);
    assert_eq!(counter.forward(), ForwardAction::Evaluate);
    assert_eq!(counter.backward(), BackwardAction::Assign);
}

#[test]
fn is_zero_looks_at_forward_visits_only() {
    let mut counter = PassCounter::new();
    counter.forward();
    assert!(!counter.is_zero());
    counter.backward();
    assert!(!counter.is_zero());
}
