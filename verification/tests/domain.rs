//! The taint lattice on its own: bottom, marking, propagation, join.

use taint::taint_domain::TaintState;

#[test]
fn taint_domain_propagate() {
    let mut set = TaintState::bottom(4);

    // Taint the first element
    set.set_taint(1, true);

    // Propagate the taint through the domain

    // Domain
    // [_1, _2]
    set.propagate(1, 2);

    // Domain
    // [_2]
    set.propagate(3, 1);

    // TWO should be tainted.
    assert!(set.get_taint(2));

    // One should not be tainted.
    assert!(!set.get_taint(1));
}

#[test]
fn extensions_propagate() {
    fn propagate_inner(domain: &mut TaintState) {
        // Domain
        // [_1, _2]
        domain.propagate(1, 2);

        // Domain
        // [_2]
        domain.propagate(3, 1);
    }

    let mut set = TaintState::bottom(4);

    // Taint the first element
    set.set_taint(1, true);

    // Propagate the taint through the domain
    propagate_inner(&mut set);

    // TWO should be tainted.
    assert!(set.get_taint(2));

    // One should not be tainted.
    assert!(!set.get_taint(1));
}

#[test]
fn bottom_is_untainted() {
    let s = TaintState::bottom(8);
    assert_eq!(s.len(), 8);
    for i in 0..8 {
        assert!(!s.get_taint(i));
    }
}

#[test]
fn mark_and_clear() {
    let mut s = TaintState::bottom(3);
    s.set_taint(2, true);
    assert!(s.get_taint(2));
    s.set_taint(2, false);
    assert!(!s.get_taint(2));
}

#[test]
fn join_is_union() {
    let mut a = TaintState::bottom(4);
    a.set_taint(0, true);
    a.set_taint(2, true);
    let mut b = TaintState::bottom(4);
    b.set_taint(2, true);
    b.set_taint(3, true);
    let changed = a.join(&b);
    assert!(changed);
    assert!(a.get_taint(0));
    assert!(!a.get_taint(1));
    assert!(a.get_taint(2));
    assert!(a.get_taint(3));
}

#[test]
fn join_conservative_on_either_branch() {
    // one branch taints slot 1, the other does not: after the merge
    // it is tainted
    let mut merged = TaintState::bottom(2);
    let mut tainting_branch = TaintState::bottom(2);
    tainting_branch.set_taint(1, true);
    let _ = merged.join(&tainting_branch);
    assert!(merged.get_taint(1));
}

#[test]
fn join_on_stable_state_reports_no_change() {
    let mut a = TaintState::bottom(3);
    a.set_taint(1, true);
    let mut b = TaintState::bottom(3);
    b.set_taint(1, true);
    let changed = a.join(&b);
    assert!(!changed);
    assert!(a.get_taint(1));
    assert!(!a.get_taint(0));
}

#[test]
fn duplicate_is_identical() {
    let mut a = TaintState::bottom(5);
    a.set_taint(4, true);
    let b = a.duplicate();
    assert_eq!(b.len(), 5);
    assert!(b.get_taint(4));
    assert!(!b.get_taint(0));
}
