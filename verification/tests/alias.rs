//! The alias overlay: groups are transitive closures, and a taint
//! write lands on the whole group.

use taint::points::{set_taint_group, PointsMap};
use taint::taint_domain::TaintState;

fn has(group: &Vec<usize>, slot: usize) -> bool {
    group.iter().any(|s| *s == slot)
}

#[test]
fn alias_group_contains_the_slot_itself() {
    let map = PointsMap::new();
    let g = map.get_aliases(7);
    assert!(has(&g, 7));
}

#[test]
fn alias_group_is_transitive() {
    let mut map = PointsMap::new();
    map.add_ref(1, 2);
    map.add_ref(2, 3);
    let g = map.get_aliases(1);
    assert!(has(&g, 1));
    assert!(has(&g, 2));
    assert!(has(&g, 3));
    assert!(!has(&g, 0));
}

#[test]
fn alias_group_follows_edges_one_way() {
    let mut map = PointsMap::new();
    map.add_ref(1, 2);
    let g = map.get_aliases(2);
    assert!(has(&g, 2));
    assert!(!has(&g, 1));
}

#[test]
fn group_write_reaches_every_alias() {
    let mut map = PointsMap::new();
    map.add_ref(3, 1);
    map.add_ref(3, 2);
    let mut state = TaintState::bottom(4);
    set_taint_group(&mut state, &map, 3, true);
    assert!(state.get_taint(3));
    assert!(state.get_taint(1));
    assert!(state.get_taint(2));
    assert!(!state.get_taint(0));
}

#[test]
fn group_write_skips_unrelated_slots() {
    let mut map = PointsMap::new();
    map.add_ref(0, 1);
    let mut state = TaintState::bottom(3);
    state.set_taint(2, true);
    set_taint_group(&mut state, &map, 0, false);
    assert!(!state.get_taint(0));
    assert!(!state.get_taint(1));
    assert!(state.get_taint(2));
}
