//! The per-statement transfer rules.

use taint::ir::{Operand, Rvalue, Statement};
use taint::points::PointsMap;
use taint::taint_analysis::apply_statement;
use taint::taint_domain::TaintState;

fn assign(target: usize, rvalue: Rvalue) -> Statement {
    Statement { target, rvalue }
}

#[test]
fn constant_assignment_cleans_the_target() {
    let mut state = TaintState::bottom(3);
    let mut map = PointsMap::new();
    state.set_taint(1, true);
    apply_statement(&mut state, &mut map, &assign(1, Rvalue::Use(Operand::Constant)));
    assert!(!state.get_taint(1));
}

#[test]
fn copy_propagates_taint() {
    let mut state = TaintState::bottom(3);
    let mut map = PointsMap::new();
    state.set_taint(1, true);
    apply_statement(&mut state, &mut map, &assign(2, Rvalue::Use(Operand::Copy(1))));
    assert_eq!(state.get_taint(2), state.get_taint(1));
    assert!(state.get_taint(2));
}

#[test]
fn copy_of_clean_slot_cleans_the_target() {
    let mut state = TaintState::bottom(3);
    let mut map = PointsMap::new();
    state.set_taint(2, true);
    apply_statement(&mut state, &mut map, &assign(2, Rvalue::Use(Operand::Move(1))));
    assert!(!state.get_taint(2));
}

#[test]
fn unary_op_propagates_taint() {
    let mut state = TaintState::bottom(3);
    let mut map = PointsMap::new();
    state.set_taint(1, true);
    apply_statement(&mut state, &mut map, &assign(0, Rvalue::UnaryOp(Operand::Copy(1))));
    assert!(state.get_taint(0));
}

#[test]
fn unary_op_of_constant_cleans() {
    let mut state = TaintState::bottom(3);
    let mut map = PointsMap::new();
    state.set_taint(0, true);
    apply_statement(&mut state, &mut map, &assign(0, Rvalue::UnaryOp(Operand::Constant)));
    assert!(!state.get_taint(0));
}

#[test]
fn binop_taints_if_either_operand_is_tainted() {
    let mut state = TaintState::bottom(4);
    let mut map = PointsMap::new();
    state.set_taint(2, true);
    apply_statement(
        &mut state,
        &mut map,
        &assign(3, Rvalue::BinaryOp(Operand::Copy(1), Operand::Copy(2))),
    );
    assert!(state.get_taint(3));
}

#[test]
fn binop_of_two_constants_cleans() {
    let mut state = TaintState::bottom(2);
    let mut map = PointsMap::new();
    state.set_taint(1, true);
    apply_statement(
        &mut state,
        &mut map,
        &assign(1, Rvalue::BinaryOp(Operand::Constant, Operand::Constant)),
    );
    assert!(!state.get_taint(1));
}

#[test]
fn binop_mixed_propagates_the_slot() {
    let mut state = TaintState::bottom(3);
    let mut map = PointsMap::new();
    state.set_taint(1, true);
    apply_statement(
        &mut state,
        &mut map,
        &assign(2, Rvalue::BinaryOp(Operand::Constant, Operand::Move(1))),
    );
    assert!(state.get_taint(2));
}

#[test]
fn ref_records_an_alias_and_leaves_taint_alone() {
    let mut state = TaintState::bottom(3);
    let mut map = PointsMap::new();
    state.set_taint(1, true);
    // r = &x : slot 2 may point to slot 1; no taint change yet
    apply_statement(&mut state, &mut map, &assign(2, Rvalue::Ref(1)));
    assert!(state.get_taint(1));
    assert!(!state.get_taint(2));
    // a later write through slot 2 reaches slot 1
    apply_statement(&mut state, &mut map, &assign(2, Rvalue::Use(Operand::Constant)));
    assert!(!state.get_taint(1));
    assert!(!state.get_taint(2));
}

#[test]
fn other_rvalues_have_no_effect() {
    let mut state = TaintState::bottom(2);
    let mut map = PointsMap::new();
    state.set_taint(1, true);
    apply_statement(&mut state, &mut map, &assign(1, Rvalue::Other));
    assert!(state.get_taint(1));
}
