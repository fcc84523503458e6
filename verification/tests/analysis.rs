//! Whole-program scenarios through `eval_main`: sources, sinks,
//! sanitizers, joins, aliasing and interprocedural flows.

use taint::attributes::AttrInfo;
use taint::errors::{AnalysisError, TaintedSink};
use taint::eval::{eval_main, TaintConfig};
use taint::ir::{Block, Body, Operand, Program, Rvalue, Statement, Terminator};

const SOURCE: usize = 100;
const SINK: usize = 101;
const SANITIZER: usize = 102;

fn classification() -> AttrInfo {
    AttrInfo { sources: vec![SOURCE], sinks: vec![SINK], sanitizers: vec![SANITIZER] }
}

fn assign(target: usize, rvalue: Rvalue) -> Statement {
    Statement { target, rvalue }
}

fn call(func: usize, args: Vec<Operand>, dest: usize, next: usize) -> Terminator {
    Terminator::Call {
        func,
        args,
        destination: Some((dest, next)),
    }
}

fn block(statements: Vec<Statement>, terminator: Terminator) -> Block {
    Block {
        statements,
        terminator,
    }
}

fn run(prog: &Program, info: &AttrInfo) -> Vec<TaintedSink> {
    eval_main(prog, info, 0, TaintConfig::default()).expect("analysis should run")
}

/// `v = source(); sink(v);` — exactly one finding, at the sink's call
/// site.
#[test]
fn direct_sink_is_reported_once() {
    let main = Body {
        arg_count: 0,
        slot_count: 3,
        blocks: vec![
            block(vec![], call(SOURCE, vec![], 1, 1)),
            block(vec![], call(SINK, vec![Operand::Copy(1)], 2, 2)),
            block(vec![], Terminator::Return),
        ],
    };
    let prog = Program { bodies: vec![main] };
    let findings = run(&prog, &classification());
    assert_eq!(findings.len(), 1);
    assert_eq!(findings[0], TaintedSink { sink: SINK, func: 0, block: 1 });
}

/// `v = source(); v = sanitizer(v); sink(v);` — no findings.
#[test]
fn sanitizer_clears_taint() {
    let main = Body {
        arg_count: 0,
        slot_count: 3,
        blocks: vec![
            block(vec![], call(SOURCE, vec![], 1, 1)),
            block(vec![], call(SANITIZER, vec![Operand::Copy(1)], 1, 2)),
            block(vec![], call(SINK, vec![Operand::Copy(1)], 2, 3)),
            block(vec![], Terminator::Return),
        ],
    };
    let prog = Program { bodies: vec![main] };
    assert_eq!(run(&prog, &classification()).len(), 0);
}

/// Overwriting a sourced value with a literal clears it: no finding.
#[test]
fn constant_overwrite_clears() {
    let main = Body {
        arg_count: 0,
        slot_count: 3,
        blocks: vec![
            block(vec![], call(SOURCE, vec![], 1, 1)),
            block(
                vec![assign(1, Rvalue::Use(Operand::Constant))],
                call(SINK, vec![Operand::Copy(1)], 2, 2),
            ),
            block(vec![], Terminator::Return),
        ],
    };
    let prog = Program { bodies: vec![main] };
    assert_eq!(run(&prog, &classification()).len(), 0);
}

/// One branch of a conditional taints the slot, the other cleans it:
/// after the merge the slot counts as tainted.
#[test]
fn conditional_join_is_conservative() {
    let main = Body {
        arg_count: 0,
        slot_count: 4,
        blocks: vec![
            // block 0: branch on an (untainted) discriminant
            block(
                vec![],
                Terminator::SwitchInt { discr: Operand::Copy(1), targets: vec![1, 2] },
            ),
            // block 1: x = source()
            block(vec![], call(SOURCE, vec![], 2, 3)),
            // block 2: x = constant
            block(
                vec![assign(2, Rvalue::Use(Operand::Constant))],
                Terminator::Goto { target: 3 },
            ),
            // block 3: sink(x)
            block(vec![], call(SINK, vec![Operand::Copy(2)], 3, 4)),
            block(vec![], Terminator::Return),
        ],
    };
    let prog = Program { bodies: vec![main] };
    let findings = run(&prog, &classification());
    assert_eq!(findings.len(), 1);
    assert_eq!(findings[0], TaintedSink { sink: SINK, func: 0, block: 3 });
}

/// A tainted value used only as a branch discriminant produces no
/// finding.
#[test]
fn switchint_is_not_a_sink() {
    let main = Body {
        arg_count: 0,
        slot_count: 2,
        blocks: vec![
            block(vec![], call(SOURCE, vec![], 1, 1)),
            block(
                vec![],
                Terminator::SwitchInt { discr: Operand::Copy(1), targets: vec![2, 2] },
            ),
            block(vec![], Terminator::Return),
        ],
    };
    let prog = Program { bodies: vec![main] };
    assert_eq!(run(&prog, &classification()).len(), 0);
}

/// An unannotated helper that returns its argument still carries the
/// taint through: exactly one finding.
#[test]
fn interprocedural_pass_through() {
    let main = Body {
        arg_count: 0,
        slot_count: 4,
        blocks: vec![
            block(vec![], call(SOURCE, vec![], 1, 1)),
            // w = helper(v)
            block(vec![], call(1, vec![Operand::Copy(1)], 2, 2)),
            block(vec![], call(SINK, vec![Operand::Copy(2)], 3, 3)),
            block(vec![], Terminator::Return),
        ],
    };
    // helper(p) { return p; }
    let helper = Body {
        arg_count: 1,
        slot_count: 2,
        blocks: vec![block(
            vec![assign(0, Rvalue::Use(Operand::Copy(1)))],
            Terminator::Return,
        )],
    };
    let prog = Program { bodies: vec![main, helper] };
    let findings = run(&prog, &classification());
    assert_eq!(findings.len(), 1);
    assert_eq!(findings[0], TaintedSink { sink: SINK, func: 0, block: 2 });
}

/// A helper that writes a sourced value into its by-reference
/// parameter taints the caller's variable.
#[test]
fn reference_out_parameter_taints_caller() {
    let main = Body {
        arg_count: 0,
        slot_count: 5,
        blocks: vec![
            // r = &mut x; helper(r)
            block(
                vec![assign(2, Rvalue::Ref(1))],
                call(1, vec![Operand::Copy(2)], 3, 1),
            ),
            // sink(x)
            block(vec![], call(SINK, vec![Operand::Copy(1)], 4, 2)),
            block(vec![], Terminator::Return),
        ],
    };
    // helper(p) { *p = source(); }
    let helper = Body {
        arg_count: 1,
        slot_count: 2,
        blocks: vec![
            block(vec![], call(SOURCE, vec![], 1, 1)),
            block(vec![], Terminator::Return),
        ],
    };
    let prog = Program { bodies: vec![main, helper] };
    let findings = run(&prog, &classification());
    assert_eq!(findings.len(), 1);
    assert_eq!(findings[0], TaintedSink { sink: SINK, func: 0, block: 1 });
}

/// A helper that overwrites its by-reference parameter with a literal
/// clears the caller's variable.
#[test]
fn helper_clears_its_argument() {
    let main = Body {
        arg_count: 0,
        slot_count: 4,
        blocks: vec![
            block(vec![], call(SOURCE, vec![], 1, 1)),
            // helper(v)
            block(vec![], call(1, vec![Operand::Copy(1)], 2, 2)),
            block(vec![], call(SINK, vec![Operand::Copy(1)], 3, 3)),
            block(vec![], Terminator::Return),
        ],
    };
    // helper(p) { p = constant; }
    let helper = Body {
        arg_count: 1,
        slot_count: 2,
        blocks: vec![block(
            vec![assign(1, Rvalue::Use(Operand::Constant))],
            Terminator::Return,
        )],
    };
    let prog = Program { bodies: vec![main, helper] };
    assert_eq!(run(&prog, &classification()).len(), 0);
}

/// A self-recursive function whose base case returns a sourced value:
/// the analysis terminates and the sink is reported exactly once.
#[test]
fn recursion_terminates_and_reports_once() {
    let main = Body {
        arg_count: 0,
        slot_count: 3,
        blocks: vec![
            block(vec![], call(1, vec![], 1, 1)),
            block(vec![], call(SINK, vec![Operand::Copy(1)], 2, 2)),
            block(vec![], Terminator::Return),
        ],
    };
    // f() { if c { return f(); } else { return source(); } }
    let f = Body {
        arg_count: 0,
        slot_count: 2,
        blocks: vec![
            block(
                vec![],
                Terminator::SwitchInt { discr: Operand::Copy(1), targets: vec![1, 2] },
            ),
            block(vec![], call(1, vec![], 0, 3)),
            block(vec![], call(SOURCE, vec![], 0, 3)),
            block(vec![], Terminator::Return),
        ],
    };
    let prog = Program { bodies: vec![main, f] };
    let findings = run(&prog, &classification());
    assert_eq!(findings.len(), 1);
    assert_eq!(findings[0], TaintedSink { sink: SINK, func: 0, block: 1 });
}

/// Re-running the analysis on the same program gives the same
/// findings.
#[test]
fn rerun_is_identical() {
    let main = Body {
        arg_count: 0,
        slot_count: 3,
        blocks: vec![
            block(vec![], call(SOURCE, vec![], 1, 1)),
            block(vec![], call(SINK, vec![Operand::Copy(1)], 2, 2)),
            block(vec![], Terminator::Return),
        ],
    };
    let prog = Program { bodies: vec![main] };
    let first = run(&prog, &classification());
    let second = run(&prog, &classification());
    assert_eq!(first, second);
}

/// A sink that only receives literals reports nothing, tainted state
/// or not.
#[test]
fn sink_with_constant_arguments_is_quiet() {
    let main = Body {
        arg_count: 0,
        slot_count: 3,
        blocks: vec![
            block(vec![], call(SOURCE, vec![], 1, 1)),
            block(vec![], call(SINK, vec![Operand::Constant], 2, 2)),
            block(vec![], Terminator::Return),
        ],
    };
    let prog = Program { bodies: vec![main] };
    assert_eq!(run(&prog, &classification()).len(), 0);
}

/// A source whose result is discarded has no destination to taint.
#[test]
fn source_without_destination() {
    let main = Body {
        arg_count: 0,
        slot_count: 2,
        blocks: vec![
            block(
                vec![],
                Terminator::Call { func: SOURCE, args: vec![], destination: None },
            ),
            block(vec![], Terminator::Return),
        ],
    };
    let prog = Program { bodies: vec![main] };
    assert_eq!(run(&prog, &classification()).len(), 0);
}

/// `a = &b; b = source(); sink(a);` — the reference's own slot is
/// never written, but its alias group holds the tainted `b`, so the
/// sink is reported.
#[test]
fn sink_sees_taint_through_references() {
    let main = Body {
        arg_count: 0,
        slot_count: 4,
        blocks: vec![
            // a = &b, then b = source()
            block(vec![assign(2, Rvalue::Ref(1))], call(SOURCE, vec![], 1, 1)),
            // sink(a)
            block(vec![], call(SINK, vec![Operand::Copy(2)], 3, 2)),
            block(vec![], Terminator::Return),
        ],
    };
    let prog = Program { bodies: vec![main] };
    let findings = run(&prog, &classification());
    assert_eq!(findings.len(), 1);
    assert_eq!(findings[0], TaintedSink { sink: SINK, func: 0, block: 1 });
}

/// A callee with several return points hands back the join of all of
/// them: one clean return and one sourced return count as tainted.
#[test]
fn multiple_returns_join_their_taint() {
    let main = Body {
        arg_count: 0,
        slot_count: 3,
        blocks: vec![
            block(vec![], call(1, vec![], 1, 1)),
            block(vec![], call(SINK, vec![Operand::Copy(1)], 2, 2)),
            block(vec![], Terminator::Return),
        ],
    };
    // helper() { if c { return constant; } else { return source(); } }
    let helper = Body {
        arg_count: 0,
        slot_count: 2,
        blocks: vec![
            block(
                vec![],
                Terminator::SwitchInt { discr: Operand::Copy(1), targets: vec![1, 2] },
            ),
            block(vec![assign(0, Rvalue::Use(Operand::Constant))], Terminator::Return),
            block(vec![], call(SOURCE, vec![], 0, 3)),
            block(vec![], Terminator::Return),
        ],
    };
    let prog = Program { bodies: vec![main, helper] };
    assert_eq!(run(&prog, &classification()).len(), 1);
}

/// A sink reached inside an unannotated helper is reported at the
/// helper's own call site, exactly once.
#[test]
fn sink_inside_helper_is_reported() {
    let main = Body {
        arg_count: 0,
        slot_count: 3,
        blocks: vec![
            block(vec![], call(SOURCE, vec![], 1, 1)),
            block(
                vec![],
                Terminator::Call { func: 1, args: vec![Operand::Copy(1)], destination: None },
            ),
            block(vec![], Terminator::Return),
        ],
    };
    // helper(p) { sink(p); }
    let helper = Body {
        arg_count: 1,
        slot_count: 3,
        blocks: vec![
            block(vec![], call(SINK, vec![Operand::Copy(1)], 2, 1)),
            block(vec![], Terminator::Return),
        ],
    };
    let prog = Program { bodies: vec![main, helper] };
    let findings = run(&prog, &classification());
    assert_eq!(findings.len(), 1);
    assert_eq!(findings[0], TaintedSink { sink: SINK, func: 1, block: 0 });
}

/// A self-recursive function with no base case hits the recursion
/// guard; its result is conservatively assumed tainted.
#[test]
fn cycle_without_base_case_is_conservatively_tainted() {
    let main = Body {
        arg_count: 0,
        slot_count: 3,
        blocks: vec![
            block(vec![], call(1, vec![], 1, 1)),
            block(vec![], call(SINK, vec![Operand::Copy(1)], 2, 2)),
            block(vec![], Terminator::Return),
        ],
    };
    // f() { return f(); }
    let f = Body {
        arg_count: 0,
        slot_count: 1,
        blocks: vec![
            block(vec![], call(1, vec![], 0, 1)),
            block(vec![], Terminator::Return),
        ],
    };
    let prog = Program { bodies: vec![main, f] };
    assert_eq!(run(&prog, &classification()).len(), 1);
}

/// Arguments beyond the callee's parameter count are ignored, both
/// when seeding the callee and when folding taint back.
#[test]
fn extra_arguments_are_ignored() {
    let main = Body {
        arg_count: 0,
        slot_count: 4,
        blocks: vec![
            block(vec![], call(SOURCE, vec![], 1, 1)),
            // helper takes one parameter but receives two arguments
            block(
                vec![],
                call(1, vec![Operand::Copy(1), Operand::Copy(2)], 3, 2),
            ),
            block(vec![], call(SINK, vec![Operand::Copy(3)], 2, 3)),
            block(vec![], Terminator::Return),
        ],
    };
    let helper = Body {
        arg_count: 1,
        slot_count: 2,
        blocks: vec![block(
            vec![assign(0, Rvalue::Use(Operand::Copy(1)))],
            Terminator::Return,
        )],
    };
    let prog = Program { bodies: vec![main, helper] };
    assert_eq!(run(&prog, &classification()).len(), 1);
}

/// An entry function with no body is a fatal precondition failure.
#[test]
fn missing_entry_is_fatal() {
    let prog = Program { bodies: vec![] };
    let r = eval_main(&prog, &classification(), 0, TaintConfig::default());
    assert!(matches!(r, Err(AnalysisError::MissingEntry)));
}

/// A body that references a slot outside its universe is rejected
/// before any dataflow runs.
#[test]
fn malformed_body_is_fatal() {
    let main = Body {
        arg_count: 0,
        slot_count: 2,
        blocks: vec![block(
            vec![assign(7, Rvalue::Use(Operand::Constant))],
            Terminator::Return,
        )],
    };
    let prog = Program { bodies: vec![main] };
    let r = eval_main(&prog, &classification(), 0, TaintConfig::default());
    assert!(matches!(r, Err(AnalysisError::MalformedBody)));
}

/// An unclassified call target with no body to look up is rejected.
#[test]
fn missing_callee_body_is_fatal() {
    let main = Body {
        arg_count: 0,
        slot_count: 3,
        blocks: vec![
            block(vec![], call(9, vec![], 1, 1)),
            block(vec![], Terminator::Return),
        ],
    };
    let prog = Program { bodies: vec![main] };
    let r = eval_main(&prog, &classification(), 0, TaintConfig::default());
    assert!(matches!(r, Err(AnalysisError::MissingBody)));
}
