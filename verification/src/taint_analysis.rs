//! The dataflow engine: per-statement and per-terminator transfer
//! rules, the forward fixpoint solver, and the context-sensitive
//! interprocedural driver.
//!
//! Every executable piece is proved equal to a specification mirror:
//! spec functions that state, over sequences, exactly what one
//! statement does to the taint state, what one pass over the blocks
//! does, and what the whole analysis of a body computes.  The
//! contracts of the executable functions are therefore exact — two
//! runs on the same program yield the same states and the same
//! findings.
//!
//! Recursive and mutually recursive call chains are kept finite two
//! ways: re-entrant analysis of the same callee under the same
//! initial taint vector is detected on an explicit stack, and the
//! nesting depth is bounded by [`MAX_CALL_DEPTH`].  In both cut-off
//! cases the callee's result is conservatively assumed tainted.

use vstd::prelude::*;

use crate::attributes::{spec_get_kind, AttrInfo, AttrInfoKind};
use crate::errors::TaintedSink;
use crate::ir::{
    bodies_available, call_target_ok, program_wf, spec_successors, Block, BlockId, Body, FuncId,
    Operand, Program, Rvalue, Statement, Terminator,
};
use crate::points::{group_set, in_group, lemma_in_group_refl, set_taint_group, spec_add_edge, PointsMap};
use crate::taint_domain::{count_false, lemma_count_false_grow, lemma_count_false_grow_strict, spec_join, TaintState};

verus! {

/// Hard bound on the depth of nested callee reanalysis; past it a
/// call's result is conservatively assumed tainted, as on a detected
/// cycle.
pub const MAX_CALL_DEPTH: usize = 64;

/// The alias overlay's contents, as the specifications see them.
pub type Edges = Seq<(usize, usize)>;

/// The findings reported so far, in order of first discovery.
pub type Findings = Seq<TaintedSink>;

/// The chain of (callee, initial taint vector) analyses in progress.
pub type AnalysisStack = Seq<(FuncId, Seq<Option<bool>>)>;

/// Whether the value an operand reads is tainted: a constant never
/// is, a slot is as tainted as the state says.
pub open spec fn operand_taint(s: Seq<bool>, op: Operand) -> bool {
    match op.slot_of() {
        Some(p) => p < s.len() && s[p as int],
        None => false,
    }
}

/// What one assignment does to the taint state and the alias overlay:
/// a constant source cleans the target, a slot source copies its
/// taint, a binary operation taints the target as soon as either
/// operand is tainted, taking a reference records an alias edge, and
/// any other rvalue has no effect.  Writes go through the target's
/// alias group.
pub open spec fn stmt_effect(s: Seq<bool>, e: Edges, st: Statement) -> (Seq<bool>, Edges) {
    match st.rvalue {
        Rvalue::Use(op) => (group_set(s, e, st.target, operand_taint(s, op)), e),
        Rvalue::UnaryOp(op) => (group_set(s, e, st.target, operand_taint(s, op)), e),
        Rvalue::BinaryOp(a, b) => (
            group_set(s, e, st.target, operand_taint(s, a) || operand_taint(s, b)),
            e,
        ),
        Rvalue::Ref(p) => (s, spec_add_edge(e, st.target, p)),
        Rvalue::Other => (s, e),
    }
}

/// A whole block's statements, applied in program order.
pub open spec fn stmts_effect(s: Seq<bool>, e: Edges, stmts: Seq<Statement>) -> (Seq<bool>, Edges)
    decreases stmts.len(),
{
    if stmts.len() == 0 {
        (s, e)
    } else {
        let prefix = stmts_effect(s, e, stmts.drop_last());
        stmt_effect(prefix.0, prefix.1, stmts.last())
    }
}

/// Whether a slot's alias group — the slot itself included — holds
/// any taint the state covers.
pub open spec fn group_tainted(s: Seq<bool>, e: Edges, p: usize) -> bool {
    exists|m: int| 0 <= m < s.len() && in_group(e, p as int, m) && s[m]
}

/// Whether any argument of a sink call resolves to a slot whose
/// alias group contains a tainted slot: a reference to tainted data
/// is as much of a hit as the tainted value itself.
pub open spec fn sink_hit(s: Seq<bool>, e: Edges, args: Seq<Operand>) -> bool {
    exists|i: int|
        0 <= i < args.len() && match (#[trigger] args[i]).slot_of() {
            Some(p) => group_tainted(s, e, p),
            None => false,
        }
}

/// Reporting a finding, once per call site.
pub open spec fn spec_add_finding(f: Findings, x: TaintedSink) -> Findings {
    if f.contains(x) {
        f
    } else {
        f.push(x)
    }
}

/// The initial taint vector a call hands to its callee: the taint of
/// each slot argument, and "don't care" for each constant argument.
pub open spec fn call_init(s: Seq<bool>, args: Seq<Operand>) -> Seq<Option<bool>> {
    args.map_values(
        |op: Operand|
            match op.slot_of() {
                Some(p) => Some(operand_taint(s, op)),
                None => None,
            },
    )
}

/// The callee's entry state under an initial taint vector: parameter
/// slot `1 + i` starts tainted exactly when entry `i` of the vector
/// says so; everything else starts untainted.
pub open spec fn seed_state(n_slots: nat, arg_count: nat, init: Seq<Option<bool>>) -> Seq<bool> {
    Seq::new(
        n_slots,
        |j: int| 1 <= j <= arg_count && j <= init.len() && init[j - 1] == Some(true),
    )
}

/// Folding a callee's final parameter taint back onto the caller's
/// argument slots: argument `i` (when it is a slot) takes the final
/// taint of parameter slot `1 + i`, written through the caller's
/// alias overlay; the first `k` arguments are folded.
pub open spec fn writeback(
    s: Seq<bool>,
    e: Edges,
    args: Seq<Operand>,
    summary: Seq<bool>,
    k: nat,
) -> Seq<bool>
    decreases k,
{
    if k == 0 {
        s
    } else {
        let prev = writeback(s, e, args, summary, (k - 1) as nat);
        match args[k - 1].slot_of() {
            Some(p) => group_set(prev, e, p, summary[k as int]),
            None => prev,
        }
    }
}

/// How many of a call's arguments are folded back: every position
/// that is both an argument of the call and a parameter of the
/// callee.
pub open spec fn writeback_count(args: Seq<Operand>, arg_count: nat) -> nat {
    if args.len() <= arg_count {
        args.len()
    } else {
        arg_count
    }
}

/// Total count of untainted slots across all block entry states; the
/// solver's progress measure.
pub open spec fn free_total(ss: Seq<Seq<bool>>) -> nat
    decreases ss.len(),
{
    if ss.len() == 0 {
        0
    } else {
        free_total(ss.drop_last()) + count_false(ss.last())
    }
}

/// The block entry states of one body, as the specifications see
/// them.
pub open spec fn states_view(states: Seq<TaintState>) -> Seq<Seq<bool>> {
    states.map_values(|t: TaintState| t@)
}

/// The analysis stack, as the specifications see it.
pub open spec fn stack_view(st: Seq<(FuncId, Vec<Option<bool>>)>) -> AnalysisStack {
    st.map_values(|p: (FuncId, Vec<Option<bool>>)| (p.0, p.1@))
}

/// What one terminator does.  Plain control flow — `Goto`,
/// `SwitchInt`, `Return`, `Assert` — has no taint effect: in
/// particular a tainted branch discriminant is not a sink.  A call
/// dispatches on the classification of its target: a source taints
/// its destination, a sanitizer cleans it, a sink reports a finding
/// when some argument's alias group holds taint, and an unclassified
/// target is reanalyzed under the taint its arguments carry here.
pub open spec fn term_effect(
    prog: Program,
    info: AttrInfo,
    func: FuncId,
    block: BlockId,
    t: Terminator,
    s: Seq<bool>,
    e: Edges,
    f: Findings,
    stack: AnalysisStack,
    fuel: nat,
) -> (Seq<bool>, Edges, Findings)
    decreases fuel, 1nat, 0nat,
{
    match t {
        Terminator::Call { func: target, args, destination } => match spec_get_kind(info, target) {
            Some(AttrInfoKind::Source) => (
                match destination {
                    Some((d, _)) => group_set(s, e, d, true),
                    None => s,
                },
                e,
                f,
            ),
            Some(AttrInfoKind::Sanitizer) => (
                match destination {
                    Some((d, _)) => group_set(s, e, d, false),
                    None => s,
                },
                e,
                f,
            ),
            Some(AttrInfoKind::Sink) => (
                s,
                e,
                if sink_hit(s, e, args@) {
                    spec_add_finding(f, TaintedSink { sink: target, func, block })
                } else {
                    f
                },
            ),
            None => {
                let init = call_init(s, args@);
                if stack.contains((target, init)) || fuel == 0 {
                    // cycle detected, or depth bound hit: assume the
                    // callee's result is tainted and leave the
                    // arguments alone
                    (
                        match destination {
                            Some((d, _)) => group_set(s, e, d, true),
                            None => s,
                        },
                        e,
                        f,
                    )
                } else {
                    let nested = analyze_effect(
                        prog,
                        info,
                        target,
                        init,
                        e,
                        f,
                        stack.push((target, init)),
                        (fuel - 1) as nat,
                    );
                    let summary = nested.0;
                    let s1 = match destination {
                        Some((d, _)) => if 0 < summary.len() && summary[0] {
                            group_set(s, nested.1, d, true)
                        } else {
                            s
                        },
                        None => s,
                    };
                    let body = prog.bodies@[target as int];
                    let k = writeback_count(args@, body.arg_count as nat);
                    (writeback(s1, nested.1, args@, summary, k), nested.1, nested.2)
                }
            },
        },
        _ => (s, e, f),
    }
}

/// A block's exit state: its statements in order, then its
/// terminator.
pub open spec fn block_effect(
    prog: Program,
    info: AttrInfo,
    func: FuncId,
    block: BlockId,
    blk: Block,
    s: Seq<bool>,
    e: Edges,
    f: Findings,
    stack: AnalysisStack,
    fuel: nat,
) -> (Seq<bool>, Edges, Findings)
    decreases fuel, 2nat, 0nat,
{
    let mid = stmts_effect(s, e, blk.statements@);
    term_effect(prog, info, func, block, blk.terminator, mid.0, mid.1, f, stack, fuel)
}

/// Joining a block's exit state into each of its successors' entry
/// states, in successor order.
pub open spec fn join_into(
    states: Seq<Seq<bool>>,
    succs: Seq<BlockId>,
    exit: Seq<bool>,
) -> Seq<Seq<bool>>
    decreases succs.len(),
{
    if succs.len() == 0 {
        states
    } else {
        let prev = join_into(states, succs.drop_last(), exit);
        let b = succs.last() as int;
        prev.update(b, spec_join(prev[b], exit))
    }
}

/// One pass of the solver from block `b` on: compute each block's
/// exit state from its current entry state and join it into its
/// successors.
pub open spec fn pass_from(
    prog: Program,
    info: AttrInfo,
    func: FuncId,
    body: Body,
    b: int,
    states: Seq<Seq<bool>>,
    e: Edges,
    f: Findings,
    stack: AnalysisStack,
    fuel: nat,
) -> (Seq<Seq<bool>>, Edges, Findings)
    decreases fuel, 3nat, body.blocks@.len() - b,
{
    if b < 0 || b >= body.blocks@.len() {
        (states, e, f)
    } else {
        let blk = body.blocks@[b];
        let eff = block_effect(prog, info, func, b as BlockId, blk, states[b], e, f, stack, fuel);
        let states1 = join_into(states, spec_successors(blk.terminator), eff.0);
        pass_from(prog, info, func, body, b + 1, states1, eff.1, eff.2, stack, fuel)
    }
}

/// One full pass of the solver over all blocks of a body.
pub open spec fn pass_effect(
    prog: Program,
    info: AttrInfo,
    func: FuncId,
    body: Body,
    states: Seq<Seq<bool>>,
    e: Edges,
    f: Findings,
    stack: AnalysisStack,
    fuel: nat,
) -> (Seq<Seq<bool>>, Edges, Findings)
    decreases fuel, 4nat, 0nat,
{
    pass_from(prog, info, func, body, 0, states, e, f, stack, fuel)
}

/// The fixpoint: run passes until a pass leaves every block entry
/// state unchanged.  `iters` bounds the number of passes; since every
/// changing pass taints at least one more slot, any `iters` past the
/// count of untainted slots reaches the fixpoint.
pub open spec fn solve_effect(
    prog: Program,
    info: AttrInfo,
    func: FuncId,
    body: Body,
    states: Seq<Seq<bool>>,
    e: Edges,
    f: Findings,
    stack: AnalysisStack,
    fuel: nat,
    iters: nat,
) -> (Seq<Seq<bool>>, Edges, Findings)
    decreases fuel, 5nat, iters,
{
    if iters == 0 {
        (states, e, f)
    } else {
        let p = pass_effect(prog, info, func, body, states, e, f, stack, fuel);
        if p.0 == states {
            p
        } else {
            solve_effect(prog, info, func, body, p.0, p.1, p.2, stack, fuel, (iters - 1) as nat)
        }
    }
}

/// The taint summary a stabilized body hands back: the join, over
/// every block that ends in `Return`, of the state its statements
/// produce from its entry state.  Slot 0 of the summary is the taint
/// of the returned value; slot `1 + i` is the final taint of
/// parameter `i`.
pub open spec fn summary_from(
    body: Body,
    states: Seq<Seq<bool>>,
    e: Edges,
    b: int,
    acc: Seq<bool>,
) -> (Seq<bool>, Edges)
    decreases body.blocks@.len() - b,
{
    if b < 0 || b >= body.blocks@.len() {
        (acc, e)
    } else {
        let blk = body.blocks@[b];
        match blk.terminator {
            Terminator::Return => {
                let eff = stmts_effect(states[b], e, blk.statements@);
                summary_from(body, states, eff.1, b + 1, spec_join(acc, eff.0))
            },
            _ => summary_from(body, states, e, b + 1, acc),
        }
    }
}

/// The whole analysis of one body under an initial taint vector: seed
/// the entry block, run the fixpoint, and read the summary off the
/// stabilized states.
pub open spec fn analyze_effect(
    prog: Program,
    info: AttrInfo,
    func: FuncId,
    init: Seq<Option<bool>>,
    e: Edges,
    f: Findings,
    stack: AnalysisStack,
    fuel: nat,
) -> (Seq<bool>, Edges, Findings)
    decreases fuel, 6nat, 0nat,
{
    let body = prog.bodies@[func as int];
    let n_slots = body.slot_count as nat;
    let bottoms = Seq::new(body.blocks@.len(), |b: int| Seq::new(n_slots, |j: int| false));
    let states0 = bottoms.update(0, seed_state(n_slots, body.arg_count as nat, init));
    let iters = free_total(states0) + 1;
    let solved = solve_effect(prog, info, func, body, states0, e, f, stack, fuel, iters);
    let summary = summary_from(body, solved.0, solved.1, 0, Seq::new(n_slots, |j: int| false));
    (summary.0, summary.1, solved.2)
}

/// Everything one top-level run reports for the given entry function:
/// the findings of its analysis, with nothing classified in advance
/// as tainted and an empty alias overlay.
pub open spec fn eval_effect(prog: Program, info: AttrInfo, main_id: FuncId) -> Findings {
    analyze_effect(
        prog,
        info,
        main_id,
        Seq::empty(),
        Seq::empty(),
        Seq::empty(),
        Seq::empty(),
        MAX_CALL_DEPTH as nat,
    ).2
}

/// One block entry state growing pointwise: same size, and no taint
/// is ever dropped.
pub open spec fn state_grow(x: Seq<bool>, y: Seq<bool>) -> bool {
    x.len() == y.len() && forall|j: int| 0 <= j < x.len() ==> (x[j] ==> y[j])
}

/// All block entry states growing pointwise.
pub open spec fn states_grow(a: Seq<Seq<bool>>, b: Seq<Seq<bool>>) -> bool {
    a.len() == b.len() && forall|bb: int| 0 <= bb < a.len() ==> state_grow(#[trigger] a[bb], b[bb])
}

/// Growing states can only lower the total count of untainted slots.
proof fn lemma_free_total_grow(a: Seq<Seq<bool>>, b: Seq<Seq<bool>>)
    requires
        states_grow(a, b),
    ensures
        free_total(b) <= free_total(a),
    decreases a.len(),
{
    if a.len() > 0 {
        assert(states_grow(a.drop_last(), b.drop_last()));
        lemma_free_total_grow(a.drop_last(), b.drop_last());
        lemma_count_false_grow(a.last(), b.last());
    }
}

/// Newly tainting at least one slot of at least one block strictly
/// lowers the total count of untainted slots.
proof fn lemma_free_total_strict(a: Seq<Seq<bool>>, b: Seq<Seq<bool>>, bb: int, j: int)
    requires
        states_grow(a, b),
        0 <= bb < a.len(),
        0 <= j < a[bb].len(),
        !a[bb][j],
        b[bb][j],
    ensures
        free_total(b) < free_total(a),
    decreases a.len(),
{
    assert(states_grow(a.drop_last(), b.drop_last()));
    if bb == a.len() - 1 {
        lemma_free_total_grow(a.drop_last(), b.drop_last());
        lemma_count_false_grow_strict(a.last(), b.last(), j);
    } else {
        lemma_free_total_strict(a.drop_last(), b.drop_last(), bb, j);
        lemma_count_false_grow(a.last(), b.last());
    }
}

/// Joining into successors changes no sizes: neither the number of
/// block entry states nor any single state's width.
proof fn lemma_join_into_len(states: Seq<Seq<bool>>, succs: Seq<BlockId>, exit: Seq<bool>)
    requires
        forall|k: int| 0 <= k < succs.len() ==> #[trigger] succs[k] < states.len(),
    ensures
        join_into(states, succs, exit).len() == states.len(),
        forall|b: int|
            0 <= b < states.len() ==> #[trigger] join_into(states, succs, exit)[b].len()
                == states[b].len(),
    decreases succs.len(),
{
    if succs.len() > 0 {
        lemma_join_into_len(states, succs.drop_last(), exit);
    }
}

/// Join conservatism at a merge point: a slot tainted in the exit
/// state of any incoming block is tainted in the successor's entry
/// state after the join, whatever the other incoming paths say.
pub proof fn lemma_join_into_conservative(
    states: Seq<Seq<bool>>,
    succs: Seq<BlockId>,
    exit: Seq<bool>,
    i: int,
    x: int,
)
    requires
        forall|k: int| 0 <= k < succs.len() ==> #[trigger] succs[k] < states.len(),
        0 <= i < succs.len(),
        states[succs[i] as int].len() == exit.len(),
        0 <= x < exit.len(),
        exit[x],
    ensures
        join_into(states, succs, exit)[succs[i] as int][x],
    decreases succs.len(),
{
    let prev = join_into(states, succs.drop_last(), exit);
    lemma_join_into_len(states, succs.drop_last(), exit);
    let b = succs.last() as int;
    if i == succs.len() - 1 {
        assert(spec_join(prev[b], exit)[x]);
    } else {
        lemma_join_into_conservative(states, succs.drop_last(), exit, i, x);
        if b == succs[i] as int {
            assert(spec_join(prev[b], exit)[x]);
        }
    }
}

/// Constant purity: a slot assigned directly from literals is
/// untainted immediately after the assignment, whatever it or the
/// rest of the state held before.
pub proof fn lemma_constant_purity(s: Seq<bool>, e: Edges, st: Statement)
    requires
        st.target < s.len(),
        st.rvalue == Rvalue::Use(Operand::Constant) || st.rvalue == Rvalue::UnaryOp(
            Operand::Constant,
        ) || st.rvalue == Rvalue::BinaryOp(Operand::Constant, Operand::Constant),
    ensures
        !stmt_effect(s, e, st).0[st.target as int],
{
    lemma_in_group_refl(e, st.target as int);
}

/// Propagation: after the copy or move assignment `target := a`, the
/// target carries exactly the taint `a` had, whatever the target's
/// own history, and `a` still carries it too.
pub proof fn lemma_propagation(s: Seq<bool>, e: Edges, st: Statement, a: usize)
    requires
        a < s.len(),
        st.target < s.len(),
        st.rvalue == Rvalue::Use(Operand::Copy(a)) || st.rvalue == Rvalue::Use(Operand::Move(a)),
    ensures
        stmt_effect(s, e, st).0[st.target as int] == s[a as int],
        stmt_effect(s, e, st).0[a as int] == s[a as int],
        stmt_effect(s, e, st).0[st.target as int] == stmt_effect(s, e, st).0[a as int],
{
    lemma_in_group_refl(e, st.target as int);
}

/// Control flow is not a sink: a branch on a tainted discriminant —
/// and any other terminator that is not a call — changes no taint,
/// adds no alias edge, and reports nothing.
pub proof fn lemma_control_flow_not_sink(
    prog: Program,
    info: AttrInfo,
    func: FuncId,
    block: BlockId,
    t: Terminator,
    s: Seq<bool>,
    e: Edges,
    f: Findings,
    stack: AnalysisStack,
    fuel: nat,
)
    requires
        !(t is Call),
    ensures
        term_effect(prog, info, func, block, t, s, e, f, stack, fuel) == (s, e, f),
{
}

/// A finding survives one more report.
proof fn lemma_add_finding_keeps(f: Findings, y: TaintedSink, x: TaintedSink)
    requires
        f.contains(x),
    ensures
        spec_add_finding(f, y).contains(x),
{
    if !f.contains(y) {
        let i = choose|i: int| 0 <= i < f.len() && f[i] == x;
        assert(f.push(y)[i] == x);
    }
}

/// A finding survives one terminator.
proof fn lemma_term_keeps_findings(
    prog: Program,
    info: AttrInfo,
    func: FuncId,
    block: BlockId,
    t: Terminator,
    s: Seq<bool>,
    e: Edges,
    f: Findings,
    stack: AnalysisStack,
    fuel: nat,
    x: TaintedSink,
)
    requires
        f.contains(x),
    ensures
        term_effect(prog, info, func, block, t, s, e, f, stack, fuel).2.contains(x),
    decreases fuel, 1nat, 0nat,
{
    match t {
        Terminator::Call { func: target, args, destination } => match spec_get_kind(
            info,
            target,
        ) {
            Some(AttrInfoKind::Sink) => {
                if sink_hit(s, e, args@) {
                    lemma_add_finding_keeps(f, TaintedSink { sink: target, func, block }, x);
                }
            },
            None => {
                let init = call_init(s, args@);
                if !(stack.contains((target, init)) || fuel == 0) {
                    lemma_analyze_keeps_findings(
                        prog,
                        info,
                        target,
                        init,
                        e,
                        f,
                        stack.push((target, init)),
                        (fuel - 1) as nat,
                        x,
                    );
                }
            },
            _ => {},
        },
        _ => {},
    }
}

/// A finding survives one block.
proof fn lemma_block_keeps_findings(
    prog: Program,
    info: AttrInfo,
    func: FuncId,
    block: BlockId,
    blk: Block,
    s: Seq<bool>,
    e: Edges,
    f: Findings,
    stack: AnalysisStack,
    fuel: nat,
    x: TaintedSink,
)
    requires
        f.contains(x),
    ensures
        block_effect(prog, info, func, block, blk, s, e, f, stack, fuel).2.contains(x),
    decreases fuel, 2nat, 0nat,
{
    let mid = stmts_effect(s, e, blk.statements@);
    lemma_term_keeps_findings(
        prog,
        info,
        func,
        block,
        blk.terminator,
        mid.0,
        mid.1,
        f,
        stack,
        fuel,
        x,
    );
}

/// A finding survives the rest of a pass.
proof fn lemma_pass_from_keeps_findings(
    prog: Program,
    info: AttrInfo,
    func: FuncId,
    body: Body,
    b: int,
    states: Seq<Seq<bool>>,
    e: Edges,
    f: Findings,
    stack: AnalysisStack,
    fuel: nat,
    x: TaintedSink,
)
    requires
        f.contains(x),
    ensures
        pass_from(prog, info, func, body, b, states, e, f, stack, fuel).2.contains(x),
    decreases fuel, 3nat, body.blocks@.len() - b,
{
    if 0 <= b < body.blocks@.len() {
        let blk = body.blocks@[b];
        let eff = block_effect(
            prog,
            info,
            func,
            b as BlockId,
            blk,
            states[b],
            e,
            f,
            stack,
            fuel,
        );
        lemma_block_keeps_findings(
            prog,
            info,
            func,
            b as BlockId,
            blk,
            states[b],
            e,
            f,
            stack,
            fuel,
            x,
        );
        let states1 = join_into(states, spec_successors(blk.terminator), eff.0);
        lemma_pass_from_keeps_findings(
            prog,
            info,
            func,
            body,
            b + 1,
            states1,
            eff.1,
            eff.2,
            stack,
            fuel,
            x,
        );
    }
}

/// A finding survives the whole fixpoint loop.
proof fn lemma_solve_keeps_findings(
    prog: Program,
    info: AttrInfo,
    func: FuncId,
    body: Body,
    states: Seq<Seq<bool>>,
    e: Edges,
    f: Findings,
    stack: AnalysisStack,
    fuel: nat,
    iters: nat,
    x: TaintedSink,
)
    requires
        f.contains(x),
    ensures
        solve_effect(prog, info, func, body, states, e, f, stack, fuel, iters).2.contains(x),
    decreases fuel, 5nat, iters,
{
    if iters != 0 {
        let p = pass_effect(prog, info, func, body, states, e, f, stack, fuel);
        lemma_pass_from_keeps_findings(prog, info, func, body, 0, states, e, f, stack, fuel, x);
        if p.0 != states {
            lemma_solve_keeps_findings(
                prog,
                info,
                func,
                body,
                p.0,
                p.1,
                p.2,
                stack,
                fuel,
                (iters - 1) as nat,
                x,
            );
        }
    }
}

/// No finding is ever dropped: whatever was already reported when a
/// body's analysis starts is still reported when it ends.  Findings
/// are collected, never retracted, and never stop the analysis.
pub proof fn lemma_analyze_keeps_findings(
    prog: Program,
    info: AttrInfo,
    func: FuncId,
    init: Seq<Option<bool>>,
    e: Edges,
    f: Findings,
    stack: AnalysisStack,
    fuel: nat,
    x: TaintedSink,
)
    requires
        f.contains(x),
    ensures
        analyze_effect(prog, info, func, init, e, f, stack, fuel).2.contains(x),
    decreases fuel, 6nat, 0nat,
{
    let body = prog.bodies@[func as int];
    let n_slots = body.slot_count as nat;
    let bottoms = Seq::new(body.blocks@.len(), |b: int| Seq::new(n_slots, |j: int| false));
    let states0 = bottoms.update(0, seed_state(n_slots, body.arg_count as nat, init));
    let iters = free_total(states0) + 1;
    lemma_solve_keeps_findings(prog, info, func, body, states0, e, f, stack, fuel, iters, x);
}

/// Idempotence: on an already-stabilized state — one more pass would
/// change neither the block entry states, the alias overlay, nor the
/// findings — the fixpoint loop returns its input unchanged, however
/// many passes it is allowed.
pub proof fn lemma_fixpoint_idempotent(
    prog: Program,
    info: AttrInfo,
    func: FuncId,
    body: Body,
    states: Seq<Seq<bool>>,
    e: Edges,
    f: Findings,
    stack: AnalysisStack,
    fuel: nat,
    iters: nat,
)
    requires
        pass_effect(prog, info, func, body, states, e, f, stack, fuel) == (states, e, f),
    ensures
        solve_effect(prog, info, func, body, states, e, f, stack, fuel, iters) == (states, e, f),
{
}

/// Whether the operand's slot is tainted; a constant never is.
pub fn op_taint(state: &TaintState, op: &Operand) -> (b: bool)
    ensures
        b == operand_taint(state@, *op),
{
    match op.place() {
        Some(p) => p < state.len() && state.get_taint(p),
        None => false,
    }
}

/// Apply one statement to the taint state and the alias overlay.
pub fn apply_statement(state: &mut TaintState, map: &mut PointsMap, st: &Statement)
    ensures
        final(state)@ == stmt_effect(old(state)@, old(map)@, *st).0,
        final(map)@ == stmt_effect(old(state)@, old(map)@, *st).1,
{
    match &st.rvalue {
        Rvalue::Use(op) => {
            let v = op_taint(state, op);
            set_taint_group(state, map, st.target, v);
        },
        Rvalue::UnaryOp(op) => {
            let v = op_taint(state, op);
            set_taint_group(state, map, st.target, v);
        },
        Rvalue::BinaryOp(a, b) => {
            let va = op_taint(state, a);
            let vb = op_taint(state, b);
            set_taint_group(state, map, st.target, va || vb);
        },
        Rvalue::Ref(p) => {
            map.add_ref(st.target, *p);
        },
        Rvalue::Other => {},
    }
}

/// Whether any member of the slot's alias group is tainted.
#[verifier::loop_isolation(false)]
fn slot_group_tainted(state: &TaintState, map: &PointsMap, p: usize) -> (r: bool)
    ensures
        r == group_tainted(state@, map@, p),
{
    let upper = state.len();
    let group = map.get_aliases(p);
    let n = group.len();
    let mut k: usize = 0;
    while k < n
        invariant
            k <= n,
            n == group@.len(),
            forall|s: usize| #[trigger] group@.contains(s) <==> in_group(map@, p as int, s as int),
            forall|j: int|
                0 <= j < k ==> !(group@[j] < state@.len() && state@[group@[j] as int]),
        decreases n - k,
    {
        let m = group[k];
        if m < state.len() && state.get_taint(m) {
            proof {
                assert(group@.contains(m)) by {
                    assert(group@[k as int] == m);
                }
                assert((m as int) < state@.len() && in_group(map@, p as int, m as int)
                    && state@[m as int]);
            }
            return true;
        }
        k += 1;
    }
    proof {
        if group_tainted(state@, map@, p) {
            let m = choose|m: int|
                0 <= m < state@.len() && in_group(map@, p as int, m) && state@[m];
            assert(m < upper as int);
            assert((m as usize) as int == m);
            assert(group@.contains(m as usize));
            let j = choose|j: int| 0 <= j < group@.len() && group@[j] == m as usize;
            assert(group@[j] < state@.len() && state@[group@[j] as int]);
        }
    }
    false
}

/// Whether any argument of a sink call resolves to a slot whose
/// alias group holds taint.
#[verifier::loop_isolation(false)]
fn check_sink_args(state: &TaintState, map: &PointsMap, args: &Vec<Operand>) -> (r: bool)
    ensures
        r == sink_hit(state@, map@, args@),
{
    let n = args.len();
    let mut i: usize = 0;
    while i < n
        invariant
            i <= n,
            forall|j: int|
                0 <= j < i ==> match (#[trigger] args@[j]).slot_of() {
                    Some(p) => !group_tainted(state@, map@, p),
                    None => true,
                },
        decreases n - i,
    {
        let hit = match args[i].place() {
            Some(p) => slot_group_tainted(state, map, p),
            None => false,
        };
        if hit {
            return true;
        }
        i += 1;
    }
    false
}

/// Report a finding, unless the same call site was already reported.
#[verifier::loop_isolation(false)]
fn push_finding(findings: &mut Vec<TaintedSink>, x: TaintedSink)
    ensures
        final(findings)@ == spec_add_finding(old(findings)@, x),
{
    let ghost pre = findings@;
    let n = findings.len();
    let mut i: usize = 0;
    while i < n
        invariant
            findings@ == pre,
            n == pre.len(),
            i <= n,
            forall|j: int| 0 <= j < i ==> pre[j] != x,
        decreases n - i,
    {
        if findings[i] == x {
            return ;
        }
        i += 1;
    }
    assert(!pre.contains(x));
    findings.push(x);
}

/// The initial taint vector for a call's arguments.
#[verifier::loop_isolation(false)]
fn compute_call_init(state: &TaintState, args: &Vec<Operand>) -> (r: Vec<Option<bool>>)
    ensures
        r@ == call_init(state@, args@),
{
    let n = args.len();
    let mut r: Vec<Option<bool>> = Vec::new();
    let mut i: usize = 0;
    while i < n
        invariant
            i <= n,
            r@.len() == i,
            forall|j: int| 0 <= j < i ==> r@[j] == call_init(state@, args@)[j],
        decreases n - i,
    {
        let entry = match args[i].place() {
            Some(_p) => Some(op_taint(state, &args[i])),
            None => None,
        };
        r.push(entry);
        i += 1;
    }
    proof {
        assert(r@ =~= call_init(state@, args@));
    }
    r
}

/// Elementwise comparison of two initial taint vectors.
#[verifier::loop_isolation(false)]
fn init_eq(a: &Vec<Option<bool>>, b: &Vec<Option<bool>>) -> (r: bool)
    ensures
        r == (a@ == b@),
{
    if a.len() != b.len() {
        return false;
    }
    let n = a.len();
    let mut i: usize = 0;
    while i < n
        invariant
            i <= n,
            n == a@.len() == b@.len(),
            forall|j: int| 0 <= j < i ==> a@[j] == b@[j],
        decreases n - i,
    {
        let same = match (&a[i], &b[i]) {
            (None, None) => true,
            (Some(x), Some(y)) => *x == *y,
            _ => false,
        };
        if !same {
            return false;
        }
        i += 1;
    }
    proof {
        assert(a@ =~= b@);
    }
    true
}

/// Whether an analysis of `target` under exactly this initial taint
/// vector is already in progress.
#[verifier::loop_isolation(false)]
fn stack_contains(
    stack: &Vec<(FuncId, Vec<Option<bool>>)>,
    target: FuncId,
    init: &Vec<Option<bool>>,
) -> (r: bool)
    ensures
        r == stack_view(stack@).contains((target, init@)),
{
    let n = stack.len();
    let mut i: usize = 0;
    while i < n
        invariant
            i <= n,
            n == stack@.len(),
            forall|j: int|
                0 <= j < i ==> ((#[trigger] stack@[j]).0 != target || stack@[j].1@ != init@),
        decreases n - i,
    {
        let entry = &stack[i];
        if entry.0 == target && init_eq(&entry.1, init) {
            proof {
                assert(stack_view(stack@)[i as int] == (target, init@));
            }
            return true;
        }
        i += 1;
    }
    proof {
        if stack_view(stack@).contains((target, init@)) {
            let k = choose|k: int|
                0 <= k < stack_view(stack@).len() && stack_view(stack@)[k] == (target, init@);
            assert(stack@[k].0 == target && stack@[k].1@ == init@);
        }
    }
    false
}

/// A body's summary has one entry per slot of that body.
proof fn lemma_summary_from_len(body: Body, states: Seq<Seq<bool>>, e: Edges, b: int, acc: Seq<bool>)
    ensures
        summary_from(body, states, e, b, acc).0.len() == acc.len(),
    decreases body.blocks@.len() - b,
{
    if 0 <= b < body.blocks@.len() {
        let blk = body.blocks@[b];
        match blk.terminator {
            Terminator::Return => {
                let eff = stmts_effect(states[b], e, blk.statements@);
                lemma_summary_from_len(body, states, eff.1, b + 1, spec_join(acc, eff.0));
            },
            _ => {
                lemma_summary_from_len(body, states, e, b + 1, acc);
            },
        }
    }
}

/// The summary a body's analysis returns covers exactly that body's
/// slots.
pub proof fn lemma_analyze_summary_len(
    prog: Program,
    info: AttrInfo,
    func: FuncId,
    init: Seq<Option<bool>>,
    e: Edges,
    f: Findings,
    stack: AnalysisStack,
    fuel: nat,
)
    ensures
        analyze_effect(prog, info, func, init, e, f, stack, fuel).0.len() == prog.bodies@[func as int].slot_count,
{
    let body = prog.bodies@[func as int];
    let n_slots = body.slot_count as nat;
    let bottoms = Seq::new(body.blocks@.len(), |b: int| Seq::new(n_slots, |j: int| false));
    let states0 = bottoms.update(0, seed_state(n_slots, body.arg_count as nat, init));
    let iters = free_total(states0) + 1;
    let solved = solve_effect(prog, info, func, body, states0, e, f, stack, fuel, iters);
    lemma_summary_from_len(body, solved.0, solved.1, 0, Seq::new(n_slots, |j: int| false));
}

/// Every successor a well-formed terminator names is a block of the
/// body.
proof fn lemma_successors_bound(t: Terminator, n_slots: nat, n_blocks: nat)
    requires
        crate::ir::terminator_wf(t, n_slots, n_blocks),
    ensures
        forall|i: int|
            0 <= i < spec_successors(t).len() ==> #[trigger] spec_successors(t)[i] < n_blocks,
{
    match t {
        Terminator::SwitchInt { discr, targets } => {
            assert(spec_successors(t) == targets@);
        },
        _ => {},
    }
}

/// Apply one terminator; nested reanalysis of an unclassified callee
/// included.
#[verifier::loop_isolation(false)]
pub fn apply_terminator(
    prog: &Program,
    info: &AttrInfo,
    func: FuncId,
    block: BlockId,
    t: &Terminator,
    state: &mut TaintState,
    map: &mut PointsMap,
    findings: &mut Vec<TaintedSink>,
    stack: &mut Vec<(FuncId, Vec<Option<bool>>)>,
    fuel: usize,
)
    requires
        program_wf(*prog),
        bodies_available(*prog, *info),
        call_target_ok(*t, prog.bodies@.len(), *info),
    ensures
        ({
            let r = term_effect(
                *prog,
                *info,
                func,
                block,
                *t,
                old(state)@,
                old(map)@,
                old(findings)@,
                stack_view(old(stack)@),
                fuel as nat,
            );
            final(state)@ == r.0 && final(map)@ == r.1 && final(findings)@ == r.2
        }),
        final(state)@.len() == old(state)@.len(),
        stack_view(final(stack)@) == stack_view(old(stack)@),
    decreases fuel, 1nat, 0nat,
{
    match t {
        Terminator::Call { func: target, args, destination } => {
            match info.get_kind(*target) {
                Some(AttrInfoKind::Source) => {
                    if let Some((d, _next)) = destination {
                        set_taint_group(state, map, *d, true);
                    }
                },
                Some(AttrInfoKind::Sanitizer) => {
                    if let Some((d, _next)) = destination {
                        set_taint_group(state, map, *d, false);
                    }
                },
                Some(AttrInfoKind::Sink) => {
                    if check_sink_args(state, map, args) {
                        push_finding(findings, TaintedSink { sink: *target, func, block });
                    }
                },
                None => {
                    let init = compute_call_init(state, args);
                    if stack_contains(stack, *target, &init) || fuel == 0 {
                        // re-entrant analysis of the same callee under
                        // the same entry taint, or the depth bound:
                        // assume the result tainted
                        if let Some((d, _next)) = destination {
                            set_taint_group(state, map, *d, true);
                        }
                    } else {
                        let ghost stk0 = stack_view(stack@);
                        let ghost initv = init@;
                        stack.push((*target, init.clone()));
                        proof {
                            assert(stack_view(stack@) =~= stk0.push((*target, initv)));
                        }
                        let summary = analyze_body(
                            prog,
                            info,
                            *target,
                            &init,
                            map,
                            findings,
                            stack,
                            fuel - 1,
                        );
                        let ghost before_pop = stack@;
                        let _ = stack.pop();
                        proof {
                            assert(stack_view(before_pop) == stk0.push((*target, initv)));
                            assert(stack@ == before_pop.drop_last());
                            assert forall|ii: int| 0 <= ii < stk0.len() implies stack_view(stack@)[ii]
                                == stk0[ii] by {
                                assert(stack_view(before_pop)[ii] == stk0.push((*target, initv))[ii]);
                                assert(stack_view(stack@)[ii] == stack_view(before_pop)[ii]);
                            }
                            assert(stack_view(stack@) =~= stk0);
                            lemma_analyze_summary_len(
                                *prog,
                                *info,
                                *target,
                                initv,
                                old(map)@,
                                old(findings)@,
                                stk0.push((*target, initv)),
                                (fuel - 1) as nat,
                            );
                            assert(prog.bodies@[*target as int].slot_count >= 1 + prog.bodies@[*target as int].arg_count);
                        }
                        if let Some((d, _next)) = destination {
                            if summary.len() > 0 && summary.get_taint(0) {
                                set_taint_group(state, map, *d, true);
                            }
                        }
                        let body = &prog.bodies[*target];
                        let k = if args.len() <= body.arg_count {
                            args.len()
                        } else {
                            body.arg_count
                        };
                        let ghost s1 = state@;
                        let ghost e1 = map@;
                        let mut i: usize = 0;
                        while i < k
                            invariant
                                i <= k,
                                map@ == e1,
                                state@ == writeback(s1, e1, args@, summary@, i as nat),
                                state@.len() == s1.len(),
                            decreases k - i,
                        {
                            match args[i].place() {
                                Some(p) => {
                                    let v = summary.get_taint(i + 1);
                                    set_taint_group(state, map, p, v);
                                },
                                None => {},
                            }
                            i += 1;
                        }
                        proof {
                            assert(k as nat == writeback_count(
                                args@,
                                prog.bodies@[*target as int].arg_count as nat,
                            ));
                        }
                    }
                },
            }
        },
        _ => {},
    }
}

/// One pass of the solver over all blocks of the body of `func`:
/// each block's exit state, computed from its current entry state, is
/// joined into its successors' entry states.  Reports whether any
/// entry state changed.
#[verifier::loop_isolation(false)]
fn run_pass(
    prog: &Program,
    info: &AttrInfo,
    func: FuncId,
    states: &mut Vec<TaintState>,
    map: &mut PointsMap,
    findings: &mut Vec<TaintedSink>,
    stack: &mut Vec<(FuncId, Vec<Option<bool>>)>,
    fuel: usize,
) -> (changed: bool)
    requires
        program_wf(*prog),
        bodies_available(*prog, *info),
        func < prog.bodies@.len(),
        old(states)@.len() == prog.bodies@[func as int].blocks@.len(),
        forall|bb: int|
            0 <= bb < old(states)@.len() ==> (#[trigger] old(states)@[bb])@.len() == prog.bodies@[func as int].slot_count,
    ensures
        ({
            let r = pass_effect(
                *prog,
                *info,
                func,
                prog.bodies@[func as int],
                states_view(old(states)@),
                old(map)@,
                old(findings)@,
                stack_view(old(stack)@),
                fuel as nat,
            );
            states_view(final(states)@) == r.0 && final(map)@ == r.1 && final(findings)@ == r.2
        }),
        final(states)@.len() == old(states)@.len(),
        forall|bb: int|
            0 <= bb < final(states)@.len() ==> (#[trigger] final(states)@[bb])@.len() == prog.bodies@[func as int].slot_count,
        states_grow(states_view(old(states)@), states_view(final(states)@)),
        changed == (states_view(final(states)@) != states_view(old(states)@)),
        changed ==> free_total(states_view(final(states)@)) < free_total(
            states_view(old(states)@),
        ),
        stack_view(final(stack)@) == stack_view(old(stack)@),
    decreases fuel, 2nat, 0nat,
{
    let ghost states0 = states_view(states@);
    let ghost e0 = map@;
    let ghost f0 = findings@;
    let ghost stk0 = stack_view(stack@);
    let ghost bd = prog.bodies@[func as int];
    let body = &prog.bodies[func];
    let n_blocks = body.blocks.len();
    let n_slots = body.slot_count;
    let mut changed = false;
    let ghost mut wit_b: int = 0;
    let ghost mut wit_j: int = 0;
    let mut b: usize = 0;
    while b < n_blocks
        invariant
            b <= n_blocks,
            states@.len() == n_blocks,
            forall|bb: int|
                0 <= bb < states@.len() ==> (#[trigger] states@[bb])@.len() == n_slots,
            pass_from(
                *prog,
                *info,
                func,
                bd,
                b as int,
                states_view(states@),
                map@,
                findings@,
                stk0,
                fuel as nat,
            ) == pass_from(*prog, *info, func, bd, 0, states0, e0, f0, stk0, fuel as nat),
            states_grow(states0, states_view(states@)),
            changed ==> 0 <= wit_b < states0.len() && 0 <= wit_j < states0[wit_b].len()
                && !states0[wit_b][wit_j] && states_view(states@)[wit_b][wit_j],
            !changed ==> states_view(states@) == states0,
            stack_view(stack@) == stk0,
        decreases n_blocks - b,
    {
        let ghost states_b = states_view(states@);
        let ghost e_b = map@;
        let ghost f_b = findings@;
        let blk = &body.blocks[b];
        proof {
            assert(crate::ir::body_wf(bd));
            assert(crate::ir::block_wf(bd.blocks@[b as int], n_slots as nat, n_blocks as nat));
        }
        let mut exit = states[b].duplicate();
        let ghost entry = exit@;
        proof {
            assert(entry == states_b[b as int]);
        }
        let m = blk.statements.len();
        let mut si: usize = 0;
        while si < m
            invariant
                si <= m,
                exit@ == stmts_effect(entry, e_b, blk.statements@.take(si as int)).0,
                map@ == stmts_effect(entry, e_b, blk.statements@.take(si as int)).1,
                exit@.len() == entry.len(),
                findings@ == f_b,
                states_view(states@) == states_b,
                stack_view(stack@) == stk0,
            decreases m - si,
        {
            apply_statement(&mut exit, map, &blk.statements[si]);
            proof {
                let pre = blk.statements@.take(si as int);
                let post = blk.statements@.take(si as int + 1);
                assert(post.drop_last() =~= pre);
                assert(post.last() == blk.statements@[si as int]);
            }
            si += 1;
        }
        let ghost s_mid = exit@;
        let ghost e_mid = map@;
        proof {
            assert(blk.statements@.take(m as int) =~= blk.statements@);
            assert(s_mid == stmts_effect(entry, e_b, blk.statements@).0);
            assert(e_mid == stmts_effect(entry, e_b, blk.statements@).1);
            assert(call_target_ok(
                (prog.bodies@[func as int].blocks@[b as int]).terminator,
                prog.bodies@.len(),
                *info,
            ));
        }
        apply_terminator(prog, info, func, b, &blk.terminator, &mut exit, map, findings, stack, fuel);
        let ghost exitv = exit@;
        proof {
            // the exit state, overlay and findings now match the
            // block's whole effect
            let eff = block_effect(
                *prog,
                *info,
                func,
                b,
                bd.blocks@[b as int],
                states_b[b as int],
                e_b,
                f_b,
                stk0,
                fuel as nat,
            );
            assert(exitv == eff.0 && map@ == eff.1 && findings@ == eff.2);
        }
        let succs = blk.terminator.successors();
        proof {
            lemma_successors_bound(blk.terminator, n_slots as nat, n_blocks as nat);
        }
        let ns = succs.len();
        let mut k: usize = 0;
        while k < ns
            invariant
                k <= ns,
                states@.len() == n_blocks,
                forall|bb: int|
                    0 <= bb < states@.len() ==> (#[trigger] states@[bb])@.len() == n_slots,
                states_view(states@) == join_into(states_b, succs@.take(k as int), exitv),
                states_grow(states0, states_view(states@)),
                changed ==> 0 <= wit_b < states0.len() && 0 <= wit_j < states0[wit_b].len()
                    && !states0[wit_b][wit_j] && states_view(states@)[wit_b][wit_j],
                !changed ==> states_view(states@) == states0,
            decreases ns - k,
        {
            let s_idx = succs[k];
            let ghost before = states_view(states@);
            let mut tmp = states[s_idx].duplicate();
            let ghost tmp0 = tmp@;
            let ch = tmp.join(&exit);
            let ghost tmpv = tmp@;
            states.set(s_idx, tmp);
            proof {
                assert(tmp0 == before[s_idx as int]);
                let post = succs@.take(k as int + 1);
                assert(post.drop_last() =~= succs@.take(k as int));
                assert(post.last() == succs@[k as int]);
                assert(states_view(states@) =~= before.update(
                    s_idx as int,
                    spec_join(before[s_idx as int], exitv),
                ));
                assert(states_grow(before, states_view(states@))) by {
                    assert forall|bb: int| 0 <= bb < before.len() implies state_grow(
                        #[trigger] before[bb],
                        states_view(states@)[bb],
                    ) by {
                        if bb == s_idx as int {
                            assert(forall|j: int|
                                0 <= j < tmp0.len() ==> (tmp0[j] ==> #[trigger] tmpv[j]));
                        }
                    }
                }
                assert(states_grow(states0, states_view(states@))) by {
                    assert forall|bb: int| 0 <= bb < states0.len() implies state_grow(
                        #[trigger] states0[bb],
                        states_view(states@)[bb],
                    ) by {
                        assert(state_grow(states0[bb], before[bb]));
                        assert(state_grow(before[bb], states_view(states@)[bb]));
                    }
                }
                if changed {
                    // the old witness bit is still set: joins only add
                    assert(before[wit_b][wit_j]);
                    assert(states_view(states@)[wit_b][wit_j]);
                }
                if ch {
                    assert(!(tmpv =~= tmp0));
                    let j = choose|j: int| 0 <= j < tmp0.len() && tmpv[j] != tmp0[j];
                    assert(!tmp0[j] && tmpv[j]);
                    assert(!states0[s_idx as int][j]) by {
                        assert(state_grow(states0[s_idx as int], before[s_idx as int]));
                    }
                    wit_b = s_idx as int;
                    wit_j = j;
                    assert(states_view(states@)[wit_b][wit_j]);
                }
            }
            if ch {
                changed = true;
            }
            k += 1;
        }
        proof {
            assert(succs@.take(ns as int) =~= succs@);
            assert(states_view(states@) == join_into(
                states_b,
                spec_successors(bd.blocks@[b as int].terminator),
                exitv,
            ));
            // one step of the pass: the total result is unchanged
            assert(pass_from(
                *prog,
                *info,
                func,
                bd,
                b as int,
                states_b,
                e_b,
                f_b,
                stk0,
                fuel as nat,
            ) == pass_from(
                *prog,
                *info,
                func,
                bd,
                b as int + 1,
                states_view(states@),
                map@,
                findings@,
                stk0,
                fuel as nat,
            ));
        }
        b += 1;
    }
    proof {
        if changed {
            lemma_free_total_strict(states0, states_view(states@), wit_b, wit_j);
            assert(states_view(states@) != states0);
        }
    }
    changed
}

/// Run passes until one changes nothing; the fixpoint of the body's
/// entry states.
#[verifier::loop_isolation(false)]
fn solve(
    prog: &Program,
    info: &AttrInfo,
    func: FuncId,
    states: &mut Vec<TaintState>,
    map: &mut PointsMap,
    findings: &mut Vec<TaintedSink>,
    stack: &mut Vec<(FuncId, Vec<Option<bool>>)>,
    fuel: usize,
    Ghost(iters): Ghost<nat>,
)
    requires
        program_wf(*prog),
        bodies_available(*prog, *info),
        func < prog.bodies@.len(),
        old(states)@.len() == prog.bodies@[func as int].blocks@.len(),
        forall|bb: int|
            0 <= bb < old(states)@.len() ==> (#[trigger] old(states)@[bb])@.len() == prog.bodies@[func as int].slot_count,
        iters >= free_total(states_view(old(states)@)) + 1,
    ensures
        ({
            let r = solve_effect(
                *prog,
                *info,
                func,
                prog.bodies@[func as int],
                states_view(old(states)@),
                old(map)@,
                old(findings)@,
                stack_view(old(stack)@),
                fuel as nat,
                iters,
            );
            states_view(final(states)@) == r.0 && final(map)@ == r.1 && final(findings)@ == r.2
        }),
        final(states)@.len() == old(states)@.len(),
        forall|bb: int|
            0 <= bb < final(states)@.len() ==> (#[trigger] final(states)@[bb])@.len() == prog.bodies@[func as int].slot_count,
        stack_view(final(stack)@) == stack_view(old(stack)@),
    decreases fuel, 3nat, iters,
{
    let changed = run_pass(prog, info, func, states, map, findings, stack, fuel);
    if changed {
        solve(prog, info, func, states, map, findings, stack, fuel, Ghost((iters - 1) as nat));
    }
}

/// Analyze one body under an initial taint vector: seed the entry
/// block, iterate to the fixpoint, and return the body's taint
/// summary.  The alias overlay, the findings and the in-progress
/// stack are shared with the enclosing run.
#[verifier::loop_isolation(false)]
pub fn analyze_body(
    prog: &Program,
    info: &AttrInfo,
    func: FuncId,
    init: &Vec<Option<bool>>,
    map: &mut PointsMap,
    findings: &mut Vec<TaintedSink>,
    stack: &mut Vec<(FuncId, Vec<Option<bool>>)>,
    fuel: usize,
) -> (summary: TaintState)
    requires
        program_wf(*prog),
        bodies_available(*prog, *info),
        func < prog.bodies@.len(),
    ensures
        ({
            let r = analyze_effect(
                *prog,
                *info,
                func,
                init@,
                old(map)@,
                old(findings)@,
                stack_view(old(stack)@),
                fuel as nat,
            );
            summary@ == r.0 && final(map)@ == r.1 && final(findings)@ == r.2
        }),
        stack_view(final(stack)@) == stack_view(old(stack)@),
    decreases fuel, 4nat, 0nat,
{
    let ghost bd = prog.bodies@[func as int];
    let ghost e0 = map@;
    let ghost f0 = findings@;
    let ghost stk0 = stack_view(stack@);
    let body = &prog.bodies[func];
    let n_blocks = body.blocks.len();
    let n_slots = body.slot_count;
    proof {
        assert(crate::ir::body_wf(bd));
    }
    let ghost n_slots_n = n_slots as nat;
    let ghost bottoms = Seq::new(n_blocks as nat, |b: int| Seq::new(n_slots_n, |j: int| false));

    let mut states: Vec<TaintState> = Vec::new();
    let mut b: usize = 0;
    while b < n_blocks
        invariant
            b <= n_blocks,
            states@.len() == b,
            forall|bb: int|
                0 <= bb < b ==> (#[trigger] states@[bb])@ == Seq::new(n_slots_n, |j: int| false),
        decreases n_blocks - b,
    {
        let st = TaintState::bottom(n_slots);
        proof {
            assert(st@ =~= Seq::new(n_slots_n, |j: int| false));
        }
        states.push(st);
        b += 1;
    }

    let mut entry = TaintState::bottom(n_slots);
    let m = if init.len() <= body.arg_count {
        init.len()
    } else {
        body.arg_count
    };
    let mut i: usize = 0;
    while i < m
        invariant
            i <= m,
            m <= body.arg_count,
            m <= init@.len(),
            entry@.len() == n_slots,
            forall|j: int|
                0 <= j < n_slots ==> entry@[j] == (1 <= j <= i && init@[j - 1] == Some(true)),
        decreases m - i,
    {
        let seeded = match init[i] {
            Some(tv) => tv,
            None => false,
        };
        if seeded {
            entry.set_taint(i + 1, true);
        }
        i += 1;
    }
    proof {
        assert(entry@ =~= seed_state(n_slots_n, bd.arg_count as nat, init@));
    }
    states.set(0, entry);
    let ghost states0 = bottoms.update(0, seed_state(n_slots_n, bd.arg_count as nat, init@));
    proof {
        assert forall|bb: int| 0 <= bb < n_blocks implies states_view(states@)[bb] == states0[bb]
        by {
            if bb != 0 {
                assert(states_view(states@)[bb] =~= Seq::new(n_slots_n, |j: int| false));
            }
        }
        assert(states_view(states@) =~= states0);
    }

    let ghost iters = free_total(states_view(states@)) + 1;
    solve(prog, info, func, &mut states, map, findings, stack, fuel, Ghost(iters));
    let ghost solved_states = states_view(states@);
    let ghost e1 = map@;

    let mut summary = TaintState::bottom(n_slots);
    proof {
        assert(summary@ =~= Seq::new(n_slots_n, |j: int| false));
    }
    let mut b2: usize = 0;
    while b2 < n_blocks
        invariant
            b2 <= n_blocks,
            states@.len() == n_blocks,
            forall|bb: int|
                0 <= bb < states@.len() ==> (#[trigger] states@[bb])@.len() == n_slots,
            states_view(states@) == solved_states,
            summary@.len() == n_slots,
            summary_from(bd, solved_states, map@, b2 as int, summary@) == summary_from(
                bd,
                solved_states,
                e1,
                0,
                Seq::new(n_slots_n, |j: int| false),
            ),
            findings@ == solve_effect(
                *prog,
                *info,
                func,
                bd,
                states0,
                e0,
                f0,
                stk0,
                fuel as nat,
                iters,
            ).2,
            stack_view(stack@) == stk0,
        decreases n_blocks - b2,
    {
        let blk = &body.blocks[b2];
        let is_return = match &blk.terminator {
            Terminator::Return => true,
            _ => false,
        };
        if is_return {
            let ghost e_b = map@;
            let mut sb = states[b2].duplicate();
            let ghost entry2 = sb@;
            let ms = blk.statements.len();
            let mut si: usize = 0;
            while si < ms
                invariant
                    si <= ms,
                    sb@ == stmts_effect(entry2, e_b, blk.statements@.take(si as int)).0,
                    map@ == stmts_effect(entry2, e_b, blk.statements@.take(si as int)).1,
                    sb@.len() == entry2.len(),
                decreases ms - si,
            {
                apply_statement(&mut sb, map, &blk.statements[si]);
                proof {
                    let pre = blk.statements@.take(si as int);
                    let post = blk.statements@.take(si as int + 1);
                    assert(post.drop_last() =~= pre);
                    assert(post.last() == blk.statements@[si as int]);
                }
                si += 1;
            }
            proof {
                assert(blk.statements@.take(ms as int) =~= blk.statements@);
            }
            let _ = summary.join(&sb);
        }
        b2 += 1;
    }
    summary
}

} // verus!
