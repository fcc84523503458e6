//! The top-level driver: validate the program against the
//! classification, run the analysis from the entry function, and hand
//! the findings back.

use vstd::prelude::*;

use crate::attributes::AttrInfo;
use crate::errors::{AnalysisError, TaintedSink};
use crate::ir::{
    bodies_available, check_bodies_available, check_program, program_wf, FuncId, Program,
};
use crate::points::PointsMap;
use crate::taint_analysis::{analyze_body, eval_effect, MAX_CALL_DEPTH};

verus! {

/// Knobs of one analysis run.
pub struct TaintConfig {
    pub ownership: bool,
}

impl Default for TaintConfig {
    /// Ownership-aware tracking off.
    fn default() -> (r: TaintConfig)
        ensures
            !r.ownership,
    {
        TaintConfig { ownership: false }
    }
}

/// Analyze the program from its entry function and report every
/// tainted sink.  Fails, before any dataflow runs, when the entry
/// function has no body, when some body is malformed, or when an
/// unclassified call target has no body to look up.
pub fn eval_main(
    prog: &Program,
    info: &AttrInfo,
    main_id: FuncId,
    config: TaintConfig,
) -> (r: Result<Vec<TaintedSink>, AnalysisError>)
    ensures
        (main_id >= prog.bodies@.len()) <==> r == Err::<Vec<TaintedSink>, AnalysisError>(
            AnalysisError::MissingEntry,
        ),
        (main_id < prog.bodies@.len() && !program_wf(*prog)) <==> r == Err::<
            Vec<TaintedSink>,
            AnalysisError,
        >(AnalysisError::MalformedBody),
        (main_id < prog.bodies@.len() && program_wf(*prog) && !bodies_available(*prog, *info))
            <==> r == Err::<Vec<TaintedSink>, AnalysisError>(AnalysisError::MissingBody),
        (main_id < prog.bodies@.len() && program_wf(*prog) && bodies_available(*prog, *info)) ==> (
        r matches Ok(findings) && findings@ == eval_effect(*prog, *info, main_id)),
{
    let _ = config;
    if main_id >= prog.bodies.len() {
        return Err(AnalysisError::MissingEntry);
    }
    if !check_program(prog) {
        return Err(AnalysisError::MalformedBody);
    }
    if !check_bodies_available(prog, info) {
        return Err(AnalysisError::MissingBody);
    }
    let mut map = PointsMap::new();
    let mut findings: Vec<TaintedSink> = Vec::new();
    let mut stack: Vec<(FuncId, Vec<Option<bool>>)> = Vec::new();
    let init: Vec<Option<bool>> = Vec::new();
    proof {
        assert(findings@ =~= Seq::<TaintedSink>::empty());
        assert(init@ =~= Seq::<Option<bool>>::empty());
        assert(crate::taint_analysis::stack_view(stack@) =~= Seq::<
            (FuncId, Seq<Option<bool>>),
        >::empty());
    }
    let _summary = analyze_body(
        prog,
        info,
        main_id,
        &init,
        &mut map,
        &mut findings,
        &mut stack,
        MAX_CALL_DEPTH,
    );
    Ok(findings)
}

} // verus!
