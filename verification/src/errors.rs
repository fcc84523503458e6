//! What the analysis reports.  A `TaintedSink` is a finding: it is
//! collected and the run goes on.  An `AnalysisError` is fatal: the
//! run never starts, or stops, because its preconditions do not hold.

use vstd::prelude::*;

use crate::ir::{BlockId, FuncId};

verus! {

/// A sink received an operand whose alias group contains a possibly
/// tainted slot.  Identifies the sink that was called and the call
/// site it was called from.
#[derive(Clone, Copy, PartialEq, Eq, Structural, Debug)]
pub struct TaintedSink {
    /// The sink function the call targets.
    pub sink: FuncId,
    /// The function whose body holds the call.
    pub func: FuncId,
    /// The block of that body whose terminator is the call.
    pub block: BlockId,
}

/// An attribute of the `taint` tool named a variant that is not
/// `source`, `sink` or `sanitizer`.
pub struct InvalidVariant {
    pub attr_name: String,
}

/// A precondition or configuration failure, distinct from a finding:
/// the analysis aborts instead of reporting and going on.
#[derive(Clone, Copy, PartialEq, Eq, Structural, Debug)]
pub enum AnalysisError {
    /// The designated entry function has no body in the program.
    MissingEntry,
    /// Some body refers to a slot or block outside its own bounds.
    MalformedBody,
    /// Some unclassified call target has no body to look up.
    MissingBody,
}

} // verus!
