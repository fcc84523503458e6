//! Function summaries: how a function influences the flow of taint,
//! either because it was marked so by an annotation or because the
//! analysis inferred it.

use vstd::prelude::*;

verus! {

/// How a function influences the flow of taint in a program.
#[derive(Clone, Debug)]
pub struct Summary<'a> {
    /// The function name.
    pub name: &'a str,
    pub taint_type: TaintType,
}

/// Whether the role was marked by hand or inferred by the analysis.
#[derive(Clone, Copy, Debug, PartialEq, Eq, Structural)]
pub enum TaintType {
    Marked(Mark),
    Inferred(Infer),
}

/// A role a function was marked with.
#[derive(Clone, Copy, Debug, PartialEq, Eq, Structural)]
pub enum Mark {
    Source,
    Sink,
    Sanitizer,
}

/// A role the analysis inferred for a function.
#[derive(Clone, Copy, Debug, PartialEq, Eq, Structural)]
pub enum Infer {
    Source,
    Sink,
    Sanitizer,
}

} // verus!
