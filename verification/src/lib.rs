//! A taint dataflow analysis over a small control-flow-graph IR.
//!
//! Values are tracked per function-local variable slot.  Taint enters
//! through calls classified as sources, is removed by sanitizers, and
//! must never reach a sink; a tainted operand handed to a sink is
//! reported as a finding.  The engine is a forward fixpoint solver over
//! the CFG with a conservative join, an alias overlay for references,
//! and a context-sensitive interprocedural driver.

pub mod attributes;
pub mod errors;
pub mod eval;
pub mod ir;
pub mod points;
pub mod summaries;
pub mod sysroot;
pub mod taint_analysis;
pub mod taint_domain;
