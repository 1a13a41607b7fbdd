//! Optimization scaffold: the settings and result shape of the optimizer.
//! No pass is implemented yet, so no level changes the program.

use vstd::prelude::*;

verus! {

/// How hard to optimize.
#[derive(Clone, Copy, Debug, PartialEq, Eq, Structural)]
pub enum OptLevel {
    O0,
    O1,
    O2,
    O3,
}

/// Settings of an optimization run.
#[derive(Clone, Copy, Debug, PartialEq, Eq, Structural)]
pub struct OptSettings {
    pub level: OptLevel,
    pub emit_warnings: bool,
}

/// A warning that a pass reports about a step.
#[derive(Debug)]
pub struct OptWarning {
    pub step_id: String,
    pub message: String,
}

/// A function body in the optimizer's form.
#[derive(Debug)]
pub struct OptimizableIR {
    pub steps: Vec<IRStep>,
}

/// One step of a body.
#[derive(Debug)]
pub struct IRStep {
    pub id: String,
    pub output_binding: String,
    pub kind: IRStepKind,
}

/// What a step does.
#[derive(Debug)]
pub enum IRStepKind {
    Compute { op: String, inputs: Vec<IRInput> },
    Return { from: String },
    Bind { source: IRInput },
}

/// An input of a step.
#[derive(Debug)]
pub enum IRInput {
    Var(String),
    Lit(IRLiteral),
}

/// A literal; a float is held as its IEEE-754 bits.
#[derive(Debug)]
pub enum IRLiteral {
    Int(i64),
    Float(u64),
    Bool(bool),
    String(String),
}

/// Context handed to the passes.
#[derive(Debug)]
pub struct OptContext {
    pub settings: OptSettings,
}

/// Outcome of running the passes.
#[derive(Debug)]
pub struct OptResult {
    /// Whether any pass changed the program.
    pub modified: bool,
    /// The warnings of all passes.
    pub warnings: Vec<OptWarning>,
}

/// Runs the passes that the level selects. None is implemented yet: the
/// program is left as it is and nothing is reported, at every level.
pub fn optimize(ir: &mut OptimizableIR, settings: &OptSettings) -> (r: OptResult)
    ensures
        !r.modified,
        r.warnings@.len() == 0,
        final(ir).steps@ == old(ir).steps@,
{
    let ctx = OptContext { settings: *settings };
    let result = OptResult { modified: false, warnings: Vec::new() };
    match ctx.settings.level {
        OptLevel::O0 => {},
        OptLevel::O1 => {},
        OptLevel::O2 => {},
        OptLevel::O3 => {},
    }
    result
}

} // verus!
