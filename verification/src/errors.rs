use vstd::prelude::*;

verus! {

/// Every failure the engine can surface. No kind is retried internally:
/// evaluation is deterministic, so each error is reported to the caller.
#[derive(Debug, Clone, PartialEq, Eq)]
pub enum Error {
    /// The node list is malformed: duplicate names, dangling references,
    /// an invalid output slot, or a cycle. Carries an offending node name.
    GraphError(String),
    /// A node name that the model does not contain. Carries that name.
    NotFound(String),
    /// Merging inference facts produced a contradiction at the named node.
    FactConflict(String),
    /// Two known dimensions (or ranks) disagree.
    ShapeConflict,
    /// The inference fixpoint hit its iteration cap before settling.
    AnalysisDidNotConverge,
    /// The number of supplied tensors does not match the declared inputs.
    ArityMismatch,
    /// A tensor was tagged with one datum type and used as another.
    TypeMismatch,
    /// An operator failed on numerically invalid input.
    EvalError,
    /// An operator cannot handle the given arity or shapes at all.
    Unsupported,
    /// A stream ended while data too short to process was still buffered.
    IncompleteStream,
}

} // verus!
