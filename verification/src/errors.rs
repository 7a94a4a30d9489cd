use vstd::prelude::*;

verus! {

/// Everything that can go wrong during a constraint-check evaluation.
///
/// No error is recovered locally: each one aborts the enclosing call and
/// is surfaced to the caller.
#[derive(Clone, Copy, PartialEq, Eq, Structural, Debug)]
pub enum EvalError {
    /// The register groups or globals have the wrong count, or a buffer
    /// has a size that does not match the requested trace domain.
    InvalidLayout,
    /// The requested domain exceeds the range covered by the precomputed
    /// root-of-unity table.
    DomainTooLarge,
    /// A field inversion was attempted on the additive identity.
    DivisionByZero,
    /// An external execution substrate failed to initialize, launch, or
    /// synchronize.  The verified backends in this crate never raise it;
    /// it exists so that accelerated implementations of the same contract
    /// share one error taxonomy with their callers.
    DispatchFailure,
}

} // verus!
