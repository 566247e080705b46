use vstd::prelude::*;

verus! {

/// The error kinds that the library and its drivers report. All of them are
/// fatal to the current run except `NoEligibleMutationTarget`, which is
/// recoverable: the orchestrator retries with another operator kind or
/// reports the round as having no eligible mutation.
#[derive(Clone, Copy, Debug, PartialEq, Eq, Structural)]
pub enum ErrorKind {
    /// A predicate tag did not resolve to any relational node.
    PredicateNotFound,
    /// A structural invariant of the annotated dependency graph was broken:
    /// a contradictory ancestry merge, propagation reaching a non-relational
    /// node, a missing output predicate, or a stratum beyond any bound a
    /// stratifiable program could produce.
    GraphInvariantViolation,
    /// No relational node satisfies the ancestry constraint of the requested
    /// transformation class this round.
    NoEligibleMutationTarget,
    /// Fresh-name generation failed after its bounded number of retries.
    NameGenerationExhausted,
    /// The external program adapter rejected a staged edit on commit.
    ValidationFailure,
    /// Writing a run artifact failed.
    IOFailure,
}

} // verus!
