//! Why a proof is rejected.

use vstd::prelude::*;

verus! {

#[derive(Debug)]
pub enum VerificationError<PcsErr> {
    /// A part of the proof does not have the form that the statement asks for; the number says
    /// which.
    MyError(u8),
    InvalidProofShape,
    /// An error occurred while verifying the claimed openings.
    InvalidOpeningArgument(PcsErr),
    /// Out-of-domain evaluation mismatch, i.e. `constraints(zeta)` did not match
    /// `quotient(zeta) Z_H(zeta)`.
    OodEvaluationMismatch { index: Option<usize> },
    /// The FRI batch randomization does not correspond to the ZK setting.
    RandomizationError,
    /// The domain does not support computing the next point algebraically.
    NextPointUnavailable,
    /// The expected bus boundary final values do not match the opened values.
    InvalidBusBoundaryValues,
}

/// Something is said, and it is not an error.
pub open spec fn is_ok<E>(said: Option<Result<(), E>>) -> bool {
    said is Some && said->0 is Ok
}

} // verus!
