//! The parts of a proof.

use vstd::prelude::*;
use crate::config::StarkGenericConfig;

verus! {

/// The commitments that the prover sent.
#[derive(Debug)]
pub struct Commitments<Com> {
    /// To the main trace.
    pub trace: Com,
    /// To the auxiliary trace, where there is one.
    pub aux: Option<Com>,
    /// To the chunks of the quotient polynomial.
    pub quotient_chunks: Com,
    /// To the polynomial that hides the others, under zero knowledge.
    pub random: Option<Com>,
}

/// What the committed polynomials are claimed to be at the out-of-domain point, and some of them
/// at the point after it.
#[derive(Debug)]
pub struct OpenedValues<EF> {
    pub trace_local: Vec<EF>,
    pub trace_next: Vec<EF>,
    pub aux_trace_local: Option<Vec<EF>>,
    pub aux_trace_next: Option<Vec<EF>>,
    pub preprocessed_local: Option<Vec<EF>>,
    pub preprocessed_next: Option<Vec<EF>>,
    pub quotient_chunks: Vec<Vec<EF>>,
    pub random: Option<Vec<EF>>,
}

/// A proof.
pub struct Proof<SC: StarkGenericConfig> {
    pub commitments: Commitments<SC::Commitment>,
    pub opened_values: OpenedValues<SC::Challenge>,
    pub opening_proof: SC::OpeningProof,
    /// The last values of the auxiliary columns.
    pub aux_finals: Vec<SC::Challenge>,
    /// The logarithm of the length of the trace.
    pub degree_bits: usize,
}

} // verus!
