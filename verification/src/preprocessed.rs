//! The preprocessed trace of an AIR against what a proof opens of it.

use vstd::prelude::*;
use crate::air::MidenAir;
use crate::config::{RowMajorMatrix, StarkGenericConfig};
use crate::domain::PolynomialSpace;
use crate::error::VerificationError;
use crate::stark_proof::OpenedValues;

verus! {

/// The number of values, where there are any.
pub open spec fn opened_len<EF>(values: Option<Vec<EF>>) -> nat {
    match values {
        Some(v) => v@.len(),
        None => 0,
    }
}

/// The number of columns of the preprocessed trace.
pub open spec fn preprocessed_width<SC: StarkGenericConfig, A: MidenAir<SC>>(air: A) -> usize {
    match air.preprocessed_spec() {
        Some((_, width)) => width,
        None => 0,
    }
}

/// The proof opens both rows of the preprocessed trace to as many values as it has columns.
pub open spec fn preprocessed_matches<SC: StarkGenericConfig, A: MidenAir<SC>>(
    air: A,
    opened_values: OpenedValues<SC::Challenge>,
) -> bool {
    let width = preprocessed_width::<SC, A>(air);
    &&& opened_len(opened_values.preprocessed_local) == width
    &&& opened_len(opened_values.preprocessed_next) == width
}

/// The preprocessed trace is not under zero knowledge, and it is as long as the domain.
pub open spec fn can_be_committed<SC: StarkGenericConfig, A: MidenAir<SC>>(
    config: SC,
    air: A,
    trace_domain: SC::Domain,
) -> bool {
    let (values, width) = air.preprocessed_spec()->0;
    config.is_zk_spec() == 0 && values.len() / (width as nat) == trace_domain.size_spec()
}

/// The width of the preprocessed trace and the commitment to it, or the error where the proof
/// opens it to another number of values. Nothing is said of a trace that cannot be committed to.
pub open spec fn preprocessed_verdict<SC: StarkGenericConfig, A: MidenAir<SC>>(
    config: SC,
    air: A,
    opened_values: OpenedValues<SC::Challenge>,
    trace_domain: SC::Domain,
) -> Option<Result<(usize, Option<SC::Commitment>), VerificationError<SC::PcsError>>> {
    let width = preprocessed_width::<SC, A>(air);
    if !preprocessed_matches::<SC, A>(air, opened_values) {
        Some(Err(VerificationError::MyError(2)))
    } else if width == 0 {
        Some(Ok((0, None)))
    } else if !can_be_committed::<SC, A>(config, air, trace_domain) {
        None
    } else {
        let (values, _) = air.preprocessed_spec()->0;
        Some(Ok((width, Some(config.commitment_spec(trace_domain, values, width)))))
    }
}

/// Validates and commits the preprocessed trace if present.
/// Returns the preprocessed width and its commitment hash (available iff width > 0).
///
/// A trace that the proof opens must not be under zero knowledge, and must be as long as the
/// domain.
pub fn process_preprocessed_trace<SC: StarkGenericConfig, A: MidenAir<SC>>(
    config: &SC,
    air: &A,
    opened_values: &OpenedValues<SC::Challenge>,
    trace_domain: SC::Domain,
) -> (r: Result<(usize, Option<SC::Commitment>), VerificationError<SC::PcsError>>)
    requires
        preprocessed_matches::<SC, A>(*air, *opened_values) && preprocessed_width::<SC, A>(*air) > 0
            ==> can_be_committed::<SC, A>(*config, *air, trace_domain),
    ensures
        Some(r) == preprocessed_verdict::<SC, A>(*config, *air, *opened_values, trace_domain),
        r matches Ok((width, commitment)) ==> (commitment is Some <==> width > 0),
{
    try_process_preprocessed_trace(config, air, opened_values, trace_domain).unwrap()
}

/// As `process_preprocessed_trace`, or none where the proof opens the preprocessed trace to the
/// right number of values, but the trace is under zero knowledge or not as long as the domain.
pub fn try_process_preprocessed_trace<SC: StarkGenericConfig, A: MidenAir<SC>>(
    config: &SC,
    air: &A,
    opened_values: &OpenedValues<SC::Challenge>,
    trace_domain: SC::Domain,
) -> (r: Option<Result<(usize, Option<SC::Commitment>), VerificationError<SC::PcsError>>>)
    ensures
        r == preprocessed_verdict::<SC, A>(*config, *air, *opened_values, trace_domain),
        r is None <==> preprocessed_matches::<SC, A>(*air, *opened_values) && preprocessed_width::<
            SC,
            A,
        >(*air) > 0 && !can_be_committed::<SC, A>(*config, *air, trace_domain),
        r matches Some(Ok((width, commitment))) ==> (commitment is Some <==> width > 0),
{
    // If verifier asked for preprocessed trace, then proof should have it
    let preprocessed: Option<RowMajorMatrix<SC::Val>> = air.preprocessed_trace();
    let width: usize = match &preprocessed {
        Some(m) => m.width,
        None => 0,
    };
    let local_len: usize = match &opened_values.preprocessed_local {
        Some(v) => v.len(),
        None => 0,
    };
    let next_len: usize = match &opened_values.preprocessed_next {
        Some(v) => v.len(),
        None => 0,
    };
    if width != local_len || width != next_len {
        // Verifier expects preprocessed trace while proof does not have it, or vice versa
        return Some(Err(VerificationError::MyError(2)));
    }
    match preprocessed {
        Some(trace) => {
            if width == 0 {
                return Some(Ok((width, None)));
            }
            // Preprocessed columns are not supported in zk mode
            if config.is_zk() != 0 {
                return None;
            }
            let height: usize = trace.values.len() / width;
            if height != trace_domain.size() {
                return None;
            }
            let commitment: SC::Commitment = config.commit(trace_domain, &trace);
            Some(Ok((width, Some(commitment))))
        },
        None => Some(Ok((width, None))),
    }
}

} // verus!
