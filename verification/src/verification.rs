//! The verifier.

use vstd::prelude::*;
use crate::acceptance::{accepted, law_accepted};
use crate::air::{AirWithBoundaryConstraints, MidenAir};
use crate::bus::{BusType, bus_verdict, check_buses, tables_of};
use crate::config::{StarkGenericConfig, TranscriptItem};
use crate::constraints::{
    aux_rows, both_rows, constraint_verdict, slice_contents, try_verify_constraints,
};
use crate::domain::PolynomialSpace;
use crate::error::{VerificationError, is_ok};
use crate::field::ExtensionField;
use crate::layout::{Layout, LayoutModel, layout_spec, plan_layout};
use crate::openings::{claims_spec, collect_claims};
use crate::preprocessed::{preprocessed_verdict, try_process_preprocessed_trace};
use crate::quotient::{
    chunks_fit, domains_separated, recomposed, try_recompose_quotient_from_chunks, vectors_of,
};
use crate::shape::{ExpectedShape, check_shape, shape_verdict};
use crate::stark_proof::Proof;
use crate::transcript::{
    TranscriptOf, aux_transcript, draw_randomness, instance_transcript, observe_aux,
    observe_instance, observe_quotient, quotient_transcript, randomness_spec,
};

verus! {

/// What a verifier says: nothing, where the proof or the statement asks for an operation that is
/// not defined, and otherwise whether the proof is accepted.
pub type Verdict<SC> = Option<
    Result<(), VerificationError<<SC as StarkGenericConfig>::PcsError>>,
>;

/// The contents of a vector, where there is one.
pub open spec fn vector_contents<T>(v: Option<Vec<T>>) -> Option<Seq<T>> {
    match v {
        Some(v) => Some(v@),
        None => None,
    }
}

/// How many values of each kind a proof must open.
pub open spec fn expected_shape<SC: StarkGenericConfig, A: MidenAir<SC>>(
    air: A,
    layout: LayoutModel<SC::Domain>,
) -> ExpectedShape {
    ExpectedShape {
        air_width: air.width_spec(),
        quotient_degree: layout.quotient_degree,
        aux_width: air.aux_width_spec(),
        num_randomness: air.num_randomness_spec(),
        dimension: SC::Challenge::dimension_spec() as usize,
    }
}

/// What of a statement and a proof the checks after the layout depend on.
pub struct Instance<SC: StarkGenericConfig> {
    pub trace_domain: SC::Domain,
    pub preprocessed_width: usize,
    pub preprocessed_commit: Option<SC::Commitment>,
    pub layout: LayoutModel<SC::Domain>,
}

/// The challenges of a proof, and the transcript after the last of them was drawn.
pub struct Challenges<SC: StarkGenericConfig> {
    /// For the auxiliary trace.
    pub randomness: Seq<SC::Challenge>,
    /// To combine all constraint polynomials into a single one.
    pub alpha: SC::Challenge,
    /// The out-of-domain point.
    pub zeta: SC::Challenge,
    pub transcript: TranscriptOf<SC>,
}

/// The challenges of a proof.
pub open spec fn challenges_spec<SC: StarkGenericConfig, A: MidenAir<SC>>(
    config: SC,
    air: A,
    prf: Proof<SC>,
    public_values: Seq<SC::Val>,
    instance: Instance<SC>,
) -> Challenges<SC> {
    let n = air.num_randomness_spec() as nat;
    let t_instance = instance_transcript::<SC>(
        config,
        prf,
        instance.preprocessed_width,
        instance.preprocessed_commit,
        public_values,
    );
    let t_aux = aux_transcript::<SC>(prf, t_instance, n);
    let t_quotient = quotient_transcript::<SC>(prf, t_aux);
    Challenges {
        randomness: randomness_spec::<SC>(config, t_instance, n),
        alpha: config.draw_spec(t_aux),
        zeta: config.draw_spec(t_quotient),
        transcript: t_quotient.push(TranscriptItem::Draw),
    }
}

/// A proof hides its values exactly where the commitment scheme does.
pub open spec fn randomization_matches<SC: StarkGenericConfig>(config: SC, prf: Proof<SC>) -> bool {
    &&& prf.opened_values.random is Some <==> config.pcs_zk_spec()
    &&& prf.commitments.random is Some <==> config.pcs_zk_spec()
}

/// What is said of a proof whose openings were accepted: the final values of the buses are checked
/// first, and then the constraints.
pub open spec fn algebra_verdict<SC: StarkGenericConfig, A: MidenAir<SC>>(
    air: A,
    prf: Proof<SC>,
    public_values: Seq<SC::Val>,
    tables: Seq<Seq<Seq<SC::Val>>>,
    layout: LayoutModel<SC::Domain>,
    randomness: Seq<SC::Challenge>,
    alpha: SC::Challenge,
    zeta: SC::Challenge,
) -> Verdict<SC> {
    let opened = prf.opened_values;
    if !domains_separated::<SC::Val, SC::Challenge, SC::Domain>(layout.chunks) {
        None
    } else {
        match bus_verdict::<SC::Val, SC::Challenge, SC::PcsError>(
            air.bus_types_spec(),
            prf.aux_finals@,
            randomness,
            tables,
        ) {
            Some(Ok(_)) => constraint_verdict::<
                SC,
                AirWithBoundaryConstraints<'_, A>,
                SC::PcsError,
            >(
                AirWithBoundaryConstraints { inner: &air },
                (opened.trace_local@, opened.trace_next@),
                both_rows(
                    vector_contents(opened.preprocessed_local),
                    vector_contents(opened.preprocessed_next),
                ),
                aux_rows::<SC::Val, SC::Challenge>(
                    vector_contents(opened.aux_trace_local),
                    vector_contents(opened.aux_trace_next),
                ),
                randomness,
                prf.aux_finals@,
                public_values,
                layout.init_trace_domain,
                zeta,
                alpha,
                recomposed(
                    layout.chunks,
                    vectors_of(opened.quotient_chunks@),
                    zeta,
                ),
            ),
            verdict => verdict,
        }
    }
}

/// What is said of a proof, given what the commitment scheme says of its openings: these are
/// judged before the buses and the constraints.
pub open spec fn opened_verdict<SC: StarkGenericConfig, A: MidenAir<SC>>(
    openings: Result<(), SC::PcsError>,
    air: A,
    prf: Proof<SC>,
    public_values: Seq<SC::Val>,
    tables: Seq<Seq<Seq<SC::Val>>>,
    layout: LayoutModel<SC::Domain>,
    randomness: Seq<SC::Challenge>,
    alpha: SC::Challenge,
    zeta: SC::Challenge,
) -> Verdict<SC> {
    match openings {
        Err(e) => Some(Err(VerificationError::InvalidOpeningArgument(e))),
        Ok(_) => algebra_verdict::<SC, A>(
            air,
            prf,
            public_values,
            tables,
            layout,
            randomness,
            alpha,
            zeta,
        ),
    }
}

/// What is said of a proof that has the right shape.
pub open spec fn opening_verdict<SC: StarkGenericConfig, A: MidenAir<SC>>(
    config: SC,
    air: A,
    prf: Proof<SC>,
    public_values: Seq<SC::Val>,
    tables: Seq<Seq<Seq<SC::Val>>>,
    instance: Instance<SC>,
) -> Verdict<SC> {
    let challenges = challenges_spec::<SC, A>(config, air, prf, public_values, instance);
    match instance.layout.init_trace_domain.next_point_spec(challenges.zeta) {
        None => Some(Err(VerificationError::NextPointUnavailable)),
        Some(zeta_next) => if instance.layout.randomized.len()
            != prf.opened_values.quotient_chunks@.len() {
            Some(Err(VerificationError::MyError(6)))
        } else {
            opened_verdict::<SC, A>(
                config.opening_verdict(
                    claims_spec::<SC>(
                        prf,
                        instance.trace_domain,
                        instance.layout.randomized,
                        instance.preprocessed_commit,
                        challenges.zeta,
                        zeta_next,
                    ),
                    prf.opening_proof,
                    challenges.transcript,
                ),
                air,
                prf,
                public_values,
                tables,
                instance.layout,
                challenges.randomness,
                challenges.alpha,
                challenges.zeta,
            )
        },
    }
}

/// What is said of a proof once its domains are laid out.
pub open spec fn instance_verdict<SC: StarkGenericConfig, A: MidenAir<SC>>(
    config: SC,
    air: A,
    prf: Proof<SC>,
    public_values: Seq<SC::Val>,
    tables: Seq<Seq<Seq<SC::Val>>>,
    instance: Instance<SC>,
) -> Verdict<SC> {
    if !randomization_matches::<SC>(config, prf) {
        Some(Err(VerificationError::RandomizationError))
    } else if prf.degree_bits < config.is_zk_spec() {
        None
    } else {
        match shape_verdict(
            prf.opened_values,
            prf.aux_finals@,
            expected_shape::<SC, A>(air, instance.layout),
        ) {
            None => None,
            Some(Err(code)) => Some(Err(VerificationError::MyError(code))),
            Some(Ok(_)) => if air.num_randomness_spec() > 0 && prf.commitments.aux is None {
                Some(Err(VerificationError::MyError(4)))
            } else if air.num_randomness_spec() == 0 && prf.commitments.aux is Some {
                Some(Err(VerificationError::MyError(5)))
            } else {
                opening_verdict::<SC, A>(config, air, prf, public_values, tables, instance)
            },
        }
    }
}

/// What the verifier says of a proof.
pub open spec fn verdict<SC: StarkGenericConfig, A: MidenAir<SC>>(
    config: SC,
    air: A,
    prf: Proof<SC>,
    public_values: Seq<SC::Val>,
    tables: Seq<Seq<Seq<SC::Val>>>,
) -> Verdict<SC> {
    if prf.degree_bits >= usize::BITS {
        None
    } else {
        match config.natural_domain_spec(1usize << prf.degree_bits) {
            None => None,
            Some(trace_domain) => match preprocessed_verdict::<SC, A>(
                config,
                air,
                prf.opened_values,
                trace_domain,
            ) {
                None => None,
                Some(Err(e)) => Some(Err(e)),
                Some(Ok((preprocessed_width, preprocessed_commit))) => match layout_spec::<SC, A>(
                    config,
                    air,
                    prf.degree_bits,
                    trace_domain,
                    preprocessed_width,
                    public_values.len() as usize,
                ) {
                    None => None,
                    Some(layout) => instance_verdict::<SC, A>(
                        config,
                        air,
                        prf,
                        public_values,
                        tables,
                        Instance { trace_domain, preprocessed_width, preprocessed_commit, layout },
                    ),
                },
            },
        }
    }
}

/// Verifies a proof: it is accepted exactly where everything holds that a proof is accepted for,
/// and otherwise the error says what was the first to fail.
pub fn verify<SC: StarkGenericConfig, A: MidenAir<SC>>(
    config: &SC,
    air: &A,
    prf: &Proof<SC>,
    public_values: &[SC::Val],
    var_length_public_inputs: &[&[&[SC::Val]]],
) -> (r: Result<(), VerificationError<SC::PcsError>>)
    requires
        verdict::<SC, A>(
            *config,
            *air,
            *prf,
            public_values@,
            tables_of(var_length_public_inputs@),
        ) is Some,
    ensures
        Some(r) == verdict::<SC, A>(
            *config,
            *air,
            *prf,
            public_values@,
            tables_of(var_length_public_inputs@),
        ),
        r is Ok <==> accepted::<SC, A>(
            *config,
            *air,
            *prf,
            public_values@,
            tables_of(var_length_public_inputs@),
        ),
{
    try_verify(config, air, prf, public_values, var_length_public_inputs).unwrap()
}

/// As `verify`, or none where the proof or the statement asks for an operation that is not
/// defined.
pub fn try_verify<SC: StarkGenericConfig, A: MidenAir<SC>>(
    config: &SC,
    air: &A,
    prf: &Proof<SC>,
    public_values: &[SC::Val],
    var_length_public_inputs: &[&[&[SC::Val]]],
) -> (r: Option<Result<(), VerificationError<SC::PcsError>>>)
    ensures
        r == verdict::<SC, A>(
            *config,
            *air,
            *prf,
            public_values@,
            tables_of(var_length_public_inputs@),
        ),
        is_ok(r) <==> accepted::<SC, A>(
            *config,
            *air,
            *prf,
            public_values@,
            tables_of(var_length_public_inputs@),
        ),
{
    proof {
        law_accepted::<SC, A>(
            *config,
            *air,
            *prf,
            public_values@,
            tables_of(var_length_public_inputs@),
        );
    }
    if prf.degree_bits >= usize::BITS as usize {
        return None;
    }
    let degree: usize = 1usize << prf.degree_bits;
    let trace_domain: SC::Domain = match config.natural_domain_for_degree(degree) {
        Some(domain) => domain,
        None => {
            return None;
        },
    };
    let (preprocessed_width, preprocessed_commit): (usize, Option<SC::Commitment>) =
        match try_process_preprocessed_trace(config, air, &prf.opened_values, trace_domain) {
        None => {
            return None;
        },
        Some(Err(e)) => {
            return Some(Err(e));
        },
        Some(Ok(found)) => found,
    };
    let layout: Layout<SC::Domain> = match plan_layout(
        config,
        air,
        prf.degree_bits,
        trace_domain,
        preprocessed_width,
        public_values.len(),
    ) {
        Some(layout) => layout,
        None => {
            return None;
        },
    };
    verify_instance(
        config,
        air,
        prf,
        public_values,
        var_length_public_inputs,
        trace_domain,
        preprocessed_width,
        &preprocessed_commit,
        &layout,
    )
}

/// Verifies a proof once its domains are laid out.
fn verify_instance<SC: StarkGenericConfig, A: MidenAir<SC>>(
    config: &SC,
    air: &A,
    prf: &Proof<SC>,
    public_values: &[SC::Val],
    var_length_public_inputs: &[&[&[SC::Val]]],
    trace_domain: SC::Domain,
    preprocessed_width: usize,
    preprocessed_commit: &Option<SC::Commitment>,
    layout: &Layout<SC::Domain>,
) -> (r: Option<Result<(), VerificationError<SC::PcsError>>>)
    requires
        preprocessed_commit is Some ==> prf.opened_values.preprocessed_local is Some
            && prf.opened_values.preprocessed_next is Some,
        layout.randomized_quotient_chunks_domains@.len() == layout.quotient_chunks_domains@.len(),
    ensures
        r == instance_verdict::<SC, A>(
            *config,
            *air,
            *prf,
            public_values@,
            tables_of(var_length_public_inputs@),
            Instance {
                trace_domain,
                preprocessed_width,
                preprocessed_commit: *preprocessed_commit,
                layout: layout@,
            },
        ),
{
    // Check that the random commitments are/are not present depending on the ZK setting.
    // - If ZK is enabled, the prover should have random commitments.
    // - If ZK is not enabled, the prover should not have random commitments.
    let zk: bool = config.pcs_zk();
    if prf.opened_values.random.is_some() != zk || prf.commitments.random.is_some() != zk {
        return Some(Err(VerificationError::RandomizationError));
    }
    if prf.degree_bits < config.is_zk() {
        return None;
    }
    let num_randomness: usize = air.num_randomness();
    let shape: ExpectedShape = ExpectedShape {
        air_width: air.width(),
        quotient_degree: layout.quotient_degree,
        aux_width: air.aux_width(),
        num_randomness,
        dimension: SC::Challenge::dimension(),
    };
    match check_shape(&prf.opened_values, &prf.aux_finals, &shape) {
        None => {
            return None;
        },
        Some(Err(code)) => {
            return Some(Err(VerificationError::MyError(code)));
        },
        Some(Ok(_)) => {},
    }
    if num_randomness > 0 {
        if prf.commitments.aux.is_none() {
            return Some(Err(VerificationError::MyError(4)));
        }
    } else {
        // No aux trace expected
        if prf.commitments.aux.is_some() {
            return Some(Err(VerificationError::MyError(5)));
        }
    }

    // Observe the instance.
    let mut challenger: SC::Challenger = config.initialise_challenger();
    observe_instance(
        config,
        &mut challenger,
        prf,
        preprocessed_width,
        preprocessed_commit,
        public_values,
    );
    let randomness: Vec<SC::Challenge> = draw_randomness(config, &mut challenger, num_randomness);
    match &prf.commitments.aux {
        Some(aux_commit) => {
            observe_aux(config, &mut challenger, aux_commit, &prf.aux_finals);
        },
        None => {},
    }

    // Get the first Fiat Shamir challenge which will be used to combine all constraint polynomials
    // into a single polynomial.
    let alpha: SC::Challenge = config.sample_algebra_element(&mut challenger);
    observe_quotient(config, &mut challenger, prf);

    // Get an out-of-domain point to open our values at.
    let zeta: SC::Challenge = config.sample_algebra_element(&mut challenger);
    let zeta_next: SC::Challenge = match layout.init_trace_domain.next_point(zeta) {
        Some(point) => point,
        None => {
            return Some(Err(VerificationError::NextPointUnavailable));
        },
    };
    if layout.randomized_quotient_chunks_domains.len() != prf.opened_values.quotient_chunks.len() {
        return Some(Err(VerificationError::MyError(6)));
    }
    let claims = collect_claims(
        prf,
        trace_domain,
        &layout.randomized_quotient_chunks_domains,
        preprocessed_commit,
        zeta,
        zeta_next,
    );
    let openings: Result<(), SC::PcsError> = config.verify_openings(
        claims,
        &prf.opening_proof,
        &mut challenger,
    );
    verify_opened(
        openings,
        air,
        prf,
        public_values,
        var_length_public_inputs,
        layout,
        randomness.as_slice(),
        alpha,
        zeta,
    )
}

/// Verifies a proof once its challenges are drawn and the commitment scheme has judged its
/// openings: where they are accepted, the final values of the buses and then the constraints are
/// verified. Answers none where the quotient, the final value of a bus or the constraints are not
/// defined.
pub fn verify_opened<SC: StarkGenericConfig, A: MidenAir<SC>>(
    openings: Result<(), SC::PcsError>,
    air: &A,
    prf: &Proof<SC>,
    public_values: &[SC::Val],
    var_length_public_inputs: &[&[&[SC::Val]]],
    layout: &Layout<SC::Domain>,
    randomness: &[SC::Challenge],
    alpha: SC::Challenge,
    zeta: SC::Challenge,
) -> (r: Option<Result<(), VerificationError<SC::PcsError>>>)
    requires
        chunks_fit::<SC::Val, SC::Challenge, SC::Domain>(
            layout.quotient_chunks_domains@,
            vectors_of(prf.opened_values.quotient_chunks@),
        ),
    ensures
        r == opened_verdict::<SC, A>(
            openings,
            *air,
            *prf,
            public_values@,
            tables_of(var_length_public_inputs@),
            layout@,
            randomness@,
            alpha,
            zeta,
        ),
{
    match openings {
        Err(e) => {
            return Some(Err(VerificationError::InvalidOpeningArgument(e)));
        },
        Ok(_) => {},
    }
    let opened = &prf.opened_values;
    let quotient: SC::Challenge = match try_recompose_quotient_from_chunks::<
        SC::Val,
        SC::Challenge,
        SC::Domain,
    >(layout.quotient_chunks_domains.as_slice(), opened.quotient_chunks.as_slice(), zeta) {
        Some(quotient) => quotient,
        None => {
            return None;
        },
    };

    // Verify the aux trace final values match the expected values if the aux trace contains buses
    // (one bus per aux column). If no buses are defined, the boundary values of the aux trace are
    // not checked against the provided variable-length public inputs.
    let bus_types: Vec<BusType> = air.bus_types();
    match check_buses::<SC::Val, SC::Challenge, SC::PcsError>(
        &bus_types,
        &prf.aux_finals,
        randomness,
        var_length_public_inputs,
    ) {
        Some(Ok(_)) => {},
        refused => {
            return refused;
        },
    }

    let bounded: AirWithBoundaryConstraints<'_, A> = AirWithBoundaryConstraints { inner: air };
    try_verify_constraints::<SC, AirWithBoundaryConstraints<'_, A>, SC::PcsError>(
        &bounded,
        opened.trace_local.as_slice(),
        opened.trace_next.as_slice(),
        optional_slice(&opened.preprocessed_local),
        optional_slice(&opened.preprocessed_next),
        optional_slice(&opened.aux_trace_local),
        optional_slice(&opened.aux_trace_next),
        randomness,
        prf.aux_finals.as_slice(),
        public_values,
        layout.init_trace_domain,
        zeta,
        alpha,
        quotient,
    )
}

fn optional_slice<T>(v: &Option<Vec<T>>) -> (r: Option<&[T]>)
    ensures
        slice_contents(r) == vector_contents(*v),
{
    match v {
        Some(v) => Some(v.as_slice()),
        None => None,
    }
}

} // verus!
