//! When a proof is accepted, and what its rejection says.

use vstd::prelude::*;
use crate::air::{AirWithBoundaryConstraints, MidenAir};
use crate::bus::{BusType, bus_verdict_from, buses_match, num_checked};
use crate::config::{StarkGenericConfig, TranscriptItem};
use crate::constraints::{aux_rows, both_rows, constraint_point};
use crate::domain::PolynomialSpace;
use crate::error::{VerificationError, is_ok};
use crate::field::{ExtensionField, Field};
use crate::laws::law_buses_accepted;
use crate::layout::layout_spec;
use crate::openings::claims_spec;
use crate::preprocessed::preprocessed_verdict;
use crate::quotient::{domains_separated, recomposed, vectors_of};
use crate::shape::{law_shape, valid_shape};
use crate::stark_proof::Proof;
use crate::transcript::{TranscriptOf, aux_transcript, instance_transcript, quotient_transcript};
use crate::verification::{
    Challenges, Instance, algebra_verdict, challenges_spec, expected_shape, instance_verdict,
    randomization_matches, vector_contents, verdict,
};

verus! {

/// The domains of a proof and the commitment to the preprocessed trace, where the statement and
/// the proof determine them.
pub open spec fn instance_spec<SC: StarkGenericConfig, A: MidenAir<SC>>(
    config: SC,
    air: A,
    prf: Proof<SC>,
    public_values: Seq<SC::Val>,
) -> Option<Instance<SC>> {
    if prf.degree_bits >= usize::BITS {
        None
    } else {
        match config.natural_domain_spec(1usize << prf.degree_bits) {
            None => None,
            Some(trace_domain) => match preprocessed_verdict::<SC, A>(
                config,
                air,
                prf.opened_values,
                trace_domain,
            ) {
                Some(Ok((preprocessed_width, preprocessed_commit))) => match layout_spec::<SC, A>(
                    config,
                    air,
                    prf.degree_bits,
                    trace_domain,
                    preprocessed_width,
                    public_values.len() as usize,
                ) {
                    None => None,
                    Some(layout) => Some(
                        Instance { trace_domain, preprocessed_width, preprocessed_commit, layout },
                    ),
                },
                _ => None,
            },
        }
    }
}

/// The proof has the parts that the statement asks for, and the point after the out-of-domain
/// point exists: its openings can be put to the commitment scheme.
pub open spec fn well_posed<SC: StarkGenericConfig, A: MidenAir<SC>>(
    config: SC,
    air: A,
    prf: Proof<SC>,
    public_values: Seq<SC::Val>,
    instance: Instance<SC>,
) -> bool {
    let challenges = challenges_spec::<SC, A>(config, air, prf, public_values, instance);
    &&& randomization_matches::<SC>(config, prf)
    &&& config.is_zk_spec() <= prf.degree_bits
    &&& valid_shape(
        prf.opened_values,
        prf.aux_finals@,
        expected_shape::<SC, A>(air, instance.layout),
    )
    &&& prf.commitments.aux is Some <==> air.num_randomness_spec() > 0
    &&& instance.layout.init_trace_domain.next_point_spec(challenges.zeta) is Some
    &&& instance.layout.randomized.len() == prf.opened_values.quotient_chunks@.len()
}

/// What the commitment scheme says of the claims of a proof.
pub open spec fn openings_of<SC: StarkGenericConfig, A: MidenAir<SC>>(
    config: SC,
    air: A,
    prf: Proof<SC>,
    public_values: Seq<SC::Val>,
    instance: Instance<SC>,
) -> Result<(), SC::PcsError> {
    let challenges = challenges_spec::<SC, A>(config, air, prf, public_values, instance);
    config.opening_verdict(
        claims_spec::<SC>(
            prf,
            instance.trace_domain,
            instance.layout.randomized,
            instance.preprocessed_commit,
            challenges.zeta,
            instance.layout.init_trace_domain.next_point_spec(challenges.zeta)->0,
        ),
        prf.opening_proof,
        challenges.transcript,
    )
}

/// At the out-of-domain point, where the vanishing polynomial is not zero, the constraints, with
/// those on the boundary, are the quotient times the vanishing polynomial.
pub open spec fn constraints_hold<SC: StarkGenericConfig, A: MidenAir<SC>>(
    air: A,
    prf: Proof<SC>,
    public_values: Seq<SC::Val>,
    instance: Instance<SC>,
    challenges: Challenges<SC>,
) -> bool {
    let opened = prf.opened_values;
    let domain = instance.layout.init_trace_domain;
    let vanishing = domain.vanishing_spec(challenges.zeta);
    let point = constraint_point::<SC, AirWithBoundaryConstraints<'_, A>>(
        AirWithBoundaryConstraints { inner: &air },
        (opened.trace_local@, opened.trace_next@),
        both_rows(
            vector_contents(opened.preprocessed_local),
            vector_contents(opened.preprocessed_next),
        ),
        aux_rows::<SC::Val, SC::Challenge>(
            vector_contents(opened.aux_trace_local),
            vector_contents(opened.aux_trace_next),
        )->Ok_0,
        challenges.randomness,
        prf.aux_finals@,
        public_values,
        domain,
        challenges.zeta,
        challenges.alpha,
    );
    &&& vanishing != SC::Challenge::zero_spec()
    &&& air.eval_with_boundary_spec(point) == recomposed(
        instance.layout.chunks,
        vectors_of(opened.quotient_chunks@),
        challenges.zeta,
    ).mul_spec(vanishing)
}

/// Everything that a proof is accepted for.
pub open spec fn accepted<SC: StarkGenericConfig, A: MidenAir<SC>>(
    config: SC,
    air: A,
    prf: Proof<SC>,
    public_values: Seq<SC::Val>,
    tables: Seq<Seq<Seq<SC::Val>>>,
) -> bool {
    match instance_spec::<SC, A>(config, air, prf, public_values) {
        None => false,
        Some(instance) => {
            let challenges = challenges_spec::<SC, A>(config, air, prf, public_values, instance);
            &&& well_posed::<SC, A>(config, air, prf, public_values, instance)
            &&& openings_of::<SC, A>(config, air, prf, public_values, instance) is Ok
            &&& domains_separated::<SC::Val, SC::Challenge, SC::Domain>(instance.layout.chunks)
            &&& buses_match(
                air.bus_types_spec(),
                prf.aux_finals@,
                challenges.randomness,
                tables,
            )
            &&& constraints_hold::<SC, A>(air, prf, public_values, instance, challenges)
        },
    }
}

/// The values of a proof of the right shape can be recomposed.
pub(crate) proof fn lemma_aux_rows<SC: StarkGenericConfig, A: MidenAir<SC>>(
    air: A,
    prf: Proof<SC>,
    instance: Instance<SC>,
)
    requires
        valid_shape(
            prf.opened_values,
            prf.aux_finals@,
            expected_shape::<SC, A>(air, instance.layout),
        ),
    ensures
        aux_rows::<SC::Val, SC::Challenge>(
            vector_contents(prf.opened_values.aux_trace_local),
            vector_contents(prf.opened_values.aux_trace_next),
        ) is Ok,
{
    let dim = SC::Challenge::dimension_spec();
    SC::Challenge::law_dimension();
    vstd::arithmetic::div_mod::lemma_mod_multiples_basic(air.aux_width_spec() as int, dim as int);
}

/// Past the openings, what is left is the buses and the constraints.
proof fn lemma_algebra_accepted<SC: StarkGenericConfig, A: MidenAir<SC>>(
    air: A,
    prf: Proof<SC>,
    public_values: Seq<SC::Val>,
    tables: Seq<Seq<Seq<SC::Val>>>,
    instance: Instance<SC>,
    challenges: Challenges<SC>,
)
    requires
        valid_shape(
            prf.opened_values,
            prf.aux_finals@,
            expected_shape::<SC, A>(air, instance.layout),
        ),
    ensures
        is_ok(
            algebra_verdict::<SC, A>(
                air,
                prf,
                public_values,
                tables,
                instance.layout,
                challenges.randomness,
                challenges.alpha,
                challenges.zeta,
            ),
        ) <==> {
            &&& domains_separated::<SC::Val, SC::Challenge, SC::Domain>(instance.layout.chunks)
            &&& buses_match(
                air.bus_types_spec(),
                prf.aux_finals@,
                challenges.randomness,
                tables,
            )
            &&& constraints_hold::<SC, A>(air, prf, public_values, instance, challenges)
        },
{
    law_buses_accepted::<SC::Val, SC::Challenge, SC::PcsError>(
        air.bus_types_spec(),
        prf.aux_finals@,
        challenges.randomness,
        tables,
    );
    lemma_aux_rows::<SC, A>(air, prf, instance);
}

/// A proof is accepted exactly where its parts are those that the statement asks for, the
/// commitment scheme accepts what it opens, each bus that is checked ends in the value that the
/// public inputs determine, and the constraints hold at the out-of-domain point.
pub proof fn law_accepted<SC: StarkGenericConfig, A: MidenAir<SC>>(
    config: SC,
    air: A,
    prf: Proof<SC>,
    public_values: Seq<SC::Val>,
    tables: Seq<Seq<Seq<SC::Val>>>,
)
    ensures
        is_ok(verdict::<SC, A>(config, air, prf, public_values, tables)) <==> accepted::<SC, A>(
            config,
            air,
            prf,
            public_values,
            tables,
        ),
{
    match instance_spec::<SC, A>(config, air, prf, public_values) {
        None => {},
        Some(instance) => {
            let challenges = challenges_spec::<SC, A>(config, air, prf, public_values, instance);
            let shape = expected_shape::<SC, A>(air, instance.layout);
            assert(verdict::<SC, A>(config, air, prf, public_values, tables) == instance_verdict::<
                SC,
                A,
            >(config, air, prf, public_values, tables, instance));
            law_shape(prf.opened_values, prf.aux_finals@, shape);
            if valid_shape(prf.opened_values, prf.aux_finals@, shape) {
                lemma_algebra_accepted::<SC, A>(
                    air,
                    prf,
                    public_values,
                    tables,
                    instance,
                    challenges,
                );
            }
        },
    }
}

/// The errors that the buses give.
proof fn lemma_bus_errors<F: Field, EF: ExtensionField<F>, PcsErr>(
    bus_types: Seq<BusType>,
    aux_finals: Seq<EF>,
    randomness: Seq<EF>,
    tables: Seq<Seq<Seq<F>>>,
    from: nat,
)
    ensures
        bus_verdict_from::<F, EF, PcsErr>(
            bus_types,
            aux_finals,
            randomness,
            tables,
            from,
        ) matches Some(Err(e)) ==> e == VerificationError::<PcsErr>::MyError(11) || e
            == VerificationError::<PcsErr>::InvalidBusBoundaryValues,
    decreases num_checked(bus_types, aux_finals) - from,
{
    if from < num_checked(bus_types, aux_finals) {
        lemma_bus_errors::<F, EF, PcsErr>(
            bus_types,
            aux_finals,
            randomness,
            tables,
            from + 1,
        );
    }
}

/// A proof is rejected for its openings exactly where it is well posed and the commitment scheme
/// rejects them, and the error is the one that the commitment scheme gave.
pub proof fn law_openings_refused<SC: StarkGenericConfig, A: MidenAir<SC>>(
    config: SC,
    air: A,
    prf: Proof<SC>,
    public_values: Seq<SC::Val>,
    tables: Seq<Seq<Seq<SC::Val>>>,
    e: SC::PcsError,
)
    ensures
        verdict::<SC, A>(config, air, prf, public_values, tables) == Some(
            Err::<(), _>(VerificationError::InvalidOpeningArgument(e)),
        ) <==> (instance_spec::<SC, A>(config, air, prf, public_values) matches Some(instance)
            && well_posed::<SC, A>(config, air, prf, public_values, instance) && openings_of::<
            SC,
            A,
        >(config, air, prf, public_values, instance) == Err::<(), _>(e)),
{
    match instance_spec::<SC, A>(config, air, prf, public_values) {
        None => {},
        Some(instance) => {
            let challenges = challenges_spec::<SC, A>(config, air, prf, public_values, instance);
            let shape = expected_shape::<SC, A>(air, instance.layout);
            assert(verdict::<SC, A>(config, air, prf, public_values, tables) == instance_verdict::<
                SC,
                A,
            >(config, air, prf, public_values, tables, instance));
            law_shape(prf.opened_values, prf.aux_finals@, shape);
            lemma_bus_errors::<SC::Val, SC::Challenge, SC::PcsError>(
                air.bus_types_spec(),
                prf.aux_finals@,
                challenges.randomness,
                tables,
                0,
            );
        },
    }
}

/// A well-posed proof whose openings are accepted and whose buses match is rejected for its
/// constraints exactly where the vanishing polynomial is not zero at the out-of-domain point and
/// the constraints are not the quotient times it there; which of several constraints failed is
/// never said.
pub proof fn law_constraints_refused<SC: StarkGenericConfig, A: MidenAir<SC>>(
    config: SC,
    air: A,
    prf: Proof<SC>,
    public_values: Seq<SC::Val>,
    tables: Seq<Seq<Seq<SC::Val>>>,
    instance: Instance<SC>,
)
    requires
        instance_spec::<SC, A>(config, air, prf, public_values) == Some(instance),
        well_posed::<SC, A>(config, air, prf, public_values, instance),
        openings_of::<SC, A>(config, air, prf, public_values, instance) is Ok,
        domains_separated::<SC::Val, SC::Challenge, SC::Domain>(instance.layout.chunks),
        buses_match(
            air.bus_types_spec(),
            prf.aux_finals@,
            challenges_spec::<SC, A>(config, air, prf, public_values, instance).randomness,
            tables,
        ),
    ensures
        verdict::<SC, A>(config, air, prf, public_values, tables) == Some(
            Err::<(), _>(
                VerificationError::<SC::PcsError>::OodEvaluationMismatch { index: None },
            ),
        ) <==> ({
            let challenges = challenges_spec::<SC, A>(config, air, prf, public_values, instance);
            &&& instance.layout.init_trace_domain.vanishing_spec(challenges.zeta)
                != SC::Challenge::zero_spec()
            &&& !constraints_hold::<SC, A>(air, prf, public_values, instance, challenges)
        }),
{
    let challenges = challenges_spec::<SC, A>(config, air, prf, public_values, instance);
    let shape = expected_shape::<SC, A>(air, instance.layout);
    assert(verdict::<SC, A>(config, air, prf, public_values, tables) == instance_verdict::<SC, A>(
        config,
        air,
        prf,
        public_values,
        tables,
        instance,
    ));
    law_shape(prf.opened_values, prf.aux_finals@, shape);
    law_buses_accepted::<SC::Val, SC::Challenge, SC::PcsError>(
        air.bus_types_spec(),
        prf.aux_finals@,
        challenges.randomness,
        tables,
    );
    lemma_aux_rows::<SC, A>(air, prf, instance);
}

/// Once the domains are laid out, a proof that hides its values where the commitment scheme does
/// not, or the other way round, is rejected for that, and no other proof is.
pub proof fn law_randomization<SC: StarkGenericConfig, A: MidenAir<SC>>(
    config: SC,
    air: A,
    prf: Proof<SC>,
    public_values: Seq<SC::Val>,
    tables: Seq<Seq<Seq<SC::Val>>>,
)
    ensures
        verdict::<SC, A>(config, air, prf, public_values, tables) == Some(
            Err::<(), _>(VerificationError::<SC::PcsError>::RandomizationError),
        ) <==> instance_spec::<SC, A>(config, air, prf, public_values) is Some
            && !randomization_matches::<SC>(config, prf),
{
    match instance_spec::<SC, A>(config, air, prf, public_values) {
        None => {},
        Some(instance) => {
            let challenges = challenges_spec::<SC, A>(config, air, prf, public_values, instance);
            assert(verdict::<SC, A>(config, air, prf, public_values, tables) == instance_verdict::<
                SC,
                A,
            >(config, air, prf, public_values, tables, instance));
            lemma_bus_errors::<SC::Val, SC::Challenge, SC::PcsError>(
                air.bus_types_spec(),
                prf.aux_finals@,
                challenges.randomness,
                tables,
                0,
            );
        },
    }
}

/// The numbers that a rejected proof can be given.
pub open spec fn is_error_number(code: u8) -> bool {
    2 <= code <= 6 || code == 11 || 100 <= code <= 111
}

/// What a rejection can say: the proof's shape is only ever rejected by number, among the numbers
/// listed, and which constraint failed is never said.
pub proof fn law_errors<SC: StarkGenericConfig, A: MidenAir<SC>>(
    config: SC,
    air: A,
    prf: Proof<SC>,
    public_values: Seq<SC::Val>,
    tables: Seq<Seq<Seq<SC::Val>>>,
)
    ensures
        verdict::<SC, A>(config, air, prf, public_values, tables) matches Some(Err(e)) ==> {
            &&& e !is InvalidProofShape
            &&& e matches VerificationError::MyError(code) ==> is_error_number(code)
            &&& e matches VerificationError::OodEvaluationMismatch { index } ==> index is None
        },
{
    match instance_spec::<SC, A>(config, air, prf, public_values) {
        None => {},
        Some(instance) => {
            let challenges = challenges_spec::<SC, A>(config, air, prf, public_values, instance);
            let shape = expected_shape::<SC, A>(air, instance.layout);
            assert(verdict::<SC, A>(config, air, prf, public_values, tables) == instance_verdict::<
                SC,
                A,
            >(config, air, prf, public_values, tables, instance));
            law_shape(prf.opened_values, prf.aux_finals@, shape);
            lemma_bus_errors::<SC::Val, SC::Challenge, SC::PcsError>(
                air.bus_types_spec(),
                prf.aux_finals@,
                challenges.randomness,
                tables,
                0,
            );
            if valid_shape(prf.opened_values, prf.aux_finals@, shape) {
                lemma_aux_rows::<SC, A>(air, prf, instance);
            }
        },
    }
}

/// A challenge depends on what was committed to before it was drawn, and on nothing that comes
/// after: the challenges of the auxiliary trace not on its commitment, the one that combines the
/// constraints not on the quotient, and the out-of-domain point not on what is opened there.
pub proof fn law_challenges_come_first<SC: StarkGenericConfig, A: MidenAir<SC>>(
    config: SC,
    air: A,
    prf: Proof<SC>,
    other: Proof<SC>,
    public_values: Seq<SC::Val>,
    instance: Instance<SC>,
)
    requires
        prf.degree_bits == other.degree_bits,
        prf.commitments.trace == other.commitments.trace,
    ensures
        ({
            let a = challenges_spec::<SC, A>(config, air, prf, public_values, instance);
            let b = challenges_spec::<SC, A>(config, air, other, public_values, instance);
            &&& a.randomness == b.randomness
            &&& prf.commitments.aux == other.commitments.aux && prf.aux_finals@
                == other.aux_finals@ ==> a.alpha == b.alpha
            &&& prf.commitments == other.commitments && prf.aux_finals@ == other.aux_finals@
                ==> a == b
        }),
{
}

/// The transcript of an instance fixes the commitment to the trace, that to the preprocessed
/// trace, and the public values.
proof fn lemma_instance_bound<SC: StarkGenericConfig>(
    config: SC,
    prf: Proof<SC>,
    other: Proof<SC>,
    width: usize,
    commit: Option<SC::Commitment>,
    other_commit: Option<SC::Commitment>,
    public_values: Seq<SC::Val>,
    other_values: Seq<SC::Val>,
)
    requires
        commit is Some <==> other_commit is Some,
        public_values.len() == other_values.len(),
        instance_transcript::<SC>(config, prf, width, commit, public_values)
            == instance_transcript::<SC>(config, other, width, other_commit, other_values),
    ensures
        SC::Val::from_nat_spec(prf.degree_bits as nat) == SC::Val::from_nat_spec(
            other.degree_bits as nat,
        ),
        prf.commitments.trace == other.commitments.trace,
        commit == other_commit,
        public_values == other_values,
{
    let a = instance_transcript::<SC>(config, prf, width, commit, public_values);
    let b = instance_transcript::<SC>(config, other, width, other_commit, other_values);
    let offset: int = if commit is Some {
        5
    } else {
        4
    };
    assert(a[0] == b[0]);
    assert(a[3] == b[3]);
    if commit is Some {
        assert(a[4] == b[4]);
        assert(a[4] == TranscriptItem::<SC::Val, SC::Challenge, SC::Commitment>::Commitment(
            commit->0,
        ));
        assert(b[4] == TranscriptItem::<SC::Val, SC::Challenge, SC::Commitment>::Commitment(
            other_commit->0,
        ));
    }
    assert forall|i: int| 0 <= i < public_values.len() implies public_values[i]
        == other_values[i] by {
        assert(a[offset + i] == TranscriptItem::<SC::Val, SC::Challenge, SC::Commitment>::Value(
            public_values[i],
        ));
        assert(b[offset + i] == TranscriptItem::<SC::Val, SC::Challenge, SC::Commitment>::Value(
            other_values[i],
        ));
    }
}

/// Where there is an auxiliary trace, its transcript fixes its commitment and its last values.
proof fn lemma_aux_bound<SC: StarkGenericConfig>(
    prf: Proof<SC>,
    other: Proof<SC>,
    instance: TranscriptOf<SC>,
    other_instance: TranscriptOf<SC>,
    n: nat,
)
    requires
        instance.len() == other_instance.len(),
        n > 0,
        prf.commitments.aux is Some,
        other.commitments.aux is Some,
        prf.aux_finals@.len() == other.aux_finals@.len(),
        aux_transcript::<SC>(prf, instance, n) == aux_transcript::<SC>(other, other_instance, n),
    ensures
        instance == other_instance,
        prf.commitments.aux == other.commitments.aux,
        prf.aux_finals@ == other.aux_finals@,
{
    let a = aux_transcript::<SC>(prf, instance, n);
    let b = aux_transcript::<SC>(other, other_instance, n);
    let offset: int = instance.len() as int + n as int;
    assert(instance == a.take(instance.len() as int));
    assert(other_instance == b.take(instance.len() as int));
    assert(a[offset] == TranscriptItem::<SC::Val, SC::Challenge, SC::Commitment>::Commitment(
        prf.commitments.aux->0,
    ));
    assert(b[offset] == TranscriptItem::<SC::Val, SC::Challenge, SC::Commitment>::Commitment(
        other.commitments.aux->0,
    ));
    assert forall|i: int| 0 <= i < prf.aux_finals@.len() implies prf.aux_finals@[i]
        == other.aux_finals@[i] by {
        assert(a[offset + 1 + i] == TranscriptItem::<
            SC::Val,
            SC::Challenge,
            SC::Commitment,
        >::Element(prf.aux_finals@[i]));
        assert(b[offset + 1 + i] == TranscriptItem::<
            SC::Val,
            SC::Challenge,
            SC::Commitment,
        >::Element(other.aux_finals@[i]));
    }
}

/// The transcript of the quotient fixes the commitments to it and to the polynomial that hides the
/// others.
proof fn lemma_quotient_bound<SC: StarkGenericConfig>(
    prf: Proof<SC>,
    other: Proof<SC>,
    aux: TranscriptOf<SC>,
    other_aux: TranscriptOf<SC>,
)
    requires
        aux.len() == other_aux.len(),
        prf.commitments.random is Some <==> other.commitments.random is Some,
        quotient_transcript::<SC>(prf, aux) == quotient_transcript::<SC>(other, other_aux),
    ensures
        aux == other_aux,
        prf.commitments.quotient_chunks == other.commitments.quotient_chunks,
        prf.commitments.random == other.commitments.random,
{
    let a = quotient_transcript::<SC>(prf, aux);
    let b = quotient_transcript::<SC>(other, other_aux);
    let offset: int = aux.len() as int + 1;
    assert(aux == a.take(aux.len() as int));
    assert(other_aux == b.take(aux.len() as int));
    assert(a[offset] == TranscriptItem::<SC::Val, SC::Challenge, SC::Commitment>::Commitment(
        prf.commitments.quotient_chunks,
    ));
    assert(b[offset] == TranscriptItem::<SC::Val, SC::Challenge, SC::Commitment>::Commitment(
        other.commitments.quotient_chunks,
    ));
    if prf.commitments.random is Some {
        assert(a[offset + 1] == TranscriptItem::<
            SC::Val,
            SC::Challenge,
            SC::Commitment,
        >::Commitment(prf.commitments.random->0));
        assert(b[offset + 1] == TranscriptItem::<
            SC::Val,
            SC::Challenge,
            SC::Commitment,
        >::Commitment(other.commitments.random->0));
    }
}

/// The transcript binds: two proofs with parts of the same number that leave the same transcript
/// have the same commitments, the same last values of their auxiliary columns and, as an element of
/// the field, the same length, and were made for the same public values and the same preprocessed
/// trace.
pub proof fn law_transcript_binds<SC: StarkGenericConfig, A: MidenAir<SC>>(
    config: SC,
    air: A,
    prf: Proof<SC>,
    other: Proof<SC>,
    public_values: Seq<SC::Val>,
    other_values: Seq<SC::Val>,
    instance: Instance<SC>,
    other_instance: Instance<SC>,
)
    requires
        public_values.len() == other_values.len(),
        instance.preprocessed_width == other_instance.preprocessed_width,
        instance.preprocessed_commit is Some <==> other_instance.preprocessed_commit is Some,
        prf.commitments.aux is Some <==> air.num_randomness_spec() > 0,
        other.commitments.aux is Some <==> air.num_randomness_spec() > 0,
        prf.aux_finals@.len() == other.aux_finals@.len(),
        air.num_randomness_spec() == 0 ==> prf.aux_finals@.len() == 0,
        prf.commitments.random is Some <==> other.commitments.random is Some,
        challenges_spec::<SC, A>(config, air, prf, public_values, instance).transcript
            == challenges_spec::<SC, A>(
            config,
            air,
            other,
            other_values,
            other_instance,
        ).transcript,
    ensures
        SC::Val::from_nat_spec(prf.degree_bits as nat) == SC::Val::from_nat_spec(
            other.degree_bits as nat,
        ),
        prf.commitments == other.commitments,
        prf.aux_finals@ == other.aux_finals@,
        public_values == other_values,
        instance.preprocessed_commit == other_instance.preprocessed_commit,
{
    let n = air.num_randomness_spec() as nat;
    let a_instance = instance_transcript::<SC>(
        config,
        prf,
        instance.preprocessed_width,
        instance.preprocessed_commit,
        public_values,
    );
    let b_instance = instance_transcript::<SC>(
        config,
        other,
        instance.preprocessed_width,
        other_instance.preprocessed_commit,
        other_values,
    );
    let a_aux = aux_transcript::<SC>(prf, a_instance, n);
    let b_aux = aux_transcript::<SC>(other, b_instance, n);
    let a_quotient = quotient_transcript::<SC>(prf, a_aux);
    let b_quotient = quotient_transcript::<SC>(other, b_aux);
    let drawn = TranscriptItem::<SC::Val, SC::Challenge, SC::Commitment>::Draw;
    assert(a_quotient == a_quotient.push(drawn).drop_last());
    assert(b_quotient == b_quotient.push(drawn).drop_last());
    lemma_quotient_bound::<SC>(prf, other, a_aux, b_aux);
    if n > 0 {
        lemma_aux_bound::<SC>(prf, other, a_instance, b_instance, n);
    }
    lemma_instance_bound::<SC>(
        config,
        prf,
        other,
        instance.preprocessed_width,
        instance.preprocessed_commit,
        other_instance.preprocessed_commit,
        public_values,
        other_values,
    );
}

} // verus!
