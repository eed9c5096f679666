//! Which claims the commitment scheme is asked about.

use vstd::prelude::*;
use crate::acceptance::{instance_spec, law_accepted};
use crate::air::MidenAir;
use crate::config::{
    OpeningClaims, StarkGenericConfig, Transcript, claims_of, matrices_of, points_of,
};
use crate::domain::PolynomialSpace;
use crate::openings::claims_spec;
use crate::stark_proof::Proof;
use crate::verification::{challenges_spec, verdict};

verus! {

/// Claims are read as they are given: for each commitment, for each matrix, its domain, and each
/// point with the values claimed there.
pub proof fn law_claims_read<Com, D, EF>(
    claims: Seq<(&Com, Vec<(D, Vec<(EF, &Vec<EF>)>)>)>,
    matrices: Seq<(D, Vec<(EF, &Vec<EF>)>)>,
    points: Seq<(EF, &Vec<EF>)>,
)
    ensures
        points_of(points).len() == points.len(),
        forall|i: int|
            0 <= i < points.len() ==> #[trigger] points_of(points)[i] == (
                points[i].0,
                points[i].1@,
            ),
        matrices_of(matrices).len() == matrices.len(),
        forall|i: int|
            0 <= i < matrices.len() ==> #[trigger] matrices_of(matrices)[i] == (
                matrices[i].0,
                points_of(matrices[i].1@),
            ),
        claims_of(claims).len() == claims.len(),
        forall|i: int|
            0 <= i < claims.len() ==> #[trigger] claims_of(claims)[i] == (
                *claims[i].0,
                matrices_of(claims[i].1@),
            ),
{
}

/// Everything that was committed to is claimed, whatever else the proof has, and nothing else is:
/// the polynomial that hides the others at `zeta`, the trace at `zeta` and `zeta_next`, each chunk
/// of the quotient at `zeta` on its own domain, and the auxiliary and the preprocessed trace at
/// both points, each where there is a commitment to it.
pub proof fn law_claims<SC: StarkGenericConfig>(
    prf: Proof<SC>,
    trace_domain: SC::Domain,
    randomized: Seq<SC::Domain>,
    preprocessed_commit: Option<SC::Commitment>,
    zeta: SC::Challenge,
    zeta_next: SC::Challenge,
)
    ensures
        ({
            let claims = claims_spec::<SC>(
                prf,
                trace_domain,
                randomized,
                preprocessed_commit,
                zeta,
                zeta_next,
            );
            let opened = prf.opened_values;
            let r: int = if prf.commitments.random is Some {
                1
            } else {
                0
            };
            let a: int = if prf.commitments.aux is Some {
                1
            } else {
                0
            };
            let p: int = if preprocessed_commit is Some {
                1
            } else {
                0
            };
            &&& claims.len() == r + 2 + a + p
            &&& prf.commitments.random matches Some(c) ==> claims[0] == (
                c,
                seq![(trace_domain, seq![(zeta, opened.random->0@)])],
            )
            &&& claims[r] == (
                prf.commitments.trace,
                seq![
                    (
                        trace_domain,
                        seq![(zeta, opened.trace_local@), (zeta_next, opened.trace_next@)],
                    ),
                ],
            )
            &&& claims[r + 1].0 == prf.commitments.quotient_chunks
            &&& claims[r + 1].1.len() == opened.quotient_chunks@.len()
            &&& forall|i: int|
                0 <= i < opened.quotient_chunks@.len() ==> #[trigger] claims[r + 1].1[i] == (
                    randomized[i],
                    seq![(zeta, opened.quotient_chunks@[i]@)],
                )
            &&& prf.commitments.aux matches Some(c) ==> claims[r + 2] == (
                c,
                seq![
                    (
                        trace_domain,
                        seq![
                            (zeta, opened.aux_trace_local->0@),
                            (zeta_next, opened.aux_trace_next->0@),
                        ],
                    ),
                ],
            )
            &&& preprocessed_commit matches Some(c) ==> claims[r + 2 + a] == (
                c,
                seq![
                    (
                        trace_domain,
                        seq![
                            (zeta, opened.preprocessed_local->0@),
                            (zeta_next, opened.preprocessed_next->0@),
                        ],
                    ),
                ],
            )
        }),
{
}

/// The claims bind what is opened: two proofs with the same commitments that make the same claims
/// open everything that was committed to alike, at the same points.
pub proof fn law_claims_bind<SC: StarkGenericConfig>(
    prf: Proof<SC>,
    other: Proof<SC>,
    trace_domain: SC::Domain,
    randomized: Seq<SC::Domain>,
    preprocessed_commit: Option<SC::Commitment>,
    zeta: SC::Challenge,
    zeta_next: SC::Challenge,
    other_zeta: SC::Challenge,
    other_next: SC::Challenge,
)
    requires
        prf.commitments == other.commitments,
        claims_spec::<SC>(
            prf,
            trace_domain,
            randomized,
            preprocessed_commit,
            zeta,
            zeta_next,
        ) == claims_spec::<SC>(
            other,
            trace_domain,
            randomized,
            preprocessed_commit,
            other_zeta,
            other_next,
        ),
    ensures
        zeta == other_zeta,
        zeta_next == other_next,
        prf.opened_values.trace_local@ == other.opened_values.trace_local@,
        prf.opened_values.trace_next@ == other.opened_values.trace_next@,
        prf.opened_values.quotient_chunks@.len() == other.opened_values.quotient_chunks@.len(),
        forall|i: int|
            0 <= i < prf.opened_values.quotient_chunks@.len() ==> (
            #[trigger] prf.opened_values.quotient_chunks@[i])@
                == other.opened_values.quotient_chunks@[i]@,
        prf.commitments.random is Some ==> prf.opened_values.random->0@
            == other.opened_values.random->0@,
        prf.commitments.aux is Some ==> prf.opened_values.aux_trace_local->0@
            == other.opened_values.aux_trace_local->0@ && prf.opened_values.aux_trace_next->0@
            == other.opened_values.aux_trace_next->0@,
        preprocessed_commit is Some ==> prf.opened_values.preprocessed_local->0@
            == other.opened_values.preprocessed_local->0@
            && prf.opened_values.preprocessed_next->0@
            == other.opened_values.preprocessed_next->0@,
{
    law_claims::<SC>(prf, trace_domain, randomized, preprocessed_commit, zeta, zeta_next);
    law_claims::<SC>(
        other,
        trace_domain,
        randomized,
        preprocessed_commit,
        other_zeta,
        other_next,
    );
    let claims = claims_spec::<SC>(
        prf,
        trace_domain,
        randomized,
        preprocessed_commit,
        zeta,
        zeta_next,
    );
    let r: int = if prf.commitments.random is Some {
        1
    } else {
        0
    };
    let a: int = if prf.commitments.aux is Some {
        1
    } else {
        0
    };
    let opened = prf.opened_values;
    let also = other.opened_values;
    // the two readings of each claim
    let trace = claims[r].1[0].1;
    assert(trace[0] == (zeta, opened.trace_local@) && trace[0] == (other_zeta, also.trace_local@));
    assert(trace[1] == (zeta_next, opened.trace_next@) && trace[1] == (
        other_next,
        also.trace_next@,
    ));
    assert forall|i: int| 0 <= i < opened.quotient_chunks@.len() implies (
    #[trigger] opened.quotient_chunks@[i])@ == also.quotient_chunks@[i]@ by {
        let chunk = claims[r + 1].1[i].1;
        assert(chunk[0] == (zeta, opened.quotient_chunks@[i]@));
        assert(chunk[0] == (other_zeta, also.quotient_chunks@[i]@));
    }
    if prf.commitments.random is Some {
        let random = claims[0].1[0].1;
        assert(random[0] == (zeta, opened.random->0@));
        assert(random[0] == (other_zeta, also.random->0@));
    }
    if prf.commitments.aux is Some {
        let aux = claims[r + 2].1[0].1;
        assert(aux[0] == (zeta, opened.aux_trace_local->0@));
        assert(aux[0] == (other_zeta, also.aux_trace_local->0@));
        assert(aux[1] == (zeta_next, opened.aux_trace_next->0@));
        assert(aux[1] == (other_next, also.aux_trace_next->0@));
    }
    if preprocessed_commit is Some {
        let preprocessed = claims[r + 2 + a].1[0].1;
        assert(preprocessed[0] == (zeta, opened.preprocessed_local->0@));
        assert(preprocessed[0] == (other_zeta, also.preprocessed_local->0@));
        assert(preprocessed[1] == (zeta_next, opened.preprocessed_next->0@));
        assert(preprocessed[1] == (other_next, also.preprocessed_next->0@));
    }
}

/// Where the commitment scheme accepts no claims of which one is false, an accepted proof opens
/// everything that was committed to truly.
pub proof fn law_accepted_openings_are_true<SC: StarkGenericConfig, A: MidenAir<SC>>(
    config: SC,
    air: A,
    prf: Proof<SC>,
    public_values: Seq<SC::Val>,
    tables: Seq<Seq<Seq<SC::Val>>>,
    is_true: spec_fn(
        (SC::Commitment, Seq<(SC::Domain, Seq<(SC::Challenge, Seq<SC::Challenge>)>)>),
    ) -> bool,
)
    requires
        forall|
            claims: OpeningClaims<SC::Commitment, SC::Domain, SC::Challenge>,
            argument: SC::OpeningProof,
            transcript: Transcript<SC::Val, SC::Challenge, SC::Commitment>,
            i: int,
        |
            #![trigger config.opening_verdict(claims, argument, transcript), is_true(claims[i])]
            config.opening_verdict(claims, argument, transcript) is Ok && 0 <= i < claims.len()
                ==> is_true(claims[i]),
        verdict::<SC, A>(config, air, prf, public_values, tables) is Some,
        verdict::<SC, A>(config, air, prf, public_values, tables)->0 is Ok,
    ensures
        instance_spec::<SC, A>(config, air, prf, public_values) is Some,
        ({
            let instance = instance_spec::<SC, A>(config, air, prf, public_values)->0;
            let zeta = challenges_spec::<SC, A>(config, air, prf, public_values, instance).zeta;
            let zeta_next = instance.layout.init_trace_domain.next_point_spec(zeta)->0;
            let opened = prf.opened_values;
            let domain = instance.trace_domain;
            &&& instance.layout.init_trace_domain.next_point_spec(zeta) is Some
            &&& is_true(
                (
                    prf.commitments.trace,
                    seq![
                        (
                            domain,
                            seq![(zeta, opened.trace_local@), (zeta_next, opened.trace_next@)],
                        ),
                    ],
                ),
            )
            &&& is_true(
                (
                    prf.commitments.quotient_chunks,
                    Seq::new(
                        opened.quotient_chunks@.len(),
                        |i: int|
                            (
                                instance.layout.randomized[i],
                                seq![(zeta, opened.quotient_chunks@[i]@)],
                            ),
                    ),
                ),
            )
            &&& prf.commitments.random matches Some(c) ==> is_true(
                (c, seq![(domain, seq![(zeta, opened.random->0@)])]),
            )
            &&& prf.commitments.aux matches Some(c) ==> is_true(
                (
                    c,
                    seq![
                        (
                            domain,
                            seq![
                                (zeta, opened.aux_trace_local->0@),
                                (zeta_next, opened.aux_trace_next->0@),
                            ],
                        ),
                    ],
                ),
            )
            &&& instance.preprocessed_commit matches Some(c) ==> is_true(
                (
                    c,
                    seq![
                        (
                            domain,
                            seq![
                                (zeta, opened.preprocessed_local->0@),
                                (zeta_next, opened.preprocessed_next->0@),
                            ],
                        ),
                    ],
                ),
            )
        }),
{
    law_accepted::<SC, A>(config, air, prf, public_values, tables);
    let instance = instance_spec::<SC, A>(config, air, prf, public_values)->0;
    let challenges = challenges_spec::<SC, A>(config, air, prf, public_values, instance);
    let zeta = challenges.zeta;
    let zeta_next = instance.layout.init_trace_domain.next_point_spec(zeta)->0;
    let opened = prf.opened_values;
    let claims = claims_spec::<SC>(
        prf,
        instance.trace_domain,
        instance.layout.randomized,
        instance.preprocessed_commit,
        zeta,
        zeta_next,
    );
    law_claims::<SC>(
        prf,
        instance.trace_domain,
        instance.layout.randomized,
        instance.preprocessed_commit,
        zeta,
        zeta_next,
    );
    let r: int = if prf.commitments.random is Some {
        1
    } else {
        0
    };
    let a: int = if prf.commitments.aux is Some {
        1
    } else {
        0
    };
    assert(config.opening_verdict(claims, prf.opening_proof, challenges.transcript) is Ok);
    assert(is_true(claims[0]));
    assert(is_true(claims[r]));
    assert(is_true(claims[r + 1]));
    assert(claims[r + 1].1 == Seq::new(
        opened.quotient_chunks@.len(),
        |i: int| (instance.layout.randomized[i], seq![(zeta, opened.quotient_chunks@[i]@)]),
    ));
    if prf.commitments.aux is Some {
        assert(is_true(claims[r + 2]));
    }
    if instance.preprocessed_commit is Some {
        assert(is_true(claims[r + 2 + a]));
    }
}

} // verus!
