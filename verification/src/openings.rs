//! The claims that a proof makes of the committed polynomials.

use vstd::prelude::*;
use crate::config::{OpeningClaims, StarkGenericConfig, claims_of, matrices_of, points_of};
use crate::quotient::vectors_of;
use crate::stark_proof::Proof;

verus! {

/// The claims that a proof system's commitment scheme is asked about.
pub type ClaimsOf<SC> = OpeningClaims<
    <SC as StarkGenericConfig>::Commitment,
    <SC as StarkGenericConfig>::Domain,
    <SC as StarkGenericConfig>::Challenge,
>;

/// A single matrix, opened at one point.
pub open spec fn at_one_point<D, EF>(domain: D, point: EF, values: Seq<EF>) -> Seq<
    (D, Seq<(EF, Seq<EF>)>),
> {
    seq![(domain, seq![(point, values)])]
}

/// A single matrix, opened at two points.
pub open spec fn at_two_points<D, EF>(
    domain: D,
    point: EF,
    values: Seq<EF>,
    next_point: EF,
    next_values: Seq<EF>,
) -> Seq<(D, Seq<(EF, Seq<EF>)>)> {
    seq![(domain, seq![(point, values), (next_point, next_values)])]
}

/// One matrix for each chunk, each opened at the same point.
pub open spec fn chunk_matrices<D, EF>(domains: Seq<D>, point: EF, chunks: Seq<Seq<EF>>) -> Seq<
    (D, Seq<(EF, Seq<EF>)>),
> {
    Seq::new(chunks.len(), |i: int| (domains[i], seq![(point, chunks[i])]))
}

/// The claims of a proof, in order: of the polynomial that hides the others, of the trace at a
/// point and at the one after it, of the chunks of the quotient on the domains under which they
/// were committed to, of the auxiliary trace, and of the preprocessed trace. What was not
/// committed to is left out.
pub open spec fn claims_spec<SC: StarkGenericConfig>(
    prf: Proof<SC>,
    trace_domain: SC::Domain,
    randomized: Seq<SC::Domain>,
    preprocessed_commit: Option<SC::Commitment>,
    zeta: SC::Challenge,
    zeta_next: SC::Challenge,
) -> ClaimsOf<SC> {
    let opened = prf.opened_values;
    let random_claims: ClaimsOf<SC> = match prf.commitments.random {
        Some(c) => seq![(c, at_one_point(trace_domain, zeta, opened.random->0@))],
        None => Seq::empty(),
    };
    let main_claims: ClaimsOf<SC> = seq![
        (
            prf.commitments.trace,
            at_two_points(trace_domain, zeta, opened.trace_local@, zeta_next, opened.trace_next@),
        ),
        (
            prf.commitments.quotient_chunks,
            chunk_matrices(randomized, zeta, vectors_of(opened.quotient_chunks@)),
        ),
    ];
    let aux_claims: ClaimsOf<SC> = match prf.commitments.aux {
        Some(c) => seq![
            (
                c,
                at_two_points(
                    trace_domain,
                    zeta,
                    opened.aux_trace_local->0@,
                    zeta_next,
                    opened.aux_trace_next->0@,
                ),
            ),
        ],
        None => Seq::empty(),
    };
    let preprocessed_claims: ClaimsOf<SC> = match preprocessed_commit {
        Some(c) => seq![
            (
                c,
                at_two_points(
                    trace_domain,
                    zeta,
                    opened.preprocessed_local->0@,
                    zeta_next,
                    opened.preprocessed_next->0@,
                ),
            ),
        ],
        None => Seq::empty(),
    };
    random_claims + main_claims + aux_claims + preprocessed_claims
}

fn open_at_one_point<'a, D, EF>(domain: D, point: EF, values: &'a Vec<EF>) -> (r: Vec<
    (D, Vec<(EF, &'a Vec<EF>)>),
>)
    ensures
        matrices_of(r@) == at_one_point(domain, point, values@),
{
    let points: Vec<(EF, &'a Vec<EF>)> = vec![(point, values)];
    assert(points_of(points@) == seq![(point, values@)]);
    vec![(domain, points)]
}

fn open_at_two_points<'a, D, EF>(
    domain: D,
    point: EF,
    values: &'a Vec<EF>,
    next_point: EF,
    next_values: &'a Vec<EF>,
) -> (r: Vec<(D, Vec<(EF, &'a Vec<EF>)>)>)
    ensures
        matrices_of(r@) == at_two_points(domain, point, values@, next_point, next_values@),
{
    let points: Vec<(EF, &'a Vec<EF>)> = vec![(point, values), (next_point, next_values)];
    assert(points_of(points@) == seq![(point, values@), (next_point, next_values@)]);
    vec![(domain, points)]
}

fn open_chunks<'a, D: Copy, EF: Copy>(
    domains: &Vec<D>,
    point: EF,
    chunks: &'a Vec<Vec<EF>>,
) -> (r: Vec<(D, Vec<(EF, &'a Vec<EF>)>)>)
    requires
        domains@.len() == chunks@.len(),
    ensures
        matrices_of(r@) == chunk_matrices(domains@, point, vectors_of(chunks@)),
{
    let ghost target = chunk_matrices(domains@, point, vectors_of(chunks@));
    let mut matrices: Vec<(D, Vec<(EF, &'a Vec<EF>)>)> = Vec::new();
    let n: usize = chunks.len();
    for i in 0..n
        invariant
            n == chunks@.len(),
            n == domains@.len(),
            target == chunk_matrices(domains@, point, vectors_of(chunks@)),
            matrices_of(matrices@) == target.take(i as int),
    {
        let points: Vec<(EF, &'a Vec<EF>)> = vec![(point, &chunks[i])];
        assert(points_of(points@) == seq![(point, chunks@[i as int]@)]);
        let ghost before = matrices@;
        matrices.push((domains[i], points));
        assert(matrices_of(matrices@) == matrices_of(before).push(
            (domains@[i as int], points_of(points@)),
        ));
        assert(target.take(i + 1) == target.take(i as int).push(target[i as int]));
    }
    assert(target.take(n as int) == target);
    matrices
}

/// Collects the claims of a proof.
pub fn collect_claims<'a, SC: StarkGenericConfig>(
    prf: &'a Proof<SC>,
    trace_domain: SC::Domain,
    randomized: &Vec<SC::Domain>,
    preprocessed_commit: &'a Option<SC::Commitment>,
    zeta: SC::Challenge,
    zeta_next: SC::Challenge,
) -> (r: Vec<
    (&'a SC::Commitment, Vec<(SC::Domain, Vec<(SC::Challenge, &'a Vec<SC::Challenge>)>)>),
>)
    requires
        randomized@.len() == prf.opened_values.quotient_chunks@.len(),
        prf.commitments.random is Some ==> prf.opened_values.random is Some,
        prf.commitments.aux is Some ==> prf.opened_values.aux_trace_local is Some
            && prf.opened_values.aux_trace_next is Some,
        preprocessed_commit is Some ==> prf.opened_values.preprocessed_local is Some
            && prf.opened_values.preprocessed_next is Some,
    ensures
        claims_of(r@) == claims_spec::<SC>(
            *prf,
            trace_domain,
            randomized@,
            *preprocessed_commit,
            zeta,
            zeta_next,
        ),
{
    let opened = &prf.opened_values;
    let mut coms: Vec<
        (&'a SC::Commitment, Vec<(SC::Domain, Vec<(SC::Challenge, &'a Vec<SC::Challenge>)>)>),
    > = Vec::new();
    match &prf.commitments.random {
        Some(c) => {
            coms.push(
                (c, open_at_one_point(trace_domain, zeta, opened.random.as_ref().unwrap())),
            );
        },
        None => {},
    }
    coms.push(
        (
            &prf.commitments.trace,
            open_at_two_points(
                trace_domain,
                zeta,
                &opened.trace_local,
                zeta_next,
                &opened.trace_next,
            ),
        ),
    );
    coms.push(
        (
            &prf.commitments.quotient_chunks,
            // Check the commitment on the randomized domains.
            open_chunks(randomized, zeta, &opened.quotient_chunks),
        ),
    );
    // Add aux trace verification if present
    match &prf.commitments.aux {
        Some(c) => {
            coms.push(
                (
                    c,
                    open_at_two_points(
                        trace_domain,
                        zeta,
                        opened.aux_trace_local.as_ref().unwrap(),
                        zeta_next,
                        opened.aux_trace_next.as_ref().unwrap(),
                    ),
                ),
            );
        },
        None => {},
    }
    // Add preprocessed commitment verification if present
    match preprocessed_commit {
        Some(c) => {
            coms.push(
                (
                    c,
                    open_at_two_points(
                        trace_domain,
                        zeta,
                        opened.preprocessed_local.as_ref().unwrap(),
                        zeta_next,
                        opened.preprocessed_next.as_ref().unwrap(),
                    ),
                ),
            );
        },
        None => {},
    }
    assert(claims_of(coms@) =~= claims_spec::<SC>(
        *prf,
        trace_domain,
        randomized@,
        *preprocessed_commit,
        zeta,
        zeta_next,
    ));
    coms
}

} // verus!
