//! What is said of a proof, check by check: each is made where those before it have passed, and
//! what it is made on is written out.

use vstd::prelude::*;
use crate::acceptance::{instance_spec, law_accepted, lemma_aux_rows};
use crate::air::{AirWithBoundaryConstraints, ConstraintPoint, MidenAir};
use crate::bus::{bus_verdict, expected_final};
use crate::bus_laws::law_every_bus_is_checked;
use crate::config::StarkGenericConfig;
use crate::constraints::{aux_rows, constraint_verdict, recomposed_row};
use crate::domain::PolynomialSpace;
use crate::error::{VerificationError, is_ok};
use crate::field::{ExtensionField, Field};
use crate::laws::law_buses_accepted;
use crate::layout::{LayoutModel, layout_spec};
use crate::openings::claims_spec;
use crate::preprocessed::preprocessed_verdict;
use crate::quotient::{domains_separated, recomposed, vectors_of};
use crate::shape::{ExpectedShape, shape_verdict};
use crate::stark_proof::Proof;
use crate::verification::{Instance, challenges_spec, opened_verdict, vector_contents, verdict};

verus! {

/// Nothing wrong is said where something is said and it is not an error.
pub proof fn law_is_ok<E>(e: E)
    ensures
        is_ok(Some(Ok::<(), E>(()))),
        !is_ok(Some(Err::<(), E>(e))),
        !is_ok(None::<Result<(), E>>),
{
}

/// The domains of a proof and the commitment to the preprocessed trace are those of the natural
/// domain of its length, of the preprocessed trace on that domain, and of the layout for that trace
/// and all the public values.
pub proof fn law_instance<SC: StarkGenericConfig, A: MidenAir<SC>>(
    config: SC,
    air: A,
    prf: Proof<SC>,
    public_values: Seq<SC::Val>,
    instance: Instance<SC>,
)
    ensures
        instance_spec::<SC, A>(config, air, prf, public_values) == Some(instance) <==> {
            &&& prf.degree_bits < usize::BITS
            &&& config.natural_domain_spec(1usize << prf.degree_bits) == Some(
                instance.trace_domain,
            )
            &&& preprocessed_verdict::<SC, A>(
                config,
                air,
                prf.opened_values,
                instance.trace_domain,
            ) == Some(
                Ok::<_, VerificationError<SC::PcsError>>(
                    (instance.preprocessed_width, instance.preprocessed_commit),
                ),
            )
            &&& layout_spec::<SC, A>(
                config,
                air,
                prf.degree_bits,
                instance.trace_domain,
                instance.preprocessed_width,
                public_values.len() as usize,
            ) == Some(instance.layout)
        },
{
}

/// Before the domains are laid out, the only error is that of the preprocessed trace, and nothing
/// is said where there is no domain of the length of the trace, no commitment to the preprocessed
/// trace, or no layout.
pub proof fn law_before_layout<SC: StarkGenericConfig, A: MidenAir<SC>>(
    config: SC,
    air: A,
    prf: Proof<SC>,
    public_values: Seq<SC::Val>,
    tables: Seq<Seq<Seq<SC::Val>>>,
)
    ensures
        ({
            let said = verdict::<SC, A>(config, air, prf, public_values, tables);
            let domain = config.natural_domain_spec(1usize << prf.degree_bits);
            let preprocessed = preprocessed_verdict::<SC, A>(
                config,
                air,
                prf.opened_values,
                domain->0,
            );
            &&& prf.degree_bits >= usize::BITS ==> said is None
            &&& prf.degree_bits < usize::BITS && domain is None ==> said is None
            &&& prf.degree_bits < usize::BITS && domain is Some && preprocessed is None
                ==> said is None
            &&& prf.degree_bits < usize::BITS && domain is Some && preprocessed is Some
                && preprocessed->0 is Err ==> said == Some(Err::<(), _>(preprocessed->0->Err_0))
            &&& prf.degree_bits < usize::BITS && domain is Some && preprocessed is Some
                && preprocessed->0 is Ok && instance_spec::<SC, A>(
                config,
                air,
                prf,
                public_values,
            ) is None ==> said is None
        }),
{
}

/// Once the domains are laid out, and before the commitment scheme is asked, these are checked, in
/// this order: that the proof hides its values exactly where the scheme does, that its values are
/// as many as the AIR, the layout and the extension ask for, that it has an auxiliary commitment
/// exactly where the AIR draws challenges, that the out-of-domain point has a next one, and that
/// there is a domain for each chunk.
pub proof fn law_before_openings<SC: StarkGenericConfig, A: MidenAir<SC>>(
    config: SC,
    air: A,
    prf: Proof<SC>,
    public_values: Seq<SC::Val>,
    tables: Seq<Seq<Seq<SC::Val>>>,
    instance: Instance<SC>,
)
    requires
        instance_spec::<SC, A>(config, air, prf, public_values) == Some(instance),
    ensures
        ({
            let said = verdict::<SC, A>(config, air, prf, public_values, tables);
            let hides = (prf.opened_values.random is Some <==> config.pcs_zk_spec()) && (
            prf.commitments.random is Some <==> config.pcs_zk_spec());
            let long = prf.degree_bits >= config.is_zk_spec();
            let shape = shape_verdict(
                prf.opened_values,
                prf.aux_finals@,
                ExpectedShape {
                    air_width: air.width_spec(),
                    quotient_degree: instance.layout.quotient_degree,
                    aux_width: air.aux_width_spec(),
                    num_randomness: air.num_randomness_spec(),
                    dimension: SC::Challenge::dimension_spec() as usize,
                },
            );
            let fits = shape is Some && shape->0 is Ok;
            let has_aux = prf.commitments.aux is Some;
            let draws = air.num_randomness_spec() > 0;
            let zeta = challenges_spec::<SC, A>(config, air, prf, public_values, instance).zeta;
            let next = instance.layout.init_trace_domain.next_point_spec(zeta);
            &&& !hides ==> said == Some(
                Err::<(), _>(VerificationError::<SC::PcsError>::RandomizationError),
            )
            &&& hides && !long ==> said is None
            &&& hides && long && shape is None ==> said is None
            &&& hides && long && shape is Some && shape->0 is Err ==> said == Some(
                Err::<(), _>(VerificationError::<SC::PcsError>::MyError(shape->0->Err_0)),
            )
            &&& hides && long && fits && draws && !has_aux ==> said == Some(
                Err::<(), _>(VerificationError::<SC::PcsError>::MyError(4)),
            )
            &&& hides && long && fits && !draws && has_aux ==> said == Some(
                Err::<(), _>(VerificationError::<SC::PcsError>::MyError(5)),
            )
            &&& hides && long && fits && (draws <==> has_aux) && next is None ==> said == Some(
                Err::<(), _>(VerificationError::<SC::PcsError>::NextPointUnavailable),
            )
            &&& hides && long && fits && (draws <==> has_aux) && next is Some
                && instance.layout.randomized.len() != prf.opened_values.quotient_chunks@.len()
                ==> said == Some(Err::<(), _>(VerificationError::<SC::PcsError>::MyError(6)))
        }),
{
}

/// Where all this has passed, the commitment scheme is asked about the claims of the proof at the
/// out-of-domain point and the one after it, with the whole transcript, and what it says goes into
/// the checks that are left, with the challenges that were drawn.
pub proof fn law_openings_asked<SC: StarkGenericConfig, A: MidenAir<SC>>(
    config: SC,
    air: A,
    prf: Proof<SC>,
    public_values: Seq<SC::Val>,
    tables: Seq<Seq<Seq<SC::Val>>>,
    instance: Instance<SC>,
)
    requires
        instance_spec::<SC, A>(config, air, prf, public_values) == Some(instance),
        prf.opened_values.random is Some <==> config.pcs_zk_spec(),
        prf.commitments.random is Some <==> config.pcs_zk_spec(),
        prf.degree_bits >= config.is_zk_spec(),
        is_ok(
            shape_verdict(
                prf.opened_values,
                prf.aux_finals@,
                ExpectedShape {
                    air_width: air.width_spec(),
                    quotient_degree: instance.layout.quotient_degree,
                    aux_width: air.aux_width_spec(),
                    num_randomness: air.num_randomness_spec(),
                    dimension: SC::Challenge::dimension_spec() as usize,
                },
            ),
        ),
        prf.commitments.aux is Some <==> air.num_randomness_spec() > 0,
        instance.layout.init_trace_domain.next_point_spec(
            challenges_spec::<SC, A>(config, air, prf, public_values, instance).zeta,
        ) is Some,
        instance.layout.randomized.len() == prf.opened_values.quotient_chunks@.len(),
    ensures
        ({
            let challenges = challenges_spec::<SC, A>(config, air, prf, public_values, instance);
            verdict::<SC, A>(config, air, prf, public_values, tables) == opened_verdict::<SC, A>(
                config.opening_verdict(
                    claims_spec::<SC>(
                        prf,
                        instance.trace_domain,
                        instance.layout.randomized,
                        instance.preprocessed_commit,
                        challenges.zeta,
                        instance.layout.init_trace_domain.next_point_spec(challenges.zeta)->0,
                    ),
                    prf.opening_proof,
                    challenges.transcript,
                ),
                air,
                prf,
                public_values,
                tables,
                instance.layout,
                challenges.randomness,
                challenges.alpha,
                challenges.zeta,
            )
        }),
{
}

/// Openings that were refused are answered with the error of the commitment scheme. Where they were
/// accepted, nothing is said if the quotient cannot be recomposed; otherwise every bus is checked
/// and then, if they pass, the constraints with those on the boundary, on the values that the proof
/// opens and the quotient that its chunks make.
pub proof fn law_after_openings<SC: StarkGenericConfig, A: MidenAir<SC>>(
    openings: Result<(), SC::PcsError>,
    air: A,
    prf: Proof<SC>,
    public_values: Seq<SC::Val>,
    tables: Seq<Seq<Seq<SC::Val>>>,
    layout: LayoutModel<SC::Domain>,
    randomness: Seq<SC::Challenge>,
    alpha: SC::Challenge,
    zeta: SC::Challenge,
)
    ensures
        ({
            let said = opened_verdict::<SC, A>(
                openings,
                air,
                prf,
                public_values,
                tables,
                layout,
                randomness,
                alpha,
                zeta,
            );
            let opened = prf.opened_values;
            let apart = domains_separated::<SC::Val, SC::Challenge, SC::Domain>(layout.chunks);
            let buses = bus_verdict::<SC::Val, SC::Challenge, SC::PcsError>(
                air.bus_types_spec(),
                prf.aux_finals@,
                randomness,
                tables,
            );
            let preprocessed = if opened.preprocessed_local is Some && opened.preprocessed_next
                is Some {
                Some((opened.preprocessed_local->0@, opened.preprocessed_next->0@))
            } else {
                None
            };
            let aux_local = match opened.aux_trace_local {
                Some(v) => Some(v@),
                None => None,
            };
            let aux_next = match opened.aux_trace_next {
                Some(v) => Some(v@),
                None => None,
            };
            &&& openings matches Err(e) ==> said == Some(
                Err::<(), _>(VerificationError::InvalidOpeningArgument(e)),
            )
            &&& openings is Ok && !apart ==> said is None
            &&& openings is Ok && apart && !is_ok(buses) ==> said == buses
            &&& openings is Ok && apart && is_ok(buses) ==> said == constraint_verdict::<
                SC,
                AirWithBoundaryConstraints<'_, A>,
                SC::PcsError,
            >(
                AirWithBoundaryConstraints { inner: &air },
                (opened.trace_local@, opened.trace_next@),
                preprocessed,
                aux_rows::<SC::Val, SC::Challenge>(aux_local, aux_next),
                randomness,
                prf.aux_finals@,
                public_values,
                layout.init_trace_domain,
                zeta,
                alpha,
                recomposed(layout.chunks, vectors_of(opened.quotient_chunks@), zeta),
            )
        }),
{
}

/// A vector that is there is read whole.
pub proof fn law_vector_contents<T>(v: Vec<T>)
    ensures
        vector_contents(Some(v)) == Some(v@),
        vector_contents(None::<Vec<T>>) is None,
{
}

/// What an accepted proof shows: with the challenges that were drawn, every bus that has a final
/// value ends in the one that its public inputs determine, and the AIR, evaluated with its
/// constraints on the boundary on the very values that were opened, gives the quotient that the
/// opened chunks make, times the vanishing polynomial.
pub proof fn law_accepted_proof<SC: StarkGenericConfig, A: MidenAir<SC>>(
    config: SC,
    air: A,
    prf: Proof<SC>,
    public_values: Seq<SC::Val>,
    tables: Seq<Seq<Seq<SC::Val>>>,
)
    requires
        verdict::<SC, A>(config, air, prf, public_values, tables) is Some,
        verdict::<SC, A>(config, air, prf, public_values, tables)->0 is Ok,
    ensures
        instance_spec::<SC, A>(config, air, prf, public_values) is Some,
        ({
            let instance = instance_spec::<SC, A>(config, air, prf, public_values)->0;
            let challenges = challenges_spec::<SC, A>(config, air, prf, public_values, instance);
            let opened = prf.opened_values;
            let domain = instance.layout.init_trace_domain;
            let zeta = challenges.zeta;
            let selectors = domain.selectors_spec(zeta)->0;
            &&& forall|i: int|
                0 <= i < air.bus_types_spec().len() && i < prf.aux_finals@.len() ==> i
                    < tables.len() && #[trigger] expected_final(
                    air.bus_types_spec()[i],
                    challenges.randomness,
                    tables[i],
                ) == Some(prf.aux_finals@[i])
            &&& domain.vanishing_spec(zeta) != SC::Challenge::zero_spec()
            &&& air.eval_with_boundary_spec(
                ConstraintPoint {
                    main: (opened.trace_local@, opened.trace_next@),
                    aux: if opened.aux_trace_local is Some && opened.aux_trace_next is Some {
                        (
                            recomposed_row::<SC::Val, SC::Challenge>(opened.aux_trace_local->0@),
                            recomposed_row::<SC::Val, SC::Challenge>(opened.aux_trace_next->0@),
                        )
                    } else {
                        (Seq::empty(), Seq::empty())
                    },
                    preprocessed: if opened.preprocessed_local is Some
                        && opened.preprocessed_next is Some {
                        Some((opened.preprocessed_local->0@, opened.preprocessed_next->0@))
                    } else {
                        None
                    },
                    randomness: challenges.randomness,
                    aux_bus_boundary_values: prf.aux_finals@,
                    public_values,
                    periodic_values: SC::periodic_spec(air.periodic_table_spec(), domain, zeta),
                    is_first_row: selectors.is_first_row,
                    is_last_row: selectors.is_last_row,
                    is_transition: selectors.is_transition,
                    alpha: challenges.alpha,
                    accumulator: SC::Challenge::zero_spec(),
                },
            ) == recomposed(
                instance.layout.chunks,
                vectors_of(opened.quotient_chunks@),
                zeta,
            ).mul_spec(domain.vanishing_spec(zeta))
        }),
{
    law_accepted::<SC, A>(config, air, prf, public_values, tables);
    let instance = instance_spec::<SC, A>(config, air, prf, public_values)->0;
    let challenges = challenges_spec::<SC, A>(config, air, prf, public_values, instance);
    law_buses_accepted::<SC::Val, SC::Challenge, SC::PcsError>(
        air.bus_types_spec(),
        prf.aux_finals@,
        challenges.randomness,
        tables,
    );
    law_every_bus_is_checked::<SC::Val, SC::Challenge, SC::PcsError>(
        air.bus_types_spec(),
        prf.aux_finals@,
        challenges.randomness,
        tables,
    );
    lemma_aux_rows::<SC, A>(air, prf, instance);
}

} // verus!
