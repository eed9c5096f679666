//! The check that the constraints, divided by the vanishing polynomial, are the quotient.

use vstd::prelude::*;
use crate::air::{ConstraintPoint, MidenAir, VerifierConstraintFolder};
use crate::algebra::lemma_division;
use crate::config::StarkGenericConfig;
use crate::domain::{LagrangeSelectors, PolynomialSpace};
use crate::error::VerificationError;
use crate::field::{ExtensionField, Field};
use crate::quotient::{combine_coordinates, from_coordinates};

verus! {

/// A row of coordinates as a row of elements of the extension, of which each takes as many
/// coordinates as the basis has elements.
pub open spec fn recomposed_row<F: Field, EF: ExtensionField<F>>(row: Seq<EF>) -> Seq<EF> {
    let dim = EF::dimension_spec() as int;
    Seq::new(
        (row.len() as int / dim) as nat,
        |k: int| from_coordinates::<F, EF>(row.subrange(k * dim, (k + 1) * dim)),
    )
}

/// The auxiliary rows that constraints are evaluated on, or the number of the row that cannot be
/// recomposed. Without both rows there are no auxiliary columns.
pub open spec fn aux_rows<F: Field, EF: ExtensionField<F>>(
    local: Option<Seq<EF>>,
    next: Option<Seq<EF>>,
) -> Result<(Seq<EF>, Seq<EF>), u8> {
    match (local, next) {
        (Some(l), Some(n)) => {
            if l.len() % EF::dimension_spec() != 0 {
                Err(0)
            } else if n.len() % EF::dimension_spec() != 0 {
                Err(1)
            } else {
                Ok((recomposed_row::<F, EF>(l), recomposed_row::<F, EF>(n)))
            }
        },
        _ => Ok((Seq::empty(), Seq::empty())),
    }
}

/// Both of two rows, or none.
pub open spec fn both_rows<EF>(local: Option<Seq<EF>>, next: Option<Seq<EF>>) -> Option<
    (Seq<EF>, Seq<EF>),
> {
    match (local, next) {
        (Some(l), Some(n)) => Some((l, n)),
        _ => None,
    }
}

/// The contents of a slice, where there is one.
pub open spec fn slice_contents<T>(s: Option<&[T]>) -> Option<Seq<T>> {
    match s {
        Some(v) => Some(v@),
        None => None,
    }
}

/// What the constraints are evaluated on, before any of them was folded, where the selectors are
/// defined at `zeta`.
pub open spec fn constraint_point<SC: StarkGenericConfig, A: MidenAir<SC>>(
    air: A,
    trace: (Seq<SC::Challenge>, Seq<SC::Challenge>),
    preprocessed: Option<(Seq<SC::Challenge>, Seq<SC::Challenge>)>,
    aux: (Seq<SC::Challenge>, Seq<SC::Challenge>),
    randomness: Seq<SC::Challenge>,
    aux_bus_boundary_values: Seq<SC::Challenge>,
    public_values: Seq<SC::Val>,
    trace_domain: SC::Domain,
    zeta: SC::Challenge,
    alpha: SC::Challenge,
) -> ConstraintPoint<SC::Val, SC::Challenge> {
    let selectors = trace_domain.selectors_spec(zeta)->0;
    ConstraintPoint {
        main: trace,
        aux,
        preprocessed,
        randomness,
        aux_bus_boundary_values,
        public_values,
        periodic_values: SC::periodic_spec(air.periodic_table_spec(), trace_domain, zeta),
        is_first_row: selectors.is_first_row,
        is_last_row: selectors.is_last_row,
        is_transition: selectors.is_transition,
        alpha,
        accumulator: SC::Challenge::zero_spec(),
    }
}

/// What is said of a quotient: that it matches exactly where the folded constraints are the
/// quotient times the vanishing polynomial of the trace domain. Nothing is said where that
/// polynomial is zero at `zeta`.
pub open spec fn constraint_verdict<SC: StarkGenericConfig, A: MidenAir<SC>, PcsErr>(
    air: A,
    trace: (Seq<SC::Challenge>, Seq<SC::Challenge>),
    preprocessed: Option<(Seq<SC::Challenge>, Seq<SC::Challenge>)>,
    aux: Result<(Seq<SC::Challenge>, Seq<SC::Challenge>), u8>,
    randomness: Seq<SC::Challenge>,
    aux_bus_boundary_values: Seq<SC::Challenge>,
    public_values: Seq<SC::Val>,
    trace_domain: SC::Domain,
    zeta: SC::Challenge,
    alpha: SC::Challenge,
    quotient: SC::Challenge,
) -> Option<Result<(), VerificationError<PcsErr>>> {
    let vanishing = trace_domain.vanishing_spec(zeta);
    if vanishing == SC::Challenge::zero_spec() {
        None
    } else {
        match aux {
            Err(code) => Some(Err(VerificationError::MyError(code))),
            Ok(rows) => {
                let folded = air.eval_spec(
                    constraint_point::<SC, A>(
                        air,
                        trace,
                        preprocessed,
                        rows,
                        randomness,
                        aux_bus_boundary_values,
                        public_values,
                        trace_domain,
                        zeta,
                        alpha,
                    ),
                );
                if folded == quotient.mul_spec(vanishing) {
                    Some(Ok(()))
                } else {
                    Some(Err(VerificationError::OodEvaluationMismatch { index: None }))
                }
            },
        }
    }
}

/// Recomposes a row of coordinates into elements of the extension; none where the coordinates do
/// not come out even.
pub fn verifier_row_to_ext<F: Field, EF: ExtensionField<F>>(row: &[EF]) -> (r: Option<Vec<EF>>)
    ensures
        r is Some <==> row@.len() % EF::dimension_spec() == 0,
        r is Some ==> r->0@ == recomposed_row::<F, EF>(row@),
{
    let dim: usize = EF::dimension();
    proof {
        EF::law_dimension();
    }
    let len: usize = row.len();
    if len % dim != 0 {
        return None;
    }
    let n: usize = len / dim;
    proof {
        vstd::arithmetic::div_mod::lemma_fundamental_div_mod(len as int, dim as int);
    }
    let mut out: Vec<EF> = Vec::new();
    for k in 0..n
        invariant
            dim == EF::dimension_spec(),
            dim > 0,
            len == row@.len(),
            n == len / dim,
            len == dim * n,
            out@.len() == k,
            forall|j: int|
                0 <= j < k ==> #[trigger] out@[j] == from_coordinates::<F, EF>(
                    row@.subrange(j * dim, (j + 1) * dim),
                ),
    {
        assert(k * dim <= (k + 1) * dim <= len && (k + 1) * dim == k * dim + dim)
            by (nonlinear_arith)
            requires
                k + 1 <= n,
                len == dim * n,
        ;
        let limbs: &[EF] = vstd::slice::slice_subrange(row, k * dim, k * dim + dim);
        out.push(combine_coordinates::<F, EF>(limbs));
    }
    assert(out@ == recomposed_row::<F, EF>(row@));
    Some(out)
}

/// Verifies that the folded constraints match the quotient polynomial at zeta.
///
/// This evaluates the AIR constraints at the out-of-domain point, which must not be a zero of the
/// vanishing polynomial Z_H of the trace domain, and checks that
/// constraints(zeta) / Z_H(zeta) = quotient(zeta).
pub fn verify_constraints<SC: StarkGenericConfig, A: MidenAir<SC>, PcsErr>(
    air: &A,
    trace_local: &[SC::Challenge],
    trace_next: &[SC::Challenge],
    preprocessed_local: Option<&[SC::Challenge]>,
    preprocessed_next: Option<&[SC::Challenge]>,
    aux_local: Option<&[SC::Challenge]>,
    aux_next: Option<&[SC::Challenge]>,
    randomness: &[SC::Challenge],
    aux_bus_boundary_values: &[SC::Challenge],
    public_values: &[SC::Val],
    trace_domain: SC::Domain,
    zeta: SC::Challenge,
    alpha: SC::Challenge,
    quotient: SC::Challenge,
) -> (r: Result<(), VerificationError<PcsErr>>)
    requires
        trace_domain.vanishing_spec(zeta) != SC::Challenge::zero_spec(),
    ensures
        Some(r) == constraint_verdict::<SC, A, PcsErr>(
            *air,
            (trace_local@, trace_next@),
            both_rows(slice_contents(preprocessed_local), slice_contents(preprocessed_next)),
            aux_rows::<SC::Val, SC::Challenge>(slice_contents(aux_local), slice_contents(aux_next)),
            randomness@,
            aux_bus_boundary_values@,
            public_values@,
            trace_domain,
            zeta,
            alpha,
            quotient,
        ),
        aux_rows::<SC::Val, SC::Challenge>(
            slice_contents(aux_local),
            slice_contents(aux_next),
        ) matches Ok(rows) ==> (r is Ok <==> air.eval_spec(
            constraint_point::<SC, A>(
                *air,
                (trace_local@, trace_next@),
                both_rows(slice_contents(preprocessed_local), slice_contents(preprocessed_next)),
                rows,
                randomness@,
                aux_bus_boundary_values@,
                public_values@,
                trace_domain,
                zeta,
                alpha,
            ),
        ) == quotient.mul_spec(trace_domain.vanishing_spec(zeta))),
{
    try_verify_constraints::<SC, A, PcsErr>(
        air,
        trace_local,
        trace_next,
        preprocessed_local,
        preprocessed_next,
        aux_local,
        aux_next,
        randomness,
        aux_bus_boundary_values,
        public_values,
        trace_domain,
        zeta,
        alpha,
        quotient,
    ).unwrap()
}

/// As `verify_constraints`, or none where Z_H(zeta) is zero.
pub fn try_verify_constraints<SC: StarkGenericConfig, A: MidenAir<SC>, PcsErr>(
    air: &A,
    trace_local: &[SC::Challenge],
    trace_next: &[SC::Challenge],
    preprocessed_local: Option<&[SC::Challenge]>,
    preprocessed_next: Option<&[SC::Challenge]>,
    aux_local: Option<&[SC::Challenge]>,
    aux_next: Option<&[SC::Challenge]>,
    randomness: &[SC::Challenge],
    aux_bus_boundary_values: &[SC::Challenge],
    public_values: &[SC::Val],
    trace_domain: SC::Domain,
    zeta: SC::Challenge,
    alpha: SC::Challenge,
    quotient: SC::Challenge,
) -> (r: Option<Result<(), VerificationError<PcsErr>>>)
    ensures
        r == constraint_verdict::<SC, A, PcsErr>(
            *air,
            (trace_local@, trace_next@),
            both_rows(slice_contents(preprocessed_local), slice_contents(preprocessed_next)),
            aux_rows::<SC::Val, SC::Challenge>(slice_contents(aux_local), slice_contents(aux_next)),
            randomness@,
            aux_bus_boundary_values@,
            public_values@,
            trace_domain,
            zeta,
            alpha,
            quotient,
        ),
{
    let sels: LagrangeSelectors<SC::Challenge> = match trace_domain.selectors_at_point(zeta) {
        Some(sels) => sels,
        None => {
            return None;
        },
    };

    // Periodic entries
    let table: Vec<Vec<SC::Val>> = air.periodic_table();
    let periodic_values: Vec<SC::Challenge> = SC::evaluate_periodic_at_point(
        &table,
        trace_domain,
        zeta,
    );

    // Preprocessed trace
    let preprocessed: Option<(&[SC::Challenge], &[SC::Challenge])> = match (
        preprocessed_local,
        preprocessed_next,
    ) {
        (Some(local), Some(next)) => Some((local, next)),
        _ => None,
    };

    // Aux trace is committed as flattened base limbs. Recompose into EF values.
    let (aux_local_ext, aux_next_ext): (Vec<SC::Challenge>, Vec<SC::Challenge>) = match (
        aux_local,
        aux_next,
    ) {
        (Some(local), Some(next)) => {
            let local_ext: Vec<SC::Challenge> =
                match verifier_row_to_ext::<SC::Val, SC::Challenge>(local) {
                Some(row) => row,
                None => {
                    return Some(Err(VerificationError::MyError(0)));
                },
            };
            let next_ext: Vec<SC::Challenge> =
                match verifier_row_to_ext::<SC::Val, SC::Challenge>(next) {
                Some(row) => row,
                None => {
                    return Some(Err(VerificationError::MyError(1)));
                },
            };
            (local_ext, next_ext)
        },
        _ => (Vec::new(), Vec::new()),
    };

    let mut folder: VerifierConstraintFolder<'_, SC> = VerifierConstraintFolder {
        main_local: trace_local,
        main_next: trace_next,
        aux_local: aux_local_ext.as_slice(),
        aux_next: aux_next_ext.as_slice(),
        preprocessed,
        randomness,
        aux_bus_boundary_values,
        public_values,
        periodic_values: periodic_values.as_slice(),
        is_first_row: sels.is_first_row,
        is_last_row: sels.is_last_row,
        is_transition: sels.is_transition,
        alpha,
        accumulator: SC::Challenge::zero(),
    };
    assert(folder@ == constraint_point::<SC, A>(
        *air,
        (trace_local@, trace_next@),
        both_rows(slice_contents(preprocessed_local), slice_contents(preprocessed_next)),
        (aux_local_ext@, aux_next_ext@),
        randomness@,
        aux_bus_boundary_values@,
        public_values@,
        trace_domain,
        zeta,
        alpha,
    ));
    air.eval(&mut folder);
    let folded_constraints: SC::Challenge = folder.accumulator;

    // Check that constraints(zeta) / Z_H(zeta) = quotient(zeta)
    proof {
        lemma_division(
            folded_constraints,
            trace_domain.vanishing_spec(zeta),
            sels.inv_vanishing,
            quotient,
        );
    }
    if !folded_constraints.mul(sels.inv_vanishing).equals(quotient) {
        return Some(Err(VerificationError::OodEvaluationMismatch { index: None }));
    }
    Some(Ok(()))
}

} // verus!
