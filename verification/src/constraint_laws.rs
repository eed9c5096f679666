//! What the constraints are evaluated on, and what follows.

use vstd::prelude::*;
use crate::air::{
    AirWithBoundaryConstraints, ConstraintPoint, MidenAir, VerifierConstraintFolder,
};
use crate::config::StarkGenericConfig;
use crate::constraints::{
    aux_rows, both_rows, constraint_point, constraint_verdict, recomposed_row, slice_contents,
};
use crate::domain::PolynomialSpace;
use crate::error::VerificationError;
use crate::field::{ExtensionField, Field, sum};

verus! {

/// A folder stands for the rows and values that it holds, each under its own name.
pub proof fn law_folder<SC: StarkGenericConfig>(folder: VerifierConstraintFolder<'_, SC>)
    ensures
        folder@.main.0 == folder.main_local@,
        folder@.main.1 == folder.main_next@,
        folder@.aux.0 == folder.aux_local@,
        folder@.aux.1 == folder.aux_next@,
        folder.preprocessed is None <==> folder@.preprocessed is None,
        folder.preprocessed matches Some(rows) ==> folder@.preprocessed == Some(
            (rows.0@, rows.1@),
        ),
        folder@.randomness == folder.randomness@,
        folder@.aux_bus_boundary_values == folder.aux_bus_boundary_values@,
        folder@.public_values == folder.public_values@,
        folder@.periodic_values == folder.periodic_values@,
        folder@.is_first_row == folder.is_first_row,
        folder@.is_last_row == folder.is_last_row,
        folder@.is_transition == folder.is_transition,
        folder@.alpha == folder.alpha,
        folder@.accumulator == folder.accumulator,
{
}

/// An AIR with its constraints on the boundary differs from the AIR in its constraints alone.
pub proof fn law_boundary_air<SC: StarkGenericConfig, A: MidenAir<SC>>(
    air: A,
    point: ConstraintPoint<SC::Val, SC::Challenge>,
    preprocessed_width: usize,
    num_public_values: usize,
    is_zk: usize,
    aux_width: usize,
    num_randomness: usize,
)
    ensures
        ({
            let bounded = AirWithBoundaryConstraints { inner: &air };
            &&& MidenAir::<SC>::width_spec(&bounded) == air.width_spec()
            &&& MidenAir::<SC>::aux_width_spec(&bounded) == air.aux_width_spec()
            &&& MidenAir::<SC>::num_randomness_spec(&bounded) == air.num_randomness_spec()
            &&& MidenAir::<SC>::bus_types_spec(&bounded) == air.bus_types_spec()
            &&& MidenAir::<SC>::preprocessed_spec(&bounded) == air.preprocessed_spec()
            &&& MidenAir::<SC>::periodic_table_spec(&bounded) == air.periodic_table_spec()
            &&& MidenAir::<SC>::eval_spec(&bounded, point) == air.eval_with_boundary_spec(point)
            &&& MidenAir::<SC>::log_quotient_degree_spec(
                &bounded,
                preprocessed_width,
                num_public_values,
                is_zk,
                aux_width,
                num_randomness,
            ) == air.log_quotient_degree_spec(
                preprocessed_width,
                num_public_values,
                is_zk,
                aux_width,
                num_randomness,
            )
        }),
{
}

/// Rows that are given are read whole; two rows are there together or not at all.
pub proof fn law_rows<T>(row: &[T], local: Seq<T>, next: Seq<T>)
    ensures
        slice_contents(Some(row)) == Some(row@),
        slice_contents(None::<&[T]>) is None,
        both_rows(Some(local), Some(next)) == Some((local, next)),
        both_rows(None, Some(next)) is None,
        both_rows(Some(local), None) is None,
        both_rows(None::<Seq<T>>, None) is None,
{
}

/// A row of coordinates makes as many elements as there are groups of coordinates, and the
/// coordinates of each group, times the basis elements of their positions, add up to its element.
pub proof fn law_recomposed_row<F: Field, EF: ExtensionField<F>>(row: Seq<EF>)
    requires
        row.len() % EF::dimension_spec() == 0,
    ensures
        recomposed_row::<F, EF>(row).len() * EF::dimension_spec() == row.len(),
        forall|k: int|
            0 <= k && (k + 1) * EF::dimension_spec() <= row.len() ==> #[trigger] recomposed_row::<
                F,
                EF,
            >(row)[k] == sum(
                Seq::new(
                    EF::dimension_spec(),
                    |e: int|
                        EF::basis_spec(e as nat).mul_spec(row[k * EF::dimension_spec() + e]),
                ),
            ),
{
    let dim = EF::dimension_spec() as int;
    EF::law_dimension();
    vstd::arithmetic::div_mod::lemma_fundamental_div_mod(row.len() as int, dim);
    let n = row.len() as int / dim;
    assert(n * dim == dim * n) by (nonlinear_arith);
    assert forall|k: int|
        0 <= k && (k + 1) * EF::dimension_spec() <= row.len() implies #[trigger] recomposed_row::<
        F,
        EF,
    >(row)[k] == sum(
        Seq::new(
            EF::dimension_spec(),
            |e: int| EF::basis_spec(e as nat).mul_spec(row[k * EF::dimension_spec() + e]),
        ),
    ) by {
        assert(k < n && 0 <= k * dim && (k + 1) * dim - k * dim == dim) by (nonlinear_arith)
            requires
                0 <= k,
                (k + 1) * dim <= dim * n,
                dim > 0,
        ;
        let group = row.subrange(k * dim, (k + 1) * dim);
        assert(Seq::new(
            group.len(),
            |e: int| EF::basis_spec(e as nat).mul_spec(group[e]),
        ) == Seq::new(
            EF::dimension_spec(),
            |e: int| EF::basis_spec(e as nat).mul_spec(row[k * EF::dimension_spec() + e]),
        ));
    }
}

/// A row that is not made of whole groups of coordinates is refused, the first of the two under
/// number zero and the second under number one; without both rows there are no columns.
pub proof fn law_aux_rows<F: Field, EF: ExtensionField<F>>(
    local: Option<Seq<EF>>,
    next: Option<Seq<EF>>,
)
    ensures
        local is None || next is None ==> aux_rows::<F, EF>(local, next) == Ok::<_, u8>(
            (Seq::<EF>::empty(), Seq::<EF>::empty()),
        ),
        local is Some && next is Some ==> {
            &&& aux_rows::<F, EF>(local, next) == Err::<(Seq<EF>, Seq<EF>), u8>(0)
                <==> local->0.len() % EF::dimension_spec() != 0
            &&& aux_rows::<F, EF>(local, next) == Err::<(Seq<EF>, Seq<EF>), u8>(1)
                <==> local->0.len() % EF::dimension_spec() == 0 && next->0.len()
                % EF::dimension_spec() != 0
            &&& local->0.len() % EF::dimension_spec() == 0 && next->0.len() % EF::dimension_spec()
                == 0 ==> aux_rows::<F, EF>(local, next) == Ok::<_, u8>(
                (recomposed_row::<F, EF>(local->0), recomposed_row::<F, EF>(next->0)),
            )
        },
{
}

/// The constraints are evaluated on the rows and values that are given, whichever of them there
/// are, and on the selectors and the periodic columns of the trace domain at `zeta`, with nothing
/// folded yet.
pub proof fn law_constraint_point<SC: StarkGenericConfig, A: MidenAir<SC>>(
    air: A,
    trace: (Seq<SC::Challenge>, Seq<SC::Challenge>),
    preprocessed: Option<(Seq<SC::Challenge>, Seq<SC::Challenge>)>,
    aux: (Seq<SC::Challenge>, Seq<SC::Challenge>),
    randomness: Seq<SC::Challenge>,
    aux_bus_boundary_values: Seq<SC::Challenge>,
    public_values: Seq<SC::Val>,
    trace_domain: SC::Domain,
    zeta: SC::Challenge,
    alpha: SC::Challenge,
)
    ensures
        ({
            let point = constraint_point::<SC, A>(
                air,
                trace,
                preprocessed,
                aux,
                randomness,
                aux_bus_boundary_values,
                public_values,
                trace_domain,
                zeta,
                alpha,
            );
            &&& point.main == trace
            &&& point.preprocessed == preprocessed
            &&& point.aux == aux
            &&& point.randomness == randomness
            &&& point.aux_bus_boundary_values == aux_bus_boundary_values
            &&& point.public_values == public_values
            &&& point.periodic_values == SC::periodic_spec(
                air.periodic_table_spec(),
                trace_domain,
                zeta,
            )
            &&& point.is_first_row == trace_domain.selectors_spec(zeta)->0.is_first_row
            &&& point.is_last_row == trace_domain.selectors_spec(zeta)->0.is_last_row
            &&& point.is_transition == trace_domain.selectors_spec(zeta)->0.is_transition
            &&& point.alpha == alpha
            &&& point.accumulator == SC::Challenge::zero_spec()
        }),
{
}

/// What is said of a quotient follows from what the AIR makes of the rows and values that are
/// given: the quotient matches exactly where that is the quotient times the vanishing polynomial at
/// `zeta`. A row that cannot be recomposed is refused by its number before that, and nothing is
/// said where the vanishing polynomial is zero.
pub proof fn law_constraints_decided<SC: StarkGenericConfig, A: MidenAir<SC>, PcsErr>(
    air: A,
    trace: (Seq<SC::Challenge>, Seq<SC::Challenge>),
    preprocessed: Option<(Seq<SC::Challenge>, Seq<SC::Challenge>)>,
    aux: Result<(Seq<SC::Challenge>, Seq<SC::Challenge>), u8>,
    randomness: Seq<SC::Challenge>,
    aux_bus_boundary_values: Seq<SC::Challenge>,
    public_values: Seq<SC::Val>,
    trace_domain: SC::Domain,
    zeta: SC::Challenge,
    alpha: SC::Challenge,
    quotient: SC::Challenge,
)
    ensures
        ({
            let said = constraint_verdict::<SC, A, PcsErr>(
                air,
                trace,
                preprocessed,
                aux,
                randomness,
                aux_bus_boundary_values,
                public_values,
                trace_domain,
                zeta,
                alpha,
                quotient,
            );
            let vanishing = trace_domain.vanishing_spec(zeta);
            let selectors = trace_domain.selectors_spec(zeta)->0;
            let folded = air.eval_spec(
                ConstraintPoint {
                    main: trace,
                    aux: aux->Ok_0,
                    preprocessed,
                    randomness,
                    aux_bus_boundary_values,
                    public_values,
                    periodic_values: SC::periodic_spec(
                        air.periodic_table_spec(),
                        trace_domain,
                        zeta,
                    ),
                    is_first_row: selectors.is_first_row,
                    is_last_row: selectors.is_last_row,
                    is_transition: selectors.is_transition,
                    alpha,
                    accumulator: SC::Challenge::zero_spec(),
                },
            );
            &&& said is None <==> vanishing == SC::Challenge::zero_spec()
            &&& said is Some && aux is Err ==> said == Some(
                Err::<(), _>(VerificationError::<PcsErr>::MyError(aux->Err_0)),
            )
            &&& said is Some && aux is Ok ==> (said->0 is Ok <==> folded == quotient.mul_spec(
                vanishing,
            ))
            &&& said is Some && aux is Ok && said->0 is Err ==> said->0 == Err::<(), _>(
                VerificationError::<PcsErr>::OodEvaluationMismatch { index: None },
            )
        }),
{
}

} // verus!
