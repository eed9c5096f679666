//! What the verifier asks of an algebraic intermediate representation.

use vstd::prelude::*;
use crate::bus::BusType;
use crate::config::{RowMajorMatrix, StarkGenericConfig};
use crate::quotient::vectors_of;

verus! {

/// What the constraints of an AIR are evaluated on, at one point.
pub struct ConstraintPoint<F, EF> {
    /// The row of the main trace, and the one after it.
    pub main: (Seq<EF>, Seq<EF>),
    /// The row of the auxiliary trace, and the one after it.
    pub aux: (Seq<EF>, Seq<EF>),
    /// The row of the preprocessed trace, and the one after it.
    pub preprocessed: Option<(Seq<EF>, Seq<EF>)>,
    pub randomness: Seq<EF>,
    pub aux_bus_boundary_values: Seq<EF>,
    pub public_values: Seq<F>,
    pub periodic_values: Seq<EF>,
    pub is_first_row: EF,
    pub is_last_row: EF,
    pub is_transition: EF,
    pub alpha: EF,
    pub accumulator: EF,
}

/// Folds the constraints of an AIR at one point into an accumulator, by powers of `alpha`.
pub struct VerifierConstraintFolder<'a, SC: StarkGenericConfig> {
    pub main_local: &'a [SC::Challenge],
    pub main_next: &'a [SC::Challenge],
    pub aux_local: &'a [SC::Challenge],
    pub aux_next: &'a [SC::Challenge],
    pub preprocessed: Option<(&'a [SC::Challenge], &'a [SC::Challenge])>,
    pub randomness: &'a [SC::Challenge],
    pub aux_bus_boundary_values: &'a [SC::Challenge],
    pub public_values: &'a [SC::Val],
    pub periodic_values: &'a [SC::Challenge],
    pub is_first_row: SC::Challenge,
    pub is_last_row: SC::Challenge,
    pub is_transition: SC::Challenge,
    pub alpha: SC::Challenge,
    pub accumulator: SC::Challenge,
}

impl<'a, SC: StarkGenericConfig> View for VerifierConstraintFolder<'a, SC> {
    type V = ConstraintPoint<SC::Val, SC::Challenge>;

    open spec fn view(&self) -> ConstraintPoint<SC::Val, SC::Challenge> {
        ConstraintPoint {
            main: (self.main_local@, self.main_next@),
            aux: (self.aux_local@, self.aux_next@),
            preprocessed: match self.preprocessed {
                Some((local, next)) => Some((local@, next@)),
                None => None,
            },
            randomness: self.randomness@,
            aux_bus_boundary_values: self.aux_bus_boundary_values@,
            public_values: self.public_values@,
            periodic_values: self.periodic_values@,
            is_first_row: self.is_first_row,
            is_last_row: self.is_last_row,
            is_transition: self.is_transition,
            alpha: self.alpha,
            accumulator: self.accumulator,
        }
    }
}

/// An algebraic intermediate representation: the shape of a trace and the constraints on it.
pub trait MidenAir<SC: StarkGenericConfig> {
    spec fn width_spec(&self) -> usize;

    spec fn aux_width_spec(&self) -> usize;

    spec fn num_randomness_spec(&self) -> usize;

    spec fn bus_types_spec(&self) -> Seq<BusType>;

    /// The values and the width of the preprocessed trace, where there is one.
    spec fn preprocessed_spec(&self) -> Option<(Seq<SC::Val>, usize)>;

    spec fn periodic_table_spec(&self) -> Seq<Seq<SC::Val>>;

    /// The logarithm of the number of chunks that the quotient needs.
    spec fn log_quotient_degree_spec(
        &self,
        preprocessed_width: usize,
        num_public_values: usize,
        is_zk: usize,
        aux_width: usize,
        num_randomness: usize,
    ) -> usize;

    /// The accumulator after the constraints of the AIR were folded into it.
    spec fn eval_spec(&self, point: ConstraintPoint<SC::Val, SC::Challenge>) -> SC::Challenge;

    /// The accumulator after the constraints of the AIR, and those that fix the first and the
    /// last values of its auxiliary columns, were folded into it.
    spec fn eval_with_boundary_spec(
        &self,
        point: ConstraintPoint<SC::Val, SC::Challenge>,
    ) -> SC::Challenge;

    /// The number of columns of the main trace.
    fn width(&self) -> (r: usize)
        ensures
            r == self.width_spec(),
    ;

    /// The number of columns of the auxiliary trace.
    fn aux_width(&self) -> (r: usize)
        ensures
            r == self.aux_width_spec(),
    ;

    /// The number of challenges that the auxiliary trace is made from.
    fn num_randomness(&self) -> (r: usize)
        ensures
            r == self.num_randomness_spec(),
    ;

    /// The kinds of the buses, one for each of the first auxiliary columns.
    fn bus_types(&self) -> (r: Vec<BusType>)
        ensures
            r@ == self.bus_types_spec(),
    ;

    fn preprocessed_trace(&self) -> (r: Option<RowMajorMatrix<SC::Val>>)
        ensures
            r is Some <==> self.preprocessed_spec() is Some,
            r is Some ==> self.preprocessed_spec() == Some((r->0.values@, r->0.width)),
    ;

    fn periodic_table(&self) -> (r: Vec<Vec<SC::Val>>)
        ensures
            vectors_of(r@) == self.periodic_table_spec(),
    ;

    /// The logarithm of the number of chunks that the quotient needs, with the constraints on the
    /// boundary among those that are folded.
    fn log_quotient_degree(
        &self,
        preprocessed_width: usize,
        num_public_values: usize,
        is_zk: usize,
        aux_width: usize,
        num_randomness: usize,
    ) -> (r: usize)
        ensures
            r == self.log_quotient_degree_spec(
                preprocessed_width,
                num_public_values,
                is_zk,
                aux_width,
                num_randomness,
            ),
    ;

    /// Folds the constraints of the AIR.
    fn eval(&self, folder: &mut VerifierConstraintFolder<'_, SC>)
        ensures
            final(folder).accumulator == self.eval_spec(old(folder)@),
    ;

    /// Folds the constraints of the AIR, and those that fix the first and the last values of its
    /// auxiliary columns.
    fn eval_with_boundary(&self, folder: &mut VerifierConstraintFolder<'_, SC>)
        ensures
            final(folder).accumulator == self.eval_with_boundary_spec(old(folder)@),
    ;
}

/// An AIR whose constraints include those that fix the first and the last values of its auxiliary
/// columns.
pub struct AirWithBoundaryConstraints<'a, A> {
    pub inner: &'a A,
}

impl<'a, SC: StarkGenericConfig, A: MidenAir<SC>> MidenAir<SC> for AirWithBoundaryConstraints<
    'a,
    A,
> {
    open spec fn width_spec(&self) -> usize {
        self.inner.width_spec()
    }

    open spec fn aux_width_spec(&self) -> usize {
        self.inner.aux_width_spec()
    }

    open spec fn num_randomness_spec(&self) -> usize {
        self.inner.num_randomness_spec()
    }

    open spec fn bus_types_spec(&self) -> Seq<BusType> {
        self.inner.bus_types_spec()
    }

    open spec fn preprocessed_spec(&self) -> Option<(Seq<SC::Val>, usize)> {
        self.inner.preprocessed_spec()
    }

    open spec fn periodic_table_spec(&self) -> Seq<Seq<SC::Val>> {
        self.inner.periodic_table_spec()
    }

    open spec fn log_quotient_degree_spec(
        &self,
        preprocessed_width: usize,
        num_public_values: usize,
        is_zk: usize,
        aux_width: usize,
        num_randomness: usize,
    ) -> usize {
        self.inner.log_quotient_degree_spec(
            preprocessed_width,
            num_public_values,
            is_zk,
            aux_width,
            num_randomness,
        )
    }

    open spec fn eval_spec(&self, point: ConstraintPoint<SC::Val, SC::Challenge>) -> SC::Challenge {
        self.inner.eval_with_boundary_spec(point)
    }

    open spec fn eval_with_boundary_spec(
        &self,
        point: ConstraintPoint<SC::Val, SC::Challenge>,
    ) -> SC::Challenge {
        self.inner.eval_with_boundary_spec(point)
    }

    fn width(&self) -> usize {
        self.inner.width()
    }

    fn aux_width(&self) -> usize {
        self.inner.aux_width()
    }

    fn num_randomness(&self) -> usize {
        self.inner.num_randomness()
    }

    fn bus_types(&self) -> Vec<BusType> {
        self.inner.bus_types()
    }

    fn preprocessed_trace(&self) -> Option<RowMajorMatrix<SC::Val>> {
        self.inner.preprocessed_trace()
    }

    fn periodic_table(&self) -> Vec<Vec<SC::Val>> {
        self.inner.periodic_table()
    }

    fn log_quotient_degree(
        &self,
        preprocessed_width: usize,
        num_public_values: usize,
        is_zk: usize,
        aux_width: usize,
        num_randomness: usize,
    ) -> usize {
        self.inner.log_quotient_degree(
            preprocessed_width,
            num_public_values,
            is_zk,
            aux_width,
            num_randomness,
        )
    }

    fn eval(&self, folder: &mut VerifierConstraintFolder<'_, SC>) {
        self.inner.eval_with_boundary(folder)
    }

    fn eval_with_boundary(&self, folder: &mut VerifierConstraintFolder<'_, SC>) {
        self.inner.eval_with_boundary(folder)
    }
}

} // verus!
