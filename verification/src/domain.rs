//! Evaluation domains: indexed sets of points with a vanishing polynomial.

use vstd::prelude::*;
use crate::field::{ExtensionField, Field};

verus! {

/// The values at one point of four polynomials that tell the rows of a domain apart.
#[derive(Debug)]
pub struct LagrangeSelectors<EF> {
    /// Zero on every row but the first.
    pub is_first_row: EF,
    /// Zero on every row but the last.
    pub is_last_row: EF,
    /// Zero on the last row alone.
    pub is_transition: EF,
    /// The inverse of the vanishing polynomial.
    pub inv_vanishing: EF,
}

/// A set of points of `F` on which columns of values are interpolated.
pub trait PolynomialSpace<F: Field, EF: ExtensionField<F>>: Sized + Copy {
    /// Whether this value stands for a domain; every value that code can hold does.
    spec fn is_space(self) -> bool;

    spec fn size_spec(self) -> usize;

    spec fn first_point_spec(self) -> F;

    /// The vanishing polynomial at a point of the extension.
    spec fn vanishing_spec(self, x: EF) -> EF;

    /// The vanishing polynomial at a point of the base field.
    spec fn vanishing_base_spec(self, x: F) -> F;

    /// The map from each point to the one after it, where it is algebraic.
    spec fn next_point_spec(self, x: EF) -> Option<EF>;

    /// The selectors, at a point where they are defined: outside the domain.
    spec fn selectors_spec(self, x: EF) -> Option<LagrangeSelectors<EF>>;

    /// The domain, meant to be of at least the given size and to share no point with this one,
    /// that a quotient is put on, where there is one.
    spec fn disjoint_domain_spec(self, min_size: usize) -> Option<Self>;

    /// The domains, meant to be that many and of equal size, that this one is divided into, where
    /// it can be so divided.
    spec fn split_spec(self, num_chunks: usize) -> Option<Seq<Self>>;

    fn size(self) -> (r: usize)
        ensures
            r == self.size_spec(),
    ;

    fn first_point(self) -> (r: F)
        ensures
            r == self.first_point_spec(),
    ;

    fn vanishing_poly_at_point(self, x: EF) -> (r: EF)
        ensures
            r == self.vanishing_spec(x),
    ;

    fn vanishing_poly_at_base_point(self, x: F) -> (r: F)
        ensures
            r == self.vanishing_base_spec(x),
    ;

    fn next_point(self, x: EF) -> (r: Option<EF>)
        ensures
            r == self.next_point_spec(x),
    ;

    fn selectors_at_point(self, x: EF) -> (r: Option<LagrangeSelectors<EF>>)
        ensures
            r == self.selectors_spec(x),
            r is Some <==> self.vanishing_spec(x) != EF::zero_spec(),
            r matches Some(s) ==> self.vanishing_spec(x).mul_spec(s.inv_vanishing)
                == EF::one_spec(),
    ;

    fn create_disjoint_domain(self, min_size: usize) -> (r: Option<Self>)
        ensures
            r == self.disjoint_domain_spec(min_size),
    ;

    fn split_domains(self, num_chunks: usize) -> (r: Option<Vec<Self>>)
        ensures
            r is Some <==> self.split_spec(num_chunks) is Some,
            r is Some ==> r->0@ == self.split_spec(num_chunks)->0,
    ;

    /// The vanishing polynomial is zero at the first point.
    proof fn law_vanishes_at_first_point(self)
        requires
            self.is_space(),
        ensures
            self.vanishing_base_spec(self.first_point_spec()) == F::zero_spec(),
    ;

    /// The values of the vanishing polynomial are elements.
    proof fn law_vanishing_closed(self, x: F)
        ensures
            self.vanishing_base_spec(x).is_element(),
    ;

    /// On points of the base field the vanishing polynomial takes the values it takes there.
    proof fn law_vanishing_extends(self, x: F)
        ensures
            self.vanishing_spec(EF::from_base_spec(x)) == EF::from_base_spec(
                self.vanishing_base_spec(x),
            ),
    ;
}

} // verus!
