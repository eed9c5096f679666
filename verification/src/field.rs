//! The algebra that the verifier computes in: a base field, an extension of it,
//! and sums, products and inverses of their elements.

use vstd::prelude::*;

verus! {

/// A finite field. Two values are equal exactly when they are the same element.
pub trait Field: Sized + Copy {
    /// Whether this value stands for an element; every value that code can hold does, as the
    /// operations say of what they are given.
    spec fn is_element(self) -> bool;

    spec fn zero_spec() -> Self;

    spec fn one_spec() -> Self;

    spec fn add_spec(self, other: Self) -> Self;

    spec fn mul_spec(self, other: Self) -> Self;

    /// The multiplicative inverse, where there is one.
    spec fn inverse_spec(self) -> Self;

    /// The image of a number under the map from the integers.
    spec fn from_nat_spec(n: nat) -> Self;

    fn zero() -> (r: Self)
        ensures
            r == Self::zero_spec(),
    ;

    fn one() -> (r: Self)
        ensures
            r == Self::one_spec(),
    ;

    fn add(self, other: Self) -> (r: Self)
        ensures
            r == self.add_spec(other),
    ;

    fn mul(self, other: Self) -> (r: Self)
        ensures
            r == self.mul_spec(other),
            self.is_element(),
            other.is_element(),
    ;

    fn equals(self, other: Self) -> (r: bool)
        ensures
            r == (self == other),
            self.is_element(),
            other.is_element(),
    ;

    /// The multiplicative inverse, which every element but zero has.
    fn try_inverse(self) -> (r: Option<Self>)
        ensures
            r is None <==> self == Self::zero_spec(),
            r is Some ==> r == Some(self.inverse_spec()),
            r is Some ==> self.inverse_spec().is_element(),
            r is Some ==> self.mul_spec(self.inverse_spec()) == Self::one_spec(),
    ;

    fn from_usize(n: usize) -> (r: Self)
        ensures
            r == Self::from_nat_spec(n as nat),
    ;

    proof fn law_add_commutes(a: Self, b: Self)
        ensures
            a.add_spec(b) == b.add_spec(a),
    ;

    proof fn law_add_associates(a: Self, b: Self, c: Self)
        ensures
            a.add_spec(b).add_spec(c) == a.add_spec(b.add_spec(c)),
    ;

    proof fn law_mul_commutes(a: Self, b: Self)
        ensures
            a.mul_spec(b) == b.mul_spec(a),
    ;

    proof fn law_mul_associates(a: Self, b: Self, c: Self)
        ensures
            a.mul_spec(b).mul_spec(c) == a.mul_spec(b.mul_spec(c)),
    ;

    proof fn law_distributes(a: Self, b: Self, c: Self)
        ensures
            a.mul_spec(b.add_spec(c)) == a.mul_spec(b).add_spec(a.mul_spec(c)),
    ;

    proof fn law_closed(a: Self, b: Self)
        ensures
            Self::zero_spec().is_element(),
            Self::one_spec().is_element(),
            Self::zero_spec() != Self::one_spec(),
            a.add_spec(b).is_element(),
            a.mul_spec(b).is_element(),
    ;

    /// Every element but zero has an inverse.
    proof fn law_inverse(a: Self)
        requires
            a.is_element(),
            a != Self::zero_spec(),
        ensures
            a.inverse_spec().is_element(),
            a.mul_spec(a.inverse_spec()) == Self::one_spec(),
    ;

    proof fn law_units(a: Self)
        requires
            a.is_element(),
        ensures
            a.add_spec(Self::zero_spec()) == a,
            a.mul_spec(Self::one_spec()) == a,
            a.mul_spec(Self::zero_spec()) == Self::zero_spec(),
    ;
}

/// An extension of the field `F`, which is a vector space over it with a fixed basis.
pub trait ExtensionField<F: Field>: Field {
    spec fn dimension_spec() -> nat;

    spec fn from_base_spec(x: F) -> Self;

    spec fn basis_spec(i: nat) -> Self;

    fn dimension() -> (r: usize)
        ensures
            r == Self::dimension_spec(),
    ;

    fn from_base(x: F) -> (r: Self)
        ensures
            r == Self::from_base_spec(x),
    ;

    fn ith_basis_element(i: usize) -> (r: Option<Self>)
        ensures
            r == (if (i as nat) < Self::dimension_spec() {
                Some(Self::basis_spec(i as nat))
            } else {
                None
            }),
    ;

    /// The dimension is positive, and a machine word.
    proof fn law_dimension()
        ensures
            0 < Self::dimension_spec() <= usize::MAX,
    ;

    /// The embedding of the base field keeps zero, one, sums and products.
    proof fn law_embedding(x: F, y: F)
        ensures
            Self::from_base_spec(F::zero_spec()) == Self::zero_spec(),
            Self::from_base_spec(F::one_spec()) == Self::one_spec(),
            Self::from_base_spec(x.add_spec(y)) == Self::from_base_spec(x).add_spec(
                Self::from_base_spec(y),
            ),
            Self::from_base_spec(x.mul_spec(y)) == Self::from_base_spec(x).mul_spec(
                Self::from_base_spec(y),
            ),
    ;
}

/// The `n`-th power.
pub open spec fn exp_spec<F: Field>(x: F, n: nat) -> F
    decreases n,
{
    if n == 0 {
        F::one_spec()
    } else {
        exp_spec(x, (n - 1) as nat).mul_spec(x)
    }
}

/// `x`, squared `log` times.
pub open spec fn exp_power_of_2_spec<F: Field>(x: F, log: nat) -> F
    decreases log,
{
    if log == 0 {
        x
    } else {
        exp_power_of_2_spec(x.mul_spec(x), (log - 1) as nat)
    }
}

/// The sum of a sequence of elements.
pub open spec fn sum<F: Field>(s: Seq<F>) -> F
    decreases s.len(),
{
    if s.len() == 0 {
        F::zero_spec()
    } else {
        sum(s.drop_last()).add_spec(s.last())
    }
}

/// The product of a sequence of elements.
pub open spec fn product<F: Field>(s: Seq<F>) -> F
    decreases s.len(),
{
    if s.len() == 0 {
        F::one_spec()
    } else {
        product(s.drop_last()).mul_spec(s.last())
    }
}

} // verus!
