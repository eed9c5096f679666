//! The Goldilocks field and its quadratic extension. Elements are held by their canonical
//! representatives; the arithmetic is that of `p3_goldilocks` and `p3_field`.

use p3_field::extension::BinomialExtensionField;
use p3_field::{
    BasedVectorSpace as _, Field as _, PrimeCharacteristicRing as _, PrimeField64 as _,
};
use p3_goldilocks::Goldilocks;
use vstd::arithmetic::div_mod::{
    lemma_add_mod_noop, lemma_add_mod_noop_right, lemma_mul_mod_noop_left,
    lemma_mul_mod_noop_right, lemma_small_mod,
};
use vstd::arithmetic::mul::{
    lemma_mul_is_associative, lemma_mul_is_commutative, lemma_mul_is_distributive_add,
    lemma_mul_is_distributive_add_other_way,
};
use vstd::prelude::*;
use crate::field::{ExtensionField, Field};
use crate::primality::lemma_inverse;
use crate::residues::lemma_quadratic_inverse;

verus! {

/// The Goldilocks prime, `2^64 - 2^32 + 1`.
pub const P: u64 = 0xFFFF_FFFF_0000_0001;

/// The quadratic extension adjoins a square root of this number.
pub const W: u64 = 7;

/// The remainder of `n` modulo the Goldilocks prime.
pub open spec fn reduce(n: int) -> int {
    n % (P as int)
}

/// An element of the Goldilocks field.
#[derive(Clone, Copy, Debug, PartialEq, Eq, Structural)]
pub struct Felt {
    pub(crate) value: u64,
}

impl View for Felt {
    type V = int;

    /// The canonical representative.
    open(crate) spec fn view(&self) -> int {
        self.value as int
    }
}

impl Felt {
    #[verifier::type_invariant]
    pub open(crate) spec fn canonical(self) -> bool {
        self.value < P
    }

    /// The class of `n`.
    pub open(crate) spec fn class(n: int) -> Felt {
        Felt { value: reduce(n) as u64 }
    }

    /// The element that `n` stands for.
    pub fn new(n: u64) -> (r: Felt)
        ensures
            r == Felt::class(n as int),
            r@ == reduce(n as int),
    {
        Felt { value: n % P }
    }

    /// The canonical representative, below the prime.
    pub fn as_canonical_u64(self) -> (r: u64)
        ensures
            r == self@,
            r < P,
            Felt::class(r as int) == self,
    {
        proof {
            use_type_invariant(&self);
            lemma_small_mod(self.value as nat, P as nat);
        }
        self.value
    }
}

/// `Add` on `p3_goldilocks::Goldilocks`: addition modulo the prime.
#[verifier::external_body]
fn goldilocks_add(a: u64, b: u64) -> (r: u64)
    ensures
        r == reduce(a + b),
{
    (Goldilocks::new(a) + Goldilocks::new(b)).as_canonical_u64()
}

/// `Mul` on `p3_goldilocks::Goldilocks`: multiplication modulo the prime.
#[verifier::external_body]
fn goldilocks_mul(a: u64, b: u64) -> (r: u64)
    ensures
        r == reduce(a * b),
{
    (Goldilocks::new(a) * Goldilocks::new(b)).as_canonical_u64()
}

/// `Field::try_inverse` on `p3_goldilocks::Goldilocks`: none of zero, and of any other element
/// the number below the prime whose product with it leaves remainder one.
#[verifier::external_body]
fn goldilocks_try_inverse(a: u64) -> (r: Option<u64>)
    requires
        a < P,
    ensures
        r is None <==> a == 0,
        r matches Some(b) ==> (b < P && reduce(a * b) == 1),
{
    match Goldilocks::new(a).try_inverse() {
        Some(b) => Some(b.as_canonical_u64()),
        None => None,
    }
}

/// `PrimeCharacteristicRing::from_usize` on `p3_goldilocks::Goldilocks`: the class of a number.
#[verifier::external_body]
fn goldilocks_from_usize(n: usize) -> (r: u64)
    ensures
        r == reduce(n as int),
{
    Goldilocks::from_usize(n).as_canonical_u64()
}

impl Field for Felt {
    open(crate) spec fn is_element(self) -> bool {
        self.canonical()
    }

    open(crate) spec fn zero_spec() -> Felt {
        Felt { value: 0 }
    }

    open(crate) spec fn one_spec() -> Felt {
        Felt { value: 1 }
    }

    open(crate) spec fn add_spec(self, other: Felt) -> Felt {
        Felt::class(self.value + other.value)
    }

    open(crate) spec fn mul_spec(self, other: Felt) -> Felt {
        Felt::class(self.value * other.value)
    }

    open(crate) spec fn inverse_spec(self) -> Felt {
        choose|y: Felt| y.canonical() && #[trigger] self.mul_spec(y) == Felt::one_spec()
    }

    open(crate) spec fn from_nat_spec(n: nat) -> Felt {
        Felt::class(n as int)
    }

    fn zero() -> Felt {
        Felt { value: 0 }
    }

    fn one() -> Felt {
        Felt { value: 1 }
    }

    fn add(self, other: Felt) -> Felt {
        Felt { value: goldilocks_add(self.value, other.value) }
    }

    fn mul(self, other: Felt) -> Felt {
        proof {
            use_type_invariant(&self);
            use_type_invariant(&other);
        }
        Felt { value: goldilocks_mul(self.value, other.value) }
    }

    fn equals(self, other: Felt) -> bool {
        proof {
            use_type_invariant(&self);
            use_type_invariant(&other);
        }
        self.value == other.value
    }

    fn try_inverse(self) -> Option<Felt> {
        proof {
            use_type_invariant(&self);
        }
        match goldilocks_try_inverse(self.value) {
            Some(b) => {
                let r = Felt { value: b };
                proof {
                    assert(self.mul_spec(r) == Felt::one_spec());
                    lemma_unique_inverse(self, r, self.inverse_spec());
                }
                Some(r)
            },
            None => None,
        }
    }

    fn from_usize(n: usize) -> Felt {
        Felt { value: goldilocks_from_usize(n) }
    }

    proof fn law_add_commutes(a: Felt, b: Felt) {
    }

    proof fn law_add_associates(a: Felt, b: Felt, c: Felt) {
        let (x, y, z) = (a.value as int, b.value as int, c.value as int);
        lemma_add_mod_noop_right(z, x + y, P as int);
        lemma_add_mod_noop_right(x, y + z, P as int);
    }

    proof fn law_mul_commutes(a: Felt, b: Felt) {
        assert(a.value * b.value == b.value * a.value) by (nonlinear_arith);
    }

    proof fn law_mul_associates(a: Felt, b: Felt, c: Felt) {
        let (x, y, z) = (a.value as int, b.value as int, c.value as int);
        lemma_mul_mod_noop_left(x * y, z, P as int);
        lemma_mul_mod_noop_right(x, y * z, P as int);
        assert((x * y) * z == x * (y * z)) by (nonlinear_arith);
    }

    proof fn law_distributes(a: Felt, b: Felt, c: Felt) {
        let (x, y, z) = (a.value as int, b.value as int, c.value as int);
        lemma_mul_mod_noop_right(x, y + z, P as int);
        lemma_add_mod_noop(x * y, x * z, P as int);
        assert(x * (y + z) == x * y + x * z) by (nonlinear_arith);
    }

    proof fn law_closed(a: Felt, b: Felt) {
    }

    proof fn law_inverse(a: Felt) {
        let x = lemma_inverse(a.value as int);
        let y = Felt { value: x as u64 };
        assert(a.mul_spec(y) == Felt::one_spec());
        lemma_unique_inverse(a, y, a.inverse_spec());
    }

    proof fn law_units(a: Felt) {
        lemma_small_mod(a.value as nat, P as nat);
    }
}

proof fn lemma_unique_inverse(x: Felt, y: Felt, z: Felt)
    requires
        y.canonical(),
        z.canonical(),
        x.mul_spec(y) == Felt::one_spec(),
        x.mul_spec(z) == Felt::one_spec(),
    ensures
        y == z,
{
    Felt::law_units(y);
    Felt::law_units(z);
    Felt::law_mul_associates(y, x, z);
    Felt::law_mul_commutes(y, x);
    Felt::law_mul_commutes(Felt::one_spec(), z);
}

/// An element `c0 + c1 X` of the quadratic extension, where `X` squares to seven.
#[derive(Clone, Copy, Debug, PartialEq, Eq, Structural)]
pub struct QuadFelt {
    pub(crate) c0: u64,
    pub(crate) c1: u64,
}

impl View for QuadFelt {
    type V = (int, int);

    /// The canonical representatives of the two coefficients.
    open(crate) spec fn view(&self) -> (int, int) {
        (self.c0 as int, self.c1 as int)
    }
}

impl QuadFelt {
    #[verifier::type_invariant]
    pub open(crate) spec fn canonical(self) -> bool {
        self.c0 < P && self.c1 < P
    }

    /// The element whose coefficients are the classes of `m` and `n`.
    pub open(crate) spec fn class(m: int, n: int) -> QuadFelt {
        QuadFelt { c0: reduce(m) as u64, c1: reduce(n) as u64 }
    }

    /// The element with the given coefficients.
    pub fn new(c0: Felt, c1: Felt) -> (r: QuadFelt)
        ensures
            r@ == (c0@, c1@),
            r == QuadFelt::class(c0@, c1@),
    {
        proof {
            use_type_invariant(&c0);
            use_type_invariant(&c1);
            lemma_small_mod(c0.value as nat, P as nat);
            lemma_small_mod(c1.value as nat, P as nat);
        }
        QuadFelt { c0: c0.value, c1: c1.value }
    }

    /// The coefficients, in order.
    pub fn coefficients(self) -> (r: (Felt, Felt))
        ensures
            (r.0@, r.1@) == self@,
    {
        proof {
            use_type_invariant(&self);
        }
        (Felt { value: self.c0 }, Felt { value: self.c1 })
    }
}

/// `Add` on `p3_field::extension::BinomialExtensionField<Goldilocks, 2>`: addition by
/// coefficients.
#[verifier::external_body]
fn quadratic_add(a0: u64, a1: u64, b0: u64, b1: u64) -> (r: (u64, u64))
    ensures
        r.0 == reduce(a0 + b0),
        r.1 == reduce(a1 + b1),
{
    let a = BinomialExtensionField::<Goldilocks, 2>::new(
        [Goldilocks::new(a0), Goldilocks::new(a1)],
    );
    let b = BinomialExtensionField::<Goldilocks, 2>::new(
        [Goldilocks::new(b0), Goldilocks::new(b1)],
    );
    let sum = a + b;
    let c: &[Goldilocks] = sum.as_basis_coefficients_slice();
    (c[0].as_canonical_u64(), c[1].as_canonical_u64())
}

/// `Mul` on `p3_field::extension::BinomialExtensionField<Goldilocks, 2>`: multiplication of
/// polynomials modulo `X^2 - 7`.
#[verifier::external_body]
fn quadratic_mul(a0: u64, a1: u64, b0: u64, b1: u64) -> (r: (u64, u64))
    ensures
        r.0 == reduce(a0 * b0 + W * (a1 * b1)),
        r.1 == reduce(a0 * b1 + a1 * b0),
{
    let a = BinomialExtensionField::<Goldilocks, 2>::new(
        [Goldilocks::new(a0), Goldilocks::new(a1)],
    );
    let b = BinomialExtensionField::<Goldilocks, 2>::new(
        [Goldilocks::new(b0), Goldilocks::new(b1)],
    );
    let product = a * b;
    let c: &[Goldilocks] = product.as_basis_coefficients_slice();
    (c[0].as_canonical_u64(), c[1].as_canonical_u64())
}

/// `Field::try_inverse` on `p3_field::extension::BinomialExtensionField<Goldilocks, 2>`: none of
/// zero, and of any other element the one whose product with it, modulo `X^2 - 7`, is one.
#[verifier::external_body]
fn quadratic_try_inverse(a0: u64, a1: u64) -> (r: Option<(u64, u64)>)
    requires
        a0 < P,
        a1 < P,
    ensures
        r is None <==> (a0 == 0 && a1 == 0),
        r matches Some(b) ==> (b.0 < P && b.1 < P),
        r matches Some(b) ==> reduce(a0 * b.0 + W * (a1 * b.1)) == 1,
        r matches Some(b) ==> reduce(a0 * b.1 + a1 * b.0) == 0,
{
    let a = BinomialExtensionField::<Goldilocks, 2>::new(
        [Goldilocks::new(a0), Goldilocks::new(a1)],
    );
    match a.try_inverse() {
        Some(b) => {
            let c: &[Goldilocks] = b.as_basis_coefficients_slice();
            Some((c[0].as_canonical_u64(), c[1].as_canonical_u64()))
        },
        None => None,
    }
}

impl Field for QuadFelt {
    open(crate) spec fn is_element(self) -> bool {
        self.canonical()
    }

    open(crate) spec fn zero_spec() -> QuadFelt {
        QuadFelt { c0: 0, c1: 0 }
    }

    open(crate) spec fn one_spec() -> QuadFelt {
        QuadFelt { c0: 1, c1: 0 }
    }

    open(crate) spec fn add_spec(self, other: QuadFelt) -> QuadFelt {
        QuadFelt::class(self.c0 + other.c0, self.c1 + other.c1)
    }

    open(crate) spec fn mul_spec(self, other: QuadFelt) -> QuadFelt {
        QuadFelt::class(
            self.c0 * other.c0 + W * (self.c1 * other.c1),
            self.c0 * other.c1 + self.c1 * other.c0,
        )
    }

    open(crate) spec fn inverse_spec(self) -> QuadFelt {
        choose|y: QuadFelt| y.canonical() && #[trigger] self.mul_spec(y) == QuadFelt::one_spec()
    }

    open(crate) spec fn from_nat_spec(n: nat) -> QuadFelt {
        QuadFelt::class(n as int, 0)
    }

    fn zero() -> QuadFelt {
        QuadFelt { c0: 0, c1: 0 }
    }

    fn one() -> QuadFelt {
        QuadFelt { c0: 1, c1: 0 }
    }

    fn add(self, other: QuadFelt) -> QuadFelt {
        let (c0, c1) = quadratic_add(self.c0, self.c1, other.c0, other.c1);
        QuadFelt { c0, c1 }
    }

    fn mul(self, other: QuadFelt) -> QuadFelt {
        proof {
            use_type_invariant(&self);
            use_type_invariant(&other);
        }
        let (c0, c1) = quadratic_mul(self.c0, self.c1, other.c0, other.c1);
        QuadFelt { c0, c1 }
    }

    fn equals(self, other: QuadFelt) -> bool {
        proof {
            use_type_invariant(&self);
            use_type_invariant(&other);
        }
        self.c0 == other.c0 && self.c1 == other.c1
    }

    fn try_inverse(self) -> Option<QuadFelt> {
        proof {
            use_type_invariant(&self);
        }
        match quadratic_try_inverse(self.c0, self.c1) {
            Some((c0, c1)) => {
                let r = QuadFelt { c0, c1 };
                proof {
                    assert(self.mul_spec(r) == QuadFelt::one_spec());
                    lemma_unique_quadratic_inverse(self, r, self.inverse_spec());
                }
                Some(r)
            },
            None => None,
        }
    }

    fn from_usize(n: usize) -> QuadFelt {
        QuadFelt { c0: goldilocks_from_usize(n), c1: 0 }
    }

    proof fn law_add_commutes(a: QuadFelt, b: QuadFelt) {
    }

    proof fn law_add_associates(a: QuadFelt, b: QuadFelt, c: QuadFelt) {
        Felt::law_add_associates(
            Felt { value: a.c0 },
            Felt { value: b.c0 },
            Felt { value: c.c0 },
        );
        Felt::law_add_associates(
            Felt { value: a.c1 },
            Felt { value: b.c1 },
            Felt { value: c.c1 },
        );
    }

    proof fn law_mul_commutes(a: QuadFelt, b: QuadFelt) {
        let (x0, x1) = (a.c0 as int, a.c1 as int);
        let (y0, y1) = (b.c0 as int, b.c1 as int);
        assert(x0 * y0 == y0 * x0 && x1 * y1 == y1 * x1) by (nonlinear_arith);
        assert(x0 * y1 == y1 * x0 && x1 * y0 == y0 * x1) by (nonlinear_arith);
    }

    proof fn law_mul_associates(a: QuadFelt, b: QuadFelt, c: QuadFelt) {
        let (x0, x1) = (a.c0 as int, a.c1 as int);
        let (y0, y1) = (b.c0 as int, b.c1 as int);
        let (z0, z1) = (c.c0 as int, c.c1 as int);
        let w = W as int;
        let (l0, l1) = (x0 * y0 + w * (x1 * y1), x0 * y1 + x1 * y0);
        let (r0, r1) = (y0 * z0 + w * (y1 * z1), y0 * z1 + y1 * z0);
        lemma_reduced_combination(l0, z0, l1, z1, w);
        lemma_reduced_combination(l0, z1, l1, z0, 1);
        lemma_reduced_combination(r0, x0, r1, x1, w);
        lemma_reduced_combination(r1, x0, r0, x1, 1);
        lemma_swap_factors(reduce(r0), x0, reduce(r1), x1);
        lemma_quadratic_associates(x0, x1, y0, y1, z0, z1, w);
    }

    proof fn law_distributes(a: QuadFelt, b: QuadFelt, c: QuadFelt) {
        let (x0, x1) = (a.c0 as int, a.c1 as int);
        let (y0, y1) = (b.c0 as int, b.c1 as int);
        let (z0, z1) = (c.c0 as int, c.c1 as int);
        let w = W as int;
        lemma_reduced_combination(y0 + z0, x0, y1 + z1, x1, w);
        lemma_reduced_combination(y1 + z1, x0, y0 + z0, x1, 1);
        lemma_swap_factors(reduce(y0 + z0), x0, reduce(y1 + z1), x1);
        lemma_add_mod_noop(x0 * y0 + w * (x1 * y1), x0 * z0 + w * (x1 * z1), P as int);
        lemma_add_mod_noop(x0 * y1 + x1 * y0, x0 * z1 + x1 * z0, P as int);
        assert((y0 + z0) * x0 + w * ((y1 + z1) * x1) == (x0 * y0 + w * (x1 * y1)) + (x0 * z0 + w * (
        x1 * z1))) by (nonlinear_arith);
        assert((y1 + z1) * x0 + 1 * ((y0 + z0) * x1) == (x0 * y1 + x1 * y0) + (x0 * z1 + x1 * z0))
            by (nonlinear_arith);
    }

    proof fn law_closed(a: QuadFelt, b: QuadFelt) {
    }

    proof fn law_inverse(a: QuadFelt) {
        let y = lemma_quadratic_inverse(a);
        lemma_unique_quadratic_inverse(a, y, a.inverse_spec());
    }

    proof fn law_units(a: QuadFelt) {
        lemma_small_mod(a.c0 as nat, P as nat);
        lemma_small_mod(a.c1 as nat, P as nat);
    }
}

/// A combination of two products modulo the prime does not change when one factor of each is
/// reduced.
proof fn lemma_reduced_combination(x: int, u: int, y: int, v: int, k: int)
    ensures
        reduce(reduce(x) * u + k * (reduce(y) * v)) == reduce(x * u + k * (y * v)),
{
    let p = P as int;
    lemma_mul_mod_noop_left(x, u, p);
    lemma_mul_mod_noop_left(y, k * v, p);
    assert(k * (reduce(y) * v) == reduce(y) * (k * v)) by (nonlinear_arith);
    assert(k * (y * v) == y * (k * v)) by (nonlinear_arith);
    lemma_add_mod_noop(reduce(x) * u, reduce(y) * (k * v), p);
    lemma_add_mod_noop(x * u, y * (k * v), p);
}

proof fn lemma_quadratic_associates(x0: int, x1: int, y0: int, y1: int, z0: int, z1: int, w: int)
    ensures
        (x0 * y0 + w * (x1 * y1)) * z0 + w * ((x0 * y1 + x1 * y0) * z1) == (y0 * z0 + w * (y1 * z1))
            * x0 + w * ((y0 * z1 + y1 * z0) * x1),
        (x0 * y0 + w * (x1 * y1)) * z1 + 1 * ((x0 * y1 + x1 * y0) * z0) == (y0 * z1 + y1 * z0) * x0
            + 1 * ((y0 * z0 + w * (y1 * z1)) * x1),
{
    lemma_expand(x0, y0, w, x1 * y1, z0);
    lemma_expand(x0, y1, x1, y0, z1);
    lemma_expand(y0, z0, w, y1 * z1, x0);
    lemma_expand(y0, z1, y1, z0, x1);
    lemma_expand(x0, y0, w, x1 * y1, z1);
    lemma_expand(x0, y1, x1, y0, z0);
    lemma_expand(y0, z1, y1, z0, x0);
    lemma_expand(y0, z0, w, y1 * z1, x1);
    lemma_rotate(x0, y0, z0);
    lemma_rotate(x1, y1, z0);
    lemma_rotate(x0, y1, z1);
    lemma_rotate(x1, y0, z1);
    lemma_rotate(x0, y0, z1);
    lemma_rotate(x1, y1, z1);
    lemma_rotate(x0, y1, z0);
    lemma_rotate(x1, y0, z0);
    lemma_mul_is_distributive_add(w, x0 * (y1 * z1), x1 * (y0 * z1));
    lemma_mul_is_distributive_add(w, x1 * (y0 * z1), x1 * (y1 * z0));
}

proof fn lemma_expand(a: int, b: int, c: int, d: int, z: int)
    ensures
        (a * b + c * d) * z == a * (b * z) + c * (d * z),
{
    lemma_mul_is_distributive_add_other_way(z, a * b, c * d);
    lemma_mul_is_associative(a, b, z);
    lemma_mul_is_associative(c, d, z);
}

/// Three factors in three orders.
proof fn lemma_rotate(x: int, y: int, z: int)
    ensures
        (x * y) * z == x * (y * z),
        y * (z * x) == x * (y * z),
        (y * z) * x == x * (y * z),
{
    lemma_mul_is_associative(x, y, z);
    lemma_mul_is_associative(y, z, x);
    lemma_mul_is_commutative(x, y * z);
}

proof fn lemma_swap_factors(x: int, u: int, y: int, v: int)
    ensures
        x * u == u * x,
        y * v == v * y,
        x * v == v * x,
        y * u == u * y,
{
    assert(x * u == u * x && y * v == v * y && x * v == v * x && y * u == u * y)
        by (nonlinear_arith);
}

proof fn lemma_unique_quadratic_inverse(x: QuadFelt, y: QuadFelt, z: QuadFelt)
    requires
        y.canonical(),
        z.canonical(),
        x.mul_spec(y) == QuadFelt::one_spec(),
        x.mul_spec(z) == QuadFelt::one_spec(),
    ensures
        y == z,
{
    QuadFelt::law_units(y);
    QuadFelt::law_units(z);
    QuadFelt::law_mul_associates(y, x, z);
    QuadFelt::law_mul_commutes(y, x);
    QuadFelt::law_mul_commutes(QuadFelt::one_spec(), z);
}

impl ExtensionField<Felt> for QuadFelt {
    open(crate) spec fn dimension_spec() -> nat {
        2
    }

    open(crate) spec fn from_base_spec(x: Felt) -> QuadFelt {
        QuadFelt { c0: x.value, c1: 0 }
    }

    open(crate) spec fn basis_spec(i: nat) -> QuadFelt {
        if i == 0 {
            QuadFelt { c0: 1, c1: 0 }
        } else {
            QuadFelt { c0: 0, c1: 1 }
        }
    }

    fn dimension() -> usize {
        2
    }

    fn from_base(x: Felt) -> QuadFelt {
        proof {
            use_type_invariant(&x);
        }
        QuadFelt { c0: x.value, c1: 0 }
    }

    fn ith_basis_element(i: usize) -> Option<QuadFelt> {
        if i == 0 {
            Some(QuadFelt { c0: 1, c1: 0 })
        } else if i == 1 {
            Some(QuadFelt { c0: 0, c1: 1 })
        } else {
            None
        }
    }

    proof fn law_dimension() {
    }

    proof fn law_embedding(x: Felt, y: Felt) {
    }
}

} // verus!
