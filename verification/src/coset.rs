//! Cosets of the subgroups of the Goldilocks field whose order is a power of two. The domain
//! arithmetic is that of `p3_commit`.

use p3_commit::PolynomialSpace as _;
use p3_field::coset::TwoAdicMultiplicativeCoset;
use p3_field::extension::BinomialExtensionField;
use p3_field::{BasedVectorSpace as _, PrimeField64 as _};
use p3_goldilocks::Goldilocks;
use vstd::arithmetic::power2::{lemma_pow2_strictly_increases, pow2};
use vstd::prelude::*;
use crate::algebra::{
    lemma_exp_is_element, lemma_exp_nonzero, lemma_exp_power_of_2, lemma_no_zero_divisors,
};
use crate::domain::{LagrangeSelectors, PolynomialSpace};
use crate::field::{ExtensionField, Field, exp_power_of_2_spec, exp_spec};
use crate::goldilocks::{Felt, QuadFelt};
use crate::primality::ROOT;

verus! {

/// The logarithm of the order of the largest such subgroup.
pub const TWO_ADICITY: usize = 32;

/// A generator of the multiplicative group of the Goldilocks field.
pub const GENERATOR: u64 = 7;

/// The coset of the elements `shift`, `shift * g`, `shift * g^2`, ... where `g` generates the
/// subgroup of order `2^log_size`.
#[derive(Clone, Copy, Debug, PartialEq, Eq, Structural)]
pub struct Coset {
    pub(crate) shift: Felt,
    pub(crate) log_size: usize,
}

/// The generator of the subgroup of order `2^bits` that `p3_goldilocks` fixes: each is the square
/// of the one for the order above, down from that of the largest order.
pub open(crate) spec fn two_adic_generator(bits: nat) -> Felt {
    exp_power_of_2_spec(Felt { value: ROOT }, (TWO_ADICITY - bits) as nat)
}

/// The number of times that one has to be doubled to reach `n`.
pub open spec fn log2_ceil(n: nat) -> nat
    decreases n,
{
    if n <= 1 {
        0
    } else {
        log2_ceil((n - n / 2) as nat) + 1
    }
}

/// The additive inverse.
pub open(crate) spec fn negated(x: Felt) -> Felt {
    Felt::class(-(x.value as int))
}

impl Coset {
    #[verifier::type_invariant]
    pub open(crate) spec fn well_formed(self) -> bool {
        &&& self.shift.canonical()
        &&& self.shift != Felt::zero_spec()
        &&& self.log_size <= TWO_ADICITY
        &&& self.log_size < usize::BITS
    }

    /// The coset of the subgroup of order `2^log_size` that holds `shift`.
    pub open(crate) spec fn of(shift: Felt, log_size: usize) -> Coset {
        Coset { shift, log_size }
    }

    /// The generator of the subgroup.
    pub open(crate) spec fn generator(self) -> Felt {
        two_adic_generator(self.log_size as nat)
    }

    /// The point of the subgroup that `x` is the shift of.
    pub open(crate) spec fn unshifted(self, x: QuadFelt) -> QuadFelt {
        x.mul_spec(QuadFelt::from_base_spec(self.shift.inverse_spec()))
    }

    /// The coset of the subgroup of order `2^log_size` that holds `shift`, where there is one.
    pub fn new(shift: Felt, log_size: usize) -> (r: Option<Coset>)
        ensures
            r == (if shift != Felt::zero_spec() && log_size <= TWO_ADICITY && log_size
                < usize::BITS {
                Some(Coset::of(shift, log_size))
            } else {
                None
            }),
    {
        if log_size > TWO_ADICITY || log_size >= usize::BITS as usize || shift.equals(
            Felt::zero(),
        ) {
            return None;
        }
        Some(Coset { shift, log_size })
    }
}

impl Coset {
    /// The logarithm of the number of parts, where the coset can be so divided.
    fn log_of_chunks(self, num_chunks: usize) -> (r: Option<usize>)
        requires
            self.well_formed(),
        ensures
            r is Some <==> exists|k: nat| k <= self.log_size && num_chunks == #[trigger] pow2(k),
            r matches Some(k) ==> k <= self.log_size && num_chunks == pow2(k as nat),
    {
        let mut k: usize = 0;
        while k <= self.log_size
            invariant
                self.well_formed(),
                k <= self.log_size + 1,
                forall|j: nat| j < k ==> num_chunks != #[trigger] pow2(j),
            decreases self.log_size + 1 - k,
        {
            proof {
                vstd::bits::lemma_usize_pow2_no_overflow(k as nat);
                vstd::bits::lemma_usize_shl_is_mul(1, k);
            }
            if num_chunks == 1usize << k {
                return Some(k);
            }
            k = k + 1;
        }
        None
    }

    /// Divides the coset into equal parts.
    fn split_evenly(self, log_chunks: usize, num_chunks: usize) -> (r: Vec<Coset>)
        requires
            self.well_formed(),
            log_chunks <= self.log_size,
            num_chunks == pow2(log_chunks as nat),
        ensures
            self.split_spec(num_chunks) == Some(r@),
    {
        proof {
            lemma_generator(self.log_size as nat);
        }
        let found: Vec<(Felt, usize)> = coset_split(self, num_chunks);
        let mut parts: Vec<Coset> = Vec::new();
        for i in 0..num_chunks
            invariant
                self.well_formed(),
                log_chunks <= self.log_size,
                self.generator().canonical(),
                self.generator() != Felt::zero_spec(),
                found@ == Seq::new(
                    num_chunks as nat,
                    |i: int|
                        (
                            self.shift.mul_spec(exp_spec(self.generator(), i as nat)),
                            (self.log_size - log_chunks) as usize,
                        ),
                ),
                parts@ == Seq::new(
                    i as nat,
                    |i: int|
                        Coset {
                            shift: self.shift.mul_spec(exp_spec(self.generator(), i as nat)),
                            log_size: (self.log_size - log_chunks) as usize,
                        },
                ),
        {
            let (shift, log_size): (Felt, usize) = found[i];
            proof {
                use_type_invariant(&shift);
                let power = exp_spec(self.generator(), i as nat);
                lemma_exp_nonzero(self.generator(), i as nat);
                lemma_exp_is_element(self.generator(), i as nat);
                lemma_no_zero_divisors(self.shift, power);
            }
            parts.push(Coset { shift, log_size });
        }
        proof {
            lemma_pow2_injective(log_chunks as nat, self.log_size as nat);
        }
        parts
    }
}

/// `p3_util::log2_ceil_usize`: the logarithm, rounded up, with zero for zero.
#[verifier::external_body]
fn log2_ceil_usize(n: usize) -> (r: usize)
    ensures
        r == log2_ceil(n as nat),
{
    p3_util::log2_ceil_usize(n)
}

/// `PolynomialSpace::vanishing_poly_at_point` of `p3_commit`, on a coset and a point of the
/// extension: the point is divided by the shift, squared as often as the logarithm of the size
/// says, and one is taken from it.
#[verifier::external_body]
fn coset_vanishing(coset: Coset, x: QuadFelt) -> (r: QuadFelt)
    requires
        coset.well_formed(),
    ensures
        r == exp_power_of_2_spec(coset.unshifted(x), coset.log_size as nat).add_spec(
            QuadFelt::from_base_spec(negated(Felt::one_spec())),
        ),
{
    let domain = TwoAdicMultiplicativeCoset::new(
        Goldilocks::new(coset.shift.value),
        coset.log_size,
    );
    let x = BinomialExtensionField::<Goldilocks, 2>::new(
        [Goldilocks::new(x.c0), Goldilocks::new(x.c1)],
    );
    let z = domain.unwrap().vanishing_poly_at_point(x);
    let c: &[Goldilocks] = z.as_basis_coefficients_slice();
    QuadFelt { c0: c[0].as_canonical_u64(), c1: c[1].as_canonical_u64() }
}

/// `PolynomialSpace::vanishing_poly_at_point` of `p3_commit`, on a coset and a point of the base
/// field: as on a point of the extension.
#[verifier::external_body]
fn coset_vanishing_base(coset: Coset, x: Felt) -> (r: Felt)
    requires
        coset.well_formed(),
    ensures
        r == exp_power_of_2_spec(
            x.mul_spec(coset.shift.inverse_spec()),
            coset.log_size as nat,
        ).add_spec(negated(Felt::one_spec())),
{
    let domain = TwoAdicMultiplicativeCoset::new(
        Goldilocks::new(coset.shift.value),
        coset.log_size,
    );
    let z: Goldilocks = domain.unwrap().vanishing_poly_at_point(Goldilocks::new(x.value));
    Felt { value: z.as_canonical_u64() }
}

/// `PolynomialSpace::next_point` of `p3_commit`, on a coset: the point times the generator that
/// `p3_goldilocks` fixes for the subgroup.
#[verifier::external_body]
fn coset_next_point(coset: Coset, x: QuadFelt) -> (r: Option<QuadFelt>)
    requires
        coset.well_formed(),
    ensures
        r == Some(x.mul_spec(QuadFelt::from_base_spec(coset.generator()))),
{
    let domain = TwoAdicMultiplicativeCoset::new(
        Goldilocks::new(coset.shift.value),
        coset.log_size,
    );
    let x = BinomialExtensionField::<Goldilocks, 2>::new(
        [Goldilocks::new(x.c0), Goldilocks::new(x.c1)],
    );
    match domain.unwrap().next_point(x) {
        Some(y) => {
            let c: &[Goldilocks] = y.as_basis_coefficients_slice();
            Some(QuadFelt { c0: c[0].as_canonical_u64(), c1: c[1].as_canonical_u64() })
        },
        None => None,
    }
}

/// The selectors of a coset at a point, from the vanishing polynomial there.
pub open(crate) spec fn coset_selectors(coset: Coset, x: QuadFelt) -> LagrangeSelectors<QuadFelt> {
    let u = coset.unshifted(x);
    let z = coset.vanishing_spec(x);
    let from_first = u.add_spec(QuadFelt::from_base_spec(negated(Felt::one_spec())));
    let from_last = u.add_spec(
        QuadFelt::from_base_spec(negated(coset.generator().inverse_spec())),
    );
    LagrangeSelectors {
        is_first_row: z.mul_spec(from_first.inverse_spec()),
        is_last_row: z.mul_spec(from_last.inverse_spec()),
        is_transition: from_last,
        inv_vanishing: z.inverse_spec(),
    }
}

/// `PolynomialSpace::selectors_at_point` of `p3_commit`, on a coset and a point outside it: with
/// `u` the point divided by the shift, `g` the generator of the subgroup and `z` the vanishing
/// polynomial, `z / (u - 1)`, `z / (u - 1/g)`, `u - 1/g` and `1 / z`.
#[verifier::external_body]
fn coset_selectors_at_point(coset: Coset, x: QuadFelt) -> (r: LagrangeSelectors<QuadFelt>)
    requires
        coset.well_formed(),
        coset.vanishing_spec(x) != QuadFelt::zero_spec(),
    ensures
        r == coset_selectors(coset, x),
{
    let domain = TwoAdicMultiplicativeCoset::new(
        Goldilocks::new(coset.shift.value),
        coset.log_size,
    );
    let x = BinomialExtensionField::<Goldilocks, 2>::new(
        [Goldilocks::new(x.c0), Goldilocks::new(x.c1)],
    );
    let s = domain.unwrap().selectors_at_point(x);
    let values = [s.is_first_row, s.is_last_row, s.is_transition, s.inv_vanishing];
    let [is_first_row, is_last_row, is_transition, inv_vanishing] = values.map(|y| {
        let c: &[Goldilocks] = y.as_basis_coefficients_slice();
        QuadFelt { c0: c[0].as_canonical_u64(), c1: c[1].as_canonical_u64() }
    });
    LagrangeSelectors { is_first_row, is_last_row, is_transition, inv_vanishing }
}

/// `PolynomialSpace::create_disjoint_domain` of `p3_commit`, on a coset: the coset of the smallest
/// subgroup of at least the given order whose shift is seven times that of this one. It panics
/// where there is no subgroup of that order. What is handed back is the shift and the logarithm of
/// the order.
#[verifier::external_body]
fn coset_disjoint(coset: Coset, min_size: usize) -> (r: (Felt, usize))
    requires
        coset.well_formed(),
        log2_ceil(min_size as nat) <= TWO_ADICITY,
    ensures
        r.0 == coset.shift.mul_spec(Felt::class(GENERATOR as int)),
        r.1 == log2_ceil(min_size as nat),
{
    let domain = TwoAdicMultiplicativeCoset::new(
        Goldilocks::new(coset.shift.value),
        coset.log_size,
    );
    let disjoint = domain.unwrap().create_disjoint_domain(min_size);
    (Felt { value: disjoint.shift().as_canonical_u64() }, disjoint.log_size())
}

/// `PolynomialSpace::split_domains` of `p3_commit`, on a coset and a power of two that divides its
/// size: the `i`-th part is shifted by the `i`-th power of the generator beside the shift of the
/// whole, and each part is as much smaller as the number of parts says. It panics on any other
/// number. What is handed back is the shifts and the logarithms of the orders.
#[verifier::external_body]
fn coset_split(coset: Coset, num_chunks: usize) -> (r: Vec<(Felt, usize)>)
    requires
        coset.well_formed(),
        exists|k: nat| k <= coset.log_size && num_chunks == #[trigger] pow2(k),
    ensures
        forall|k: nat|
            (k <= coset.log_size && num_chunks == #[trigger] pow2(k)) ==> r@ == Seq::new(
                num_chunks as nat,
                |i: int|
                    (
                        coset.shift.mul_spec(exp_spec(coset.generator(), i as nat)),
                        (coset.log_size - k) as usize,
                    ),
            ),
{
    let domain = TwoAdicMultiplicativeCoset::new(
        Goldilocks::new(coset.shift.value),
        coset.log_size,
    );
    domain.unwrap().split_domains(num_chunks).iter().map(
        |part| (Felt { value: part.shift().as_canonical_u64() }, part.log_size()),
    ).collect()
}

impl PolynomialSpace<Felt, QuadFelt> for Coset {
    open(crate) spec fn is_space(self) -> bool {
        self.well_formed()
    }

    open(crate) spec fn size_spec(self) -> usize {
        1usize << self.log_size
    }

    open(crate) spec fn first_point_spec(self) -> Felt {
        self.shift
    }

    open(crate) spec fn vanishing_spec(self, x: QuadFelt) -> QuadFelt {
        exp_power_of_2_spec(self.unshifted(x), self.log_size as nat).add_spec(
            QuadFelt::from_base_spec(negated(Felt::one_spec())),
        )
    }

    open(crate) spec fn vanishing_base_spec(self, x: Felt) -> Felt {
        exp_power_of_2_spec(
            x.mul_spec(self.shift.inverse_spec()),
            self.log_size as nat,
        ).add_spec(negated(Felt::one_spec()))
    }

    open(crate) spec fn next_point_spec(self, x: QuadFelt) -> Option<QuadFelt> {
        Some(x.mul_spec(QuadFelt::from_base_spec(self.generator())))
    }

    open(crate) spec fn selectors_spec(self, x: QuadFelt) -> Option<LagrangeSelectors<QuadFelt>> {
        if self.vanishing_spec(x) == QuadFelt::zero_spec() {
            None
        } else {
            Some(coset_selectors(self, x))
        }
    }

    open(crate) spec fn disjoint_domain_spec(self, min_size: usize) -> Option<Coset> {
        let log_size = log2_ceil(min_size as nat);
        if log_size <= TWO_ADICITY && log_size < usize::BITS {
            Some(
                Coset {
                    shift: self.shift.mul_spec(Felt::class(GENERATOR as int)),
                    log_size: log_size as usize,
                },
            )
        } else {
            None
        }
    }

    open(crate) spec fn split_spec(self, num_chunks: usize) -> Option<Seq<Coset>> {
        if exists|k: nat| k <= self.log_size && num_chunks == #[trigger] pow2(k) {
            let log_chunks = choose|k: nat|
                k <= self.log_size && num_chunks == #[trigger] pow2(k);
            Some(
                Seq::new(
                    num_chunks as nat,
                    |i: int|
                        Coset {
                            shift: self.shift.mul_spec(exp_spec(self.generator(), i as nat)),
                            log_size: (self.log_size - log_chunks) as usize,
                        },
                ),
            )
        } else {
            None
        }
    }

    fn size(self) -> usize {
        proof {
            use_type_invariant(&self);
        }
        1usize << self.log_size
    }

    fn first_point(self) -> Felt {
        self.shift
    }

    fn vanishing_poly_at_point(self, x: QuadFelt) -> QuadFelt {
        proof {
            use_type_invariant(&self);
        }
        coset_vanishing(self, x)
    }

    fn vanishing_poly_at_base_point(self, x: Felt) -> Felt {
        proof {
            use_type_invariant(&self);
        }
        coset_vanishing_base(self, x)
    }

    fn next_point(self, x: QuadFelt) -> Option<QuadFelt> {
        proof {
            use_type_invariant(&self);
        }
        coset_next_point(self, x)
    }

    fn selectors_at_point(self, x: QuadFelt) -> Option<LagrangeSelectors<QuadFelt>> {
        proof {
            use_type_invariant(&self);
        }
        match self.vanishing_poly_at_point(x).try_inverse() {
            Some(_) => Some(coset_selectors_at_point(self, x)),
            None => None,
        }
    }

    fn create_disjoint_domain(self, min_size: usize) -> Option<Coset> {
        proof {
            use_type_invariant(&self);
        }
        let log_size: usize = log2_ceil_usize(min_size);
        if log_size > TWO_ADICITY || log_size >= usize::BITS as usize {
            return None;
        }
        let (shift, log_size) = coset_disjoint(self, min_size);
        proof {
            use_type_invariant(&shift);
        }
        proof {
            lemma_no_zero_divisors(self.shift, Felt::class(GENERATOR as int));
        }
        Some(Coset { shift, log_size })
    }

    fn split_domains(self, num_chunks: usize) -> Option<Vec<Coset>> {
        proof {
            use_type_invariant(&self);
        }
        match self.log_of_chunks(num_chunks) {
            Some(log_chunks) => Some(self.split_evenly(log_chunks, num_chunks)),
            None => None,
        }
    }

    proof fn law_vanishes_at_first_point(self) {
        Felt::law_inverse(self.shift);
        lemma_powers_of_one(self.log_size as nat);
    }

    proof fn law_vanishing_closed(self, x: Felt) {
    }

    proof fn law_vanishing_extends(self, x: Felt) {
        QuadFelt::law_embedding(x, self.shift.inverse_spec());
        lemma_embedded_powers(x.mul_spec(self.shift.inverse_spec()), self.log_size as nat);
        QuadFelt::law_embedding(
            exp_power_of_2_spec(x.mul_spec(self.shift.inverse_spec()), self.log_size as nat),
            negated(Felt::one_spec()),
        );
    }
}

pub(crate) proof fn lemma_powers_of_one(log: nat)
    ensures
        exp_power_of_2_spec(Felt::one_spec(), log) == Felt::one_spec(),
    decreases log,
{
    if log > 0 {
        lemma_powers_of_one((log - 1) as nat);
    }
}

pub(crate) proof fn lemma_embedded_powers(x: Felt, log: nat)
    ensures
        exp_power_of_2_spec(QuadFelt::from_base_spec(x), log) == QuadFelt::from_base_spec(
            exp_power_of_2_spec(x, log),
        ),
    decreases log,
{
    if log > 0 {
        QuadFelt::law_embedding(x, x);
        lemma_embedded_powers(x.mul_spec(x), (log - 1) as nat);
    }
}

/// A power of two has one logarithm.
proof fn lemma_pow2_injective(a: nat, bound: nat)
    requires
        a <= bound,
    ensures
        forall|k: nat| k <= bound && pow2(a) == #[trigger] pow2(k) ==> k == a,
{
    assert forall|k: nat| k <= bound && pow2(a) == #[trigger] pow2(k) implies k == a by {
        if k < a {
            lemma_pow2_strictly_increases(k, a);
        } else if a < k {
            lemma_pow2_strictly_increases(a, k);
        }
    }
}

/// The generators are elements other than zero.
pub(crate) proof fn lemma_generator(bits: nat)
    requires
        bits <= TWO_ADICITY,
    ensures
        two_adic_generator(bits).canonical(),
        two_adic_generator(bits) != Felt::zero_spec(),
{
    let root = Felt { value: ROOT };
    let n = (TWO_ADICITY - bits) as nat;
    lemma_exp_power_of_2(root, n);
    lemma_exp_nonzero(root, pow2(n));
    lemma_exp_is_element(root, pow2(n));
}

/// A power of a product is the product of the powers.
pub(crate) proof fn lemma_power_of_product<F: Field>(a: F, b: F, log: nat)
    ensures
        exp_power_of_2_spec(a.mul_spec(b), log) == exp_power_of_2_spec(a, log).mul_spec(
            exp_power_of_2_spec(b, log),
        ),
    decreases log,
{
    if log > 0 {
        let ab = a.mul_spec(b);
        F::law_mul_associates(a, b, ab);
        F::law_mul_associates(b, a, b);
        F::law_mul_commutes(b, a);
        F::law_mul_associates(a, b, b);
        F::law_mul_associates(a, a, b.mul_spec(b));
        lemma_power_of_product(a.mul_spec(a), b.mul_spec(b), (log - 1) as nat);
    }
}

pub(crate) proof fn lemma_power_is_element(x: QuadFelt, log: nat)
    requires
        x.canonical(),
    ensures
        exp_power_of_2_spec(x, log).canonical(),
    decreases log,
{
    if log > 0 {
        lemma_power_is_element(x.mul_spec(x), (log - 1) as nat);
    }
}

/// On a coset, the vanishing polynomial of another coset of the same size is constant.
pub(crate) proof fn lemma_constant_on_coset(domain: Coset, other: Coset, zeta: QuadFelt)
    requires
        domain.well_formed(),
        other.well_formed(),
        domain.size_spec() == other.size_spec(),
        zeta.canonical(),
        domain.vanishing_spec(zeta) == QuadFelt::zero_spec(),
    ensures
        other.vanishing_spec(zeta) == QuadFelt::from_base_spec(
            other.vanishing_base_spec(domain.shift),
        ),
{
    lemma_same_log(domain, other);
    let log = domain.log_size as nat;
    let (s, s_inv) = (domain.shift, domain.shift.inverse_spec());
    let t_inv = other.shift.inverse_spec();
    let u = domain.unshifted(zeta);
    let ratio = s.mul_spec(t_inv);
    Felt::law_inverse(s);
    assert(exp_power_of_2_spec(u, log) == QuadFelt::one_spec()) by {
        lemma_power_is_element(u, log);
    }
    assert(other.unshifted(zeta) == u.mul_spec(QuadFelt::from_base_spec(ratio))) by {
        let (e_s, e_inv) = (QuadFelt::from_base_spec(s), QuadFelt::from_base_spec(s_inv));
        let e_t = QuadFelt::from_base_spec(t_inv);
        QuadFelt::law_embedding(s, t_inv);
        QuadFelt::law_embedding(s_inv, s);
        Felt::law_mul_commutes(s, s_inv);
        QuadFelt::law_mul_associates(u, e_s, e_t);
        QuadFelt::law_mul_associates(zeta, e_inv, e_s);
        QuadFelt::law_units(zeta);
    }
    lemma_power_of_product(u, QuadFelt::from_base_spec(ratio), log);
    lemma_embedded_powers(ratio, log);
    let power = exp_power_of_2_spec(ratio, log);
    lemma_power_is_element(QuadFelt::from_base_spec(ratio), log);
    QuadFelt::law_units(QuadFelt::from_base_spec(power));
    QuadFelt::law_mul_commutes(QuadFelt::one_spec(), QuadFelt::from_base_spec(power));
    QuadFelt::law_embedding(power, negated(Felt::one_spec()));
}

/// Cosets of the same size have subgroups of the same order.
pub(crate) proof fn lemma_same_log(a: Coset, b: Coset)
    requires
        a.well_formed(),
        b.well_formed(),
        a.size_spec() == b.size_spec(),
    ensures
        a.log_size == b.log_size,
{
    vstd::bits::lemma_usize_pow2_no_overflow(a.log_size as nat);
    vstd::bits::lemma_usize_pow2_no_overflow(b.log_size as nat);
    vstd::bits::lemma_usize_shl_is_mul(1, a.log_size);
    vstd::bits::lemma_usize_shl_is_mul(1, b.log_size);
    lemma_pow2_injective(a.log_size as nat, TWO_ADICITY as nat);
}

} // verus!
