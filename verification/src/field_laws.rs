//! What the elements and the cosets are, in terms of numbers and powers.

use vstd::arithmetic::div_mod::{lemma_mod_multiples_vanish, lemma_small_mod};
use vstd::arithmetic::power2::{lemma2_to64, lemma_pow2_unfold, pow2};
use vstd::prelude::*;
use crate::algebra::{
    lemma_exp_is_element, lemma_exp_power_of_2, lemma_no_zero_divisors, lemma_square_on,
};
use crate::coset::{
    Coset, lemma_embedded_powers, lemma_generator, lemma_power_of_product, lemma_powers_of_one,
    log2_ceil, negated, two_adic_generator,
};
use crate::domain::PolynomialSpace;
use crate::field::{ExtensionField, Field, exp_power_of_2_spec, exp_spec};
use crate::goldilocks::{Felt, P, QuadFelt};
use crate::interpolation::lemma_on_coset;
use crate::primality::lemma_root;
use crate::residues::lemma_power_of_element;
use crate::subgroups::{law_parts, lemma_generator_order, lemma_part_node, lemma_size};

verus! {

/// The base field is that of the numbers below the Goldilocks prime, with arithmetic modulo it.
pub proof fn law_base_field(a: Felt, b: Felt, n: nat)
    ensures
        P == 0xFFFF_FFFF_0000_0001,
        a@ == b@ ==> a == b,
        a.is_element() <==> 0 <= a@ < 0xFFFF_FFFF_0000_0001,
        Felt::zero_spec()@ == 0,
        Felt::one_spec()@ == 1,
        a.add_spec(b)@ == (a@ + b@) % 0xFFFF_FFFF_0000_0001,
        a.mul_spec(b)@ == (a@ * b@) % 0xFFFF_FFFF_0000_0001,
        Felt::from_nat_spec(n)@ == n as int % 0xFFFF_FFFF_0000_0001,
        Felt::class(n as int)@ == n as int % 0xFFFF_FFFF_0000_0001,
        Felt::class(-(n as int))@ == -(n as int) % 0xFFFF_FFFF_0000_0001,
{
}

/// The extension holds the pairs of such numbers, as coefficients of polynomials modulo
/// `X^2 - 7`, with the powers of `X` for a basis.
pub proof fn law_quadratic_field(a: QuadFelt, b: QuadFelt, x: Felt, n: nat)
    ensures
        a@ == b@ ==> a == b,
        a.is_element() <==> 0 <= a@.0 < 0xFFFF_FFFF_0000_0001 && 0 <= a@.1
            < 0xFFFF_FFFF_0000_0001,
        QuadFelt::zero_spec()@ == (0int, 0int),
        QuadFelt::one_spec()@ == (1int, 0int),
        a.add_spec(b)@.0 == (a@.0 + b@.0) % 0xFFFF_FFFF_0000_0001,
        a.add_spec(b)@.1 == (a@.1 + b@.1) % 0xFFFF_FFFF_0000_0001,
        a.mul_spec(b)@.0 == (a@.0 * b@.0 + 7 * (a@.1 * b@.1)) % 0xFFFF_FFFF_0000_0001,
        a.mul_spec(b)@.1 == (a@.0 * b@.1 + a@.1 * b@.0) % 0xFFFF_FFFF_0000_0001,
        QuadFelt::from_nat_spec(n)@ == (n as int % 0xFFFF_FFFF_0000_0001, 0int),
        QuadFelt::from_base_spec(x)@ == (x@, 0int),
        QuadFelt::dimension_spec() == 2,
        QuadFelt::basis_spec(0)@ == (1int, 0int),
        QuadFelt::basis_spec(1)@ == (0int, 1int),
{
}

/// No power is one, and each further power is one more factor.
pub proof fn law_powers<F: Field>(x: F, n: nat)
    ensures
        exp_spec(x, 0) == F::one_spec(),
        exp_spec(x, n + 1) == exp_spec(x, n).mul_spec(x),
        exp_power_of_2_spec(x, 0) == x,
        exp_power_of_2_spec(x, n + 1) == exp_power_of_2_spec(x.mul_spec(x), n),
{
}

/// The generator of the subgroup of order `2^bits` has that order: its power is one at that
/// exponent, and the powers below it are distinct. Each generator is the square of the one above.
pub proof fn law_generators(bits: nat)
    requires
        bits <= 32,
    ensures
        two_adic_generator(32)@ == 0x1856_29dc_da58_878c,
        exp_spec(two_adic_generator(bits), pow2(bits)) == Felt::one_spec(),
        forall|i: nat, j: nat|
            i < j < pow2(bits) ==> #[trigger] exp_spec(two_adic_generator(bits), i)
                != #[trigger] exp_spec(two_adic_generator(bits), j),
        bits > 0 ==> two_adic_generator(bits).mul_spec(two_adic_generator(bits))
            == two_adic_generator((bits - 1) as nat),
{
    assert forall|i: nat, j: nat|
        i < j < pow2(bits) implies #[trigger] exp_spec(two_adic_generator(bits), i)
        != #[trigger] exp_spec(two_adic_generator(bits), j) by {
        lemma_generator_order(bits, i, j);
    }
    lemma_generator_power(bits);
    if bits > 0 {
        let root = two_adic_generator(32);
        lemma_square_on(root, (32 - bits) as nat, 1);
        assert((32 - bits) as nat + 1 == (32 - (bits - 1)) as nat);
        reveal_with_fuel(exp_power_of_2_spec, 2);
    }
}

/// A generator, raised to its order, is one.
proof fn lemma_generator_power(bits: nat)
    requires
        bits <= 32,
    ensures
        exp_power_of_2_spec(two_adic_generator(bits), bits) == Felt::one_spec(),
        exp_spec(two_adic_generator(bits), pow2(bits)) == Felt::one_spec(),
{
    let g = two_adic_generator(bits);
    let root = two_adic_generator(32);
    lemma_generator(bits);
    lemma_exp_power_of_2(g, bits);
    lemma_square_on(root, (32 - bits) as nat, bits);
    assert((32 - bits) as nat + bits == 32);
    lemma_root();
    lemma_exp_power_of_2(root, 31);
    lemma_power_of_element(root, pow2(31));
    lemma_square_on(root, 31, 1);
    reveal_with_fuel(exp_power_of_2_spec, 2);
    let half = exp_power_of_2_spec(root, 31);
    assert(half.value == P - 1);
    assert(half.mul_spec(half) == Felt::one_spec()) by {
        assert((P - 1) * (P - 1) == P * (P - 2) + 1) by (nonlinear_arith);
        lemma_mod_multiples_vanish(P - 2, 1, P as int);
        lemma_small_mod(1, P as nat);
    }
}

/// A coset is of the size that its logarithm says and starts at its shift. With `u` a point divided
/// by the shift, the vanishing polynomial and one make `u` to the size of the coset, and the next
/// point is the point times the generator of the subgroup.
pub proof fn law_coset(shift: Felt, log_size: usize, x: QuadFelt, y: Felt)
    requires
        shift.is_element(),
        shift != Felt::zero_spec(),
        log_size <= 32,
        log_size < usize::BITS,
        x.is_element(),
        y.is_element(),
    ensures
        Coset::of(shift, log_size).is_space(),
        Coset::of(shift, log_size).size_spec() == pow2(log_size as nat),
        Coset::of(shift, log_size).first_point_spec() == shift,
        Coset::of(shift, log_size).vanishing_spec(x).add_spec(QuadFelt::one_spec()) == exp_spec(
            x.mul_spec(QuadFelt::from_base_spec(shift.inverse_spec())),
            pow2(log_size as nat),
        ),
        Coset::of(shift, log_size).vanishing_base_spec(y).add_spec(Felt::one_spec()) == exp_spec(
            y.mul_spec(shift.inverse_spec()),
            pow2(log_size as nat),
        ),
        Coset::of(shift, log_size).next_point_spec(x) == Some(
            x.mul_spec(QuadFelt::from_base_spec(two_adic_generator(log_size as nat))),
        ),
{
    let d = Coset::of(shift, log_size);
    let log = log_size as nat;
    lemma_size(d);
    let u = x.mul_spec(QuadFelt::from_base_spec(shift.inverse_spec()));
    let v = y.mul_spec(shift.inverse_spec());
    lemma_exp_power_of_2(u, log);
    lemma_exp_power_of_2(v, log);
    let (power, base_power) = (exp_power_of_2_spec(u, log), exp_power_of_2_spec(v, log));
    let minus = negated(Felt::one_spec());
    let e_minus = QuadFelt::from_base_spec(minus);
    lemma_exp_is_element(u, pow2(log));
    lemma_exp_is_element(v, pow2(log));
    assert(minus.add_spec(Felt::one_spec()) == Felt::zero_spec());
    assert(e_minus.add_spec(QuadFelt::one_spec()) == QuadFelt::zero_spec());
    QuadFelt::law_add_associates(power, e_minus, QuadFelt::one_spec());
    QuadFelt::law_units(power);
    Felt::law_add_associates(base_power, minus, Felt::one_spec());
    Felt::law_units(base_power);
}

/// Cosets come apart exactly where the number of parts is a power of two that divides their size,
/// and a coset for a quotient exists exactly where a subgroup is large enough. The parts start at
/// the first points of the coset, one after the other; the coset for a quotient starts at seven
/// times the first point, and is less than twice as large as was asked for.
pub proof fn law_coset_family(
    shift: Felt,
    log_size: usize,
    num_chunks: usize,
    log_chunks: nat,
    min_size: usize,
)
    requires
        shift.is_element(),
        shift != Felt::zero_spec(),
        log_size <= 32,
        log_size < usize::BITS,
        log_chunks <= log_size,
    ensures
        num_chunks == pow2(log_chunks) ==> Coset::of(shift, log_size).split_spec(num_chunks)
            is Some,
        Coset::of(shift, log_size).split_spec(num_chunks) is Some ==> exists|k: nat|
            k <= log_size && num_chunks == #[trigger] pow2(k),
        Coset::of(shift, log_size).split_spec(num_chunks) is Some ==> forall|i: int|
            0 <= i < num_chunks ==> (#[trigger] Coset::of(shift, log_size).split_spec(
                num_chunks,
            )->0[i]).first_point_spec() == shift.mul_spec(
                exp_spec(two_adic_generator(log_size as nat), i as nat),
            ),
        usize::BITS > 32 ==> (Coset::of(shift, log_size).disjoint_domain_spec(min_size) is Some
            <==> min_size <= 0x1_0000_0000),
        Coset::of(shift, log_size).disjoint_domain_spec(min_size) matches Some(other) ==> {
            &&& other.first_point_spec() == shift.mul_spec(Felt::class(7))
            &&& other.size_spec() >= min_size
            &&& min_size > 0 ==> other.size_spec() < 2 * min_size
        },
{
    let d = Coset::of(shift, log_size);
    lemma2_to64();
    lemma_log2_ceil_exact(min_size as nat);
    if log2_ceil(min_size as nat) > 32 {
        if min_size <= 0x1_0000_0000 {
            lemma_pow2_monotone(32, (log2_ceil(min_size as nat) - 1) as nat);
        }
    } else {
        lemma_pow2_monotone(log2_ceil(min_size as nat), 32);
    }
    if d.disjoint_domain_spec(min_size) is Some {
        let other = d.disjoint_domain_spec(min_size)->0;
        lemma_no_zero_divisors(shift, Felt::class(7));
        lemma_size(other);
        if log2_ceil(min_size as nat) > 0 {
            lemma_pow2_unfold(log2_ceil(min_size as nat));
        }
    }
}

proof fn lemma_pow2_monotone(a: nat, b: nat)
    requires
        a <= b,
    ensures
        pow2(a) <= pow2(b),
    decreases b - a,
{
    if a < b {
        lemma_pow2_monotone(a, (b - 1) as nat);
        lemma_pow2_unfold(b);
    }
}

proof fn lemma_log2_ceil_exact(n: nat)
    ensures
        n <= pow2(log2_ceil(n)),
        log2_ceil(n) > 0 ==> pow2((log2_ceil(n) - 1) as nat) < n,
    decreases n,
{
    lemma2_to64();
    if n > 1 {
        let half = (n - n / 2) as nat;
        lemma_log2_ceil_exact(half);
        lemma_pow2_unfold(log2_ceil(n));
        if log2_ceil(half) > 0 {
            lemma_pow2_unfold(log2_ceil(half));
        }
    }
}

/// Every point of a part of a coset is a point of the coset.
pub proof fn law_parts_lie_within(domain: Coset, num_chunks: usize, i: int, x: QuadFelt)
    requires
        domain.is_space(),
        domain.split_spec(num_chunks) is Some,
        0 <= i < num_chunks,
        x.is_element(),
        domain.split_spec(num_chunks)->0[i].vanishing_spec(x) == QuadFelt::zero_spec(),
    ensures
        domain.vanishing_spec(x) == QuadFelt::zero_spec(),
{
    let part = domain.split_spec(num_chunks)->0[i];
    law_parts(domain, num_chunks);
    assert(part.is_space());
    let k = choose|k: nat| k <= domain.log_size && num_chunks == #[trigger] pow2(k);
    let (log, r) = (domain.log_size as nat, part.log_size as nat);
    let g = domain.generator();
    // x^(2^r) = s_i^(2^r), so x^(2^log) = s_i^(2^log) = s^(2^log) g^(i 2^log) = s^(2^log)
    lemma_on_coset(part, x);
    let s = QuadFelt::from_base_spec(domain.shift);
    let s_i = QuadFelt::from_base_spec(part.shift);
    lemma_square_on(x, r, k);
    lemma_square_on(s_i, r, k);
    assert(r + k == log);
    lemma_part_node(domain, 0, i as nat);
    lemma_generator(0);
    lemma_generator_power(0);
    lemma_powers_of_unit(i as nat);
    assert(two_adic_generator(0) == Felt::one_spec()) by {
        lemma2_to64();
        reveal_with_fuel(exp_spec, 2);
        lemma_exp_power_of_2(two_adic_generator(0), 0);
    }
    lemma_exp_power_of_2(domain.shift, log);
    lemma_exp_is_element(domain.shift, pow2(log));
    Felt::law_units(exp_power_of_2_spec(domain.shift, log));
    assert(exp_power_of_2_spec(part.shift, log) == exp_power_of_2_spec(domain.shift, log));
    lemma_embedded_powers(part.shift, log);
    lemma_embedded_powers(domain.shift, log);
    assert(exp_power_of_2_spec(x, log) == exp_power_of_2_spec(s, log));
    // (x / s)^(2^log) = 1
    let s_inv = domain.shift.inverse_spec();
    Felt::law_inverse(domain.shift);
    lemma_power_of_product(x, QuadFelt::from_base_spec(s_inv), log);
    lemma_power_of_product(s, QuadFelt::from_base_spec(s_inv), log);
    QuadFelt::law_embedding(domain.shift, s_inv);
    lemma_embedded_powers(Felt::one_spec(), log);
    lemma_powers_of_one(log);
}

proof fn lemma_powers_of_unit(n: nat)
    ensures
        exp_spec(Felt::one_spec(), n) == Felt::one_spec(),
    decreases n,
{
    if n > 0 {
        lemma_powers_of_unit((n - 1) as nat);
        Felt::law_units(Felt::one_spec());
    }
}

/// Outside a coset, with `u` the point divided by the shift and `g` the generator of the subgroup:
/// the selector of the first row times `u - 1`, and that of the last row times `u - 1 / g`, are the
/// vanishing polynomial; the selector of transitions is `u - 1 / g`; and the last selector inverts
/// the vanishing polynomial. On the coset there are none.
pub proof fn law_coset_selectors(shift: Felt, log_size: usize, x: QuadFelt)
    requires
        shift.is_element(),
        shift != Felt::zero_spec(),
        log_size <= 32,
        log_size < usize::BITS,
        x.is_element(),
    ensures
        ({
            let d = Coset::of(shift, log_size);
            let u = x.mul_spec(QuadFelt::from_base_spec(shift.inverse_spec()));
            let g_inv = two_adic_generator(log_size as nat).inverse_spec();
            let z = d.vanishing_spec(x);
            &&& d.selectors_spec(x) is Some <==> z != QuadFelt::zero_spec()
            &&& d.selectors_spec(x) matches Some(selectors) ==> {
                &&& selectors.is_first_row.mul_spec(
                    u.add_spec(QuadFelt::from_base_spec(Felt::class(-1))),
                ) == z
                &&& selectors.is_last_row.mul_spec(selectors.is_transition) == z
                &&& selectors.is_transition.add_spec(QuadFelt::from_base_spec(g_inv)) == u
                &&& z.mul_spec(selectors.inv_vanishing) == QuadFelt::one_spec()
            }
        }),
{
    let d = Coset::of(shift, log_size);
    let log = log_size as nat;
    let u = x.mul_spec(QuadFelt::from_base_spec(shift.inverse_spec()));
    let g = two_adic_generator(log);
    let g_inv = g.inverse_spec();
    let z = d.vanishing_spec(x);
    if z != QuadFelt::zero_spec() {
        let (one, e_inv) = (QuadFelt::one_spec(), QuadFelt::from_base_spec(g_inv));
        let from_first = u.add_spec(QuadFelt::from_base_spec(negated(Felt::one_spec())));
        let from_last = u.add_spec(QuadFelt::from_base_spec(negated(g_inv)));
        lemma_generator(log);
        Felt::law_inverse(g);
        QuadFelt::law_inverse(z);
        QuadFelt::law_units(z);
        // u - 1 is not zero
        lemma_difference(u, Felt::one_spec());
        lemma_embedded_powers(Felt::one_spec(), log);
        lemma_powers_of_one(log);
        if from_first == QuadFelt::zero_spec() {
            assert(u == one);
        }
        QuadFelt::law_inverse(from_first);
        QuadFelt::law_mul_associates(z, from_first.inverse_spec(), from_first);
        QuadFelt::law_mul_commutes(from_first.inverse_spec(), from_first);
        // u - 1 / g is not zero
        lemma_difference(u, g_inv);
        lemma_generator_power(log);
        lemma_power_of_product(g, g_inv, log);
        lemma_exp_power_of_2(g_inv, log);
        lemma_exp_is_element(g_inv, pow2(log));
        let power = exp_power_of_2_spec(g_inv, log);
        Felt::law_units(power);
        Felt::law_mul_commutes(Felt::one_spec(), power);
        assert(power == Felt::one_spec());
        lemma_embedded_powers(g_inv, log);
        if from_last == QuadFelt::zero_spec() {
            assert(u == e_inv);
        }
        QuadFelt::law_inverse(from_last);
        QuadFelt::law_mul_associates(z, from_last.inverse_spec(), from_last);
        QuadFelt::law_mul_commutes(from_last.inverse_spec(), from_last);
    }
}

/// What is taken from an element can be given back.
proof fn lemma_difference(u: QuadFelt, c: Felt)
    requires
        u.is_element(),
        c.is_element(),
    ensures
        u.add_spec(QuadFelt::from_base_spec(negated(c))).add_spec(QuadFelt::from_base_spec(c)) == u,
        u.add_spec(QuadFelt::from_base_spec(negated(c))) == QuadFelt::zero_spec() ==> u
            == QuadFelt::from_base_spec(c),
{
    let (e, minus) = (QuadFelt::from_base_spec(c), QuadFelt::from_base_spec(negated(c)));
    assert(minus.add_spec(e) == QuadFelt::zero_spec());
    QuadFelt::law_add_associates(u, minus, e);
    QuadFelt::law_units(u);
    QuadFelt::law_add_commutes(QuadFelt::zero_spec(), e);
    QuadFelt::law_units(e);
}

} // verus!
