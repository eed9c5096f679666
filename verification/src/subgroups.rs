//! How cosets lie to each other: the parts of one, and the one that the quotient is put on.

use vstd::arithmetic::power2::{lemma_pow2_adds, lemma_pow2_pos, lemma_pow2_unfold, pow2};
use vstd::prelude::*;
use crate::algebra::{
    lemma_cancel, lemma_exp_add, lemma_exp_is_element, lemma_exp_mul, lemma_exp_nonzero,
    lemma_exp_power_of_2, lemma_no_zero_divisors, lemma_square_on,
};
use crate::coset::{
    Coset, GENERATOR, TWO_ADICITY, lemma_embedded_powers, lemma_generator, lemma_power_is_element,
    lemma_power_of_product, log2_ceil, two_adic_generator,
};
use crate::domain::PolynomialSpace;
use crate::field::{ExtensionField, Field, exp_power_of_2_spec, exp_spec};
use crate::goldilocks::{Felt, P, QuadFelt};
use crate::interpolation::{
    folded_polynomial_at, law_recomposition_is_evaluation, lemma_on_coset, polynomial_at,
};
use crate::primality::{ROOT, lemma_order, lemma_root, lemma_seven_outside};
use crate::quotient::{domains_separated, from_coordinates, recomposed, separated};
use crate::residues::lemma_power_of_element;

verus! {

/// Squaring keeps elements, and those that are not zero.
proof fn lemma_squares(x: Felt, log: nat)
    requires
        x.canonical(),
    ensures
        exp_power_of_2_spec(x, log).canonical(),
        x != Felt::zero_spec() ==> exp_power_of_2_spec(x, log) != Felt::zero_spec(),
{
    lemma_exp_power_of_2(x, log);
    lemma_exp_is_element(x, pow2(log));
    if x != Felt::zero_spec() {
        lemma_exp_nonzero(x, pow2(log));
    }
}

/// Below `2^bits`, the powers of the generator of the subgroup of that order are distinct.
pub(crate) proof fn lemma_generator_order(bits: nat, i: nat, j: nat)
    requires
        bits <= TWO_ADICITY,
        i < j < pow2(bits),
    ensures
        exp_spec(two_adic_generator(bits), i) != exp_spec(two_adic_generator(bits), j),
{
    let h = two_adic_generator(bits);
    let root = Felt { value: ROOT };
    lemma_generator(bits);
    if bits == 0 {
        vstd::arithmetic::power2::lemma2_to64();
    }
    let half = (bits - 1) as nat;
    // h^(2^(bits - 1)) = ROOT^(2^31) = -1
    lemma_square_on(root, (TWO_ADICITY - bits) as nat, half);
    assert((TWO_ADICITY - bits) as nat + half == 31);
    lemma_exp_power_of_2(h, half);
    lemma_exp_power_of_2(root, 31);
    lemma_power_of_element(root, pow2(31));
    lemma_power_of_element(h, pow2(half));
    lemma_root();
    lemma_order(h.value as int, half, (j - i) as nat, P as int);
    lemma_power_of_element(h, (j - i) as nat);
    if exp_spec(h, i) == exp_spec(h, j) {
        let power = exp_spec(h, i);
        lemma_exp_add(h, i, (j - i) as nat);
        lemma_exp_nonzero(h, i);
        lemma_exp_is_element(h, i);
        lemma_exp_is_element(h, (j - i) as nat);
        Felt::law_inverse(power);
        Felt::law_units(power);
        lemma_cancel(
            power,
            power.inverse_spec(),
            exp_spec(h, (j - i) as nat),
            Felt::one_spec(),
        );
    }
}

/// The shift of the `i`-th part, raised to the size of the parts.
pub(crate) proof fn lemma_part_node(domain: Coset, log_chunks: nat, i: nat)
    requires
        domain.well_formed(),
        log_chunks <= domain.log_size,
    ensures
        exp_power_of_2_spec(
            domain.shift.mul_spec(exp_spec(domain.generator(), i)),
            (domain.log_size - log_chunks) as nat,
        ) == exp_power_of_2_spec(
            domain.shift,
            (domain.log_size - log_chunks) as nat,
        ).mul_spec(exp_spec(two_adic_generator(log_chunks), i)),
{
    let g = domain.generator();
    let r = (domain.log_size - log_chunks) as nat;
    let power = exp_spec(g, i);
    lemma_generator(domain.log_size as nat);
    lemma_power_of_product(domain.shift, power, r);
    lemma_exp_is_element(g, i);
    // (g^i)^(2^r) = (g^(2^r))^i
    lemma_exp_power_of_2(power, r);
    lemma_exp_mul(g, i, pow2(r));
    lemma_exp_mul(g, pow2(r), i);
    assert(i * pow2(r) == pow2(r) * i) by (nonlinear_arith);
    lemma_exp_power_of_2(g, r);
    lemma_square_on(Felt { value: ROOT }, (TWO_ADICITY - domain.log_size) as nat, r);
    assert((TWO_ADICITY - domain.log_size) as nat + r == (TWO_ADICITY - log_chunks) as nat);
}

/// A coset whose vanishing polynomial is zero at a shift has that shift's power for its own.
proof fn lemma_same_node(other: Coset, s: Felt)
    requires
        other.well_formed(),
        s.canonical(),
        other.vanishing_base_spec(s) == Felt::zero_spec(),
    ensures
        exp_power_of_2_spec(s, other.log_size as nat) == exp_power_of_2_spec(
            other.shift,
            other.log_size as nat,
        ),
{
    let r = other.log_size as nat;
    let (t, t_inv) = (other.shift, other.shift.inverse_spec());
    let ratio = s.mul_spec(t_inv);
    Felt::law_inverse(t);
    lemma_squares(ratio, r);
    assert(exp_power_of_2_spec(ratio, r) == Felt::one_spec());
    // ratio t = s
    lemma_power_of_product(ratio, t, r);
    Felt::law_mul_associates(s, t_inv, t);
    Felt::law_mul_commutes(t, t_inv);
    Felt::law_units(s);
    let power = exp_power_of_2_spec(t, r);
    lemma_squares(t, r);
    Felt::law_units(power);
    Felt::law_mul_commutes(Felt::one_spec(), power);
}

/// The parts of a coset are as many as were asked for, all of one size, and apart from each other:
/// no vanishing polynomial of one is zero at the first point of another.
pub proof fn law_parts(domain: Coset, num_chunks: usize)
    requires
        domain.is_space(),
        domain.split_spec(num_chunks) is Some,
    ensures
        ({
            let parts = domain.split_spec(num_chunks)->0;
            &&& parts.len() == num_chunks
            &&& forall|i: int| 0 <= i < parts.len() ==> (#[trigger] parts[i]).is_space()
            &&& forall|i: int|
                0 <= i < parts.len() ==> (#[trigger] parts[i]).size_spec() * num_chunks
                    == domain.size_spec()
            &&& domains_separated::<Felt, QuadFelt, Coset>(parts)
        }),
{
    let parts = domain.split_spec(num_chunks)->0;
    let k = choose|k: nat| k <= domain.log_size && num_chunks == #[trigger] pow2(k);
    let g = domain.generator();
    let r = (domain.log_size - k) as usize;
    lemma_generator(domain.log_size as nat);
    assert forall|i: int| 0 <= i < parts.len() implies (#[trigger] parts[i]).is_space() by {
        lemma_exp_nonzero(g, i as nat);
        lemma_exp_is_element(g, i as nat);
        lemma_no_zero_divisors(domain.shift, exp_spec(g, i as nat));
    }
    assert forall|i: int| 0 <= i < parts.len() implies (#[trigger] parts[i]).size_spec()
        * num_chunks == domain.size_spec() by {
        lemma_size(parts[i]);
        lemma_size(domain);
        lemma_pow2_adds(r as nat, k);
    }
    assert forall|i: int, j: int|
        0 <= i < parts.len() && 0 <= j < parts.len() && i != j implies #[trigger] separated(
        parts,
        i,
        j,
    ) by {
        if !separated(parts, i, j) {
            let h = two_adic_generator(k);
            assert(parts[i].is_space() && parts[j].is_space());
            lemma_same_node(parts[j], parts[i].shift);
            lemma_part_node(domain, k, i as nat);
            lemma_part_node(domain, k, j as nat);
            let power = exp_power_of_2_spec(domain.shift, r as nat);
            lemma_squares(domain.shift, r as nat);
            Felt::law_inverse(power);
            lemma_generator(k);
            lemma_exp_is_element(h, i as nat);
            lemma_exp_is_element(h, j as nat);
            lemma_cancel(
                power,
                power.inverse_spec(),
                exp_spec(h, i as nat),
                exp_spec(h, j as nat),
            );
            if i < j {
                lemma_generator_order(k, i as nat, j as nat);
            } else {
                lemma_generator_order(k, j as nat, i as nat);
            }
        }
    }
}

pub(crate) proof fn lemma_size(domain: Coset)
    requires
        domain.well_formed(),
    ensures
        domain.size_spec() == pow2(domain.log_size as nat),
{
    vstd::bits::lemma_usize_pow2_no_overflow(domain.log_size as nat);
    vstd::bits::lemma_usize_shl_is_mul(1, domain.log_size);
}

proof fn lemma_log2_ceil(n: nat)
    ensures
        n <= pow2(log2_ceil(n)),
    decreases n,
{
    if n <= 1 {
        lemma_pow2_pos(0);
    } else {
        lemma_log2_ceil((n - n / 2) as nat);
        lemma_pow2_unfold(log2_ceil(n));
    }
}

/// A point of a coset, raised to the order of the largest subgroup.
proof fn lemma_on_coset_at_most(d: Coset, x: QuadFelt)
    requires
        d.well_formed(),
        x.is_element(),
        d.vanishing_spec(x) == QuadFelt::zero_spec(),
    ensures
        exp_power_of_2_spec(x, TWO_ADICITY as nat) == exp_power_of_2_spec(
            QuadFelt::from_base_spec(d.shift),
            TWO_ADICITY as nat,
        ),
{
    let rest = (TWO_ADICITY - d.log_size) as nat;
    lemma_on_coset(d, x);
    lemma_square_on(x, d.log_size as nat, rest);
    lemma_square_on(QuadFelt::from_base_spec(d.shift), d.log_size as nat, rest);
    assert(d.log_size as nat + rest == TWO_ADICITY);
}

/// The coset that a quotient is put on is of at least the size that was asked for, and shares no
/// point with the one that it was made from.
pub proof fn law_disjoint(domain: Coset, min_size: usize, x: QuadFelt)
    requires
        domain.is_space(),
        domain.disjoint_domain_spec(min_size) is Some,
        x.is_element(),
    ensures
        domain.disjoint_domain_spec(min_size)->0.is_space(),
        domain.disjoint_domain_spec(min_size)->0.size_spec() >= min_size,
        domain.vanishing_spec(x) == QuadFelt::zero_spec()
            ==> domain.disjoint_domain_spec(min_size)->0.vanishing_spec(x)
            != QuadFelt::zero_spec(),
{
    let other = domain.disjoint_domain_spec(min_size)->0;
    let seven = Felt::class(GENERATOR as int);
    lemma_no_zero_divisors(domain.shift, seven);
    lemma_size(other);
    lemma_log2_ceil(min_size as nat);
    if domain.vanishing_spec(x) == QuadFelt::zero_spec() && other.vanishing_spec(x)
        == QuadFelt::zero_spec() {
        let n = TWO_ADICITY as nat;
        let (s, e) = (QuadFelt::from_base_spec(domain.shift), QuadFelt::from_base_spec(seven));
        lemma_on_coset_at_most(domain, x);
        lemma_on_coset_at_most(other, x);
        QuadFelt::law_embedding(domain.shift, seven);
        lemma_power_of_product(s, e, n);
        // s^(2^32) = s^(2^32) 7^(2^32)
        let (power, seven_power) = (exp_power_of_2_spec(s, n), exp_power_of_2_spec(e, n));
        lemma_embedded_powers(domain.shift, n);
        lemma_squares(domain.shift, n);
        QuadFelt::law_inverse(power);
        lemma_power_is_element(e, n);
        QuadFelt::law_units(power);
        QuadFelt::law_closed(power, power);
        lemma_cancel(power, power.inverse_spec(), seven_power, QuadFelt::one_spec());
        lemma_embedded_powers(seven, n);
        lemma_exp_power_of_2(seven, n);
        lemma_power_of_element(seven, pow2(n));
        lemma_seven_outside();
    }
}

/// Recomposition on the parts of a coset gives the quotient at every point: where each chunk holds
/// what the quotient is folded to on its part, recomposition at `zeta` is the quotient at `zeta`.
/// The quotient has at most as many coefficients as the coset has points.
pub proof fn law_recomposition_of_parts(
    domain: Coset,
    chunks: Seq<Seq<QuadFelt>>,
    num_chunks: usize,
    size: usize,
    coefficients: Seq<QuadFelt>,
    zeta: QuadFelt,
)
    requires
        domain.is_space(),
        domain.split_spec(num_chunks) is Some,
        chunks.len() == num_chunks,
        size * num_chunks == domain.size_spec(),
        coefficients.len() <= domain.size_spec(),
        zeta.is_element(),
        forall|i: int|
            0 <= i < chunks.len() ==> from_coordinates::<Felt, QuadFelt>(#[trigger] chunks[i])
                == folded_polynomial_at(
                coefficients,
                size as nat,
                exp_spec(
                    QuadFelt::from_base_spec(
                        domain.split_spec(num_chunks)->0[i].first_point_spec(),
                    ),
                    size as nat,
                ),
                zeta,
            ),
    ensures
        recomposed(domain.split_spec(num_chunks)->0, chunks, zeta) == polynomial_at(
            coefficients,
            zeta,
        ),
{
    let parts = domain.split_spec(num_chunks)->0;
    law_parts(domain, num_chunks);
    assert forall|j: int| 0 <= j < parts.len() implies (#[trigger] parts[j]).size_spec()
        == size by {
        let n = parts[j].size_spec();
        assert(n * num_chunks == domain.size_spec());
        assert(n == size) by (nonlinear_arith)
            requires
                n * num_chunks == size * num_chunks,
                num_chunks > 0,
        ;
    }
    assert(parts.len() * size == size * num_chunks) by (nonlinear_arith)
        requires
            parts.len() == num_chunks,
    ;
    law_recomposition_is_evaluation(parts, size, chunks, coefficients, zeta);
}

} // verus!
