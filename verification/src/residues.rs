//! Seven is no square modulo the Goldilocks prime, so that the quadratic extension is a field.

use vstd::arithmetic::div_mod::{lemma_add_mod_noop, lemma_mul_mod_noop_right, lemma_small_mod};
use vstd::prelude::*;
use crate::algebra::{
    lemma_cancel, lemma_distributes_right, lemma_exp_is_element, lemma_exp_mul,
    lemma_mul_swap_middle, lemma_no_zero_divisors, lemma_product_is_element,
    lemma_product_permutation, lemma_product_scaled, lemma_product_zero,
};
use crate::field::{Field, exp_spec, product};
use crate::goldilocks::{Felt, P, QuadFelt, W};
use crate::primality::{HALF, lemma_seven, power_mod};

verus! {

/// The elements other than zero, each once.
spec fn nonzero() -> Seq<Felt> {
    Seq::new((P - 1) as nat, |i: int| Felt { value: (i + 1) as u64 })
}

/// The multiples of those elements.
spec fn multiples(c: Felt) -> Seq<Felt> {
    Seq::new((P - 1) as nat, |i: int| c.mul_spec(nonzero()[i]))
}

/// To multiply by an element that is not zero is to put the others in another order.
proof fn lemma_multiples(c: Felt)
    requires
        c.canonical(),
        c != Felt::zero_spec(),
    ensures
        nonzero().to_multiset() == multiples(c).to_multiset(),
{
    let (s, t) = (nonzero(), multiples(c));
    let c_inv = c.inverse_spec();
    Felt::law_inverse(c);
    assert(s.no_duplicates());
    assert forall|i: int, j: int| 0 <= i < t.len() && 0 <= j < t.len() && i != j implies t[i]
        != t[j] by {
        if t[i] == t[j] {
            lemma_cancel(c, c_inv, s[i], s[j]);
        }
    }
    s.lemma_multiset_has_no_duplicates();
    t.lemma_multiset_has_no_duplicates();
    s.to_multiset_ensures();
    t.to_multiset_ensures();
    assert forall|z: Felt| s.contains(z) <==> t.contains(z) by {
        if t.contains(z) {
            let i = choose|i: int| 0 <= i < t.len() && t[i] == z;
            lemma_no_zero_divisors(c, s[i]);
            assert(z.canonical() && z != Felt::zero_spec());
            assert(s[z.value - 1] == z);
        }
        if s.contains(z) {
            let w = c_inv.mul_spec(z);
            // z = c (c_inv z)
            Felt::law_mul_associates(c, c_inv, z);
            Felt::law_mul_commutes(Felt::one_spec(), z);
            Felt::law_units(z);
            lemma_no_zero_divisors(c, w);
            assert(s[w.value - 1] == w);
            assert(t[w.value - 1] == z);
        }
    }
    assert forall|z: Felt| s.to_multiset().count(z) == t.to_multiset().count(z) by {
        assert(s.contains(z) <==> t.contains(z));
        assert(s.contains(z) <==> s.to_multiset().count(z) > 0);
        assert(t.contains(z) <==> t.to_multiset().count(z) > 0);
        assert(s.to_multiset().contains(z) ==> s.to_multiset().count(z) == 1);
        assert(t.to_multiset().contains(z) ==> t.to_multiset().count(z) == 1);
    }
    assert(s.to_multiset() =~= t.to_multiset());
}

/// An element that is not zero, to the number of such elements, is one.
proof fn lemma_fermat(c: Felt)
    requires
        c.canonical(),
        c != Felt::zero_spec(),
    ensures
        exp_spec(c, (P - 1) as nat) == Felt::one_spec(),
{
    let (s, t) = (nonzero(), multiples(c));
    lemma_multiples(c);
    lemma_product_permutation(s, t);
    lemma_product_scaled(s, c, t);
    lemma_product_zero(s);
    lemma_product_is_element(s);
    let (all, power) = (product(s), exp_spec(c, (P - 1) as nat));
    Felt::law_inverse(all);
    Felt::law_mul_commutes(power, all);
    Felt::law_units(all);
    lemma_exp_is_element(c, (P - 1) as nat);
    lemma_cancel(all, all.inverse_spec(), power, Felt::one_spec());
}

pub(crate) proof fn lemma_power_of_element(c: Felt, n: nat)
    requires
        c.canonical(),
    ensures
        exp_spec(c, n).value == power_mod(c.value as int, n, P as int),
    decreases n,
{
    if n == 0 {
        lemma_small_mod(1, P as nat);
    } else {
        lemma_power_of_element(c, (n - 1) as nat);
    }
}

/// Seven is no square.
proof fn lemma_seven_is_no_square(c: Felt)
    requires
        c.canonical(),
    ensures
        c.mul_spec(c) != (Felt { value: W }),
{
    let seven = Felt { value: W };
    if c.mul_spec(c) == seven {
        lemma_no_zero_divisors(c, c);
        lemma_fermat(c);
        lemma_seven();
        reveal_with_fuel(exp_spec, 3);
        Felt::law_mul_commutes(Felt::one_spec(), c);
        Felt::law_units(c);
        assert(exp_spec(c, 2) == seven);
        lemma_exp_mul(c, 2, HALF as nat);
        lemma_power_of_element(seven, HALF as nat);
    }
}

/// The coefficients of an element of the extension.
spec fn low(a: QuadFelt) -> Felt {
    Felt { value: a.c0 }
}

spec fn high(a: QuadFelt) -> Felt {
    Felt { value: a.c1 }
}

/// Multiplication in the extension, by coefficients.
proof fn lemma_quadratic_mul(a: QuadFelt, b: QuadFelt)
    ensures
        low(a.mul_spec(b)) == low(a).mul_spec(low(b)).add_spec(
            Felt { value: W }.mul_spec(high(a).mul_spec(high(b))),
        ),
        high(a.mul_spec(b)) == low(a).mul_spec(high(b)).add_spec(high(a).mul_spec(low(b))),
{
    let p = P as int;
    let (x, y) = (a.c0 * b.c0, a.c1 * b.c1);
    lemma_mul_mod_noop_right(W as int, y, p);
    lemma_add_mod_noop(x, W * y, p);
    lemma_add_mod_noop(a.c0 * b.c1, a.c1 * b.c0, p);
}

/// Minus one.
spec fn minus() -> Felt {
    Felt { value: (P - 1) as u64 }
}

/// The product of an element of the extension and its conjugate.
spec fn norm(a: QuadFelt) -> Felt {
    low(a).mul_spec(low(a)).add_spec(
        minus().mul_spec(Felt { value: W }.mul_spec(high(a).mul_spec(high(a)))),
    )
}

proof fn lemma_minus(x: Felt)
    requires
        x.canonical(),
    ensures
        x.add_spec(minus().mul_spec(x)) == Felt::zero_spec(),
{
    let one = Felt::one_spec();
    lemma_distributes_right(one, minus(), x);
    assert(one.add_spec(minus()) == Felt::zero_spec());
    Felt::law_mul_commutes(one, x);
    Felt::law_mul_commutes(Felt::zero_spec(), x);
    Felt::law_units(x);
}

proof fn lemma_norm_is_not_zero(a: QuadFelt)
    requires
        a.canonical(),
        a != QuadFelt::zero_spec(),
    ensures
        norm(a) != Felt::zero_spec(),
{
    let (a0, a1, seven) = (low(a), high(a), Felt { value: W });
    let (square, other) = (a0.mul_spec(a0), seven.mul_spec(a1.mul_spec(a1)));
    if norm(a) == Felt::zero_spec() {
        // square - other = 0, so square = other
        lemma_minus(other);
        let negative = minus().mul_spec(other);
        Felt::law_add_commutes(other, negative);
        Felt::law_add_associates(square, negative, other);
        Felt::law_add_commutes(Felt::zero_spec(), other);
        Felt::law_units(square);
        Felt::law_units(other);
        assert(square == other);
        lemma_no_zero_divisors(a0, a0);
        lemma_no_zero_divisors(a1, a1);
        lemma_no_zero_divisors(seven, a1.mul_spec(a1));
        assert(a1 != Felt::zero_spec());
        // (a0 / a1)^2 = 7
        Felt::law_inverse(a1);
        let i = a1.inverse_spec();
        let c = a0.mul_spec(i);
        lemma_mul_swap_middle(a0, i, a0, i);
        lemma_mul_swap_middle(a1, i, a1, i);
        Felt::law_mul_associates(seven, a1.mul_spec(a1), i.mul_spec(i));
        Felt::law_units(Felt::one_spec());
        Felt::law_units(seven);
        lemma_seven_is_no_square(c);
    }
}

/// Every element of the extension but zero has an inverse.
pub(crate) proof fn lemma_quadratic_inverse(a: QuadFelt) -> (y: QuadFelt)
    requires
        a.canonical(),
        a != QuadFelt::zero_spec(),
    ensures
        y.canonical(),
        a.mul_spec(y) == QuadFelt::one_spec(),
{
    let (a0, a1, seven, c) = (low(a), high(a), Felt { value: W }, minus());
    let n = norm(a);
    lemma_norm_is_not_zero(a);
    Felt::law_inverse(n);
    let m = n.inverse_spec();
    let y0 = a0.mul_spec(m);
    let y1 = c.mul_spec(a1).mul_spec(m);
    let y = QuadFelt { c0: y0.value, c1: y1.value };
    lemma_quadratic_mul(a, y);
    // a0 a0 m + 7 a1 (c a1 m) = n m
    let square = a1.mul_spec(a1);
    Felt::law_mul_associates(a0, a0, m);
    assert(seven.mul_spec(a1.mul_spec(y1)) == c.mul_spec(seven.mul_spec(square)).mul_spec(m)) by {
        Felt::law_mul_associates(a1, c.mul_spec(a1), m);
        Felt::law_mul_associates(a1, c, a1);
        Felt::law_mul_commutes(a1, c);
        Felt::law_mul_associates(c, a1, a1);
        Felt::law_mul_associates(seven, c.mul_spec(square), m);
        Felt::law_mul_associates(seven, c, square);
        Felt::law_mul_commutes(seven, c);
        Felt::law_mul_associates(c, seven, square);
    }
    lemma_distributes_right(
        a0.mul_spec(a0),
        c.mul_spec(seven.mul_spec(square)),
        m,
    );
    // a0 (c a1 m) + a1 (a0 m) = 0
    let k = a1.mul_spec(y0);
    assert(a0.mul_spec(y1) == c.mul_spec(k)) by {
        Felt::law_mul_associates(c, a1, m);
        Felt::law_mul_associates(a0, c, a1.mul_spec(m));
        Felt::law_mul_commutes(a0, c);
        Felt::law_mul_associates(c, a0, a1.mul_spec(m));
        Felt::law_mul_associates(a0, a1, m);
        Felt::law_mul_commutes(a0, a1);
        Felt::law_mul_associates(a1, a0, m);
    }
    lemma_minus(k);
    Felt::law_add_commutes(c.mul_spec(k), k);
    y
}

} // verus!
