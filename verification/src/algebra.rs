//! Facts about sums and products that hold in every field.

use vstd::arithmetic::power2::{lemma2_to64, lemma_pow2_unfold, pow2};
use vstd::prelude::*;
use crate::field::{Field, exp_power_of_2_spec, exp_spec, product, sum};

verus! {

/// A sum is the sum of what is left when one summand is taken out, and that summand.
pub proof fn lemma_sum_remove<F: Field>(s: Seq<F>, i: int)
    requires
        0 <= i < s.len(),
    ensures
        sum(s) == sum(s.remove(i)).add_spec(s[i]),
    decreases s.len(),
{
    if i == s.len() - 1 {
        assert(s.remove(i) == s.drop_last());
    } else {
        lemma_sum_remove(s.drop_last(), i);
        assert(s.remove(i).drop_last() == s.drop_last().remove(i));
        let rest = sum(s.drop_last().remove(i));
        F::law_add_associates(rest, s[i], s.last());
        F::law_add_commutes(s[i], s.last());
        F::law_add_associates(rest, s.last(), s[i]);
    }
}

/// A product is the product of what is left when one factor is taken out, and that factor.
pub proof fn lemma_product_remove<F: Field>(s: Seq<F>, i: int)
    requires
        0 <= i < s.len(),
    ensures
        product(s) == product(s.remove(i)).mul_spec(s[i]),
    decreases s.len(),
{
    if i == s.len() - 1 {
        assert(s.remove(i) == s.drop_last());
    } else {
        lemma_product_remove(s.drop_last(), i);
        assert(s.remove(i).drop_last() == s.drop_last().remove(i));
        let rest = product(s.drop_last().remove(i));
        F::law_mul_associates(rest, s[i], s.last());
        F::law_mul_commutes(s[i], s.last());
        F::law_mul_associates(rest, s.last(), s[i]);
    }
}

pub proof fn lemma_sum_is_element<F: Field>(s: Seq<F>)
    ensures
        sum(s).is_element(),
{
    if s.len() == 0 {
        F::law_closed(F::zero_spec(), F::zero_spec());
    } else {
        F::law_closed(sum(s.drop_last()), s.last());
    }
}

pub proof fn lemma_product_is_element<F: Field>(s: Seq<F>)
    ensures
        product(s).is_element(),
{
    if s.len() == 0 {
        F::law_closed(F::zero_spec(), F::zero_spec());
    } else {
        F::law_closed(product(s.drop_last()), s.last());
    }
}

/// The sum of two sequences, one after the other, is the sum of their sums.
pub proof fn lemma_sum_concat<F: Field>(s: Seq<F>, t: Seq<F>)
    ensures
        sum(s + t) == sum(s).add_spec(sum(t)),
    decreases t.len(),
{
    if t.len() == 0 {
        assert(s + t == s);
        lemma_sum_is_element(s);
        F::law_units(sum(s));
    } else {
        assert((s + t).drop_last() == s + t.drop_last());
        lemma_sum_concat(s, t.drop_last());
        F::law_add_associates(sum(s), sum(t.drop_last()), t.last());
    }
}

/// The product of two sequences, one after the other, is the product of their products.
pub proof fn lemma_product_concat<F: Field>(s: Seq<F>, t: Seq<F>)
    ensures
        product(s + t) == product(s).mul_spec(product(t)),
    decreases t.len(),
{
    if t.len() == 0 {
        assert(s + t == s);
        lemma_product_is_element(s);
        F::law_units(product(s));
    } else {
        assert((s + t).drop_last() == s + t.drop_last());
        lemma_product_concat(s, t.drop_last());
        F::law_mul_associates(product(s), product(t.drop_last()), t.last());
    }
}

/// To divide by an element is to multiply by its inverse.
pub proof fn lemma_division<F: Field>(a: F, z: F, z_inv: F, b: F)
    requires
        z.mul_spec(z_inv) == F::one_spec(),
    ensures
        a.is_element() && a.mul_spec(z_inv) == b ==> a == b.mul_spec(z),
        b.is_element() && a == b.mul_spec(z) ==> a.mul_spec(z_inv) == b,
{
    F::law_mul_associates(a, z_inv, z);
    F::law_mul_commutes(z_inv, z);
    F::law_mul_associates(b, z, z_inv);
    if a.is_element() {
        F::law_units(a);
    }
    if b.is_element() {
        F::law_units(b);
    }
}

/// A sum of zeros is zero.
pub proof fn lemma_sum_of_zeros<F: Field>(s: Seq<F>)
    requires
        forall|k: int| 0 <= k < s.len() ==> #[trigger] s[k] == F::zero_spec(),
    ensures
        sum(s) == F::zero_spec(),
    decreases s.len(),
{
    if s.len() > 0 {
        lemma_sum_of_zeros(s.drop_last());
        F::law_closed(F::zero_spec(), F::zero_spec());
        F::law_units(F::zero_spec());
    }
}

/// A sum in which every summand but one is zero is that summand.
pub proof fn lemma_sum_of_one<F: Field>(s: Seq<F>, i: int)
    requires
        0 <= i < s.len(),
        s[i].is_element(),
        forall|k: int| 0 <= k < s.len() && k != i ==> #[trigger] s[k] == F::zero_spec(),
    ensures
        sum(s) == s[i],
{
    lemma_sum_remove(s, i);
    lemma_sum_of_zeros(s.remove(i));
    F::law_add_commutes(F::zero_spec(), s[i]);
    F::law_units(s[i]);
}

/// Two summands, each a sum, change places.
pub proof fn lemma_add_swap_middle<F: Field>(a: F, b: F, c: F, d: F)
    ensures
        a.add_spec(b).add_spec(c.add_spec(d)) == a.add_spec(c).add_spec(b.add_spec(d)),
{
    F::law_add_associates(a, b, c.add_spec(d));
    F::law_add_associates(b, c, d);
    F::law_add_commutes(b, c);
    F::law_add_associates(c, b, d);
    F::law_add_associates(a, c, b.add_spec(d));
}

/// Two factors, each a product, change places.
pub proof fn lemma_mul_swap_middle<F: Field>(a: F, b: F, c: F, d: F)
    ensures
        a.mul_spec(b).mul_spec(c.mul_spec(d)) == a.mul_spec(c).mul_spec(b.mul_spec(d)),
{
    F::law_mul_associates(a, b, c.mul_spec(d));
    F::law_mul_associates(b, c, d);
    F::law_mul_commutes(b, c);
    F::law_mul_associates(c, b, d);
    F::law_mul_associates(a, c, b.mul_spec(d));
}

/// The last two of three factors change places.
pub proof fn lemma_mul_right_swap<F: Field>(a: F, b: F, c: F)
    ensures
        a.mul_spec(b).mul_spec(c) == a.mul_spec(c).mul_spec(b),
{
    F::law_mul_associates(a, b, c);
    F::law_mul_commutes(b, c);
    F::law_mul_associates(a, c, b);
}

/// Multiplication distributes from the right.
pub proof fn lemma_distributes_right<F: Field>(a: F, b: F, c: F)
    ensures
        a.add_spec(b).mul_spec(c) == a.mul_spec(c).add_spec(b.mul_spec(c)),
{
    F::law_mul_commutes(a.add_spec(b), c);
    F::law_distributes(c, a, b);
    F::law_mul_commutes(c, a);
    F::law_mul_commutes(c, b);
}

/// A factor that has an inverse can be cancelled.
pub proof fn lemma_cancel<F: Field>(x: F, x_inv: F, a: F, b: F)
    requires
        x.mul_spec(x_inv) == F::one_spec(),
        a.is_element(),
        b.is_element(),
        x.mul_spec(a) == x.mul_spec(b),
    ensures
        a == b,
{
    F::law_mul_commutes(x, x_inv);
    F::law_mul_associates(x_inv, x, a);
    F::law_mul_associates(x_inv, x, b);
    F::law_mul_commutes(F::one_spec(), a);
    F::law_mul_commutes(F::one_spec(), b);
    F::law_units(a);
    F::law_units(b);
}

/// A sum of multiples is the multiple of the sum.
pub proof fn lemma_sum_scaled<F: Field>(s: Seq<F>, k: F, r: Seq<F>)
    requires
        r.len() == s.len(),
        forall|i: int| 0 <= i < s.len() ==> #[trigger] r[i] == k.mul_spec(s[i]),
        k.is_element(),
    ensures
        sum(r) == k.mul_spec(sum(s)),
    decreases s.len(),
{
    if s.len() == 0 {
        F::law_units(k);
    } else {
        lemma_sum_scaled(s.drop_last(), k, r.drop_last());
        F::law_distributes(k, sum(s.drop_last()), s.last());
        assert(r.last() == k.mul_spec(s.last()));
    }
}

/// The sum of sums is the sum of the sums.
pub proof fn lemma_sum_added<F: Field>(s: Seq<F>, t: Seq<F>, r: Seq<F>)
    requires
        r.len() == s.len(),
        r.len() == t.len(),
        forall|i: int| 0 <= i < s.len() ==> #[trigger] r[i] == s[i].add_spec(t[i]),
    ensures
        sum(r) == sum(s).add_spec(sum(t)),
    decreases s.len(),
{
    if s.len() == 0 {
        F::law_closed(F::zero_spec(), F::zero_spec());
        F::law_units(F::zero_spec());
    } else {
        lemma_sum_added(s.drop_last(), t.drop_last(), r.drop_last());
        assert(r.last() == s.last().add_spec(t.last()));
        lemma_add_swap_middle(
            sum(s.drop_last()),
            sum(t.drop_last()),
            s.last(),
            t.last(),
        );
    }
}

/// A power is an element.
pub proof fn lemma_exp_is_element<F: Field>(x: F, n: nat)
    ensures
        exp_spec(x, n).is_element(),
{
    if n == 0 {
        F::law_closed(x, x);
    } else {
        F::law_closed(exp_spec(x, (n - 1) as nat), x);
    }
}

/// Exponents add up.
pub proof fn lemma_exp_add<F: Field>(x: F, m: nat, n: nat)
    ensures
        exp_spec(x, m + n) == exp_spec(x, m).mul_spec(exp_spec(x, n)),
    decreases n,
{
    if n == 0 {
        lemma_exp_is_element(x, m);
        F::law_units(exp_spec(x, m));
    } else {
        lemma_exp_add(x, m, (n - 1) as nat);
        F::law_mul_associates(exp_spec(x, m), exp_spec(x, (n - 1) as nat), x);
        assert((m + n - 1) as nat == m + (n - 1) as nat);
    }
}

/// Exponents multiply.
pub proof fn lemma_exp_mul<F: Field>(x: F, m: nat, n: nat)
    ensures
        exp_spec(x, m * n) == exp_spec(exp_spec(x, m), n),
    decreases n,
{
    if n == 0 {
        assert(m * n == 0) by (nonlinear_arith)
            requires
                n == 0,
        ;
    } else {
        let before = (n - 1) as nat;
        assert(m * n == m * before + m) by (nonlinear_arith)
            requires
                n == before + 1,
        ;
        lemma_exp_mul(x, m, before);
        lemma_exp_add(x, m * before, m);
    }
}

/// Squaring again and again is raising to a power of two.
pub proof fn lemma_exp_power_of_2<F: Field>(x: F, log: nat)
    requires
        x.is_element(),
    ensures
        exp_power_of_2_spec(x, log) == exp_spec(x, pow2(log)),
    decreases log,
{
    let square = x.mul_spec(x);
    reveal_with_fuel(exp_spec, 3);
    F::law_units(x);
    F::law_mul_commutes(F::one_spec(), x);
    assert(exp_spec(x, 1) == x);
    if log == 0 {
        lemma2_to64();
    } else {
        let before = (log - 1) as nat;
        assert(exp_spec(x, 2) == square);
        F::law_closed(x, x);
        lemma_exp_power_of_2(square, before);
        lemma_exp_mul(x, 2, pow2(before));
        lemma_pow2_unfold(log);
    }
}

/// Squaring again goes on where squaring stopped.
pub proof fn lemma_square_on<F: Field>(x: F, a: nat, b: nat)
    ensures
        exp_power_of_2_spec(exp_power_of_2_spec(x, a), b) == exp_power_of_2_spec(x, a + b),
    decreases a,
{
    if a > 0 {
        lemma_square_on(x.mul_spec(x), (a - 1) as nat, b);
        assert((a + b - 1) as nat == (a - 1) as nat + b);
    }
}

/// A product does not depend on the order of its factors.
pub proof fn lemma_product_permutation<F: Field>(s: Seq<F>, t: Seq<F>)
    requires
        s.to_multiset() == t.to_multiset(),
    ensures
        product(s) == product(t),
    decreases s.len(),
{
    s.to_multiset_ensures();
    t.to_multiset_ensures();
    if s.len() > 0 {
        let last = s.last();
        assert(s.contains(last));
        assert(s.to_multiset().count(last) > 0);
        assert(t.contains(last));
        let i = choose|i: int| 0 <= i < t.len() && t[i] == last;
        assert(s.remove(s.len() - 1) == s.drop_last());
        lemma_product_permutation(s.drop_last(), t.remove(i));
        lemma_product_remove(t, i);
    }
}

/// A factor common to all factors comes out as a power.
pub proof fn lemma_product_scaled<F: Field>(s: Seq<F>, k: F, r: Seq<F>)
    requires
        r.len() == s.len(),
        forall|i: int| 0 <= i < s.len() ==> #[trigger] r[i] == k.mul_spec(s[i]),
    ensures
        product(r) == exp_spec(k, s.len()).mul_spec(product(s)),
    decreases s.len(),
{
    if s.len() == 0 {
        F::law_closed(k, k);
        F::law_units(F::one_spec());
    } else {
        lemma_product_scaled(s.drop_last(), k, r.drop_last());
        assert(r.last() == k.mul_spec(s.last()));
        lemma_mul_swap_middle(
            exp_spec(k, (s.len() - 1) as nat),
            product(s.drop_last()),
            k,
            s.last(),
        );
    }
}

/// A product of two is zero exactly where one of them is.
pub proof fn lemma_no_zero_divisors<F: Field>(a: F, b: F)
    requires
        a.is_element(),
        b.is_element(),
    ensures
        a.mul_spec(b) == F::zero_spec() <==> a == F::zero_spec() || b == F::zero_spec(),
{
    let zero = F::zero_spec();
    F::law_closed(a, b);
    F::law_units(a);
    F::law_units(b);
    F::law_mul_commutes(zero, b);
    if a != zero && a.mul_spec(b) == zero {
        F::law_inverse(a);
        lemma_cancel(a, a.inverse_spec(), b, zero);
    }
}

/// A power of an element that is not zero is not zero.
pub proof fn lemma_exp_nonzero<F: Field>(x: F, n: nat)
    requires
        x.is_element(),
        x != F::zero_spec(),
    ensures
        exp_spec(x, n) != F::zero_spec(),
    decreases n,
{
    F::law_closed(x, x);
    if n > 0 {
        lemma_exp_nonzero(x, (n - 1) as nat);
        lemma_exp_is_element(x, (n - 1) as nat);
        lemma_no_zero_divisors(exp_spec(x, (n - 1) as nat), x);
    }
}

/// A product is zero exactly where one of its factors is.
pub proof fn lemma_product_zero<F: Field>(s: Seq<F>)
    requires
        forall|i: int| 0 <= i < s.len() ==> (#[trigger] s[i]).is_element(),
    ensures
        product(s) == F::zero_spec() <==> exists|i: int|
            0 <= i < s.len() && #[trigger] s[i] == F::zero_spec(),
    decreases s.len(),
{
    if s.len() == 0 {
        F::law_closed(F::one_spec(), F::one_spec());
    } else {
        let init = s.drop_last();
        assert forall|i: int| 0 <= i < init.len() implies (#[trigger] init[i]).is_element() by {
            assert(s[i].is_element());
        }
        lemma_product_zero(init);
        lemma_product_is_element(init);
        assert(s[s.len() - 1].is_element());
        lemma_no_zero_divisors(product(init), s.last());
        if exists|i: int| 0 <= i < s.len() && #[trigger] s[i] == F::zero_spec() {
            let i = choose|i: int| 0 <= i < s.len() && #[trigger] s[i] == F::zero_spec();
            if i < init.len() {
                assert(init[i] == F::zero_spec());
            }
        }
        if product(init) == F::zero_spec() {
            let i = choose|i: int| 0 <= i < init.len() && #[trigger] init[i] == F::zero_spec();
            assert(s[i] == F::zero_spec());
        }
    }
}

} // verus!
