//! Recomposition on cosets is Lagrange interpolation: it gives the quotient at every point.

use vstd::arithmetic::div_mod::lemma_fundamental_div_mod;
use vstd::arithmetic::power2::{lemma_pow2_pos, pow2};
use vstd::prelude::*;
use crate::algebra::{
    lemma_add_swap_middle, lemma_cancel, lemma_distributes_right, lemma_exp_add,
    lemma_exp_is_element, lemma_exp_mul, lemma_exp_power_of_2, lemma_mul_right_swap,
    lemma_mul_swap_middle, lemma_sum_added, lemma_sum_is_element, lemma_sum_of_zeros,
    lemma_sum_remove, lemma_sum_scaled,
};
use crate::coset::{
    Coset, lemma_embedded_powers, lemma_power_is_element, lemma_power_of_product,
    lemma_powers_of_one, lemma_same_log, negated,
};
use crate::domain::PolynomialSpace;
use crate::field::{ExtensionField, Field, exp_power_of_2_spec, exp_spec, sum};
use crate::goldilocks::{Felt, QuadFelt};
use crate::quotient::{
    domains_separated, from_coordinates, lagrange_coefficient, lagrange_factor, lagrange_prefix,
    recomposed, separated,
};

verus! {

/// The value at `x` of the polynomial with the given coefficients.
pub open spec fn polynomial_at<F: Field>(coefficients: Seq<F>, x: F) -> F {
    sum(
        Seq::new(coefficients.len(), |e: int| coefficients[e].mul_spec(exp_spec(x, e as nat))),
    )
}

/// The value at `x` of what the polynomial is folded to where the `n`-th power of the variable is
/// `u`: that power is replaced by `u`, so that a polynomial of degree below `n` is left.
pub open spec fn folded_polynomial_at<F: Field>(coefficients: Seq<F>, n: nat, u: F, x: F) -> F {
    sum(
        Seq::new(
            coefficients.len(),
            |e: int|
                coefficients[e].mul_spec(
                    exp_spec(x, (e as nat) % n).mul_spec(exp_spec(u, (e as nat) / n)),
                ),
        ),
    )
}

/// Minus one.
spec fn minus_one() -> QuadFelt {
    QuadFelt::from_base_spec(negated(Felt::one_spec()))
}

/// What every point of a coset gives when it is raised to the size of the coset.
spec fn node(d: Coset) -> QuadFelt {
    exp_power_of_2_spec(QuadFelt::from_base_spec(d.shift), d.log_size as nat)
}

/// The inverse of the node.
spec fn node_inverse(d: Coset) -> QuadFelt {
    exp_power_of_2_spec(QuadFelt::from_base_spec(d.shift.inverse_spec()), d.log_size as nat)
}

/// The vanishing polynomial of `d` where the power of the point is `u`.
spec fn vanishing_at(d: Coset, u: QuadFelt) -> QuadFelt {
    u.mul_spec(node_inverse(d)).add_spec(minus_one())
}

/// Cosets of one size, whose vanishing polynomials are not zero at each other's first points.
spec fn good(ds: Seq<Coset>, log: usize) -> bool {
    &&& forall|j: int|
        0 <= j < ds.len() ==> (#[trigger] ds[j]).well_formed() && ds[j].log_size == log
    &&& forall|i: int, j: int|
        0 <= i < ds.len() && 0 <= j < ds.len() && i != j ==> #[trigger] separated(ds, i, j)
}

proof fn lemma_good_drop(ds: Seq<Coset>, log: usize)
    requires
        good(ds, log),
        ds.len() > 0,
    ensures
        good(ds.drop_last(), log),
        good(ds.drop_first(), log),
{
    let (init, tail) = (ds.drop_last(), ds.drop_first());
    assert forall|i: int, j: int|
        0 <= i < init.len() && 0 <= j < init.len() && i != j implies #[trigger] separated(
        init,
        i,
        j,
    ) by {
        assert(separated(ds, i, j));
    }
    assert forall|i: int, j: int|
        0 <= i < tail.len() && 0 <= j < tail.len() && i != j implies #[trigger] separated(
        tail,
        i,
        j,
    ) by {
        assert(separated(ds, i + 1, j + 1));
    }
}

proof fn lemma_minus_one()
    ensures
        QuadFelt::one_spec().add_spec(minus_one()) == QuadFelt::zero_spec(),
        minus_one().is_element(),
        minus_one().mul_spec(minus_one()) == QuadFelt::one_spec(),
{
    let (one, c) = (QuadFelt::one_spec(), minus_one());
    assert(one.add_spec(c) == QuadFelt::zero_spec());
    // c + c c = c (1 + c) = 0 = c + 1
    QuadFelt::law_distributes(c, one, c);
    QuadFelt::law_units(c);
    let cc = c.mul_spec(c);
    QuadFelt::law_add_associates(one, c, cc);
    QuadFelt::law_closed(c, c);
    QuadFelt::law_units(cc);
    QuadFelt::law_units(one);
    QuadFelt::law_add_commutes(QuadFelt::zero_spec(), cc);
}

proof fn lemma_vanishing_form(d: Coset, x: QuadFelt)
    ensures
        d.vanishing_spec(x) == vanishing_at(d, exp_power_of_2_spec(x, d.log_size as nat)),
{
    lemma_power_of_product(
        x,
        QuadFelt::from_base_spec(d.shift.inverse_spec()),
        d.log_size as nat,
    );
}

proof fn lemma_node(d: Coset)
    requires
        d.well_formed(),
    ensures
        node(d).mul_spec(node_inverse(d)) == QuadFelt::one_spec(),
        node(d).is_element(),
        node_inverse(d).is_element(),
        vanishing_at(d, node(d)) == QuadFelt::zero_spec(),
{
    let (s, s_inv) = (d.shift, d.shift.inverse_spec());
    let log = d.log_size as nat;
    Felt::law_inverse(s);
    lemma_power_of_product(QuadFelt::from_base_spec(s), QuadFelt::from_base_spec(s_inv), log);
    QuadFelt::law_embedding(s, s_inv);
    lemma_embedded_powers(Felt::one_spec(), log);
    lemma_powers_of_one(log);
    lemma_power_is_element(QuadFelt::from_base_spec(s), log);
    lemma_power_is_element(QuadFelt::from_base_spec(s_inv), log);
    lemma_minus_one();
}

/// What a factor of a Lagrange coefficient takes away, the vanishing polynomial gives back.
proof fn lemma_factor(ds: Seq<Coset>, log: usize, zeta: QuadFelt, i: int, j: int)
    requires
        good(ds, log),
        0 <= i < ds.len(),
        0 <= j < ds.len(),
        i != j,
    ensures
        lagrange_factor(ds[i], ds[j], zeta).mul_spec(vanishing_at(ds[j], node(ds[i])))
            == ds[j].vanishing_spec(zeta),
        vanishing_at(ds[j], node(ds[i])).mul_spec(
            QuadFelt::from_base_spec(
                ds[j].vanishing_base_spec(ds[i].first_point_spec()).inverse_spec(),
            ),
        ) == QuadFelt::one_spec(),
{
    let first = ds[i].first_point_spec();
    let v = ds[j].vanishing_base_spec(first);
    let (e, e_inv) = (QuadFelt::from_base_spec(v), QuadFelt::from_base_spec(v.inverse_spec()));
    assert(separated(ds, i, j));
    Felt::law_inverse(v);
    ds[j].law_vanishing_extends(first);
    lemma_vanishing_form(ds[j], QuadFelt::from_base_spec(first));
    assert(e == vanishing_at(ds[j], node(ds[i])));
    QuadFelt::law_embedding(v, v.inverse_spec());
    let f = ds[j].vanishing_spec(zeta);
    QuadFelt::law_mul_associates(f, e_inv, e);
    QuadFelt::law_mul_commutes(e_inv, e);
    lemma_vanishing_form(ds[j], zeta);
    QuadFelt::law_units(f);
}

proof fn lemma_prefix_last(ds: Seq<Coset>, zeta: QuadFelt, i: int, n: nat)
    requires
        0 <= i < ds.len() - 1,
        n < ds.len(),
    ensures
        lagrange_prefix(ds.drop_last(), zeta, i, n) == lagrange_prefix(ds, zeta, i, n),
    decreases n,
{
    if n > 0 {
        lemma_prefix_last(ds, zeta, i, (n - 1) as nat);
    }
}

proof fn lemma_prefix_first(ds: Seq<Coset>, zeta: QuadFelt, i: int, n: nat)
    requires
        1 <= i < ds.len(),
        1 <= n <= ds.len(),
    ensures
        lagrange_prefix(ds, zeta, i, n) == lagrange_prefix(
            ds.drop_first(),
            zeta,
            i - 1,
            (n - 1) as nat,
        ).mul_spec(lagrange_factor(ds[i], ds[0], zeta)),
    decreases n,
{
    reveal_with_fuel(lagrange_prefix, 2);
    if n > 1 {
        lemma_prefix_first(ds, zeta, i, (n - 1) as nat);
        if n - 1 != i {
            lemma_mul_right_swap(
                lagrange_prefix(ds.drop_first(), zeta, i - 1, (n - 2) as nat),
                lagrange_factor(ds[i], ds[0], zeta),
                lagrange_factor(ds[i], ds[n - 1], zeta),
            );
        }
    }
}

proof fn lemma_coefficient_is_element(ds: Seq<Coset>, zeta: QuadFelt, i: int, n: nat)
    ensures
        lagrange_prefix(ds, zeta, i, n).is_element(),
    decreases n,
{
    if n > 0 {
        lemma_coefficient_is_element(ds, zeta, i, (n - 1) as nat);
    }
}

/// The coefficient of the `i`-th coset once the last one is left out; zero for that one itself.
spec fn without_last(ds: Seq<Coset>, zeta: QuadFelt, i: int) -> QuadFelt {
    if i == ds.len() - 1 {
        QuadFelt::zero_spec()
    } else {
        lagrange_coefficient(ds.drop_last(), zeta, i)
    }
}

/// The coefficient of the `i`-th coset once the first one is left out; zero for that one itself.
spec fn without_first(ds: Seq<Coset>, zeta: QuadFelt, i: int) -> QuadFelt {
    if i == 0 {
        QuadFelt::zero_spec()
    } else {
        lagrange_coefficient(ds.drop_first(), zeta, i - 1)
    }
}

proof fn lemma_leave_out_last(ds: Seq<Coset>, log: usize, zeta: QuadFelt, i: int)
    requires
        good(ds, log),
        0 <= i < ds.len(),
    ensures
        vanishing_at(ds.last(), node(ds[i])).mul_spec(lagrange_coefficient(ds, zeta, i))
            == ds.last().vanishing_spec(zeta).mul_spec(without_last(ds, zeta, i)),
{
    let h = ds.len() - 1;
    let g = vanishing_at(ds[h], node(ds[i]));
    let f = ds[h].vanishing_spec(zeta);
    let l = lagrange_coefficient(ds, zeta, i);
    lemma_vanishing_form(ds[h], zeta);
    if i == h {
        lemma_node(ds[h]);
        lemma_coefficient_is_element(ds, zeta, i, ds.len());
        QuadFelt::law_mul_commutes(QuadFelt::zero_spec(), l);
        QuadFelt::law_units(l);
        QuadFelt::law_units(f);
    } else {
        let rest = lagrange_coefficient(ds.drop_last(), zeta, i);
        let factor = lagrange_factor(ds[i], ds[h], zeta);
        lemma_prefix_last(ds, zeta, i, h as nat);
        assert(l == rest.mul_spec(factor));
        lemma_factor(ds, log, zeta, i, h);
        QuadFelt::law_mul_commutes(g, l);
        QuadFelt::law_mul_associates(rest, factor, g);
        QuadFelt::law_mul_commutes(rest, f);
    }
}

proof fn lemma_leave_out_first(ds: Seq<Coset>, log: usize, zeta: QuadFelt, i: int)
    requires
        good(ds, log),
        0 <= i < ds.len(),
    ensures
        vanishing_at(ds[0], node(ds[i])).mul_spec(lagrange_coefficient(ds, zeta, i))
            == ds[0].vanishing_spec(zeta).mul_spec(without_first(ds, zeta, i)),
{
    let g = vanishing_at(ds[0], node(ds[i]));
    let f = ds[0].vanishing_spec(zeta);
    let l = lagrange_coefficient(ds, zeta, i);
    lemma_vanishing_form(ds[0], zeta);
    if i == 0 {
        lemma_node(ds[0]);
        lemma_coefficient_is_element(ds, zeta, i, ds.len());
        QuadFelt::law_mul_commutes(QuadFelt::zero_spec(), l);
        QuadFelt::law_units(l);
        QuadFelt::law_units(f);
    } else {
        let rest = lagrange_coefficient(ds.drop_first(), zeta, i - 1);
        let factor = lagrange_factor(ds[i], ds[0], zeta);
        lemma_prefix_first(ds, zeta, i, ds.len());
        assert(l == rest.mul_spec(factor));
        lemma_factor(ds, log, zeta, i, 0);
        QuadFelt::law_mul_commutes(g, l);
        QuadFelt::law_mul_associates(rest, factor, g);
        QuadFelt::law_mul_commutes(rest, f);
    }
}

/// A combination of two vanishing polynomials that does not depend on the point.
proof fn lemma_two_nodes(a: Coset, b: Coset, u: QuadFelt)
    requires
        a.well_formed(),
        b.well_formed(),
    ensures
        node_inverse(b).mul_spec(vanishing_at(a, u)).add_spec(
            minus_one().mul_spec(node_inverse(a)).mul_spec(vanishing_at(b, u)),
        ) == node_inverse(a).add_spec(minus_one().mul_spec(node_inverse(b))),
{
    let c = minus_one();
    let (ta, tb) = (node_inverse(a), node_inverse(b));
    let k = ta.mul_spec(u.mul_spec(tb));
    lemma_minus_one();
    lemma_node(a);
    lemma_node(b);
    // tb (u ta + c) = k + c tb
    QuadFelt::law_distributes(tb, u.mul_spec(ta), c);
    QuadFelt::law_mul_commutes(tb, c);
    assert(tb.mul_spec(u.mul_spec(ta)) == k) by {
        QuadFelt::law_mul_associates(tb, u, ta);
        QuadFelt::law_mul_commutes(tb, u);
        QuadFelt::law_mul_commutes(u.mul_spec(tb), ta);
    }
    // c ta (u tb + c) = c k + ta
    QuadFelt::law_distributes(c.mul_spec(ta), u.mul_spec(tb), c);
    QuadFelt::law_mul_associates(c, ta, u.mul_spec(tb));
    lemma_mul_right_swap(c, ta, c);
    QuadFelt::law_mul_commutes(QuadFelt::one_spec(), ta);
    QuadFelt::law_units(ta);
    // k + c k = 0
    let ck = c.mul_spec(k);
    lemma_add_swap_middle(k, c.mul_spec(tb), ck, ta);
    assert(k.add_spec(ck) == QuadFelt::zero_spec()) by {
        lemma_distributes_right(QuadFelt::one_spec(), c, k);
        QuadFelt::law_closed(ta, u.mul_spec(tb));
        QuadFelt::law_units(k);
        QuadFelt::law_mul_commutes(QuadFelt::one_spec(), k);
        QuadFelt::law_mul_commutes(QuadFelt::zero_spec(), k);
    }
    let rest = c.mul_spec(tb).add_spec(ta);
    QuadFelt::law_closed(c.mul_spec(tb), ta);
    QuadFelt::law_units(rest);
    QuadFelt::law_add_commutes(QuadFelt::zero_spec(), rest);
    QuadFelt::law_add_commutes(c.mul_spec(tb), ta);
}

/// The Lagrange coefficients, each times a power of its node.
spec fn moment_terms(ds: Seq<Coset>, zeta: QuadFelt, m: nat) -> Seq<QuadFelt> {
    Seq::new(
        ds.len(),
        |i: int| lagrange_coefficient(ds, zeta, i).mul_spec(exp_spec(node(ds[i]), m)),
    )
}

/// The combination by Lagrange coefficients of the `m`-th powers of the nodes.
spec fn moment(ds: Seq<Coset>, zeta: QuadFelt, m: nat) -> QuadFelt {
    sum(moment_terms(ds, zeta, m))
}

proof fn lemma_zero_times(x: QuadFelt)
    requires
        x.is_element(),
    ensures
        QuadFelt::zero_spec().mul_spec(x) == QuadFelt::zero_spec(),
{
    QuadFelt::law_mul_commutes(QuadFelt::zero_spec(), x);
    QuadFelt::law_units(x);
}

/// The last coset is left out of a moment that is weighted by its vanishing polynomial.
proof fn lemma_moment_without_last(ds: Seq<Coset>, log: usize, zeta: QuadFelt, m: nat)
    requires
        good(ds, log),
        ds.len() > 0,
    ensures
        sum(
            Seq::new(
                ds.len(),
                |i: int|
                    vanishing_at(ds.last(), node(ds[i])).mul_spec(moment_terms(ds, zeta, m)[i]),
            ),
        ) == ds.last().vanishing_spec(zeta).mul_spec(moment(ds.drop_last(), zeta, m)),
{
    let f = ds.last().vanishing_spec(zeta);
    let init = ds.drop_last();
    let r = Seq::new(
        ds.len(),
        |i: int| vanishing_at(ds.last(), node(ds[i])).mul_spec(moment_terms(ds, zeta, m)[i]),
    );
    let s = Seq::new(
        ds.len(),
        |i: int| without_last(ds, zeta, i).mul_spec(exp_spec(node(ds[i]), m)),
    );
    assert forall|i: int| 0 <= i < s.len() implies #[trigger] r[i] == f.mul_spec(s[i]) by {
        let (g, l) = (vanishing_at(ds.last(), node(ds[i])), lagrange_coefficient(ds, zeta, i));
        let power = exp_spec(node(ds[i]), m);
        lemma_leave_out_last(ds, log, zeta, i);
        QuadFelt::law_mul_associates(g, l, power);
        QuadFelt::law_mul_associates(f, without_last(ds, zeta, i), power);
    }
    lemma_vanishing_form(ds.last(), zeta);
    lemma_sum_scaled(s, f, r);
    assert(s.drop_last() == moment_terms(init, zeta, m));
    lemma_exp_is_element(node(ds.last()), m);
    lemma_zero_times(exp_spec(node(ds.last()), m));
    lemma_sum_is_element(s.drop_last());
    QuadFelt::law_units(sum(s.drop_last()));
}

/// The first coset is left out of the sum of the coefficients, weighted by its vanishing
/// polynomial.
proof fn lemma_moment_without_first(ds: Seq<Coset>, log: usize, zeta: QuadFelt)
    requires
        good(ds, log),
        ds.len() > 0,
    ensures
        sum(
            Seq::new(
                ds.len(),
                |i: int| vanishing_at(ds[0], node(ds[i])).mul_spec(moment_terms(ds, zeta, 0)[i]),
            ),
        ) == ds[0].vanishing_spec(zeta).mul_spec(moment(ds.drop_first(), zeta, 0)),
{
    let f = ds[0].vanishing_spec(zeta);
    let tail = ds.drop_first();
    let one = QuadFelt::one_spec();
    let r = Seq::new(
        ds.len(),
        |i: int| vanishing_at(ds[0], node(ds[i])).mul_spec(moment_terms(ds, zeta, 0)[i]),
    );
    let s = Seq::new(ds.len(), |i: int| without_first(ds, zeta, i).mul_spec(one));
    assert forall|i: int| 0 <= i < s.len() implies #[trigger] r[i] == f.mul_spec(s[i]) by {
        let (g, l) = (vanishing_at(ds[0], node(ds[i])), lagrange_coefficient(ds, zeta, i));
        lemma_leave_out_first(ds, log, zeta, i);
        QuadFelt::law_mul_associates(g, l, one);
        QuadFelt::law_mul_associates(f, without_first(ds, zeta, i), one);
    }
    lemma_vanishing_form(ds[0], zeta);
    lemma_sum_scaled(s, f, r);
    lemma_sum_remove(s, 0);
    assert(s.remove(0) == moment_terms(tail, zeta, 0));
    QuadFelt::law_closed(one, one);
    lemma_zero_times(one);
    lemma_sum_is_element(s.remove(0));
    QuadFelt::law_units(sum(s.remove(0)));
}

/// The Lagrange coefficients add up to one.
proof fn lemma_coefficients_add_up(ds: Seq<Coset>, log: usize, zeta: QuadFelt)
    requires
        good(ds, log),
        ds.len() > 0,
    ensures
        moment(ds, zeta, 0) == QuadFelt::one_spec(),
    decreases ds.len(),
{
    let (one, zero) = (QuadFelt::one_spec(), QuadFelt::zero_spec());
    QuadFelt::law_closed(one, one);
    QuadFelt::law_units(one);
    let terms = moment_terms(ds, zeta, 0);
    if ds.len() == 1 {
        reveal_with_fuel(lagrange_prefix, 2);
        reveal_with_fuel(sum, 2);
        assert(terms[0] == one);
        assert(terms.drop_last() == Seq::<QuadFelt>::empty());
        QuadFelt::law_add_commutes(zero, one);
    } else {
        let (a, b) = (ds[0], ds.last());
        let (ta, tb) = (node_inverse(a), node_inverse(b));
        let c_ta = minus_one().mul_spec(ta);
        let delta = ta.add_spec(minus_one().mul_spec(tb));
        let y = exp_power_of_2_spec(zeta, log as nat);
        lemma_good_drop(ds, log);
        lemma_coefficients_add_up(ds.drop_last(), log, zeta);
        lemma_coefficients_add_up(ds.drop_first(), log, zeta);
        lemma_moment_without_first(ds, log, zeta);
        lemma_moment_without_last(ds, log, zeta, 0);
        let ra = Seq::new(ds.len(), |i: int| vanishing_at(a, node(ds[i])).mul_spec(terms[i]));
        let rb = Seq::new(ds.len(), |i: int| vanishing_at(b, node(ds[i])).mul_spec(terms[i]));
        let pa = Seq::new(ds.len(), |i: int| tb.mul_spec(ra[i]));
        let pb = Seq::new(ds.len(), |i: int| c_ta.mul_spec(rb[i]));
        let all = Seq::new(ds.len(), |i: int| delta.mul_spec(terms[i]));
        assert forall|i: int| 0 <= i < all.len() implies #[trigger] all[i] == pa[i].add_spec(
            pb[i],
        ) by {
            let (ga, gb) = (vanishing_at(a, node(ds[i])), vanishing_at(b, node(ds[i])));
            lemma_two_nodes(a, b, node(ds[i]));
            lemma_distributes_right(tb.mul_spec(ga), c_ta.mul_spec(gb), terms[i]);
            QuadFelt::law_mul_associates(tb, ga, terms[i]);
            QuadFelt::law_mul_associates(c_ta, gb, terms[i]);
        }
        lemma_node(a);
        lemma_node(b);
        lemma_sum_scaled(ra, tb, pa);
        lemma_sum_scaled(rb, c_ta, pb);
        lemma_sum_scaled(terms, delta, all);
        lemma_sum_added(pa, pb, all);
        lemma_vanishing_form(a, zeta);
        lemma_vanishing_form(b, zeta);
        QuadFelt::law_units(a.vanishing_spec(zeta));
        QuadFelt::law_units(b.vanishing_spec(zeta));
        lemma_two_nodes(a, b, y);
        assert(delta.mul_spec(moment(ds, zeta, 0)) == delta);
        lemma_delta(ds, log);
        lemma_sum_is_element(terms);
        QuadFelt::law_units(delta);
        let g_inv = QuadFelt::from_base_spec(
            b.vanishing_base_spec(a.first_point_spec()).inverse_spec(),
        );
        lemma_cancel(
            delta,
            minus_one().mul_spec(node(a)).mul_spec(g_inv),
            moment(ds, zeta, 0),
            one,
        );
    }
}

/// The inverses of the nodes of the first and the last coset differ by an element that has an
/// inverse.
proof fn lemma_delta(ds: Seq<Coset>, log: usize)
    requires
        good(ds, log),
        ds.len() > 1,
    ensures
        node_inverse(ds[0]).add_spec(minus_one().mul_spec(node_inverse(ds.last()))).mul_spec(
            minus_one().mul_spec(node(ds[0])).mul_spec(
                QuadFelt::from_base_spec(
                    ds.last().vanishing_base_spec(ds[0].first_point_spec()).inverse_spec(),
                ),
            ),
        ) == QuadFelt::one_spec(),
{
    let (a, b) = (ds[0], ds.last());
    let (c, one) = (minus_one(), QuadFelt::one_spec());
    let (ta, tb) = (node_inverse(a), node_inverse(b));
    let c_ta = c.mul_spec(ta);
    let g = vanishing_at(b, node(a));
    let g_inv = QuadFelt::from_base_spec(
        b.vanishing_base_spec(a.first_point_spec()).inverse_spec(),
    );
    lemma_minus_one();
    lemma_node(a);
    lemma_node(b);
    lemma_two_nodes(a, b, node(a));
    QuadFelt::law_units(tb);
    QuadFelt::law_closed(c_ta, g);
    QuadFelt::law_units(c_ta.mul_spec(g));
    QuadFelt::law_add_commutes(QuadFelt::zero_spec(), c_ta.mul_spec(g));
    assert(ta.add_spec(c.mul_spec(tb)) == c_ta.mul_spec(g));
    lemma_factor(ds, log, one, 0, ds.len() - 1);
    lemma_mul_swap_middle(c_ta, g, c.mul_spec(node(a)), g_inv);
    lemma_mul_swap_middle(c, ta, c, node(a));
    QuadFelt::law_mul_commutes(ta, node(a));
    QuadFelt::law_closed(one, one);
    QuadFelt::law_units(one);
}

proof fn lemma_plus_one(d: Coset, u: QuadFelt)
    ensures
        vanishing_at(d, u).add_spec(QuadFelt::one_spec()) == u.mul_spec(node_inverse(d)),
{
    let product = u.mul_spec(node_inverse(d));
    lemma_minus_one();
    QuadFelt::law_add_associates(product, minus_one(), QuadFelt::one_spec());
    QuadFelt::law_add_commutes(minus_one(), QuadFelt::one_spec());
    QuadFelt::law_closed(u, node_inverse(d));
    QuadFelt::law_units(product);
}

/// The powers of the nodes, below the number of cosets, interpolate to the power of the point.
proof fn lemma_moment(ds: Seq<Coset>, log: usize, zeta: QuadFelt, m: nat)
    requires
        good(ds, log),
        m < ds.len(),
    ensures
        moment(ds, zeta, m) == exp_spec(exp_power_of_2_spec(zeta, log as nat), m),
    decreases m,
{
    if m == 0 {
        lemma_coefficients_add_up(ds, log, zeta);
    } else {
        let before = (m - 1) as nat;
        let h = ds.last();
        let t = node_inverse(h);
        let one = QuadFelt::one_spec();
        let y = exp_power_of_2_spec(zeta, log as nat);
        lemma_good_drop(ds, log);
        lemma_moment(ds, log, zeta, before);
        lemma_moment(ds.drop_last(), log, zeta, before);
        lemma_moment_without_last(ds, log, zeta, before);
        let terms = moment_terms(ds, zeta, m);
        let q = moment_terms(ds, zeta, before);
        let r = Seq::new(ds.len(), |i: int| vanishing_at(h, node(ds[i])).mul_spec(q[i]));
        let all = Seq::new(ds.len(), |i: int| t.mul_spec(terms[i]));
        assert forall|i: int| 0 <= i < all.len() implies #[trigger] all[i] == r[i].add_spec(
            q[i],
        ) by {
            let u = node(ds[i]);
            let l = lagrange_coefficient(ds, zeta, i);
            let power = exp_spec(u, before);
            // t (l (power u)) = (u t) (l power) = (g + 1) q
            QuadFelt::law_mul_associates(l, power, u);
            QuadFelt::law_mul_commutes(t, q[i].mul_spec(u));
            QuadFelt::law_mul_associates(q[i], u, t);
            QuadFelt::law_mul_commutes(q[i], u.mul_spec(t));
            lemma_plus_one(h, u);
            lemma_distributes_right(vanishing_at(h, u), one, q[i]);
            QuadFelt::law_closed(l, power);
            QuadFelt::law_units(q[i]);
            QuadFelt::law_mul_commutes(one, q[i]);
        }
        lemma_node(h);
        lemma_sum_scaled(terms, t, all);
        lemma_sum_added(r, q, all);
        // t S = f p + p = (y t) p = t (p y)
        let power = exp_spec(y, before);
        lemma_vanishing_form(h, zeta);
        lemma_plus_one(h, y);
        lemma_distributes_right(vanishing_at(h, y), one, power);
        lemma_exp_is_element(y, before);
        QuadFelt::law_units(power);
        QuadFelt::law_mul_commutes(one, power);
        QuadFelt::law_mul_commutes(y.mul_spec(t), power);
        QuadFelt::law_mul_associates(power, y, t);
        QuadFelt::law_mul_commutes(power.mul_spec(y), t);
        assert(t.mul_spec(moment(ds, zeta, m)) == t.mul_spec(exp_spec(y, m)));
        lemma_sum_is_element(terms);
        lemma_exp_is_element(y, m);
        QuadFelt::law_mul_commutes(node(h), t);
        lemma_cancel(t, node(h), moment(ds, zeta, m), exp_spec(y, m));
    }
}

proof fn lemma_good(ds: Seq<Coset>, size: usize)
    requires
        ds.len() > 0,
        forall|j: int| 0 <= j < ds.len() ==> (#[trigger] ds[j]).is_space(),
        forall|j: int| 0 <= j < ds.len() ==> (#[trigger] ds[j]).size_spec() == size,
        domains_separated::<Felt, QuadFelt, Coset>(ds),
    ensures
        good(ds, ds[0].log_size),
        pow2(ds[0].log_size as nat) == size,
{
    assert forall|j: int| 0 <= j < ds.len() implies (#[trigger] ds[j]).well_formed()
        && ds[j].log_size == ds[0].log_size by {
        assert(ds[0].is_space());
        lemma_same_log(ds[j], ds[0]);
    }
    let log = ds[0].log_size;
    assert(ds[0].well_formed());
    assert(ds[0].size_spec() == size);
    vstd::bits::lemma_usize_pow2_no_overflow(log as nat);
    vstd::bits::lemma_usize_shl_is_mul(1, log);
}

/// The power of a point is made of the remainder and the quotient of its exponent.
proof fn lemma_split_power(x: QuadFelt, n: nat, e: nat)
    requires
        n > 0,
    ensures
        exp_spec(x, e) == exp_spec(x, e % n).mul_spec(exp_spec(exp_spec(x, n), e / n)),
{
    lemma_fundamental_div_mod(e as int, n as int);
    lemma_exp_mul(x, n, e / n);
    lemma_exp_add(x, e % n, n * (e / n));
}

proof fn lemma_recomposed_monomials(
    ds: Seq<Coset>,
    log: usize,
    coefficients: Seq<QuadFelt>,
    zeta: QuadFelt,
)
    requires
        good(ds, log),
        coefficients.len() <= ds.len() * pow2(log as nat),
        zeta.is_element(),
    ensures
        sum(
            Seq::new(
                ds.len(),
                |i: int|
                    lagrange_coefficient(ds, zeta, i).mul_spec(
                        folded_polynomial_at(coefficients, pow2(log as nat), node(ds[i]), zeta),
                    ),
            ),
        ) == polynomial_at(coefficients, zeta),
    decreases coefficients.len(),
{
    let n = pow2(log as nat);
    lemma_pow2_pos(log as nat);
    let all = Seq::new(
        ds.len(),
        |i: int|
            lagrange_coefficient(ds, zeta, i).mul_spec(
                folded_polynomial_at(coefficients, n, node(ds[i]), zeta),
            ),
    );
    if coefficients.len() == 0 {
        assert forall|i: int| 0 <= i < all.len() implies #[trigger] all[i]
            == QuadFelt::zero_spec() by {
            lemma_coefficient_is_element(ds, zeta, i, ds.len());
            QuadFelt::law_units(lagrange_coefficient(ds, zeta, i));
        }
        lemma_sum_of_zeros(all);
    } else {
        let init = coefficients.drop_last();
        let e = init.len();
        let a = coefficients.last();
        let low = exp_spec(zeta, e % n);
        let m = e / n;
        let k = a.mul_spec(low);
        lemma_recomposed_monomials(ds, log, init, zeta);
        let rest = Seq::new(
            ds.len(),
            |i: int|
                lagrange_coefficient(ds, zeta, i).mul_spec(
                    folded_polynomial_at(init, n, node(ds[i]), zeta),
                ),
        );
        let terms = moment_terms(ds, zeta, m);
        let scaled = Seq::new(ds.len(), |i: int| k.mul_spec(terms[i]));
        assert forall|i: int| 0 <= i < all.len() implies #[trigger] all[i] == rest[i].add_spec(
            scaled[i],
        ) by {
            let u = node(ds[i]);
            let l = lagrange_coefficient(ds, zeta, i);
            let power = exp_spec(u, m);
            lemma_folded_step(coefficients, n, u, zeta);
            let last = a.mul_spec(low.mul_spec(power));
            QuadFelt::law_distributes(l, folded_polynomial_at(init, n, u, zeta), last);
            QuadFelt::law_mul_associates(a, low, power);
            QuadFelt::law_mul_associates(l, k, power);
            QuadFelt::law_mul_commutes(l, k);
            QuadFelt::law_mul_associates(k, l, power);
        }
        lemma_sum_added(rest, scaled, all);
        QuadFelt::law_closed(a, low);
        lemma_sum_scaled(terms, k, scaled);
        assert(m < ds.len()) by (nonlinear_arith)
            requires
                e < ds.len() * n,
                m == e / n,
                n > 0,
        ;
        lemma_moment(ds, log, zeta, m);
        lemma_exp_power_of_2(zeta, log as nat);
        lemma_split_power(zeta, n, e);
        QuadFelt::law_mul_associates(a, low, exp_spec(exp_spec(zeta, n), m));
        let values = Seq::new(
            coefficients.len(),
            |j: int| coefficients[j].mul_spec(exp_spec(zeta, j as nat)),
        );
        assert(values.drop_last() == Seq::new(
            init.len(),
            |j: int| init[j].mul_spec(exp_spec(zeta, j as nat)),
        ));
    }
}

proof fn lemma_folded_step(coefficients: Seq<QuadFelt>, n: nat, u: QuadFelt, x: QuadFelt)
    requires
        coefficients.len() > 0,
    ensures
        folded_polynomial_at(coefficients, n, u, x) == folded_polynomial_at(
            coefficients.drop_last(),
            n,
            u,
            x,
        ).add_spec(
            coefficients.last().mul_spec(
                exp_spec(x, ((coefficients.len() - 1) as nat) % n).mul_spec(
                    exp_spec(u, ((coefficients.len() - 1) as nat) / n),
                ),
            ),
        ),
{
    let init = coefficients.drop_last();
    let values = Seq::new(
        coefficients.len(),
        |e: int|
            coefficients[e].mul_spec(
                exp_spec(x, (e as nat) % n).mul_spec(exp_spec(u, (e as nat) / n)),
            ),
    );
    assert(values.drop_last() == Seq::new(
        init.len(),
        |e: int|
            init[e].mul_spec(exp_spec(x, (e as nat) % n).mul_spec(exp_spec(u, (e as nat) / n))),
    ));
}

/// A point of a coset, raised to the size of the coset, is the node.
pub(crate) proof fn lemma_on_coset(d: Coset, x: QuadFelt)
    requires
        d.well_formed(),
        x.is_element(),
        d.vanishing_spec(x) == QuadFelt::zero_spec(),
    ensures
        exp_power_of_2_spec(x, d.log_size as nat) == exp_power_of_2_spec(
            QuadFelt::from_base_spec(d.shift),
            d.log_size as nat,
        ),
{
    let (u, y) = (node(d), exp_power_of_2_spec(x, d.log_size as nat));
    let t = node_inverse(d);
    // y t - 1 = 0 = u t - 1
    lemma_vanishing_form(d, x);
    lemma_node(d);
    lemma_plus_one(d, y);
    lemma_plus_one(d, u);
    lemma_power_is_element(x, d.log_size as nat);
    QuadFelt::law_mul_commutes(y, t);
    QuadFelt::law_mul_commutes(u, t);
    lemma_cancel(t, u, y, u);
}

/// On a coset a polynomial agrees with the one of degree below the size of the coset that it is
/// folded to there.
pub proof fn law_folding_agrees(domain: Coset, coefficients: Seq<QuadFelt>, x: QuadFelt)
    requires
        domain.is_space(),
        x.is_element(),
        domain.vanishing_spec(x) == QuadFelt::zero_spec(),
    ensures
        folded_polynomial_at(
            coefficients,
            domain.size_spec() as nat,
            exp_spec(
                QuadFelt::from_base_spec(domain.first_point_spec()),
                domain.size_spec() as nat,
            ),
            x,
        ) == polynomial_at(coefficients, x),
{
    let log = domain.log_size as nat;
    let first = QuadFelt::from_base_spec(domain.first_point_spec());
    let ds = seq![domain];
    assert(ds[0].is_space() && ds[0].size_spec() == domain.size_spec());
    assert(domains_separated::<Felt, QuadFelt, Coset>(ds));
    lemma_good(ds, domain.size_spec());
    let n = pow2(log);
    let u = node(domain);
    lemma_on_coset(domain, x);
    lemma_exp_power_of_2(x, log);
    lemma_exp_power_of_2(first, log);
    lemma_pow2_pos(log);
    let folded = Seq::new(
        coefficients.len(),
        |e: int|
            coefficients[e].mul_spec(
                exp_spec(x, (e as nat) % n).mul_spec(exp_spec(u, (e as nat) / n)),
            ),
    );
    let values = Seq::new(
        coefficients.len(),
        |e: int| coefficients[e].mul_spec(exp_spec(x, e as nat)),
    );
    assert forall|e: int| 0 <= e < coefficients.len() implies #[trigger] folded[e]
        == values[e] by {
        lemma_split_power(x, n, e as nat);
    }
    assert(folded == values);
}

/// Recomposition gives the quotient at every point: where each chunk holds what the quotient is
/// folded to on its coset, recomposition at `zeta` is the quotient at `zeta`. The cosets are of one
/// size, and the quotient has at most as many coefficients as they have points.
pub proof fn law_recomposition_is_evaluation(
    domains: Seq<Coset>,
    size: usize,
    chunks: Seq<Seq<QuadFelt>>,
    coefficients: Seq<QuadFelt>,
    zeta: QuadFelt,
)
    requires
        chunks.len() == domains.len(),
        forall|j: int| 0 <= j < domains.len() ==> (#[trigger] domains[j]).is_space(),
        forall|j: int| 0 <= j < domains.len() ==> (#[trigger] domains[j]).size_spec() == size,
        domains_separated::<Felt, QuadFelt, Coset>(domains),
        coefficients.len() <= domains.len() * size,
        zeta.is_element(),
        forall|i: int|
            0 <= i < domains.len() ==> from_coordinates::<Felt, QuadFelt>(#[trigger] chunks[i])
                == folded_polynomial_at(
                coefficients,
                size as nat,
                exp_spec(
                    QuadFelt::from_base_spec(domains[i].first_point_spec()),
                    size as nat,
                ),
                zeta,
            ),
    ensures
        recomposed(domains, chunks, zeta) == polynomial_at(coefficients, zeta),
{
    if domains.len() == 0 {
        assert(coefficients.len() == 0) by (nonlinear_arith)
            requires
                coefficients.len() <= domains.len() * size,
                domains.len() == 0,
        ;
    } else {
        let log = domains[0].log_size;
        lemma_good(domains, size);
        lemma_recomposed_monomials(domains, log, coefficients, zeta);
        let n = pow2(log as nat);
        let terms = Seq::new(
            chunks.len(),
            |i: int|
                lagrange_coefficient(domains, zeta, i).mul_spec(
                    from_coordinates::<Felt, QuadFelt>(chunks[i]),
                ),
        );
        let expected = Seq::new(
            domains.len(),
            |i: int|
                lagrange_coefficient(domains, zeta, i).mul_spec(
                    folded_polynomial_at(coefficients, n, node(domains[i]), zeta),
                ),
        );
        assert forall|i: int| 0 <= i < terms.len() implies #[trigger] terms[i] == expected[i] by {
            assert(domains[i].well_formed() && domains[i].log_size == log);
            let chunk = chunks[i];
            lemma_exp_power_of_2(
                QuadFelt::from_base_spec(domains[i].first_point_spec()),
                log as nat,
            );
        }
        assert(terms == expected);
    }
}

} // verus!
