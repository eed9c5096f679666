//! What holds of the verifier as a whole.

use vstd::prelude::*;
use crate::algebra::{
    lemma_product_concat, lemma_product_remove, lemma_product_zero, lemma_sum_concat,
    lemma_sum_is_element, lemma_sum_of_one, lemma_sum_remove,
};
use crate::bus::{
    BusType, bus_matches, bus_verdict, bus_verdict_from, buses_match, compressed,
    compressed_prefix, enough_randomness, expected_final, logup_boundary, multiset_boundary,
    num_checked,
};
use crate::coset::{Coset, lemma_constant_on_coset};
use crate::domain::PolynomialSpace;
use crate::error::{VerificationError, is_ok};
use crate::field::{ExtensionField, Field};
use crate::goldilocks::{Felt, QuadFelt};
use crate::quotient::{
    from_coordinates, lagrange_coefficient, lagrange_factor, lagrange_prefix, recomposed, separated,
};

verus! {

/// The final value of a multiset bus does not depend on the order of the rows.
pub proof fn law_multiset_order<F: Field, EF: ExtensionField<F>>(
    randomness: Seq<EF>,
    rows: Seq<Seq<F>>,
    reordered: Seq<Seq<F>>,
)
    requires
        rows.to_multiset() == reordered.to_multiset(),
    ensures
        multiset_boundary(randomness, rows) == multiset_boundary(randomness, reordered),
    decreases rows.len(),
{
    rows.to_multiset_ensures();
    reordered.to_multiset_ensures();
    let f = |row: Seq<F>| compressed(randomness, row);
    if rows.len() > 0 {
        let last = rows.last();
        assert(rows.contains(last));
        assert(rows.to_multiset().count(last) > 0);
        assert(reordered.contains(last));
        let i = choose|i: int| 0 <= i < reordered.len() && reordered[i] == last;
        assert(rows.remove(rows.len() - 1) == rows.drop_last());
        law_multiset_order(randomness, rows.drop_last(), reordered.remove(i));
        lemma_product_remove(reordered.map_values(f), i);
        assert(reordered.map_values(f).remove(i) == reordered.remove(i).map_values(f));
        assert(rows.map_values(f).drop_last() == rows.drop_last().map_values(f));
    }
}

/// The final value of a logup bus does not depend on the order of the rows.
pub proof fn law_logup_order<F: Field, EF: ExtensionField<F>>(
    randomness: Seq<EF>,
    rows: Seq<Seq<F>>,
    reordered: Seq<Seq<F>>,
)
    requires
        rows.to_multiset() == reordered.to_multiset(),
    ensures
        logup_boundary(randomness, rows) == logup_boundary(randomness, reordered),
    decreases rows.len(),
{
    rows.to_multiset_ensures();
    reordered.to_multiset_ensures();
    let f = |row: Seq<F>| compressed(randomness, row).inverse_spec();
    if rows.len() > 0 {
        let last = rows.last();
        assert(rows.contains(last));
        assert(rows.to_multiset().count(last) > 0);
        assert(reordered.contains(last));
        let i = choose|i: int| 0 <= i < reordered.len() && reordered[i] == last;
        assert(rows.remove(rows.len() - 1) == rows.drop_last());
        law_logup_order(randomness, rows.drop_last(), reordered.remove(i));
        lemma_sum_remove(reordered.map_values(f), i);
        assert(reordered.map_values(f).remove(i) == reordered.remove(i).map_values(f));
        assert(rows.map_values(f).drop_last() == rows.drop_last().map_values(f));
    }
}

/// The final value of a multiset bus is zero exactly where some row is compressed to zero.
pub proof fn law_multiset_zero<F: Field, EF: ExtensionField<F>>(
    randomness: Seq<EF>,
    rows: Seq<Seq<F>>,
)
    requires
        enough_randomness(randomness, rows),
        forall|k: int| 0 <= k < randomness.len() ==> (#[trigger] randomness[k]).is_element(),
    ensures
        multiset_boundary(randomness, rows) == EF::zero_spec() <==> exists|i: int|
            0 <= i < rows.len() && compressed(randomness, #[trigger] rows[i]) == EF::zero_spec(),
{
    let values = rows.map_values(|row: Seq<F>| compressed(randomness, row));
    assert forall|i: int| 0 <= i < values.len() implies (#[trigger] values[i]).is_element() by {
        let row = rows[i];
        assert(randomness[0].is_element());
        if row.len() > 0 {
            let n = row.len();
            EF::law_closed(
                compressed_prefix(randomness, row, (n - 1) as nat),
                EF::from_base_spec(row[n - 1]).mul_spec(randomness[n as int]),
            );
        }
    }
    lemma_product_zero(values);
    if exists|i: int|
        0 <= i < rows.len() && compressed(randomness, #[trigger] rows[i]) == EF::zero_spec() {
        let i = choose|i: int|
            0 <= i < rows.len() && compressed(randomness, #[trigger] rows[i]) == EF::zero_spec();
        assert(values[i] == EF::zero_spec());
    }
    if exists|i: int| 0 <= i < values.len() && #[trigger] values[i] == EF::zero_spec() {
        let i = choose|i: int| 0 <= i < values.len() && #[trigger] values[i] == EF::zero_spec();
        assert(compressed(randomness, rows[i]) == EF::zero_spec());
    }
}

/// Over a multiset bus, more rows multiply the final value by their own, and no rows leave one.
pub proof fn law_multiset_concat<F: Field, EF: ExtensionField<F>>(
    randomness: Seq<EF>,
    rows: Seq<Seq<F>>,
    more: Seq<Seq<F>>,
)
    ensures
        multiset_boundary(randomness, Seq::<Seq<F>>::empty()) == EF::one_spec(),
        multiset_boundary(randomness, rows + more) == multiset_boundary(randomness, rows).mul_spec(
            multiset_boundary(randomness, more),
        ),
{
    let f = |row: Seq<F>| compressed(randomness, row);
    assert((rows + more).map_values(f) == rows.map_values(f) + more.map_values(f));
    lemma_product_concat(rows.map_values(f), more.map_values(f));
}

/// Over a logup bus, more rows add their own final value, and no rows leave zero.
pub proof fn law_logup_concat<F: Field, EF: ExtensionField<F>>(
    randomness: Seq<EF>,
    rows: Seq<Seq<F>>,
    more: Seq<Seq<F>>,
)
    ensures
        logup_boundary(randomness, Seq::<Seq<F>>::empty()) == EF::zero_spec(),
        logup_boundary(randomness, rows + more) == logup_boundary(randomness, rows).add_spec(
            logup_boundary(randomness, more),
        ),
{
    let f = |row: Seq<F>| compressed(randomness, row).inverse_spec();
    assert((rows + more).map_values(f) == rows.map_values(f) + more.map_values(f));
    lemma_sum_concat(rows.map_values(f), more.map_values(f));
}

/// Only the chunk of the domain that a point lies on has a say there: where the vanishing
/// polynomial of a domain is zero, the Lagrange coefficient of every other domain is.
pub proof fn law_recomposition_is_local<
    F: Field,
    EF: ExtensionField<F>,
    D: PolynomialSpace<F, EF>,
>(domains: Seq<D>, chunks: Seq<Seq<EF>>, zeta: EF, i: int)
    requires
        0 <= i < chunks.len() <= domains.len(),
        domains[i].vanishing_spec(zeta) == EF::zero_spec(),
    ensures
        forall|k: int|
            0 <= k < domains.len() && k != i ==> #[trigger] lagrange_coefficient(domains, zeta, k)
                == EF::zero_spec(),
        recomposed(domains, chunks, zeta) == lagrange_coefficient(domains, zeta, i).mul_spec(
            from_coordinates::<F, EF>(chunks[i]),
        ),
{
    assert forall|k: int|
        0 <= k < domains.len() && k != i implies #[trigger] lagrange_coefficient(domains, zeta, k)
        == EF::zero_spec() by {
        lemma_other_coefficient::<F, EF, D>(domains, zeta, i, k, domains.len());
    }
    let terms = Seq::new(
        chunks.len(),
        |k: int|
            lagrange_coefficient(domains, zeta, k).mul_spec(from_coordinates::<F, EF>(chunks[k])),
    );
    assert forall|k: int| 0 <= k < terms.len() && k != i implies #[trigger] terms[k]
        == EF::zero_spec() by {
        let value = from_coordinates::<F, EF>(chunks[k]);
        lemma_sum_is_element(
            Seq::new(
                chunks[k].len(),
                |e: int| EF::basis_spec(e as nat).mul_spec(chunks[k][e]),
            ),
        );
        assert(lagrange_coefficient(domains, zeta, k) == EF::zero_spec());
        EF::law_mul_commutes(EF::zero_spec(), value);
        EF::law_units(value);
    }
    EF::law_closed(
        lagrange_coefficient(domains, zeta, i),
        from_coordinates::<F, EF>(chunks[i]),
    );
    lemma_sum_of_one(terms, i);
}

/// Recomposition interpolates: at the first point of a domain, the Lagrange coefficient of that
/// domain is one and every other is zero, so the quotient takes the value of that domain's chunk.
pub proof fn law_recomposition_interpolates<
    F: Field,
    EF: ExtensionField<F>,
    D: PolynomialSpace<F, EF>,
>(domains: Seq<D>, chunks: Seq<Seq<EF>>, i: int)
    requires
        0 <= i < chunks.len() <= domains.len(),
        domains[i].is_space(),
        forall|j: int|
            0 <= j < domains.len() && j != i ==> #[trigger] separated(domains, i, j),
    ensures
        forall|k: int|
            0 <= k < domains.len() ==> #[trigger] lagrange_coefficient(
                domains,
                EF::from_base_spec(domains[i].first_point_spec()),
                k,
            ) == (if k == i {
                EF::one_spec()
            } else {
                EF::zero_spec()
            }),
        recomposed(domains, chunks, EF::from_base_spec(domains[i].first_point_spec()))
            == from_coordinates::<F, EF>(chunks[i]),
{
    let first = domains[i].first_point_spec();
    let zeta = EF::from_base_spec(first);
    domains[i].law_vanishes_at_first_point();
    domains[i].law_vanishing_extends(first);
    EF::law_embedding(first, first);
    assert forall|j: int| 0 <= j < domains.len() && j != i implies #[trigger] constant_from(
        domains,
        zeta,
        i,
        j,
    ) by {
        domains[j].law_vanishing_extends(first);
    }
    lemma_takes_chunk::<F, EF, D>(domains, chunks, zeta, i);
}

/// On cosets of one size the quotient agrees on each domain with its chunk: wherever the vanishing
/// polynomial of a coset is zero, the quotient takes the value of that coset's chunk.
pub proof fn law_recomposition_on_cosets(
    domains: Seq<Coset>,
    chunks: Seq<Seq<QuadFelt>>,
    zeta: QuadFelt,
    i: int,
)
    requires
        0 <= i < chunks.len() <= domains.len(),
        zeta.is_element(),
        domains[i].vanishing_spec(zeta) == QuadFelt::zero_spec(),
        forall|j: int| 0 <= j < domains.len() ==> (#[trigger] domains[j]).is_space(),
        forall|j: int|
            0 <= j < domains.len() ==> (#[trigger] domains[j]).size_spec()
                == domains[i].size_spec(),
        forall|j: int|
            0 <= j < domains.len() && j != i ==> #[trigger] separated(domains, i, j),
    ensures
        lagrange_coefficient(domains, zeta, i) == QuadFelt::one_spec(),
        recomposed(domains, chunks, zeta) == from_coordinates::<Felt, QuadFelt>(chunks[i]),
{
    assert forall|j: int| 0 <= j < domains.len() && j != i implies #[trigger] constant_from(
        domains,
        zeta,
        i,
        j,
    ) by {
        lemma_constant_on_coset(domains[i], domains[j], zeta);
    }
    lemma_takes_chunk::<Felt, QuadFelt, Coset>(domains, chunks, zeta, i);
}

/// At `zeta` the vanishing polynomial of the `j`-th domain is what it is at the first point of the
/// `i`-th.
spec fn constant_from<F: Field, EF: ExtensionField<F>, D: PolynomialSpace<F, EF>>(
    domains: Seq<D>,
    zeta: EF,
    i: int,
    j: int,
) -> bool {
    domains[j].vanishing_spec(zeta) == EF::from_base_spec(
        domains[j].vanishing_base_spec(domains[i].first_point_spec()),
    )
}

/// Where a domain vanishes and the others are what they are at its first point, the quotient takes
/// the value of its chunk.
proof fn lemma_takes_chunk<F: Field, EF: ExtensionField<F>, D: PolynomialSpace<F, EF>>(
    domains: Seq<D>,
    chunks: Seq<Seq<EF>>,
    zeta: EF,
    i: int,
)
    requires
        0 <= i < chunks.len() <= domains.len(),
        domains[i].vanishing_spec(zeta) == EF::zero_spec(),
        forall|j: int|
            0 <= j < domains.len() && j != i ==> #[trigger] constant_from(domains, zeta, i, j),
        forall|j: int|
            0 <= j < domains.len() && j != i ==> #[trigger] separated(domains, i, j),
    ensures
        lagrange_coefficient(domains, zeta, i) == EF::one_spec(),
        forall|k: int|
            0 <= k < domains.len() && k != i ==> #[trigger] lagrange_coefficient(domains, zeta, k)
                == EF::zero_spec(),
        recomposed(domains, chunks, zeta) == from_coordinates::<F, EF>(chunks[i]),
{
    lemma_own_coefficient::<F, EF, D>(domains, zeta, i, domains.len());
    law_recomposition_is_local::<F, EF, D>(domains, chunks, zeta, i);
    let value = from_coordinates::<F, EF>(chunks[i]);
    lemma_sum_is_element(
        Seq::new(chunks[i].len(), |e: int| EF::basis_spec(e as nat).mul_spec(chunks[i][e])),
    );
    EF::law_mul_commutes(EF::one_spec(), value);
    EF::law_units(value);
}

proof fn lemma_own_coefficient<F: Field, EF: ExtensionField<F>, D: PolynomialSpace<F, EF>>(
    domains: Seq<D>,
    zeta: EF,
    i: int,
    n: nat,
)
    requires
        0 <= i < domains.len(),
        n <= domains.len(),
        forall|j: int|
            0 <= j < domains.len() && j != i ==> #[trigger] constant_from(domains, zeta, i, j),
        forall|j: int|
            0 <= j < domains.len() && j != i ==> #[trigger] separated(domains, i, j),
    ensures
        lagrange_prefix(domains, zeta, i, n) == EF::one_spec(),
    decreases n,
{
    if n > 0 {
        lemma_own_coefficient::<F, EF, D>(domains, zeta, i, (n - 1) as nat);
        if n - 1 != i {
            assert(constant_from(domains, zeta, i, n - 1));
            assert(separated(domains, i, n - 1));
            domains[n - 1].law_vanishing_closed(domains[i].first_point_spec());
            let v = domains[n - 1].vanishing_base_spec(domains[i].first_point_spec());
            F::law_inverse(v);
            EF::law_embedding(v, v.inverse_spec());
            EF::law_closed(EF::one_spec(), EF::one_spec());
            EF::law_units(EF::one_spec());
        }
    }
}

proof fn lemma_other_coefficient<F: Field, EF: ExtensionField<F>, D: PolynomialSpace<F, EF>>(
    domains: Seq<D>,
    zeta: EF,
    i: int,
    k: int,
    n: nat,
)
    requires
        0 <= i < domains.len(),
        0 <= k < domains.len(),
        k != i,
        i < n <= domains.len(),
        domains[i].vanishing_spec(zeta) == EF::zero_spec(),
    ensures
        lagrange_prefix(domains, zeta, k, n) == EF::zero_spec(),
    decreases n,
{
    if n - 1 == i {
        let scale = EF::from_base_spec(
            domains[i].vanishing_base_spec(domains[k].first_point_spec()).inverse_spec(),
        );
        let rest = lagrange_prefix(domains, zeta, k, (n - 1) as nat);
        // zero times the scale, times the rest
        EF::law_mul_commutes(rest, EF::zero_spec().mul_spec(scale));
        EF::law_mul_associates(EF::zero_spec(), scale, rest);
        EF::law_closed(scale, rest);
        EF::law_units(scale.mul_spec(rest));
        EF::law_mul_commutes(EF::zero_spec(), scale.mul_spec(rest));
    } else {
        lemma_other_coefficient::<F, EF, D>(domains, zeta, i, k, (n - 1) as nat);
        if n - 1 != k {
            let factor = lagrange_factor(domains[k], domains[n - 1], zeta);
            EF::law_closed(
                domains[n - 1].vanishing_spec(zeta),
                EF::from_base_spec(
                    domains[n - 1].vanishing_base_spec(
                        domains[k].first_point_spec(),
                    ).inverse_spec(),
                ),
            );
            EF::law_units(factor);
            EF::law_mul_commutes(EF::zero_spec(), factor);
        }
    }
}

/// The buses are accepted exactly where each that is checked has rows, and the final value that
/// its rows determine.
pub proof fn law_buses_accepted<F: Field, EF: ExtensionField<F>, PcsErr>(
    bus_types: Seq<BusType>,
    aux_finals: Seq<EF>,
    randomness: Seq<EF>,
    tables: Seq<Seq<Seq<F>>>,
)
    ensures
        is_ok(bus_verdict::<F, EF, PcsErr>(bus_types, aux_finals, randomness, tables))
            <==> buses_match(bus_types, aux_finals, randomness, tables),
{
    lemma_buses_accepted_from::<F, EF, PcsErr>(bus_types, aux_finals, randomness, tables, 0);
}

proof fn lemma_buses_accepted_from<F: Field, EF: ExtensionField<F>, PcsErr>(
    bus_types: Seq<BusType>,
    aux_finals: Seq<EF>,
    randomness: Seq<EF>,
    tables: Seq<Seq<Seq<F>>>,
    from: nat,
)
    ensures
        is_ok(
            bus_verdict_from::<F, EF, PcsErr>(bus_types, aux_finals, randomness, tables, from),
        ) <==> (forall|i: int|
            from <= i < num_checked(bus_types, aux_finals) ==> #[trigger] bus_matches(
                bus_types,
                aux_finals,
                randomness,
                tables,
                i,
            )),
    decreases num_checked(bus_types, aux_finals) - from,
{
    if from < num_checked(bus_types, aux_finals) {
        lemma_buses_accepted_from::<F, EF, PcsErr>(
            bus_types,
            aux_finals,
            randomness,
            tables,
            from + 1,
        );
        let here = bus_matches(bus_types, aux_finals, randomness, tables, from as int);
        assert(here <==> from < tables.len() && expected_final(
            bus_types[from as int],
            randomness,
            tables[from as int],
        ) == Some(aux_finals[from as int]));
    }
}

/// Where no buses are defined, the final values are not checked against any rows.
pub proof fn law_no_buses<F: Field, EF: ExtensionField<F>, PcsErr>(
    aux_finals: Seq<EF>,
    randomness: Seq<EF>,
    tables: Seq<Seq<Seq<F>>>,
)
    ensures
        bus_verdict::<F, EF, PcsErr>(Seq::<BusType>::empty(), aux_finals, randomness, tables)
            == Some(Ok::<(), VerificationError<PcsErr>>(())),
{
}

} // verus!
