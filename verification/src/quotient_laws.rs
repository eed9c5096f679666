//! What recomposition computes, in terms of the chunks and their domains.

use vstd::prelude::*;
use crate::algebra::lemma_product_is_element;
use crate::bus_laws::{law_product, law_sum};
use crate::domain::PolynomialSpace;
use crate::field::{ExtensionField, Field, product};
use crate::quotient::{
    chunks_fit, domains_separated, from_coordinates, lagrange_coefficient, lagrange_prefix,
    recomposed, separated, vectors_of,
};

verus! {

/// Vectors are read as the sequences of their elements, in order.
pub proof fn law_vectors<T>(vectors: Seq<Vec<T>>)
    ensures
        vectors_of(vectors).len() == vectors.len(),
        forall|i: int| 0 <= i < vectors.len() ==> #[trigger] vectors_of(vectors)[i] == vectors[i]@,
{
}

/// No coordinates make zero, and each further coordinate adds itself times the basis element of
/// its position.
pub proof fn law_coordinates<F: Field, EF: ExtensionField<F>>(coordinates: Seq<EF>, x: EF)
    ensures
        from_coordinates::<F, EF>(Seq::<EF>::empty()) == EF::zero_spec(),
        from_coordinates::<F, EF>(coordinates.push(x)) == from_coordinates::<F, EF>(
            coordinates,
        ).add_spec(EF::basis_spec(coordinates.len()).mul_spec(x)),
{
    let before = Seq::new(
        coordinates.len(),
        |e: int| EF::basis_spec(e as nat).mul_spec(coordinates[e]),
    );
    let longer = coordinates.push(x);
    let after = Seq::new(longer.len(), |e: int| EF::basis_spec(e as nat).mul_spec(longer[e]));
    assert(after == before.push(EF::basis_spec(coordinates.len()).mul_spec(x)));
    law_sum(before, EF::basis_spec(coordinates.len()).mul_spec(x));
    law_sum(Seq::<EF>::empty(), x);
    assert(Seq::new(
        Seq::<EF>::empty().len(),
        |e: int| EF::basis_spec(e as nat).mul_spec(Seq::<EF>::empty()[e]),
    ) == Seq::<EF>::empty());
}

/// The Lagrange coefficient of a domain is the product, over all the other domains, of their
/// vanishing polynomials at `zeta` divided by what these are at the domain's first point.
pub proof fn law_coefficient_is_product<
    F: Field,
    EF: ExtensionField<F>,
    D: PolynomialSpace<F, EF>,
>(domains: Seq<D>, zeta: EF, i: int)
    requires
        0 <= i < domains.len(),
    ensures
        lagrange_coefficient(domains, zeta, i) == product(
            Seq::new(
                domains.len(),
                |j: int|
                    if j == i {
                        EF::one_spec()
                    } else {
                        domains[j].vanishing_spec(zeta).mul_spec(
                            EF::from_base_spec(
                                domains[j].vanishing_base_spec(
                                    domains[i].first_point_spec(),
                                ).inverse_spec(),
                            ),
                        )
                    },
            ),
        ),
{
    lemma_prefix_is_product::<F, EF, D>(domains, zeta, i, domains.len());
}

proof fn lemma_prefix_is_product<F: Field, EF: ExtensionField<F>, D: PolynomialSpace<F, EF>>(
    domains: Seq<D>,
    zeta: EF,
    i: int,
    n: nat,
)
    requires
        0 <= i < domains.len(),
        n <= domains.len(),
    ensures
        lagrange_prefix(domains, zeta, i, n) == product(
            Seq::new(
                n,
                |j: int|
                    if j == i {
                        EF::one_spec()
                    } else {
                        domains[j].vanishing_spec(zeta).mul_spec(
                            EF::from_base_spec(
                                domains[j].vanishing_base_spec(
                                    domains[i].first_point_spec(),
                                ).inverse_spec(),
                            ),
                        )
                    },
            ),
        ),
    decreases n,
{
    let f = |j: int|
        if j == i {
            EF::one_spec()
        } else {
            domains[j].vanishing_spec(zeta).mul_spec(
                EF::from_base_spec(
                    domains[j].vanishing_base_spec(
                        domains[i].first_point_spec(),
                    ).inverse_spec(),
                ),
            )
        };
    if n == 0 {
        law_product(Seq::<EF>::empty(), EF::one_spec());
        assert(Seq::new(n, f) == Seq::<EF>::empty());
    } else {
        let before = Seq::new((n - 1) as nat, f);
        lemma_prefix_is_product::<F, EF, D>(domains, zeta, i, (n - 1) as nat);
        assert(Seq::new(n, f) == before.push(f(n - 1)));
        law_product(before, f(n - 1));
        lemma_product_is_element(before);
        EF::law_units(product(before));
    }
}

/// No chunks make zero, and each further chunk adds what its coordinates make, times the Lagrange
/// coefficient of the domain at its position.
pub proof fn law_recomposed_step<F: Field, EF: ExtensionField<F>, D: PolynomialSpace<F, EF>>(
    domains: Seq<D>,
    chunks: Seq<Seq<EF>>,
    chunk: Seq<EF>,
    zeta: EF,
)
    ensures
        recomposed(domains, Seq::<Seq<EF>>::empty(), zeta) == EF::zero_spec(),
        recomposed(domains, chunks.push(chunk), zeta) == recomposed(
            domains,
            chunks,
            zeta,
        ).add_spec(
            lagrange_coefficient(domains, zeta, chunks.len() as int).mul_spec(
                from_coordinates::<F, EF>(chunk),
            ),
        ),
{
    let longer = chunks.push(chunk);
    let last = lagrange_coefficient(domains, zeta, chunks.len() as int).mul_spec(
        from_coordinates::<F, EF>(chunk),
    );
    let before = Seq::new(
        chunks.len(),
        |i: int|
            lagrange_coefficient(domains, zeta, i).mul_spec(from_coordinates::<F, EF>(chunks[i])),
    );
    let after = Seq::new(
        longer.len(),
        |i: int|
            lagrange_coefficient(domains, zeta, i).mul_spec(from_coordinates::<F, EF>(longer[i])),
    );
    assert(after == before.push(last));
    law_sum(before, last);
    law_sum(Seq::<EF>::empty(), last);
    let none = Seq::<Seq<EF>>::empty();
    assert(Seq::new(
        none.len(),
        |i: int|
            lagrange_coefficient(domains, zeta, i).mul_spec(from_coordinates::<F, EF>(none[i])),
    ) == Seq::<EF>::empty());
}

/// Domains are separated where no vanishing polynomial of one is zero at the first point of
/// another.
pub proof fn law_separated<F: Field, EF: ExtensionField<F>, D: PolynomialSpace<F, EF>>(
    domains: Seq<D>,
)
    ensures
        domains_separated::<F, EF, D>(domains) <==> (forall|i: int, j: int|
            0 <= i < domains.len() && 0 <= j < domains.len() && i != j
                ==> #[trigger] domains[j].vanishing_base_spec(domains[i].first_point_spec())
                != F::zero_spec()),
{
    if domains_separated::<F, EF, D>(domains) {
        assert forall|i: int, j: int|
            0 <= i < domains.len() && 0 <= j < domains.len() && i != j
            implies #[trigger] domains[j].vanishing_base_spec(domains[i].first_point_spec())
            != F::zero_spec() by {
            assert(separated(domains, i, j));
        }
    }
}

/// Chunks fit where there is a domain for each, and none has more coordinates than the basis has
/// elements.
pub proof fn law_chunks_fit<F: Field, EF: ExtensionField<F>, D>(
    domains: Seq<D>,
    chunks: Seq<Seq<EF>>,
)
    ensures
        chunks_fit::<F, EF, D>(domains, chunks) <==> chunks.len() <= domains.len() && (forall|
            i: int,
        |
            0 <= i < chunks.len() ==> (#[trigger] chunks[i]).len() <= EF::dimension_spec()),
{
}

} // verus!
