//! The quotient polynomial at a point, from the values there of its chunks.

use vstd::prelude::*;
use crate::domain::PolynomialSpace;
use crate::field::{ExtensionField, Field, sum};

verus! {

/// Vectors of elements, each as a sequence.
pub open spec fn vectors_of<EF>(vectors: Seq<Vec<EF>>) -> Seq<Seq<EF>> {
    vectors.map_values(|v: Vec<EF>| v@)
}

/// What another domain contributes to the Lagrange coefficient of `domain` at `zeta`: its
/// vanishing polynomial, scaled to be one at the first point of `domain`.
pub open spec fn lagrange_factor<F: Field, EF: ExtensionField<F>, D: PolynomialSpace<F, EF>>(
    domain: D,
    other: D,
    zeta: EF,
) -> EF {
    other.vanishing_spec(zeta).mul_spec(
        EF::from_base_spec(other.vanishing_base_spec(domain.first_point_spec()).inverse_spec()),
    )
}

/// The product of what the first `n` domains, other than the `i`-th, contribute to the Lagrange
/// coefficient of the `i`-th.
pub open spec fn lagrange_prefix<F: Field, EF: ExtensionField<F>, D: PolynomialSpace<F, EF>>(
    domains: Seq<D>,
    zeta: EF,
    i: int,
    n: nat,
) -> EF
    decreases n,
{
    if n == 0 {
        EF::one_spec()
    } else if n - 1 == i {
        lagrange_prefix(domains, zeta, i, (n - 1) as nat)
    } else {
        lagrange_prefix(domains, zeta, i, (n - 1) as nat).mul_spec(
            lagrange_factor(domains[i], domains[n - 1], zeta),
        )
    }
}

/// The Lagrange coefficient of the `i`-th domain at `zeta`.
pub open spec fn lagrange_coefficient<F: Field, EF: ExtensionField<F>, D: PolynomialSpace<F, EF>>(
    domains: Seq<D>,
    zeta: EF,
    i: int,
) -> EF {
    lagrange_prefix(domains, zeta, i, domains.len())
}

/// The element with the given coordinates in the basis of the extension. The coordinates may
/// themselves lie in the extension, as the values of base polynomials at a point of it do.
pub open spec fn from_coordinates<F: Field, EF: ExtensionField<F>>(coordinates: Seq<EF>) -> EF {
    sum(
        Seq::new(
            coordinates.len(),
            |e: int| EF::basis_spec(e as nat).mul_spec(coordinates[e]),
        ),
    )
}

/// The chunks' values at `zeta`, combined by the Lagrange coefficients of their domains. On cosets
/// this is the value at `zeta` of the polynomial that agrees on each of them with its chunk.
pub open spec fn recomposed<F: Field, EF: ExtensionField<F>, D: PolynomialSpace<F, EF>>(
    domains: Seq<D>,
    chunks: Seq<Seq<EF>>,
    zeta: EF,
) -> EF {
    sum(
        Seq::new(
            chunks.len(),
            |i: int|
                lagrange_coefficient(domains, zeta, i).mul_spec(
                    from_coordinates::<F, EF>(chunks[i]),
                ),
        ),
    )
}

/// Each chunk has a domain, and no more coordinates than the basis has elements.
pub open spec fn chunks_fit<F: Field, EF: ExtensionField<F>, D>(
    domains: Seq<D>,
    chunks: Seq<Seq<EF>>,
) -> bool {
    &&& chunks.len() <= domains.len()
    &&& forall|i: int|
        0 <= i < chunks.len() ==> (#[trigger] chunks[i]).len() <= EF::dimension_spec()
}

/// The vanishing polynomial of the `j`-th domain is not zero at the first point of the `i`-th.
pub open spec fn separated<F: Field, EF: ExtensionField<F>, D: PolynomialSpace<F, EF>>(
    domains: Seq<D>,
    i: int,
    j: int,
) -> bool {
    domains[j].vanishing_base_spec(domains[i].first_point_spec()) != F::zero_spec()
}

/// No vanishing polynomial is zero at the first point of another domain.
pub open spec fn domains_separated<F: Field, EF: ExtensionField<F>, D: PolynomialSpace<F, EF>>(
    domains: Seq<D>,
) -> bool {
    forall|i: int, j: int|
        0 <= i < domains.len() && 0 <= j < domains.len() && i != j ==> #[trigger] separated(
            domains,
            i,
            j,
        )
}

/// Recomposes an element from its coordinates in the basis.
pub fn combine_coordinates<F: Field, EF: ExtensionField<F>>(coordinates: &[EF]) -> (r: EF)
    requires
        coordinates@.len() <= EF::dimension_spec(),
    ensures
        r == from_coordinates::<F, EF>(coordinates@),
{
    let ghost terms = Seq::new(
        coordinates@.len(),
        |e: int| EF::basis_spec(e as nat).mul_spec(coordinates@[e]),
    );
    let mut acc: EF = EF::zero();
    let n: usize = coordinates.len();
    for e in 0..n
        invariant
            n == coordinates@.len(),
            n <= EF::dimension_spec(),
            terms == Seq::new(
                coordinates@.len(),
                |e: int| EF::basis_spec(e as nat).mul_spec(coordinates@[e]),
            ),
            acc == sum(terms.take(e as int)),
    {
        assert(terms.take(e + 1).drop_last() == terms.take(e as int));
        acc = acc.add(EF::ith_basis_element(e).unwrap().mul(coordinates[e]));
    }
    assert(terms.take(n as int) == terms);
    acc
}

/// The Lagrange coefficient of the `i`-th domain, or none where another domain's vanishing
/// polynomial is zero at its first point.
fn try_lagrange_coefficient<F: Field, EF: ExtensionField<F>, D: PolynomialSpace<F, EF>>(
    domains: &[D],
    zeta: EF,
    i: usize,
) -> (r: Option<EF>)
    requires
        i < domains@.len(),
    ensures
        r is Some <==> forall|j: int|
            0 <= j < domains@.len() && j != i ==> #[trigger] separated(domains@, i as int, j),
        r is Some ==> r == Some(lagrange_coefficient(domains@, zeta, i as int)),
{
    let mut zp: EF = EF::one();
    let n: usize = domains.len();
    for j in 0..n
        invariant
            n == domains@.len(),
            i < n,
            zp == lagrange_prefix(domains@, zeta, i as int, j as nat),
            forall|k: int| 0 <= k < j && k != i ==> #[trigger] separated(domains@, i as int, k),
    {
        if j != i {
            let other: D = domains[j];
            match other.vanishing_poly_at_base_point(domains[i].first_point()).try_inverse() {
                Some(scale) => {
                    assert(separated(domains@, i as int, j as int));
                    zp = zp.mul(
                        other.vanishing_poly_at_point(zeta).mul(EF::from_base(scale)),
                    );
                },
                None => {
                    assert(!separated(domains@, i as int, j as int));
                    return None;
                },
            }
        }
    }
    Some(zp)
}

/// Recomposes the quotient polynomial from its chunks evaluated at a point.
///
/// Given quotient chunks and their domains, this computes the Lagrange interpolation
/// coefficients (zps) and reconstructs quotient(zeta).
pub fn recompose_quotient_from_chunks<
    F: Field,
    EF: ExtensionField<F>,
    D: PolynomialSpace<F, EF>,
>(quotient_chunks_domains: &[D], quotient_chunks: &[Vec<EF>], zeta: EF) -> (r: EF)
    requires
        chunks_fit::<F, EF, D>(quotient_chunks_domains@, vectors_of(quotient_chunks@)),
        domains_separated::<F, EF, D>(quotient_chunks_domains@),
    ensures
        r == recomposed(quotient_chunks_domains@, vectors_of(quotient_chunks@), zeta),
{
    try_recompose_quotient_from_chunks(quotient_chunks_domains, quotient_chunks, zeta).unwrap()
}

/// As `recompose_quotient_from_chunks`, or none where a vanishing polynomial is zero at the first
/// point of another domain.
pub fn try_recompose_quotient_from_chunks<
    F: Field,
    EF: ExtensionField<F>,
    D: PolynomialSpace<F, EF>,
>(quotient_chunks_domains: &[D], quotient_chunks: &[Vec<EF>], zeta: EF) -> (r: Option<EF>)
    requires
        chunks_fit::<F, EF, D>(quotient_chunks_domains@, vectors_of(quotient_chunks@)),
    ensures
        r == (if domains_separated::<F, EF, D>(quotient_chunks_domains@) {
            Some(recomposed(quotient_chunks_domains@, vectors_of(quotient_chunks@), zeta))
        } else {
            None
        }),
{
    let ghost domains = quotient_chunks_domains@;
    let ghost chunks = vectors_of(quotient_chunks@);
    let mut zps: Vec<EF> = Vec::new();
    let n: usize = quotient_chunks_domains.len();
    for i in 0..n
        invariant
            n == domains.len(),
            domains == quotient_chunks_domains@,
            zps@.len() == i,
            forall|k: int|
                0 <= k < i ==> #[trigger] zps@[k] == lagrange_coefficient(domains, zeta, k),
            forall|k: int, j: int|
                0 <= k < i && 0 <= j < n && k != j ==> #[trigger] separated(domains, k, j),
    {
        match try_lagrange_coefficient(quotient_chunks_domains, zeta, i) {
            Some(zp) => {
                zps.push(zp);
            },
            None => {
                return None;
            },
        }
    }

    let ghost terms = Seq::new(
        chunks.len(),
        |i: int|
            lagrange_coefficient(domains, zeta, i).mul_spec(from_coordinates::<F, EF>(chunks[i])),
    );
    let mut quotient: EF = EF::zero();
    let m: usize = quotient_chunks.len();
    for i in 0..m
        invariant
            m == quotient_chunks@.len(),
            m <= n,
            n == domains.len(),
            chunks == vectors_of(quotient_chunks@),
            chunks_fit::<F, EF, D>(domains, chunks),
            zps@.len() == n,
            forall|k: int|
                0 <= k < n ==> #[trigger] zps@[k] == lagrange_coefficient(domains, zeta, k),
            terms == Seq::new(
                chunks.len(),
                |i: int|
                    lagrange_coefficient(domains, zeta, i).mul_spec(
                        from_coordinates::<F, EF>(chunks[i]),
                    ),
            ),
            quotient == sum(terms.take(i as int)),
    {
        assert(chunks[i as int] == quotient_chunks@[i as int]@);
        assert(terms.take(i + 1).drop_last() == terms.take(i as int));
        let value: EF = combine_coordinates::<F, EF>(quotient_chunks[i].as_slice());
        quotient = quotient.add(zps[i].mul(value));
    }
    assert(terms.take(m as int) == terms);
    Some(quotient)
}

} // verus!
