use miden_stark_verifier::coset::Coset;
use miden_stark_verifier::domain::PolynomialSpace;
use miden_stark_verifier::field::{ExtensionField, Field};
use miden_stark_verifier::goldilocks::{Felt, QuadFelt};
use miden_stark_verifier::quotient::{
    combine_coordinates, recompose_quotient_from_chunks, try_recompose_quotient_from_chunks,
};
use p3_commit::PolynomialSpace as _;
use p3_field::coset::TwoAdicMultiplicativeCoset;
use p3_field::extension::BinomialExtensionField;
use p3_field::{BasedVectorSpace, Field as _, PrimeCharacteristicRing, PrimeField64};
use p3_goldilocks::Goldilocks;

type Ext = BinomialExtensionField<Goldilocks, 2>;

fn q(a: u64, b: u64) -> QuadFelt {
    QuadFelt::new(Felt::new(a), Felt::new(b))
}

fn ext(x: QuadFelt) -> Ext {
    let (a, b) = x.coefficients();
    Ext::new([Goldilocks::new(a.as_canonical_u64()), Goldilocks::new(b.as_canonical_u64())])
}

fn quad(x: Ext) -> QuadFelt {
    let c: &[Goldilocks] = x.as_basis_coefficients_slice();
    q(c[0].as_canonical_u64(), c[1].as_canonical_u64())
}

fn parts() -> Vec<Coset> {
    let whole = Coset::new(Felt::new(7), 4).unwrap();
    whole.split_domains(4).unwrap()
}

#[test]
fn coordinates_combine_in_the_basis() {
    // 1 * (2 + 3X) + X * (5 + 7X) = 2 + 49 + 8X
    assert_eq!(combine_coordinates::<Felt, QuadFelt>(&[q(2, 3), q(5, 7)]), q(51, 8));
    assert_eq!(combine_coordinates::<Felt, QuadFelt>(&[q(2, 3)]), q(2, 3));
    assert_eq!(combine_coordinates::<Felt, QuadFelt>(&[]), QuadFelt::zero());
}

#[test]
fn one_chunk_is_the_quotient() {
    let domains = [Coset::new(Felt::new(7), 4).unwrap()];
    let chunks = [vec![q(2, 3), q(5, 7)]];
    assert_eq!(recompose_quotient_from_chunks(&domains, &chunks, q(9, 9)), q(51, 8));
}

#[test]
fn no_chunks_are_zero() {
    let none: [Vec<QuadFelt>; 0] = [];
    assert_eq!(recompose_quotient_from_chunks(&parts(), &none, q(9, 9)), QuadFelt::zero());
}

#[test]
fn the_quotient_interpolates_its_chunks() {
    let domains = parts();
    let chunks: Vec<Vec<QuadFelt>> = (0..4u64).map(|i| vec![q(i + 2, 3), q(5, i)]).collect();
    for i in 0..4 {
        let zeta = QuadFelt::from_base(domains[i].first_point());
        assert_eq!(
            recompose_quotient_from_chunks(&domains, &chunks, zeta),
            combine_coordinates::<Felt, QuadFelt>(&chunks[i])
        );
    }
}

#[test]
fn the_quotient_agrees_with_its_chunk_on_the_whole_domain() {
    let domains = parts();
    let chunks: Vec<Vec<QuadFelt>> = (0..4u64).map(|i| vec![q(i + 2, 3), q(5, i)]).collect();
    for i in 0..4 {
        let mut zeta = QuadFelt::from_base(domains[i].first_point());
        for _ in 0..domains[i].size() {
            assert_eq!(
                recompose_quotient_from_chunks(&domains, &chunks, zeta),
                combine_coordinates::<Felt, QuadFelt>(&chunks[i])
            );
            zeta = domains[i].next_point(zeta).unwrap();
        }
    }
}

fn power(x: QuadFelt, n: usize) -> QuadFelt {
    (0..n).fold(QuadFelt::one(), |acc, _| acc.mul(x))
}

#[test]
fn recomposition_gives_the_quotient() {
    let domains = parts();
    let size = domains[0].size();
    assert_eq!(size, 4);
    let coefficients: Vec<QuadFelt> = (0..16u64).map(|e| q(e * e + 3, 7 * e + 1)).collect();
    for zeta in [q(123456789, 987654321), q(5, 0), q(0, 1)] {
        let mut quotient = QuadFelt::zero();
        for (e, c) in coefficients.iter().enumerate() {
            quotient = quotient.add(c.mul(power(zeta, e)));
        }
        let chunks: Vec<Vec<QuadFelt>> = domains
            .iter()
            .map(|domain| {
                let node = power(QuadFelt::from_base(domain.first_point()), size);
                let mut folded = QuadFelt::zero();
                for (e, c) in coefficients.iter().enumerate() {
                    let term = power(zeta, e % size).mul(power(node, e / size));
                    folded = folded.add(c.mul(term));
                }
                vec![folded, QuadFelt::zero()]
            })
            .collect();
        assert_eq!(recompose_quotient_from_chunks(&domains, &chunks, zeta), quotient);
    }
}

#[test]
fn recomposition_at_an_outside_point() {
    let zeta = q(123456789, 987654321);
    let chunks: Vec<Vec<QuadFelt>> = (0..4u64).map(|i| vec![q(i + 2, 3), q(5, i)]).collect();
    let got = recompose_quotient_from_chunks(&parts(), &chunks, zeta);

    let domains =
        TwoAdicMultiplicativeCoset::new(Goldilocks::new(7), 4).unwrap().split_domains(4);
    let mut expected = Ext::ZERO;
    for (i, domain) in domains.iter().enumerate() {
        let mut zp = Ext::ONE;
        for (j, other) in domains.iter().enumerate() {
            if j != i {
                let scale = other.vanishing_poly_at_point(domain.first_point()).inverse();
                zp *= other.vanishing_poly_at_point(ext(zeta)) * scale;
            }
        }
        for (e, c) in chunks[i].iter().enumerate() {
            let basis: Ext = BasedVectorSpace::<Goldilocks>::ith_basis_element(e).unwrap();
            expected += zp * basis * ext(*c);
        }
    }
    assert_eq!(got, quad(expected));
}

#[test]
fn domains_that_meet_cannot_be_recomposed() {
    let domain = Coset::new(Felt::new(7), 4).unwrap();
    let chunks = [vec![q(2, 3), q(5, 7)], vec![q(2, 3), q(5, 7)]];
    assert_eq!(try_recompose_quotient_from_chunks(&[domain, domain], &chunks, q(9, 9)), None);
    let one = [vec![q(2, 3), q(5, 7)]];
    assert_eq!(try_recompose_quotient_from_chunks(&[domain, domain], &one, q(9, 9)), None);
    assert!(try_recompose_quotient_from_chunks(&parts(), &chunks, q(9, 9)).is_some());
}
