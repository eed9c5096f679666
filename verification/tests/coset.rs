use miden_stark_verifier::coset::Coset;
use miden_stark_verifier::domain::PolynomialSpace;
use miden_stark_verifier::field::{ExtensionField, Field};
use miden_stark_verifier::goldilocks::{Felt, P, QuadFelt};

fn q(a: u64, b: u64) -> QuadFelt {
    QuadFelt::new(Felt::new(a), Felt::new(b))
}

fn coset(shift: u64, log_size: usize) -> Coset {
    Coset::new(Felt::new(shift), log_size).unwrap()
}

#[test]
fn cosets_that_exist() {
    assert!(Coset::new(Felt::zero(), 3).is_none());
    assert!(Coset::new(Felt::new(5), 33).is_none());
    assert_eq!(coset(5, 32).size(), 1 << 32);
    assert_eq!(coset(5, 3).size(), 8);
    assert_eq!(coset(5, 3).first_point(), Felt::new(5));
}

#[test]
fn vanishing_polynomial_of_a_coset() {
    // (x / 1)^4 - 1
    assert_eq!(coset(1, 2).vanishing_poly_at_point(q(2, 0)), q(15, 0));
    // X^2 = 7, so X^4 = 49
    assert_eq!(coset(1, 2).vanishing_poly_at_point(q(0, 1)), q(48, 0));
    // (6 / 3)^2 - 1
    assert_eq!(coset(3, 1).vanishing_poly_at_point(q(6, 0)), q(3, 0));
    assert_eq!(coset(3, 1).vanishing_poly_at_base_point(Felt::new(6)), Felt::new(3));
    assert_eq!(coset(3, 5).vanishing_poly_at_base_point(Felt::new(3)), Felt::zero());
    for x in [2u64, 17, P - 4] {
        assert_eq!(
            coset(3, 5).vanishing_poly_at_point(QuadFelt::from_base(Felt::new(x))),
            QuadFelt::from_base(coset(3, 5).vanishing_poly_at_base_point(Felt::new(x)))
        );
    }
}

#[test]
fn next_points_go_round_the_coset() {
    // the generator of order four is 2^48
    assert_eq!(coset(1, 2).next_point(q(3, 5)), Some(q(3 << 48, 5 << 48)));
    let mut x = q(3, 0);
    for _ in 0..8 {
        assert_eq!(coset(3, 3).vanishing_poly_at_point(x), QuadFelt::zero());
        x = coset(3, 3).next_point(x).unwrap();
    }
    assert_eq!(x, q(3, 0));
}

#[test]
fn selectors_of_a_coset() {
    let domain = coset(1, 1);
    // at 3: z = 8, and the generator is -1
    let s = domain.selectors_at_point(q(3, 0)).unwrap();
    assert_eq!(s.is_first_row, q(4, 0));
    assert_eq!(s.is_last_row, q(2, 0));
    assert_eq!(s.is_transition, q(4, 0));
    assert_eq!(s.inv_vanishing.mul(q(8, 0)), QuadFelt::one());
    assert!(domain.selectors_at_point(q(1, 0)).is_none());
    assert!(domain.selectors_at_point(q(P - 1, 0)).is_none());
    assert!(coset(5, 4).selectors_at_point(q(5, 0)).is_none());
}

#[test]
fn disjoint_cosets() {
    assert_eq!(coset(3, 2).create_disjoint_domain(8), Some(coset(21, 3)));
    assert_eq!(coset(3, 2).create_disjoint_domain(5), Some(coset(21, 3)));
    assert_eq!(coset(3, 2).create_disjoint_domain(1), Some(coset(21, 0)));
    assert_eq!(coset(3, 2).create_disjoint_domain(0), Some(coset(21, 0)));
    assert_eq!(coset(3, 2).create_disjoint_domain(1 << 32), Some(coset(21, 32)));
    assert_eq!(coset(3, 2).create_disjoint_domain((1 << 32) + 1), None);
}

#[test]
fn parts_of_a_coset() {
    assert_eq!(coset(3, 2).split_domains(1), Some(vec![coset(3, 2)]));
    let parts = coset(3, 2).split_domains(2).unwrap();
    assert_eq!(parts, vec![coset(3, 1), Coset::new(Felt::new(3 << 48), 1).unwrap()]);
    assert_eq!(coset(3, 2).split_domains(4).unwrap().len(), 4);
    assert_eq!(coset(3, 2).split_domains(8), None);
    assert_eq!(coset(3, 2).split_domains(3), None);
    assert_eq!(coset(3, 2).split_domains(0), None);
    // the whole vanishes where a part does
    for part in parts {
        assert_eq!(
            coset(3, 2).vanishing_poly_at_base_point(part.first_point()),
            Felt::zero()
        );
    }
}

#[test]
fn parts_are_apart() {
    for num_chunks in [1, 2, 4, 8] {
        let parts = coset(3, 3).split_domains(num_chunks).unwrap();
        assert_eq!(parts.len(), num_chunks);
        for i in 0..num_chunks {
            assert_eq!(parts[i].size() * num_chunks, 8);
            for j in 0..num_chunks {
                let value = parts[j].vanishing_poly_at_base_point(parts[i].first_point());
                assert_eq!(value == Felt::zero(), i == j);
            }
        }
    }
}

#[test]
fn disjoint_cosets_share_no_point() {
    for min_size in [1, 3, 8, 100] {
        let other = coset(3, 3).create_disjoint_domain(min_size).unwrap();
        assert!(other.size() >= min_size);
        let mut x = q(3, 0);
        for _ in 0..8 {
            assert_ne!(other.vanishing_poly_at_point(x), QuadFelt::zero());
            x = coset(3, 3).next_point(x).unwrap();
        }
    }
}

#[test]
fn selectors_invert_the_vanishing_polynomial() {
    for x in [q(3, 0), q(0, 1), q(1234, 5678)] {
        let s = coset(5, 4).selectors_at_point(x).unwrap();
        let z = coset(5, 4).vanishing_poly_at_point(x);
        assert_eq!(z.mul(s.inv_vanishing), QuadFelt::one());
    }
}

#[test]
fn generators_are_squares_of_one_root() {
    let mut expected = q(0x1856_29dc_da58_878c, 0);
    for log_size in (0..33).rev() {
        assert_eq!(coset(1, log_size).next_point(QuadFelt::one()), Some(expected));
        expected = expected.mul(expected);
    }
}
