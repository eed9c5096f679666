use miden_stark_verifier::field::{ExtensionField, Field};
use miden_stark_verifier::goldilocks::{Felt, P, QuadFelt};

fn q(a: u64, b: u64) -> QuadFelt {
    QuadFelt::new(Felt::new(a), Felt::new(b))
}

#[test]
fn base_arithmetic_wraps_at_the_prime() {
    assert_eq!(Felt::new(P - 1).add(Felt::new(5)), Felt::new(4));
    assert_eq!(Felt::new(P - 1).mul(Felt::new(P - 1)), Felt::new(1));
    assert_eq!(Felt::new(1 << 32).mul(Felt::new(1 << 32)), Felt::new((1 << 32) - 1));
    assert_eq!(Felt::new(P + 3).as_canonical_u64(), 3);
    assert_eq!(Felt::new(u64::MAX).as_canonical_u64(), (1 << 32) - 2);
}

#[test]
fn base_inverse() {
    assert_eq!(Felt::zero().try_inverse(), None);
    assert_eq!(Felt::new(2).try_inverse(), Some(Felt::new((P + 1) / 2)));
    for n in [1u64, 7, 12345, P - 1, 1 << 63] {
        let x = Felt::new(n);
        assert_eq!(x.mul(x.try_inverse().unwrap()), Felt::one());
    }
}

#[test]
fn numbers_map_to_their_classes() {
    assert_eq!(Felt::from_usize(17), Felt::new(17));
    assert_eq!(Felt::from_usize(u64::MAX as usize).as_canonical_u64(), (1 << 32) - 2);
    assert_eq!(QuadFelt::from_usize(17), q(17, 0));
}

#[test]
fn extension_arithmetic() {
    assert_eq!(q(1, 2).add(q(P - 1, 3)), q(0, 5));
    // (2 + 3X)(5 + 7X) = 10 + 21 * 7 + (14 + 15) X
    assert_eq!(q(2, 3).mul(q(5, 7)), q(157, 29));
    assert_eq!(q(0, 1).mul(q(0, 1)), q(7, 0));
    assert!(q(2, 3).equals(q(2, 3)));
    assert!(!q(2, 3).equals(q(3, 2)));
}

#[test]
fn extension_inverse() {
    assert_eq!(QuadFelt::zero().try_inverse(), None);
    for x in [q(1, 0), q(0, 1), q(3, 4), q(P - 1, P - 2)] {
        assert_eq!(x.mul(x.try_inverse().unwrap()), QuadFelt::one());
    }
    assert_ne!(q(3, 4).try_inverse(), Some(q(3, 4)));
}

#[test]
fn basis_of_the_extension() {
    assert_eq!(<QuadFelt as ExtensionField<Felt>>::dimension(), 2);
    assert_eq!(<QuadFelt as ExtensionField<Felt>>::ith_basis_element(0), Some(q(1, 0)));
    assert_eq!(<QuadFelt as ExtensionField<Felt>>::ith_basis_element(1), Some(q(0, 1)));
    assert_eq!(<QuadFelt as ExtensionField<Felt>>::ith_basis_element(2), None);
    assert_eq!(QuadFelt::from_base(Felt::new(9)), q(9, 0));
    assert_eq!(q(8, 9).coefficients(), (Felt::new(8), Felt::new(9)));
}
