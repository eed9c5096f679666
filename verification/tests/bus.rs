use miden_stark_verifier::bus::{
    BusType, bus_logup_boundary_varlen, bus_multiset_boundary_varlen, check_buses,
    try_bus_logup_boundary_varlen, try_expected_final,
};
use miden_stark_verifier::error::VerificationError;
use miden_stark_verifier::field::Field;
use miden_stark_verifier::goldilocks::{Felt, P, QuadFelt};

fn q(a: u64, b: u64) -> QuadFelt {
    QuadFelt::new(Felt::new(a), Felt::new(b))
}

fn row(values: &[u64]) -> Vec<Felt> {
    values.iter().map(|v| Felt::new(*v)).collect()
}

#[test]
fn multiset_of_two_rows() {
    let randomness = [q(1, 1), q(2, 0), q(0, 3)];
    let (r0, r1) = (row(&[5, 6]), row(&[7]));
    let got = bus_multiset_boundary_varlen(&randomness, &[&r0[..], &r1[..]]);
    // (1 + X + 10 + 18 X) * (1 + X + 14) = (11 + 19 X)(15 + X)
    assert_eq!(got, q(165 + 7 * 19, 11 + 285));
}

#[test]
fn multiset_of_no_rows_is_one() {
    let none: [&[Felt]; 0] = [];
    assert_eq!(bus_multiset_boundary_varlen(&[q(4, 5)], &none), QuadFelt::one());
}

#[test]
fn multiset_of_an_empty_row_is_the_first_challenge() {
    let empty: [Felt; 0] = [];
    assert_eq!(bus_multiset_boundary_varlen(&[q(4, 5)], &[&empty[..]]), q(4, 5));
}

#[test]
fn logup_of_two_rows() {
    let randomness = [q(3, 0), q(1, 0)];
    let (r0, r1) = (row(&[1]), row(&[2]));
    let got = bus_logup_boundary_varlen(&randomness, &[&r0[..], &r1[..]]);
    // 1/4 + 1/5 = 9/20
    assert_eq!(got.mul(q(20, 0)), q(9, 0));
}

#[test]
fn logup_of_no_rows_is_zero() {
    let none: [&[Felt]; 0] = [];
    assert_eq!(bus_logup_boundary_varlen(&[q(4, 5)], &none), QuadFelt::zero());
}

#[test]
fn logup_of_a_row_that_compresses_to_zero() {
    let randomness = [q(3, 0), q(1, 0)];
    let bad = row(&[P - 3]);
    assert_eq!(try_bus_logup_boundary_varlen(&randomness, &[&bad[..]]), None);
    assert_eq!(try_expected_final(BusType::LogupBus, &randomness, &[&bad[..]]), None);
    assert_eq!(
        try_expected_final(BusType::MultisetBus, &randomness, &[&bad[..]]),
        Some(QuadFelt::zero())
    );
}

#[test]
fn rows_longer_than_the_randomness_determine_nothing() {
    let long = row(&[1, 2]);
    assert_eq!(try_expected_final(BusType::MultisetBus, &[q(3, 0), q(1, 0)], &[&long[..]]), None);
}

#[test]
fn the_order_of_rows_does_not_matter() {
    let randomness = [q(11, 2), q(5, 7), q(1, 13)];
    let (a, b, c) = (row(&[1, 2]), row(&[3]), row(&[4, 5]));
    let there = [&a[..], &b[..], &c[..]];
    let back = [&c[..], &a[..], &b[..]];
    assert_eq!(
        bus_multiset_boundary_varlen(&randomness, &there),
        bus_multiset_boundary_varlen(&randomness, &back)
    );
    assert_eq!(
        bus_logup_boundary_varlen(&randomness, &there),
        bus_logup_boundary_varlen(&randomness, &back)
    );
}

#[test]
fn multiset_is_zero_where_a_row_is() {
    let randomness = [q(3, 0), q(1, 0)];
    let (zero, other) = (row(&[P - 3]), row(&[4]));
    let value = |rows: &[&[Felt]]| bus_multiset_boundary_varlen(&randomness, rows);
    assert_eq!(value(&[&other[..], &zero[..], &other[..]]), QuadFelt::zero());
    assert_eq!(value(&[&other[..], &other[..]]), q(49, 0));
    assert_ne!(value(&[]), QuadFelt::zero());
}

#[test]
fn more_rows_multiply_and_add() {
    let randomness = [q(11, 2), q(5, 7), q(1, 13)];
    let (a, b, c) = (row(&[1, 2]), row(&[3]), row(&[4, 5]));
    let all = [&a[..], &b[..], &c[..]];
    assert_eq!(
        bus_multiset_boundary_varlen(&randomness, &all),
        bus_multiset_boundary_varlen(&randomness, &all[..1])
            .mul(bus_multiset_boundary_varlen(&randomness, &all[1..]))
    );
    assert_eq!(
        bus_logup_boundary_varlen(&randomness, &all),
        bus_logup_boundary_varlen(&randomness, &all[..1])
            .add(bus_logup_boundary_varlen(&randomness, &all[1..]))
    );
}

#[test]
fn buses_are_checked_in_order() {
    let randomness = [q(3, 0), q(1, 0)];
    let (r0, r1, zero) = (row(&[1]), row(&[2]), row(&[P - 3]));
    let (t0, t1, tz) = ([&r0[..]], [&r1[..]], [&zero[..]]);
    let quarter = q(4, 0).try_inverse().unwrap();
    let types = vec![BusType::LogupBus, BusType::MultisetBus];
    let check = |finals: &Vec<QuadFelt>, tables: &[&[&[Felt]]]| {
        check_buses::<Felt, QuadFelt, u8>(&types, finals, &randomness, tables)
    };
    assert!(matches!(check(&vec![quarter, q(5, 0)], &[&t0[..], &t1[..]]), Some(Ok(()))));
    assert!(matches!(
        check(&vec![quarter, q(6, 0)], &[&t0[..], &t1[..]]),
        Some(Err(VerificationError::InvalidBusBoundaryValues))
    ));
    assert!(matches!(
        check(&vec![quarter, q(5, 0)], &[&t0[..]]),
        Some(Err(VerificationError::MyError(11)))
    ));
    // the mismatch of the first bus is found before the second is missing
    assert!(matches!(
        check(&vec![q(9, 0), q(5, 0)], &[&t0[..]]),
        Some(Err(VerificationError::InvalidBusBoundaryValues))
    ));
    assert!(check(&vec![quarter, q(5, 0)], &[&tz[..], &t1[..]]).is_none());
    // a bus without a final value is not checked, nor one without a type
    assert!(matches!(check(&vec![quarter], &[&t0[..]]), Some(Ok(()))));
    assert!(matches!(
        check(&vec![quarter, q(5, 0), q(9, 9)], &[&t0[..], &t1[..]]),
        Some(Ok(()))
    ));
}

#[test]
fn without_buses_final_values_are_not_checked() {
    let said = check_buses::<Felt, QuadFelt, u8>(&vec![], &vec![q(1, 2), q(3, 4)], &[q(1, 0)], &[]);
    assert!(matches!(said, Some(Ok(()))));
}
