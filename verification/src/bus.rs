//! The final value of a bus column, as the public inputs determine it.

use vstd::prelude::*;
use crate::algebra::lemma_product_zero;
use crate::error::{VerificationError, is_ok};
use crate::field::{ExtensionField, Field, product, sum};
use crate::laws::law_buses_accepted;

verus! {

/// How the rows that pass over a bus are combined.
#[derive(Clone, Copy, Debug, PartialEq, Eq, Structural)]
pub enum BusType {
    /// Each row contributes a factor.
    MultisetBus,
    /// Each row contributes the inverse of a factor, as a summand.
    LogupBus,
}

/// The rows of a table, each as a sequence.
pub open spec fn rows_of<F>(rows: Seq<&[F]>) -> Seq<Seq<F>> {
    rows.map_values(|row: &[F]| row@)
}

/// `randomness[0]` plus the first `n` values of the row, each times the challenge after its own
/// position.
pub open spec fn compressed_prefix<F: Field, EF: ExtensionField<F>>(
    randomness: Seq<EF>,
    row: Seq<F>,
    n: nat,
) -> EF
    decreases n,
{
    if n == 0 {
        randomness[0]
    } else {
        compressed_prefix(randomness, row, (n - 1) as nat).add_spec(
            EF::from_base_spec(row[n - 1]).mul_spec(randomness[n as int]),
        )
    }
}

/// The one element that the challenges compress a row to.
pub open spec fn compressed<F: Field, EF: ExtensionField<F>>(
    randomness: Seq<EF>,
    row: Seq<F>,
) -> EF {
    compressed_prefix(randomness, row, row.len())
}

/// There is a challenge for the constant term and one for each value of each row.
pub open spec fn enough_randomness<F: Field, EF: ExtensionField<F>>(
    randomness: Seq<EF>,
    rows: Seq<Seq<F>>,
) -> bool {
    forall|i: int| 0 <= i < rows.len() ==> (#[trigger] rows[i]).len() < randomness.len()
}

/// No row is compressed to zero.
pub open spec fn rows_invertible<F: Field, EF: ExtensionField<F>>(
    randomness: Seq<EF>,
    rows: Seq<Seq<F>>,
) -> bool {
    forall|i: int|
        0 <= i < rows.len() ==> compressed(randomness, #[trigger] rows[i]) != EF::zero_spec()
}

/// The product of the compressed rows.
pub open spec fn multiset_boundary<F: Field, EF: ExtensionField<F>>(
    randomness: Seq<EF>,
    rows: Seq<Seq<F>>,
) -> EF {
    product(rows.map_values(|row: Seq<F>| compressed(randomness, row)))
}

/// The sum of the inverses of the compressed rows.
pub open spec fn logup_boundary<F: Field, EF: ExtensionField<F>>(
    randomness: Seq<EF>,
    rows: Seq<Seq<F>>,
) -> EF {
    sum(rows.map_values(|row: Seq<F>| compressed(randomness, row).inverse_spec()))
}

/// The final value of a bus, where the rows determine it.
pub open spec fn expected_final<F: Field, EF: ExtensionField<F>>(
    bus_type: BusType,
    randomness: Seq<EF>,
    rows: Seq<Seq<F>>,
) -> Option<EF> {
    if !enough_randomness(randomness, rows) {
        None
    } else {
        match bus_type {
            BusType::MultisetBus => Some(multiset_boundary(randomness, rows)),
            BusType::LogupBus => if rows_invertible(randomness, rows) {
                Some(logup_boundary(randomness, rows))
            } else {
                None
            },
        }
    }
}

/// The tables of rows that pass over the buses, each as a sequence of rows.
pub open spec fn tables_of<F>(tables: Seq<&[&[F]]>) -> Seq<Seq<Seq<F>>> {
    tables.map_values(|rows: &[&[F]]| rows_of(rows@))
}

/// How many final values are checked: one for each bus that has one.
pub open spec fn num_checked<EF>(bus_types: Seq<BusType>, aux_finals: Seq<EF>) -> nat {
    if bus_types.len() <= aux_finals.len() {
        bus_types.len()
    } else {
        aux_finals.len()
    }
}

/// The `i`-th bus has rows, and the final value that they determine.
pub open spec fn bus_matches<F: Field, EF: ExtensionField<F>>(
    bus_types: Seq<BusType>,
    aux_finals: Seq<EF>,
    randomness: Seq<EF>,
    tables: Seq<Seq<Seq<F>>>,
    i: int,
) -> bool {
    &&& i < tables.len()
    &&& expected_final(bus_types[i], randomness, tables[i]) == Some(aux_finals[i])
}

/// Each bus that is checked has rows, and the final value that they determine.
pub open spec fn buses_match<F: Field, EF: ExtensionField<F>>(
    bus_types: Seq<BusType>,
    aux_finals: Seq<EF>,
    randomness: Seq<EF>,
    tables: Seq<Seq<Seq<F>>>,
) -> bool {
    forall|i: int|
        0 <= i < num_checked(bus_types, aux_finals) ==> #[trigger] bus_matches(
            bus_types,
            aux_finals,
            randomness,
            tables,
            i,
        )
}

/// What is said of the final values from the `i`-th bus on: the error of the first bus that has no
/// rows or another final value than its rows determine. Nothing is said where, before that, the
/// rows of a bus determine none.
pub open spec fn bus_verdict_from<F: Field, EF: ExtensionField<F>, PcsErr>(
    bus_types: Seq<BusType>,
    aux_finals: Seq<EF>,
    randomness: Seq<EF>,
    tables: Seq<Seq<Seq<F>>>,
    i: nat,
) -> Option<Result<(), VerificationError<PcsErr>>>
    decreases num_checked(bus_types, aux_finals) - i,
{
    if i >= num_checked(bus_types, aux_finals) {
        Some(Ok(()))
    } else if i >= tables.len() {
        Some(Err(VerificationError::MyError(11)))
    } else {
        match expected_final(bus_types[i as int], randomness, tables[i as int]) {
            None => None,
            Some(value) => if aux_finals[i as int] == value {
                bus_verdict_from(bus_types, aux_finals, randomness, tables, i + 1)
            } else {
                Some(Err(VerificationError::InvalidBusBoundaryValues))
            },
        }
    }
}

/// What is said of the final values of the buses.
pub open spec fn bus_verdict<F: Field, EF: ExtensionField<F>, PcsErr>(
    bus_types: Seq<BusType>,
    aux_finals: Seq<EF>,
    randomness: Seq<EF>,
    tables: Seq<Seq<Seq<F>>>,
) -> Option<Result<(), VerificationError<PcsErr>>> {
    bus_verdict_from(bus_types, aux_finals, randomness, tables, 0)
}

/// Whether there are challenges enough to compress the rows.
fn has_enough_randomness<F: Field, EF: ExtensionField<F>>(
    randomness: &[EF],
    rows: &[&[F]],
) -> (r: bool)
    ensures
        r == enough_randomness(randomness@, rows_of(rows@)),
{
    let n: usize = rows.len();
    for i in 0..n
        invariant
            n == rows@.len(),
            forall|j: int|
                0 <= j < i ==> (#[trigger] rows_of(rows@)[j]).len() < randomness@.len(),
    {
        assert(rows_of(rows@)[i as int] == rows@[i as int]@);
        if rows[i].len() >= randomness.len() {
            return false;
        }
    }
    true
}

/// The final value of a bus, or none where the rows do not determine it.
pub fn try_expected_final<F: Field, EF: ExtensionField<F>>(
    bus_type: BusType,
    randomness: &[EF],
    rows: &[&[F]],
) -> (r: Option<EF>)
    ensures
        r == expected_final(bus_type, randomness@, rows_of(rows@)),
{
    if !has_enough_randomness(randomness, rows) {
        return None;
    }
    match bus_type {
        BusType::MultisetBus => Some(bus_multiset_boundary_varlen(randomness, rows)),
        BusType::LogupBus => try_bus_logup_boundary_varlen(randomness, rows),
    }
}

/// Checks the final value of each bus against the rows that pass over it, or answers none where the
/// rows of a bus that is reached determine none.
pub fn check_buses<F: Field, EF: ExtensionField<F>, PcsErr>(
    bus_types: &Vec<BusType>,
    aux_finals: &Vec<EF>,
    randomness: &[EF],
    var_length_public_inputs: &[&[&[F]]],
) -> (r: Option<Result<(), VerificationError<PcsErr>>>)
    ensures
        r == bus_verdict::<F, EF, PcsErr>(
            bus_types@,
            aux_finals@,
            randomness@,
            tables_of(var_length_public_inputs@),
        ),
        is_ok(r) <==> buses_match(
            bus_types@,
            aux_finals@,
            randomness@,
            tables_of(var_length_public_inputs@),
        ),
{
    let ghost tables = tables_of(var_length_public_inputs@);
    proof {
        law_buses_accepted::<F, EF, PcsErr>(bus_types@, aux_finals@, randomness@, tables);
    }
    let n: usize = if bus_types.len() <= aux_finals.len() {
        bus_types.len()
    } else {
        aux_finals.len()
    };
    for i in 0..n
        invariant
            n == num_checked(bus_types@, aux_finals@),
            tables == tables_of(var_length_public_inputs@),
            is_ok(bus_verdict::<F, EF, PcsErr>(bus_types@, aux_finals@, randomness@, tables))
                <==> buses_match(bus_types@, aux_finals@, randomness@, tables),
            bus_verdict::<F, EF, PcsErr>(bus_types@, aux_finals@, randomness@, tables)
                == bus_verdict_from::<F, EF, PcsErr>(
                bus_types@,
                aux_finals@,
                randomness@,
                tables,
                i as nat,
            ),
    {
        if i >= var_length_public_inputs.len() {
            return Some(Err(VerificationError::MyError(11)));
        }
        assert(tables[i as int] == rows_of(var_length_public_inputs@[i as int]@));
        match try_expected_final(bus_types[i], randomness, var_length_public_inputs[i]) {
            None => {
                return None;
            },
            Some(value) => {
                if !aux_finals[i].equals(value) {
                    return Some(Err(VerificationError::InvalidBusBoundaryValues));
                }
            },
        }
    }
    Some(Ok(()))
}

/// Compresses a row.
fn compress<F: Field, EF: ExtensionField<F>>(randomness: &[EF], row: &[F]) -> (r: EF)
    requires
        row@.len() < randomness@.len(),
    ensures
        r == compressed(randomness@, row@),
{
    let mut acc: EF = randomness[0];
    let n: usize = row.len();
    for c in 0..n
        invariant
            n == row@.len(),
            row@.len() < randomness@.len(),
            acc == compressed_prefix(randomness@, row@, c as nat),
    {
        acc = acc.add(EF::from_base(row[c]).mul(randomness[c + 1]));
    }
    acc
}

/// Computes the final value for a multiset bus given variable-length public inputs. It is zero
/// exactly where some row is compressed to zero.
pub fn bus_multiset_boundary_varlen<F: Field, EF: ExtensionField<F>>(
    randomness: &[EF],
    public_inputs: &[&[F]],
) -> (r: EF)
    requires
        enough_randomness(randomness@, rows_of(public_inputs@)),
    ensures
        r == multiset_boundary(randomness@, rows_of(public_inputs@)),
        r == EF::zero_spec() <==> !rows_invertible(randomness@, rows_of(public_inputs@)),
{
    let ghost rows = rows_of(public_inputs@);
    let ghost values = rows.map_values(|row: Seq<F>| compressed(randomness@, row));
    let mut bus_p_last: EF = EF::one();
    let n: usize = public_inputs.len();
    for i in 0..n
        invariant
            n == public_inputs@.len(),
            rows == rows_of(public_inputs@),
            values == rows.map_values(|row: Seq<F>| compressed(randomness@, row)),
            enough_randomness(randomness@, rows),
            bus_p_last == product(values.take(i as int)),
            forall|j: int| 0 <= j < i ==> (#[trigger] values[j]).is_element(),
    {
        assert(rows[i as int] == public_inputs@[i as int]@);
        assert(values.take(i + 1).drop_last() == values.take(i as int));
        bus_p_last = bus_p_last.mul(compress(randomness, public_inputs[i]));
    }
    assert(values.take(n as int) == values);
    proof {
        lemma_product_zero(values);
        assert forall|i: int| 0 <= i < rows.len() implies #[trigger] values[i] == compressed(
            randomness@,
            rows[i],
        ) by {}
        if rows_invertible(randomness@, rows) {
            assert forall|i: int| 0 <= i < values.len() implies #[trigger] values[i]
                != EF::zero_spec() by {
                assert(compressed(randomness@, rows[i]) != EF::zero_spec());
            }
        } else {
            let i = choose|i: int|
                0 <= i < rows.len() && compressed(randomness@, #[trigger] rows[i])
                    == EF::zero_spec();
            assert(values[i] == EF::zero_spec());
        }
    }
    bus_p_last
}

/// Computes the final value for a logup bus boundary constraint given variable-length public
/// inputs.
pub fn bus_logup_boundary_varlen<F: Field, EF: ExtensionField<F>>(
    randomness: &[EF],
    public_inputs: &[&[F]],
) -> (r: EF)
    requires
        enough_randomness(randomness@, rows_of(public_inputs@)),
        rows_invertible(randomness@, rows_of(public_inputs@)),
    ensures
        r == logup_boundary(randomness@, rows_of(public_inputs@)),
{
    try_bus_logup_boundary_varlen(randomness, public_inputs).unwrap()
}

/// As `bus_logup_boundary_varlen`, or none where a row has no inverse.
pub fn try_bus_logup_boundary_varlen<F: Field, EF: ExtensionField<F>>(
    randomness: &[EF],
    public_inputs: &[&[F]],
) -> (r: Option<EF>)
    requires
        enough_randomness(randomness@, rows_of(public_inputs@)),
    ensures
        r == (if rows_invertible(randomness@, rows_of(public_inputs@)) {
            Some(logup_boundary(randomness@, rows_of(public_inputs@)))
        } else {
            None
        }),
{
    let ghost rows = rows_of(public_inputs@);
    let ghost values = rows.map_values(
        |row: Seq<F>| compressed(randomness@, row).inverse_spec(),
    );
    let mut bus_q_last: EF = EF::zero();
    let n: usize = public_inputs.len();
    for i in 0..n
        invariant
            n == public_inputs@.len(),
            rows == rows_of(public_inputs@),
            values == rows.map_values(
                |row: Seq<F>| compressed(randomness@, row).inverse_spec(),
            ),
            enough_randomness(randomness@, rows),
            bus_q_last == sum(values.take(i as int)),
            forall|j: int|
                0 <= j < i ==> compressed(randomness@, #[trigger] rows[j]) != EF::zero_spec(),
    {
        assert(rows[i as int] == public_inputs@[i as int]@);
        assert(values.take(i + 1).drop_last() == values.take(i as int));
        match compress(randomness, public_inputs[i]).try_inverse() {
            Some(q) => {
                bus_q_last = bus_q_last.add(q);
            },
            None => {
                return None;
            },
        }
    }
    assert(values.take(n as int) == values);
    Some(bus_q_last)
}

} // verus!
