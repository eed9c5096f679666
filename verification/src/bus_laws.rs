//! What the final values of the buses are, in terms of the rows that pass over them.

use vstd::prelude::*;
use crate::bus::{
    BusType, bus_matches, bus_verdict, bus_verdict_from, buses_match, compressed,
    compressed_prefix, expected_final, logup_boundary, multiset_boundary, num_checked, rows_of,
    tables_of,
};
use crate::error::VerificationError;
use crate::field::{ExtensionField, Field, product, sum};
use crate::laws::{law_buses_accepted, law_logup_concat, law_multiset_concat};

verus! {

/// A sum of nothing is zero, and one more summand is added.
pub proof fn law_sum<F: Field>(s: Seq<F>, x: F)
    ensures
        sum(Seq::<F>::empty()) == F::zero_spec(),
        sum(s.push(x)) == sum(s).add_spec(x),
{
    assert(s.push(x).drop_last() == s);
}

/// A product of nothing is one, and one more factor is multiplied.
pub proof fn law_product<F: Field>(s: Seq<F>, x: F)
    ensures
        product(Seq::<F>::empty()) == F::one_spec(),
        product(s.push(x)) == product(s).mul_spec(x),
{
    assert(s.push(x).drop_last() == s);
}

/// A row without values is compressed to the first challenge, and a value that is appended adds
/// itself times the challenge after its own position.
pub proof fn law_compressed_step<F: Field, EF: ExtensionField<F>>(
    randomness: Seq<EF>,
    row: Seq<F>,
    value: F,
)
    ensures
        compressed(randomness, Seq::<F>::empty()) == randomness[0],
        compressed(randomness, row.push(value)) == compressed(randomness, row).add_spec(
            EF::from_base_spec(value).mul_spec(randomness[row.len() as int + 1]),
        ),
{
    lemma_prefix_of_longer(randomness, row, value, row.len());
}

proof fn lemma_prefix_of_longer<F: Field, EF: ExtensionField<F>>(
    randomness: Seq<EF>,
    row: Seq<F>,
    value: F,
    n: nat,
)
    requires
        n <= row.len(),
    ensures
        compressed_prefix(randomness, row.push(value), n) == compressed_prefix(randomness, row, n),
    decreases n,
{
    if n > 0 {
        lemma_prefix_of_longer(randomness, row, value, (n - 1) as nat);
    }
}

/// A row is compressed to the first challenge plus the sum of its values, each times the challenge
/// after its own position.
pub proof fn law_compressed_is_sum<F: Field, EF: ExtensionField<F>>(
    randomness: Seq<EF>,
    row: Seq<F>,
)
    requires
        randomness[0].is_element(),
    ensures
        compressed(randomness, row) == randomness[0].add_spec(
            sum(
                Seq::new(
                    row.len(),
                    |c: int| EF::from_base_spec(row[c]).mul_spec(randomness[c + 1]),
                ),
            ),
        ),
    decreases row.len(),
{
    let terms = Seq::new(
        row.len(),
        |c: int| EF::from_base_spec(row[c]).mul_spec(randomness[c + 1]),
    );
    if row.len() == 0 {
        EF::law_units(randomness[0]);
        assert(row == Seq::<F>::empty());
    } else {
        let init = row.drop_last();
        law_compressed_is_sum(randomness, init);
        law_compressed_step(randomness, init, row.last());
        assert(init.push(row.last()) == row);
        assert(terms.drop_last() == Seq::new(
            init.len(),
            |c: int| EF::from_base_spec(init[c]).mul_spec(randomness[c + 1]),
        ));
        EF::law_add_associates(randomness[0], sum(terms.drop_last()), terms.last());
    }
}

/// The final value of a multiset bus over which one row passes is the first challenge plus the sum
/// of the row's values, each times the challenge after its own position; each further row
/// multiplies the final value by its own.
pub proof fn law_multiset_rows<F: Field, EF: ExtensionField<F>>(
    randomness: Seq<EF>,
    rows: Seq<Seq<F>>,
    row: Seq<F>,
)
    requires
        randomness[0].is_element(),
    ensures
        multiset_boundary(randomness, Seq::<Seq<F>>::empty()) == EF::one_spec(),
        multiset_boundary(randomness, seq![row]) == randomness[0].add_spec(
            sum(
                Seq::new(
                    row.len(),
                    |c: int| EF::from_base_spec(row[c]).mul_spec(randomness[c + 1]),
                ),
            ),
        ),
        multiset_boundary(randomness, rows.push(row)) == multiset_boundary(
            randomness,
            rows,
        ).mul_spec(
            randomness[0].add_spec(
                sum(
                    Seq::new(
                        row.len(),
                        |c: int| EF::from_base_spec(row[c]).mul_spec(randomness[c + 1]),
                    ),
                ),
            ),
        ),
{
    let f = |row: Seq<F>| compressed(randomness, row);
    law_compressed_is_sum(randomness, row);
    let value = compressed(randomness, row);
    EF::law_closed(
        randomness[0],
        sum(
            Seq::new(
                row.len(),
                |c: int| EF::from_base_spec(row[c]).mul_spec(randomness[c + 1]),
            ),
        ),
    );
    let single = seq![row].map_values(f);
    assert(single == seq![value]);
    law_product(Seq::<EF>::empty(), value);
    assert(single == Seq::<EF>::empty().push(value));
    EF::law_mul_commutes(EF::one_spec(), value);
    EF::law_units(value);
    assert(rows.push(row).map_values(f) == rows.map_values(f).push(value));
    law_product(rows.map_values(f), value);
    law_multiset_concat(randomness, rows, rows);
}

/// The final value of a logup bus over which one row passes, times what the row is compressed to,
/// is one; each further row adds the inverse of what it is compressed to.
pub proof fn law_logup_rows<F: Field, EF: ExtensionField<F>>(
    randomness: Seq<EF>,
    rows: Seq<Seq<F>>,
    row: Seq<F>,
)
    requires
        randomness[0].is_element(),
        randomness[0].add_spec(
            sum(
                Seq::new(
                    row.len(),
                    |c: int| EF::from_base_spec(row[c]).mul_spec(randomness[c + 1]),
                ),
            ),
        ) != EF::zero_spec(),
    ensures
        logup_boundary(randomness, Seq::<Seq<F>>::empty()) == EF::zero_spec(),
        logup_boundary(randomness, seq![row]).mul_spec(
            randomness[0].add_spec(
                sum(
                    Seq::new(
                        row.len(),
                        |c: int| EF::from_base_spec(row[c]).mul_spec(randomness[c + 1]),
                    ),
                ),
            ),
        ) == EF::one_spec(),
        logup_boundary(randomness, rows.push(row)) == logup_boundary(randomness, rows).add_spec(
            logup_boundary(randomness, seq![row]),
        ),
{
    let f = |row: Seq<F>| compressed(randomness, row).inverse_spec();
    law_compressed_is_sum(randomness, row);
    let value = compressed(randomness, row);
    EF::law_closed(
        randomness[0],
        sum(
            Seq::new(
                row.len(),
                |c: int| EF::from_base_spec(row[c]).mul_spec(randomness[c + 1]),
            ),
        ),
    );
    EF::law_inverse(value);
    let inverse = value.inverse_spec();
    let single = seq![row].map_values(f);
    assert(single == Seq::<EF>::empty().push(inverse));
    law_sum(Seq::<EF>::empty(), inverse);
    EF::law_add_commutes(EF::zero_spec(), inverse);
    EF::law_units(inverse);
    EF::law_mul_commutes(value, inverse);
    assert(rows.push(row) == rows + seq![row]);
    law_logup_concat(randomness, rows, seq![row]);
}

/// Rows determine the final value of a bus exactly where each is shorter than the challenges are
/// many, so that each value and the constant term have one, and, over a logup bus, none is
/// compressed to zero. A multiset bus then ends in the product, a logup bus in the sum of inverses.
pub proof fn law_expected_final<F: Field, EF: ExtensionField<F>>(
    bus_type: BusType,
    randomness: Seq<EF>,
    rows: Seq<Seq<F>>,
)
    ensures
        expected_final(bus_type, randomness, rows) is Some <==> (forall|i: int|
            0 <= i < rows.len() ==> (#[trigger] rows[i]).len() < randomness.len()) && (bus_type
            == BusType::LogupBus ==> forall|i: int|
            0 <= i < rows.len() ==> compressed(randomness, #[trigger] rows[i])
                != EF::zero_spec()),
        expected_final(bus_type, randomness, rows) matches Some(value) ==> value == (
        if bus_type == BusType::MultisetBus {
            multiset_boundary(randomness, rows)
        } else {
            logup_boundary(randomness, rows)
        }),
{
}

/// Tables are made of the rows that they are given by, in order.
pub proof fn law_tables<F>(tables: Seq<&[&[F]]>, rows: Seq<&[F]>)
    ensures
        rows_of(rows).len() == rows.len(),
        forall|j: int| 0 <= j < rows.len() ==> #[trigger] rows_of(rows)[j] == rows[j]@,
        tables_of(tables).len() == tables.len(),
        forall|i: int|
            0 <= i < tables.len() ==> #[trigger] tables_of(tables)[i] == rows_of(tables[i]@),
        forall|i: int, j: int|
            0 <= i < tables.len() && 0 <= j < tables[i]@.len()
                ==> #[trigger] tables_of(tables)[i][j] == tables[i]@[j]@,
        forall|i: int|
            0 <= i < tables.len() ==> (#[trigger] tables_of(tables)[i]).len() == tables[i]@.len(),
{
}

/// If the buses are accepted, then every bus that has a final value has a table, and that value is
/// the one that the table's rows determine; and where this fails for some bus, the buses are not
/// accepted.
pub proof fn law_every_bus_is_checked<F: Field, EF: ExtensionField<F>, PcsErr>(
    bus_types: Seq<BusType>,
    aux_finals: Seq<EF>,
    randomness: Seq<EF>,
    tables: Seq<Seq<Seq<F>>>,
)
    ensures
        (bus_verdict::<F, EF, PcsErr>(bus_types, aux_finals, randomness, tables) is Some
            && bus_verdict::<F, EF, PcsErr>(bus_types, aux_finals, randomness, tables)->0 is Ok)
            <==> (forall|i: int|
            0 <= i < bus_types.len() && i < aux_finals.len() ==> i < tables.len()
                && #[trigger] expected_final(bus_types[i], randomness, tables[i]) == Some(
                aux_finals[i],
            )),
{
    law_buses_accepted::<F, EF, PcsErr>(bus_types, aux_finals, randomness, tables);
    if forall|i: int|
        0 <= i < bus_types.len() && i < aux_finals.len() ==> i < tables.len()
            && #[trigger] expected_final(bus_types[i], randomness, tables[i]) == Some(
            aux_finals[i],
        ) {
        assert forall|i: int|
            0 <= i < num_checked(bus_types, aux_finals) implies #[trigger] bus_matches(
            bus_types,
            aux_finals,
            randomness,
            tables,
            i,
        ) by {
            let value = expected_final(bus_types[i], randomness, tables[i]);
        }
    }
    if buses_match(bus_types, aux_finals, randomness, tables) {
        assert forall|i: int|
            0 <= i < bus_types.len() && i < aux_finals.len() implies i < tables.len()
            && #[trigger] expected_final(bus_types[i], randomness, tables[i]) == Some(
            aux_finals[i],
        ) by {
            assert(bus_matches(bus_types, aux_finals, randomness, tables, i));
        }
    }
}

/// The first bus whose final value is not the one that its rows determine decides what is said:
/// that its table is missing, that the value is wrong, or nothing, where its rows determine none.
pub proof fn law_first_bus_decides<F: Field, EF: ExtensionField<F>, PcsErr>(
    bus_types: Seq<BusType>,
    aux_finals: Seq<EF>,
    randomness: Seq<EF>,
    tables: Seq<Seq<Seq<F>>>,
    i: int,
)
    requires
        0 <= i < bus_types.len(),
        i < aux_finals.len(),
        forall|j: int|
            0 <= j < i ==> j < tables.len() && #[trigger] expected_final(
                bus_types[j],
                randomness,
                tables[j],
            ) == Some(aux_finals[j]),
    ensures
        i >= tables.len() ==> bus_verdict::<F, EF, PcsErr>(
            bus_types,
            aux_finals,
            randomness,
            tables,
        ) == Some(Err::<(), _>(VerificationError::<PcsErr>::MyError(11))),
        i < tables.len() && expected_final(bus_types[i], randomness, tables[i]) is None
            ==> bus_verdict::<F, EF, PcsErr>(bus_types, aux_finals, randomness, tables) is None,
        i < tables.len() && expected_final(bus_types[i], randomness, tables[i]) is Some
            && expected_final(bus_types[i], randomness, tables[i]) != Some(aux_finals[i])
            ==> bus_verdict::<F, EF, PcsErr>(bus_types, aux_finals, randomness, tables) == Some(
            Err::<(), _>(VerificationError::<PcsErr>::InvalidBusBoundaryValues),
        ),
{
    lemma_verdict_from::<F, EF, PcsErr>(bus_types, aux_finals, randomness, tables, i as nat);
}

proof fn lemma_verdict_from<F: Field, EF: ExtensionField<F>, PcsErr>(
    bus_types: Seq<BusType>,
    aux_finals: Seq<EF>,
    randomness: Seq<EF>,
    tables: Seq<Seq<Seq<F>>>,
    i: nat,
)
    requires
        i < bus_types.len(),
        i < aux_finals.len(),
        forall|j: int|
            0 <= j < i ==> j < tables.len() && #[trigger] expected_final(
                bus_types[j],
                randomness,
                tables[j],
            ) == Some(aux_finals[j]),
    ensures
        bus_verdict::<F, EF, PcsErr>(bus_types, aux_finals, randomness, tables)
            == bus_verdict_from::<F, EF, PcsErr>(bus_types, aux_finals, randomness, tables, i),
    decreases i,
{
    if i > 0 {
        let before = (i - 1) as nat;
        lemma_verdict_from::<F, EF, PcsErr>(bus_types, aux_finals, randomness, tables, before);
        assert(expected_final(bus_types[before as int], randomness, tables[before as int])
            == Some(aux_finals[before as int]));
    }
}

} // verus!
