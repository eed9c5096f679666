//! Which numbers of values are refused, and under which number.

use vstd::prelude::*;
use crate::shape::{ExpectedShape, shape_verdict};
use crate::stark_proof::OpenedValues;

verus! {

/// The values are as many as are expected, of every kind, exactly where nothing is found wrong.
pub proof fn law_shape_accepted<EF>(
    opened_values: OpenedValues<EF>,
    aux_finals: Seq<EF>,
    shape: ExpectedShape,
)
    ensures
        (shape_verdict(opened_values, aux_finals, shape) is Some && shape_verdict(
            opened_values,
            aux_finals,
            shape,
        )->0 is Ok) <==> {
            &&& opened_values.trace_local@.len() == shape.air_width
            &&& opened_values.trace_next@.len() == shape.air_width
            &&& opened_values.quotient_chunks@.len() == shape.quotient_degree
            &&& forall|i: int|
                0 <= i < opened_values.quotient_chunks@.len() ==> (
                #[trigger] opened_values.quotient_chunks@[i])@.len() == shape.dimension
            &&& opened_values.random is Some ==> opened_values.random->0@.len() == shape.dimension
            &&& shape.num_randomness > 0 ==> {
                &&& opened_values.aux_trace_local is Some
                &&& opened_values.aux_trace_next is Some
                &&& opened_values.aux_trace_local->0@.len() == shape.aux_width * shape.dimension
                &&& opened_values.aux_trace_next->0@.len() == shape.aux_width * shape.dimension
                &&& aux_finals.len() == shape.aux_width
            }
            &&& shape.num_randomness == 0 ==> {
                &&& opened_values.aux_trace_local is None
                &&& opened_values.aux_trace_next is None
                &&& aux_finals.len() == 0
            }
        },
{
    assert(opened_values.aux_trace_local is Some ==> opened_values.aux_trace_local->0.len()
        <= usize::MAX);
}

/// The main trace and the quotient are looked at first, one after the other.
pub proof fn law_shape_of_trace<EF>(
    opened_values: OpenedValues<EF>,
    aux_finals: Seq<EF>,
    shape: ExpectedShape,
)
    ensures
        ({
            let said = shape_verdict(opened_values, aux_finals, shape);
            let local = opened_values.trace_local@.len() == shape.air_width;
            let next = opened_values.trace_next@.len() == shape.air_width;
            let count = opened_values.quotient_chunks@.len() == shape.quotient_degree;
            let full = forall|i: int|
                0 <= i < opened_values.quotient_chunks@.len() ==> (
                #[trigger] opened_values.quotient_chunks@[i])@.len() == shape.dimension;
            &&& said == Some(Err::<(), u8>(100)) <==> !local
            &&& said == Some(Err::<(), u8>(101)) <==> local && !next
            &&& said == Some(Err::<(), u8>(102)) <==> local && next && !count
            &&& said == Some(Err::<(), u8>(103)) <==> local && next && count && !full
        }),
{
}

/// Where the main trace and the quotient are right and there are auxiliary columns, these are
/// looked at, one row after the other, and then their final values. Nothing is said where the
/// number of their coordinates is not a machine word.
pub proof fn law_shape_of_auxiliary<EF>(
    opened_values: OpenedValues<EF>,
    aux_finals: Seq<EF>,
    shape: ExpectedShape,
)
    requires
        opened_values.trace_local@.len() == shape.air_width,
        opened_values.trace_next@.len() == shape.air_width,
        opened_values.quotient_chunks@.len() == shape.quotient_degree,
        forall|i: int|
            0 <= i < opened_values.quotient_chunks@.len() ==> (
            #[trigger] opened_values.quotient_chunks@[i])@.len() == shape.dimension,
        shape.num_randomness > 0,
    ensures
        ({
            let said = shape_verdict(opened_values, aux_finals, shape);
            let both = opened_values.aux_trace_local is Some && opened_values.aux_trace_next
                is Some;
            let counted = shape.aux_width * shape.dimension <= usize::MAX;
            let local = opened_values.aux_trace_local->0@.len() == shape.aux_width
                * shape.dimension;
            let next = opened_values.aux_trace_next->0@.len() == shape.aux_width * shape.dimension;
            let finals = aux_finals.len() == shape.aux_width;
            let random = opened_values.random is None || opened_values.random->0@.len()
                == shape.dimension;
            &&& said == Some(Err::<(), u8>(104)) <==> opened_values.aux_trace_local is None
            &&& said == Some(Err::<(), u8>(105)) <==> opened_values.aux_trace_local is Some
                && opened_values.aux_trace_next is None
            &&& said is None <==> both && !counted
            &&& said == Some(Err::<(), u8>(106)) <==> both && counted && !local
            &&& said == Some(Err::<(), u8>(107)) <==> both && counted && local && !next
            &&& said == Some(Err::<(), u8>(108)) <==> both && counted && local && next && !finals
            &&& said == Some(Err::<(), u8>(3)) <==> both && counted && local && next && finals
                && !random
        }),
{
}

/// Where the main trace and the quotient are right and there are no auxiliary columns, none may be
/// opened, nor have a final value.
pub proof fn law_shape_without_auxiliary<EF>(
    opened_values: OpenedValues<EF>,
    aux_finals: Seq<EF>,
    shape: ExpectedShape,
)
    requires
        opened_values.trace_local@.len() == shape.air_width,
        opened_values.trace_next@.len() == shape.air_width,
        opened_values.quotient_chunks@.len() == shape.quotient_degree,
        forall|i: int|
            0 <= i < opened_values.quotient_chunks@.len() ==> (
            #[trigger] opened_values.quotient_chunks@[i])@.len() == shape.dimension,
        shape.num_randomness == 0,
    ensures
        ({
            let said = shape_verdict(opened_values, aux_finals, shape);
            let local = opened_values.aux_trace_local is None;
            let next = opened_values.aux_trace_next is None;
            let finals = aux_finals.len() == 0;
            let random = opened_values.random is None || opened_values.random->0@.len()
                == shape.dimension;
            &&& said is Some
            &&& said == Some(Err::<(), u8>(109)) <==> !local
            &&& said == Some(Err::<(), u8>(110)) <==> local && !next
            &&& said == Some(Err::<(), u8>(111)) <==> local && next && !finals
            &&& said == Some(Err::<(), u8>(3)) <==> local && next && finals && !random
        }),
{
}

} // verus!
