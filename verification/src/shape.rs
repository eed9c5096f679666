//! The numbers of values that a proof must open.

use vstd::prelude::*;
use crate::error::is_ok;
use crate::stark_proof::OpenedValues;

verus! {

/// How many values of each kind a statement asks for.
pub struct ExpectedShape {
    /// The number of columns of the main trace.
    pub air_width: usize,
    /// The number of chunks of the quotient.
    pub quotient_degree: usize,
    /// The number of columns of the auxiliary trace.
    pub aux_width: usize,
    /// The number of challenges that the auxiliary trace is made from; without any there is no
    /// such trace.
    pub num_randomness: usize,
    /// The number of coordinates of an element of the extension.
    pub dimension: usize,
}

/// Each chunk opens to one value for each coordinate.
pub open spec fn chunks_full<EF>(chunks: Seq<Vec<EF>>, dimension: usize) -> bool {
    forall|i: int| 0 <= i < chunks.len() ==> (#[trigger] chunks[i])@.len() == dimension
}

/// The number of values of the auxiliary trace that a row opens to.
pub open spec fn aux_width_base(shape: ExpectedShape) -> int {
    shape.aux_width * shape.dimension
}

/// The number of the first way in which the values differ from what is expected; none where the
/// number of auxiliary values, which is then needed, is not a machine word.
pub open spec fn shape_verdict<EF>(
    opened_values: OpenedValues<EF>,
    aux_finals: Seq<EF>,
    shape: ExpectedShape,
) -> Option<Result<(), u8>> {
    if opened_values.trace_local@.len() != shape.air_width {
        Some(Err(100))
    } else if opened_values.trace_next@.len() != shape.air_width {
        Some(Err(101))
    } else if opened_values.quotient_chunks@.len() != shape.quotient_degree {
        Some(Err(102))
    } else if !chunks_full(opened_values.quotient_chunks@, shape.dimension) {
        Some(Err(103))
    } else if shape.num_randomness > 0 {
        match (opened_values.aux_trace_local, opened_values.aux_trace_next) {
            (None, _) => Some(Err(104)),
            (_, None) => Some(Err(105)),
            (Some(local), Some(next)) => {
                if aux_width_base(shape) > usize::MAX {
                    None
                } else if local@.len() != aux_width_base(shape) {
                    Some(Err(106))
                } else if next@.len() != aux_width_base(shape) {
                    Some(Err(107))
                } else if aux_finals.len() != shape.aux_width {
                    Some(Err(108))
                } else {
                    random_verdict(opened_values, shape)
                }
            },
        }
    } else if opened_values.aux_trace_local is Some {
        Some(Err(109))
    } else if opened_values.aux_trace_next is Some {
        Some(Err(110))
    } else if aux_finals.len() != 0 {
        Some(Err(111))
    } else {
        random_verdict(opened_values, shape)
    }
}

/// The values of the polynomial that hides the others, where there are any, are one for each
/// coordinate.
pub open spec fn random_verdict<EF>(
    opened_values: OpenedValues<EF>,
    shape: ExpectedShape,
) -> Option<Result<(), u8>> {
    if opened_values.random is Some && opened_values.random->0@.len() != shape.dimension {
        Some(Err(3))
    } else {
        Some(Ok(()))
    }
}

/// The values are as many as are expected, of every kind.
pub open spec fn valid_shape<EF>(
    opened_values: OpenedValues<EF>,
    aux_finals: Seq<EF>,
    shape: ExpectedShape,
) -> bool {
    &&& opened_values.trace_local@.len() == shape.air_width
    &&& opened_values.trace_next@.len() == shape.air_width
    &&& opened_values.quotient_chunks@.len() == shape.quotient_degree
    &&& chunks_full(opened_values.quotient_chunks@, shape.dimension)
    &&& opened_values.random is Some ==> opened_values.random->0@.len() == shape.dimension
    &&& if shape.num_randomness > 0 {
        &&& opened_values.aux_trace_local is Some
        &&& opened_values.aux_trace_next is Some
        &&& opened_values.aux_trace_local->0@.len() == aux_width_base(shape)
        &&& opened_values.aux_trace_next->0@.len() == aux_width_base(shape)
        &&& aux_finals.len() == shape.aux_width
    } else {
        &&& opened_values.aux_trace_local is None
        &&& opened_values.aux_trace_next is None
        &&& aux_finals.len() == 0
    }
}

/// The values are found to be as many as are expected exactly where they are.
pub proof fn law_shape<EF>(
    opened_values: OpenedValues<EF>,
    aux_finals: Seq<EF>,
    shape: ExpectedShape,
)
    ensures
        is_ok(shape_verdict(opened_values, aux_finals, shape)) <==> valid_shape(
            opened_values,
            aux_finals,
            shape,
        ),
{
    assert(opened_values.aux_trace_local is Some ==> opened_values.aux_trace_local->0.len()
        <= usize::MAX);
}

/// Checks the numbers of values, one after the other, or answers none where the number of auxiliary
/// values is needed and is not a machine word.
pub fn check_shape<EF>(
    opened_values: &OpenedValues<EF>,
    aux_finals: &Vec<EF>,
    shape: &ExpectedShape,
) -> (r: Option<Result<(), u8>>)
    ensures
        r == shape_verdict(*opened_values, aux_finals@, *shape),
        is_ok(r) <==> valid_shape(*opened_values, aux_finals@, *shape),
{
    proof {
        law_shape(*opened_values, aux_finals@, *shape);
    }
    if opened_values.trace_local.len() != shape.air_width {
        return Some(Err(100));
    }
    if opened_values.trace_next.len() != shape.air_width {
        return Some(Err(101));
    }
    if opened_values.quotient_chunks.len() != shape.quotient_degree {
        return Some(Err(102));
    }
    if !all_chunks_full(&opened_values.quotient_chunks, shape.dimension) {
        return Some(Err(103));
    }
    if shape.num_randomness > 0 {
        let (local, next): (&Vec<EF>, &Vec<EF>) = match (
            &opened_values.aux_trace_local,
            &opened_values.aux_trace_next,
        ) {
            (None, _) => {
                return Some(Err(104));
            },
            (_, None) => {
                return Some(Err(105));
            },
            (Some(local), Some(next)) => (local, next),
        };
        let aux_width_base: usize = match shape.aux_width.checked_mul(shape.dimension) {
            Some(width) => width,
            None => {
                return None;
            },
        };
        if local.len() != aux_width_base {
            return Some(Err(106));
        }
        if next.len() != aux_width_base {
            return Some(Err(107));
        }
        if aux_finals.len() != shape.aux_width {
            return Some(Err(108));
        }
    } else {
        if opened_values.aux_trace_local.is_some() {
            return Some(Err(109));
        }
        if opened_values.aux_trace_next.is_some() {
            return Some(Err(110));
        }
        if aux_finals.len() != 0 {
            return Some(Err(111));
        }
    }
    match &opened_values.random {
        Some(values) => {
            if values.len() != shape.dimension {
                return Some(Err(3));
            }
        },
        None => {},
    }
    Some(Ok(()))
}

fn all_chunks_full<EF>(chunks: &Vec<Vec<EF>>, dimension: usize) -> (r: bool)
    ensures
        r == chunks_full(chunks@, dimension),
{
    let n: usize = chunks.len();
    for i in 0..n
        invariant
            n == chunks@.len(),
            forall|j: int| 0 <= j < i ==> (#[trigger] chunks@[j])@.len() == dimension,
    {
        if chunks[i].len() != dimension {
            return false;
        }
    }
    true
}

} // verus!
