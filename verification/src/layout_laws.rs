//! The domains of a proof, and the preprocessed trace, in terms of the statement.

use vstd::prelude::*;
use crate::air::MidenAir;
use crate::config::StarkGenericConfig;
use crate::domain::PolynomialSpace;
use crate::error::VerificationError;
use crate::layout::{Layout, layout_spec};
use crate::preprocessed::preprocessed_verdict;
use crate::stark_proof::OpenedValues;

verus! {

/// A layout stands for the domains that it holds, each under its own name.
pub proof fn law_layout_view<D>(layout: Layout<D>)
    ensures
        layout@.init_trace_domain == layout.init_trace_domain,
        layout@.quotient_degree == layout.quotient_degree,
        layout@.chunks == layout.quotient_chunks_domains@,
        layout@.randomized == layout.randomized_quotient_chunks_domains@,
{
}

/// A layout has `1 << (log + zk)` chunks, which are the parts of the domain of size
/// `1 << (degree_bits + log)` that is disjoint from the trace domain, where `zk` is by how many
/// bits the trace is lengthened and `log` is what the AIR answers for this preprocessed width, this
/// number of public values, `zk`, and its own numbers of auxiliary columns and challenges. Each
/// chunk was committed to on the natural domain of its size, lengthened by `zk` bits, and the
/// constraints live on that of the length of the trace, shortened by as many.
pub proof fn law_layout<SC: StarkGenericConfig, A: MidenAir<SC>>(
    config: SC,
    air: A,
    degree_bits: usize,
    trace_domain: SC::Domain,
    preprocessed_width: usize,
    num_public_values: usize,
)
    ensures
        layout_spec::<SC, A>(
            config,
            air,
            degree_bits,
            trace_domain,
            preprocessed_width,
            num_public_values,
        ) matches Some(layout) ==> {
            let zk = config.is_zk_spec();
            let log = air.log_quotient_degree_spec(
                preprocessed_width,
                num_public_values,
                config.is_zk_spec(),
                air.aux_width_spec(),
                air.num_randomness_spec(),
            );
            &&& zk < usize::BITS
            &&& log + zk < usize::BITS
            &&& degree_bits + log < usize::BITS
            &&& layout.quotient_degree == 1usize << ((log + zk) as usize)
            &&& config.natural_domain_spec((1usize << degree_bits) >> zk) == Some(
                layout.init_trace_domain,
            )
            &&& trace_domain.disjoint_domain_spec(1usize << ((degree_bits + log) as usize)) is Some
            &&& trace_domain.disjoint_domain_spec(
                1usize << ((degree_bits + log) as usize),
            )->0.split_spec(1usize << ((log + zk) as usize)) == Some(layout.chunks)
            &&& layout.randomized.len() == layout.chunks.len()
            &&& forall|i: int|
                0 <= i < layout.chunks.len() ==> config.natural_domain_spec(
                    (#[trigger] layout.chunks[i]).size_spec() << zk,
                ) == Some(layout.randomized[i])
        },
{
}

/// There is a layout exactly where each of its domains exists, and no shift is as long as a word.
pub proof fn law_layout_exists<SC: StarkGenericConfig, A: MidenAir<SC>>(
    config: SC,
    air: A,
    degree_bits: usize,
    trace_domain: SC::Domain,
    preprocessed_width: usize,
    num_public_values: usize,
)
    ensures
        layout_spec::<SC, A>(
            config,
            air,
            degree_bits,
            trace_domain,
            preprocessed_width,
            num_public_values,
        ) is Some <==> {
            let zk = config.is_zk_spec();
            let log = air.log_quotient_degree_spec(
                preprocessed_width,
                num_public_values,
                config.is_zk_spec(),
                air.aux_width_spec(),
                air.num_randomness_spec(),
            );
            let quotient_domain = trace_domain.disjoint_domain_spec(
                1usize << ((degree_bits + log) as usize),
            );
            let chunks = quotient_domain->0.split_spec(1usize << ((log + zk) as usize));
            &&& zk < usize::BITS
            &&& log + zk < usize::BITS
            &&& degree_bits + log < usize::BITS
            &&& config.natural_domain_spec((1usize << degree_bits) >> zk) is Some
            &&& quotient_domain is Some
            &&& chunks is Some
            &&& forall|i: int|
                0 <= i < chunks->0.len() ==> config.natural_domain_spec(
                    (#[trigger] chunks->0[i]).size_spec() << zk,
                ) is Some
        },
{
}

/// The preprocessed trace is refused under number two exactly where the proof opens one of its rows
/// to another number of values than it has columns, none counting as zero. Otherwise a trace
/// without columns has no commitment; one with columns has the commitment to its values over the
/// trace domain, and nothing is said of it where it is to be hidden or does not fill the domain.
pub proof fn law_preprocessed<SC: StarkGenericConfig, A: MidenAir<SC>>(
    config: SC,
    air: A,
    opened_values: OpenedValues<SC::Challenge>,
    trace_domain: SC::Domain,
)
    ensures
        ({
            let said = preprocessed_verdict::<SC, A>(config, air, opened_values, trace_domain);
            let (values, width) = match air.preprocessed_spec() {
                Some(trace) => trace,
                None => (Seq::<SC::Val>::empty(), 0usize),
            };
            let local = match opened_values.preprocessed_local {
                Some(v) => v@.len(),
                None => 0nat,
            };
            let next = match opened_values.preprocessed_next {
                Some(v) => v@.len(),
                None => 0nat,
            };
            let fits = config.is_zk_spec() == 0 && values.len() / (width as nat)
                == trace_domain.size_spec();
            &&& (said is Some && said->0 is Err) <==> local != width || next != width
            &&& said is Some && said->0 is Err ==> said->0->Err_0 == VerificationError::<
                SC::PcsError,
            >::MyError(2)
            &&& said is None <==> local == width && next == width && width > 0 && !fits
            &&& said is Some && said->0 is Ok && width == 0 ==> said->0->Ok_0 == (
                0usize,
                None::<SC::Commitment>,
            )
            &&& said is Some && said->0 is Ok && width > 0 ==> said->0->Ok_0 == (
                width,
                Some(config.commitment_spec(trace_domain, values, width)),
            )
        }),
{
}

} // verus!
