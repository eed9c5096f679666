//! The domains of the trace and of the chunks of the quotient.

use vstd::prelude::*;
use crate::air::MidenAir;
use crate::config::StarkGenericConfig;
use crate::domain::PolynomialSpace;

verus! {

/// The domains that a proof speaks of, beside that of its trace.
pub struct Layout<D> {
    /// The domain of the trace before it was lengthened to hide it.
    pub init_trace_domain: D,
    /// The number of chunks of the quotient.
    pub quotient_degree: usize,
    pub quotient_chunks_domains: Vec<D>,
    /// The domains under which the chunks were committed to.
    pub randomized_quotient_chunks_domains: Vec<D>,
}

/// The contents of a layout.
pub struct LayoutModel<D> {
    pub init_trace_domain: D,
    pub quotient_degree: usize,
    pub chunks: Seq<D>,
    pub randomized: Seq<D>,
}

impl<D> View for Layout<D> {
    type V = LayoutModel<D>;

    open spec fn view(&self) -> LayoutModel<D> {
        LayoutModel {
            init_trace_domain: self.init_trace_domain,
            quotient_degree: self.quotient_degree,
            chunks: self.quotient_chunks_domains@,
            randomized: self.randomized_quotient_chunks_domains@,
        }
    }
}

/// The domain under which the chunk on `domain` was committed to, where there is one.
pub open spec fn randomized_domain<SC: StarkGenericConfig>(
    config: SC,
    domain: SC::Domain,
) -> Option<SC::Domain> {
    config.natural_domain_spec(domain.size_spec() << config.is_zk_spec())
}

/// The domains under which the chunks were committed to, where each has one.
pub open spec fn randomized_domains<SC: StarkGenericConfig>(
    config: SC,
    chunks: Seq<SC::Domain>,
) -> Option<Seq<SC::Domain>> {
    if forall|i: int|
        0 <= i < chunks.len() ==> randomized_domain::<SC>(config, #[trigger] chunks[i]) is Some {
        Some(
            Seq::new(chunks.len(), |i: int| randomized_domain::<SC>(config, chunks[i])->0),
        )
    } else {
        None
    }
}

/// The logarithm of the number of chunks, before the lengthening that hides the trace.
pub open spec fn log_quotient_degree<SC: StarkGenericConfig, A: MidenAir<SC>>(
    config: SC,
    air: A,
    preprocessed_width: usize,
    num_public_values: usize,
) -> usize {
    air.log_quotient_degree_spec(
        preprocessed_width,
        num_public_values,
        config.is_zk_spec(),
        air.aux_width_spec(),
        air.num_randomness_spec(),
    )
}

/// The layout of a proof for a trace of length `1 << degree_bits`: the quotient lives on a domain
/// apart from that of the trace, and is divided into as many chunks as the constraints need. There
/// is none where a domain is too large to exist.
pub open spec fn layout_spec<SC: StarkGenericConfig, A: MidenAir<SC>>(
    config: SC,
    air: A,
    degree_bits: usize,
    trace_domain: SC::Domain,
    preprocessed_width: usize,
    num_public_values: usize,
) -> Option<LayoutModel<SC::Domain>> {
    let zk = config.is_zk_spec();
    let log = log_quotient_degree::<SC, A>(config, air, preprocessed_width, num_public_values);
    if zk >= usize::BITS || log + zk >= usize::BITS || degree_bits + log >= usize::BITS {
        None
    } else {
        let quotient_degree = 1usize << ((log + zk) as usize);
        match (
            config.natural_domain_spec((1usize << degree_bits) >> zk),
            trace_domain.disjoint_domain_spec(1usize << ((degree_bits + log) as usize)),
        ) {
            (Some(init_trace_domain), Some(quotient_domain)) => match quotient_domain.split_spec(
                quotient_degree,
            ) {
                Some(chunks) => match randomized_domains::<SC>(config, chunks) {
                    Some(randomized) => Some(
                        LayoutModel { init_trace_domain, quotient_degree, chunks, randomized },
                    ),
                    None => None,
                },
                None => None,
            },
            _ => None,
        }
    }
}

/// The domains under which the chunks were committed to.
fn plan_randomized<SC: StarkGenericConfig>(
    config: &SC,
    chunks: &Vec<SC::Domain>,
    zk: usize,
) -> (r: Option<Vec<SC::Domain>>)
    requires
        zk == config.is_zk_spec(),
        zk < usize::BITS,
    ensures
        r is Some <==> randomized_domains::<SC>(*config, chunks@) is Some,
        r is Some ==> Some(r->0@) == randomized_domains::<SC>(*config, chunks@),
{
    let mut randomized: Vec<SC::Domain> = Vec::new();
    let n: usize = chunks.len();
    for i in 0..n
        invariant
            n == chunks@.len(),
            zk == config.is_zk_spec(),
            zk < usize::BITS,
            randomized@.len() == i,
            forall|j: int|
                0 <= j < i ==> randomized_domain::<SC>(*config, #[trigger] chunks@[j]) == Some(
                    randomized@[j],
                ),
    {
        match config.natural_domain_for_degree(chunks[i].size() << zk) {
            Some(domain) => {
                randomized.push(domain);
            },
            None => {
                assert(randomized_domain::<SC>(*config, chunks@[i as int]) is None);
                return None;
            },
        }
    }
    assert(randomized@ == randomized_domains::<SC>(*config, chunks@)->0);
    Some(randomized)
}

/// Lays out the domains of a proof, or answers none where one of them does not exist.
pub fn plan_layout<SC: StarkGenericConfig, A: MidenAir<SC>>(
    config: &SC,
    air: &A,
    degree_bits: usize,
    trace_domain: SC::Domain,
    preprocessed_width: usize,
    num_public_values: usize,
) -> (r: Option<Layout<SC::Domain>>)
    ensures
        r is Some <==> layout_spec::<SC, A>(
            *config,
            *air,
            degree_bits,
            trace_domain,
            preprocessed_width,
            num_public_values,
        ) is Some,
        r is Some ==> Some(r->0@) == layout_spec::<SC, A>(
            *config,
            *air,
            degree_bits,
            trace_domain,
            preprocessed_width,
            num_public_values,
        ),
        r matches Some(layout) ==> {
            let zk = config.is_zk_spec();
            let log = air.log_quotient_degree_spec(
                preprocessed_width,
                num_public_values,
                config.is_zk_spec(),
                air.aux_width_spec(),
                air.num_randomness_spec(),
            );
            &&& layout.quotient_degree == 1usize << ((log + zk) as usize)
            &&& trace_domain.disjoint_domain_spec(
                1usize << ((degree_bits + log) as usize),
            )->0.split_spec(layout.quotient_degree) == Some(layout.quotient_chunks_domains@)
            &&& config.natural_domain_spec((1usize << degree_bits) >> zk) == Some(
                layout.init_trace_domain,
            )
        },
{
    let zk: usize = config.is_zk();
    let bits: usize = usize::BITS as usize;
    let log: usize = air.log_quotient_degree(
        preprocessed_width,
        num_public_values,
        zk,
        air.aux_width(),
        air.num_randomness(),
    );
    if zk >= bits || log >= bits || degree_bits >= bits || log + zk >= bits || degree_bits + log
        >= bits {
        return None;
    }
    let quotient_degree: usize = 1usize << (log + zk);
    let init_trace_domain: SC::Domain = match config.natural_domain_for_degree(
        (1usize << degree_bits) >> zk,
    ) {
        Some(domain) => domain,
        None => {
            return None;
        },
    };
    let quotient_domain: SC::Domain = match trace_domain.create_disjoint_domain(
        1usize << (degree_bits + log),
    ) {
        Some(domain) => domain,
        None => {
            return None;
        },
    };
    let chunks: Vec<SC::Domain> = match quotient_domain.split_domains(quotient_degree) {
        Some(chunks) => chunks,
        None => {
            return None;
        },
    };
    let randomized: Vec<SC::Domain> = match plan_randomized(config, &chunks, zk) {
        Some(domains) => domains,
        None => {
            return None;
        },
    };
    Some(
        Layout {
            init_trace_domain,
            quotient_degree,
            quotient_chunks_domains: chunks,
            randomized_quotient_chunks_domains: randomized,
        },
    )
}

} // verus!
