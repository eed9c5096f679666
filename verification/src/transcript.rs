//! What goes through the challenger, in order, and the challenges that come of it.

use vstd::prelude::*;
use crate::config::{StarkGenericConfig, Transcript, TranscriptItem};
use crate::field::Field;
use crate::stark_proof::Proof;

verus! {

/// The transcript that a proof system keeps.
pub type TranscriptOf<SC> = Transcript<
    <SC as StarkGenericConfig>::Val,
    <SC as StarkGenericConfig>::Challenge,
    <SC as StarkGenericConfig>::Commitment,
>;

/// A commitment that is there is observed; one that is not leaves no trace.
pub open spec fn optional_commitment<F, EF, Com>(commitment: Option<Com>) -> Transcript<
    F,
    EF,
    Com,
> {
    match commitment {
        Some(c) => seq![TranscriptItem::Commitment(c)],
        None => Seq::empty(),
    }
}

/// That many challenges were drawn.
pub open spec fn draws<F, EF, Com>(n: nat) -> Transcript<F, EF, Com> {
    Seq::new(n, |i: int| TranscriptItem::Draw)
}

/// Values of the base field were observed, one after the other.
pub open spec fn values_observed<F, EF, Com>(values: Seq<F>) -> Transcript<F, EF, Com> {
    values.map_values(|v: F| TranscriptItem::Value(v))
}

/// Values of the extension were observed, one after the other.
pub open spec fn elements_observed<F, EF, Com>(elements: Seq<EF>) -> Transcript<F, EF, Com> {
    elements.map_values(|e: EF| TranscriptItem::Element(e))
}

/// The instance is observed first: the length of the trace, with and without the part that hides
/// it, the width and the commitment of the preprocessed trace, the commitment to the trace, and
/// the public values.
pub open spec fn instance_transcript<SC: StarkGenericConfig>(
    config: SC,
    prf: Proof<SC>,
    preprocessed_width: usize,
    preprocessed_commit: Option<SC::Commitment>,
    public_values: Seq<SC::Val>,
) -> TranscriptOf<SC> {
    seq![
        TranscriptItem::Value(SC::Val::from_nat_spec(prf.degree_bits as nat)),
        TranscriptItem::Value(
            SC::Val::from_nat_spec((prf.degree_bits - config.is_zk_spec()) as nat),
        ),
        TranscriptItem::Value(SC::Val::from_nat_spec(preprocessed_width as nat)),
        TranscriptItem::Commitment(prf.commitments.trace),
    ] + optional_commitment(preprocessed_commit) + values_observed(public_values)
}

/// The challenges of the auxiliary trace are drawn after the instance, one after the other.
pub open spec fn randomness_spec<SC: StarkGenericConfig>(
    config: SC,
    instance: TranscriptOf<SC>,
    n: nat,
) -> Seq<SC::Challenge> {
    Seq::new(n, |i: int| config.draw_spec(instance + draws(i as nat)))
}

/// Where there is an auxiliary trace, its commitment and its last values are observed after its
/// challenges were drawn.
pub open spec fn aux_transcript<SC: StarkGenericConfig>(
    prf: Proof<SC>,
    instance: TranscriptOf<SC>,
    n: nat,
) -> TranscriptOf<SC> {
    if n == 0 {
        instance
    } else {
        instance + draws(n) + optional_commitment(prf.commitments.aux) + elements_observed(
            prf.aux_finals@,
        )
    }
}

/// After the challenge that combines the constraints was drawn, the commitments to the quotient
/// and to the polynomial that hides the others are observed.
pub open spec fn quotient_transcript<SC: StarkGenericConfig>(
    prf: Proof<SC>,
    aux: TranscriptOf<SC>,
) -> TranscriptOf<SC> {
    aux.push(TranscriptItem::Draw).push(
        TranscriptItem::Commitment(prf.commitments.quotient_chunks),
    ) + optional_commitment(prf.commitments.random)
}

/// Observes the instance.
pub fn observe_instance<SC: StarkGenericConfig>(
    config: &SC,
    challenger: &mut SC::Challenger,
    prf: &Proof<SC>,
    preprocessed_width: usize,
    preprocessed_commit: &Option<SC::Commitment>,
    public_values: &[SC::Val],
)
    requires
        config.is_zk_spec() <= prf.degree_bits,
        config.transcript(*old(challenger)) == Seq::<
            TranscriptItem<SC::Val, SC::Challenge, SC::Commitment>,
        >::empty(),
    ensures
        config.transcript(*final(challenger)) == instance_transcript::<SC>(
            *config,
            *prf,
            preprocessed_width,
            *preprocessed_commit,
            public_values@,
        ),
{
    config.observe(challenger, SC::Val::from_usize(prf.degree_bits));
    config.observe(challenger, SC::Val::from_usize(prf.degree_bits - config.is_zk()));
    config.observe(challenger, SC::Val::from_usize(preprocessed_width));
    config.observe_commitment(challenger, &prf.commitments.trace);
    match preprocessed_commit {
        Some(c) => {
            config.observe_commitment(challenger, c);
        },
        None => {},
    }
    let ghost before = config.transcript(*challenger);
    let ghost items: TranscriptOf<SC> = values_observed(public_values@);
    let n: usize = public_values.len();
    for i in 0..n
        invariant
            n == public_values@.len(),
            items == values_observed::<SC::Val, SC::Challenge, SC::Commitment>(public_values@),
            config.transcript(*challenger) == before + items.take(i as int),
    {
        config.observe(challenger, public_values[i]);
        assert(items.take(i + 1) == items.take(i as int).push(items[i as int]));
    }
    assert(items.take(n as int) == items);
}

/// Draws the challenges of the auxiliary trace.
pub fn draw_randomness<SC: StarkGenericConfig>(
    config: &SC,
    challenger: &mut SC::Challenger,
    num_randomness: usize,
) -> (r: Vec<SC::Challenge>)
    ensures
        r@ == randomness_spec::<SC>(
            *config,
            config.transcript(*old(challenger)),
            num_randomness as nat,
        ),
        config.transcript(*final(challenger)) == config.transcript(*old(challenger)) + draws(
            num_randomness as nat,
        ),
{
    let ghost before = config.transcript(*challenger);
    let mut randomness: Vec<SC::Challenge> = Vec::new();
    for i in 0..num_randomness
        invariant
            config.transcript(*challenger) == before + draws(i as nat),
            randomness@ == randomness_spec::<SC>(*config, before, i as nat),
    {
        let challenge: SC::Challenge = config.sample_algebra_element(challenger);
        randomness.push(challenge);
    }
    randomness
}

/// Observes the auxiliary trace.
pub fn observe_aux<SC: StarkGenericConfig>(
    config: &SC,
    challenger: &mut SC::Challenger,
    aux_commit: &SC::Commitment,
    aux_finals: &Vec<SC::Challenge>,
)
    ensures
        config.transcript(*final(challenger)) == config.transcript(*old(challenger))
            + optional_commitment(Some(*aux_commit)) + elements_observed(aux_finals@),
{
    config.observe_commitment(challenger, aux_commit);
    let ghost before = config.transcript(*challenger);
    let ghost items: TranscriptOf<SC> = elements_observed(aux_finals@);
    let n: usize = aux_finals.len();
    for i in 0..n
        invariant
            n == aux_finals@.len(),
            items == elements_observed::<SC::Val, SC::Challenge, SC::Commitment>(aux_finals@),
            config.transcript(*challenger) == before + items.take(i as int),
    {
        config.observe_algebra_element(challenger, aux_finals[i]);
        assert(items.take(i + 1) == items.take(i as int).push(items[i as int]));
    }
    assert(items.take(n as int) == items);
}

/// Observes what was committed to after the constraints were combined.
pub fn observe_quotient<SC: StarkGenericConfig>(
    config: &SC,
    challenger: &mut SC::Challenger,
    prf: &Proof<SC>,
)
    ensures
        config.transcript(*final(challenger)) == config.transcript(*old(challenger)).push(
            TranscriptItem::Commitment(prf.commitments.quotient_chunks),
        ) + optional_commitment(prf.commitments.random),
{
    config.observe_commitment(challenger, &prf.commitments.quotient_chunks);
    match &prf.commitments.random {
        Some(c) => {
            config.observe_commitment(challenger, c);
        },
        None => {},
    }
}

} // verus!
