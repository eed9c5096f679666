//! The transcript of a proof, item by item, and where each challenge is drawn from it.

use vstd::prelude::*;
use crate::air::MidenAir;
use crate::config::{StarkGenericConfig, Transcript, TranscriptItem};
use crate::field::Field;
use crate::stark_proof::Proof;
use crate::transcript::{
    aux_transcript, draws, elements_observed, instance_transcript, optional_commitment,
    quotient_transcript, values_observed,
};
use crate::verification::{Instance, challenges_spec};

verus! {

/// Each thing that is observed or drawn leaves one item, in order; a commitment that is not there
/// leaves none.
pub proof fn law_items<F, EF, Com>(commitment: Com, n: nat, values: Seq<F>, elements: Seq<EF>)
    ensures
        optional_commitment::<F, EF, Com>(None).len() == 0,
        optional_commitment::<F, EF, Com>(Some(commitment)).len() == 1,
        optional_commitment::<F, EF, Com>(Some(commitment))[0] == TranscriptItem::<
            F,
            EF,
            Com,
        >::Commitment(commitment),
        draws::<F, EF, Com>(n).len() == n,
        forall|i: int|
            0 <= i < n ==> #[trigger] draws::<F, EF, Com>(n)[i] == TranscriptItem::<
                F,
                EF,
                Com,
            >::Draw,
        values_observed::<F, EF, Com>(values).len() == values.len(),
        forall|i: int|
            0 <= i < values.len() ==> #[trigger] values_observed::<F, EF, Com>(values)[i]
                == TranscriptItem::<F, EF, Com>::Value(values[i]),
        elements_observed::<F, EF, Com>(elements).len() == elements.len(),
        forall|i: int|
            0 <= i < elements.len() ==> #[trigger] elements_observed::<F, EF, Com>(elements)[i]
                == TranscriptItem::<F, EF, Com>::Element(elements[i]),
{
}

/// The instance leaves, in this order: the logarithms of the lengths of the trace, with and without
/// the part that hides it; the width of the preprocessed trace; the commitments to the trace and,
/// where there is one, to the preprocessed trace; and every public value.
pub proof fn law_instance_items<SC: StarkGenericConfig>(
    config: SC,
    prf: Proof<SC>,
    preprocessed_width: usize,
    preprocessed_commit: Option<SC::Commitment>,
    public_values: Seq<SC::Val>,
)
    ensures
        ({
            let t = instance_transcript::<SC>(
                config,
                prf,
                preprocessed_width,
                preprocessed_commit,
                public_values,
            );
            let k: int = if preprocessed_commit is Some {
                1
            } else {
                0
            };
            &&& t.len() == 4 + k + public_values.len()
            &&& t[0] == TranscriptItem::<SC::Val, SC::Challenge, SC::Commitment>::Value(
                SC::Val::from_nat_spec(prf.degree_bits as nat),
            )
            &&& t[1] == TranscriptItem::<SC::Val, SC::Challenge, SC::Commitment>::Value(
                SC::Val::from_nat_spec((prf.degree_bits - config.is_zk_spec()) as nat),
            )
            &&& t[2] == TranscriptItem::<SC::Val, SC::Challenge, SC::Commitment>::Value(
                SC::Val::from_nat_spec(preprocessed_width as nat),
            )
            &&& t[3] == TranscriptItem::<SC::Val, SC::Challenge, SC::Commitment>::Commitment(
                prf.commitments.trace,
            )
            &&& preprocessed_commit matches Some(c) ==> t[4] == TranscriptItem::<
                SC::Val,
                SC::Challenge,
                SC::Commitment,
            >::Commitment(c)
            &&& forall|i: int|
                4 + k <= i < t.len() ==> #[trigger] t[i] == TranscriptItem::<
                    SC::Val,
                    SC::Challenge,
                    SC::Commitment,
                >::Value(public_values[i - 4 - k])
        }),
{
}

/// After the instance, where there is an auxiliary trace, come its draws, its commitment, and every
/// one of its last values; where there is none, nothing.
pub proof fn law_aux_items<SC: StarkGenericConfig>(
    prf: Proof<SC>,
    instance: Transcript<SC::Val, SC::Challenge, SC::Commitment>,
    n: nat,
)
    ensures
        n == 0 ==> aux_transcript::<SC>(prf, instance, n) == instance,
        n > 0 ==> {
            let t = aux_transcript::<SC>(prf, instance, n);
            let s = instance.len() as int;
            let c: int = if prf.commitments.aux is Some {
                1
            } else {
                0
            };
            &&& t.len() == s + n + c + prf.aux_finals@.len()
            &&& t.take(s) == instance
            &&& forall|i: int|
                s <= i < s + n ==> #[trigger] t[i] == TranscriptItem::<
                    SC::Val,
                    SC::Challenge,
                    SC::Commitment,
                >::Draw
            &&& prf.commitments.aux matches Some(commitment) ==> t[s + n] == TranscriptItem::<
                SC::Val,
                SC::Challenge,
                SC::Commitment,
            >::Commitment(commitment)
            &&& forall|i: int|
                s + n + c <= i < t.len() ==> #[trigger] t[i] == TranscriptItem::<
                    SC::Val,
                    SC::Challenge,
                    SC::Commitment,
                >::Element(prf.aux_finals@[i - s - n - c])
        },
{
    if n > 0 {
        assert(aux_transcript::<SC>(prf, instance, n).take(instance.len() as int) == instance);
    }
}

/// Then comes the draw of the challenge that combines the constraints, the commitment to the
/// quotient and, where there is one, that to the polynomial that hides the others.
pub proof fn law_quotient_items<SC: StarkGenericConfig>(
    prf: Proof<SC>,
    aux: Transcript<SC::Val, SC::Challenge, SC::Commitment>,
)
    ensures
        ({
            let t = quotient_transcript::<SC>(prf, aux);
            let s = aux.len() as int;
            let c: int = if prf.commitments.random is Some {
                1
            } else {
                0
            };
            &&& t.len() == s + 2 + c
            &&& t.take(s) == aux
            &&& t[s] == TranscriptItem::<SC::Val, SC::Challenge, SC::Commitment>::Draw
            &&& t[s + 1] == TranscriptItem::<SC::Val, SC::Challenge, SC::Commitment>::Commitment(
                prf.commitments.quotient_chunks,
            )
            &&& prf.commitments.random matches Some(commitment) ==> t[s + 2] == TranscriptItem::<
                SC::Val,
                SC::Challenge,
                SC::Commitment,
            >::Commitment(commitment)
        }),
{
    let t = quotient_transcript::<SC>(prf, aux);
    assert(t.take(aux.len() as int) == aux);
}

/// Every challenge is drawn from what went through the challenger before it, and the transcript
/// holds every part of the statement and the proof that was sent by then: the instance before any
/// challenge, the auxiliary trace and its last values before the challenge that combines the
/// constraints, and the quotient before the out-of-domain point.
pub proof fn law_challenges<SC: StarkGenericConfig, A: MidenAir<SC>>(
    config: SC,
    air: A,
    prf: Proof<SC>,
    public_values: Seq<SC::Val>,
    instance: Instance<SC>,
)
    ensures
        ({
            let challenges = challenges_spec::<SC, A>(config, air, prf, public_values, instance);
            let t = challenges.transcript;
            let n = air.num_randomness_spec() as int;
            let k: int = if instance.preprocessed_commit is Some {
                1
            } else {
                0
            };
            let c: int = if prf.commitments.aux is Some {
                1
            } else {
                0
            };
            let r: int = if prf.commitments.random is Some {
                1
            } else {
                0
            };
            // where the draws of the auxiliary trace begin, where the next challenge is drawn, and
            // where the out-of-domain point is
            let s = 4 + k + public_values.len();
            let p: int = if n > 0 {
                s + n + c + prf.aux_finals@.len()
            } else {
                s as int
            };
            let z = p + 2 + r;
            &&& t.len() == z + 1
            &&& t[0] == TranscriptItem::<SC::Val, SC::Challenge, SC::Commitment>::Value(
                SC::Val::from_nat_spec(prf.degree_bits as nat),
            )
            &&& t[1] == TranscriptItem::<SC::Val, SC::Challenge, SC::Commitment>::Value(
                SC::Val::from_nat_spec((prf.degree_bits - config.is_zk_spec()) as nat),
            )
            &&& t[2] == TranscriptItem::<SC::Val, SC::Challenge, SC::Commitment>::Value(
                SC::Val::from_nat_spec(instance.preprocessed_width as nat),
            )
            &&& t[3] == TranscriptItem::<SC::Val, SC::Challenge, SC::Commitment>::Commitment(
                prf.commitments.trace,
            )
            &&& instance.preprocessed_commit matches Some(commitment) ==> t[4]
                == TranscriptItem::<SC::Val, SC::Challenge, SC::Commitment>::Commitment(commitment)
            &&& forall|i: int|
                4 + k <= i < s ==> #[trigger] t[i] == TranscriptItem::<
                    SC::Val,
                    SC::Challenge,
                    SC::Commitment,
                >::Value(public_values[i - 4 - k])
            &&& n > 0 ==> {
                &&& forall|i: int|
                    s <= i < s + n ==> #[trigger] t[i] == TranscriptItem::<
                        SC::Val,
                        SC::Challenge,
                        SC::Commitment,
                    >::Draw
                &&& prf.commitments.aux matches Some(commitment) ==> t[s + n]
                    == TranscriptItem::<SC::Val, SC::Challenge, SC::Commitment>::Commitment(
                    commitment,
                )
                &&& forall|i: int|
                    s + n + c <= i < p ==> #[trigger] t[i] == TranscriptItem::<
                        SC::Val,
                        SC::Challenge,
                        SC::Commitment,
                    >::Element(prf.aux_finals@[i - s - n - c])
            }
            &&& t[p] == TranscriptItem::<SC::Val, SC::Challenge, SC::Commitment>::Draw
            &&& t[p + 1] == TranscriptItem::<SC::Val, SC::Challenge, SC::Commitment>::Commitment(
                prf.commitments.quotient_chunks,
            )
            &&& prf.commitments.random matches Some(commitment) ==> t[p + 2] == TranscriptItem::<
                SC::Val,
                SC::Challenge,
                SC::Commitment,
            >::Commitment(commitment)
            &&& t[z] == TranscriptItem::<SC::Val, SC::Challenge, SC::Commitment>::Draw
            &&& challenges.randomness.len() == n
            &&& forall|i: int|
                0 <= i < n ==> #[trigger] challenges.randomness[i] == config.draw_spec(
                    t.take(s + i),
                )
            &&& challenges.alpha == config.draw_spec(t.take(p))
            &&& challenges.zeta == config.draw_spec(t.take(z))
        }),
{
    let challenges = challenges_spec::<SC, A>(config, air, prf, public_values, instance);
    let t = challenges.transcript;
    let n = air.num_randomness_spec() as nat;
    let t_instance = instance_transcript::<SC>(
        config,
        prf,
        instance.preprocessed_width,
        instance.preprocessed_commit,
        public_values,
    );
    let t_aux = aux_transcript::<SC>(prf, t_instance, n);
    let t_quotient = quotient_transcript::<SC>(prf, t_aux);
    law_instance_items::<SC>(
        config,
        prf,
        instance.preprocessed_width,
        instance.preprocessed_commit,
        public_values,
    );
    law_aux_items::<SC>(prf, t_instance, n);
    law_quotient_items::<SC>(prf, t_aux);
    let s = t_instance.len() as int;
    assert(t.drop_last() == t_quotient);
    assert(t.take(t_quotient.len() as int) == t_quotient);
    assert(t.take(t_aux.len() as int) == t_aux) by {
        assert(t.take(t_aux.len() as int) == t_quotient.take(t_aux.len() as int));
    }
    assert forall|i: int| 0 <= i < s implies #[trigger] t[i] == t_instance[i] by {
        assert(t[i] == t.take(t_aux.len() as int)[i]);
        if n > 0 {
            assert(t_aux.take(s)[i] == t_aux[i]);
        }
    }
    assert forall|i: int| 0 <= i < t_aux.len() implies #[trigger] t[i] == t_aux[i] by {
        assert(t[i] == t.take(t_aux.len() as int)[i]);
    }
    assert forall|i: int| 0 <= i < n implies #[trigger] challenges.randomness[i]
        == config.draw_spec(t.take(s + i)) by {
        assert(t.take(s + i) == t_instance + draws(i as nat));
    }
}

} // verus!
