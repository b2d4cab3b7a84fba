//! The instrument model: generator constructors and the fixed flute patch.
//!
//! A flute voice for a note is a stack of five harmonics (frequency ratios
//! 1..=5 at falling amplitudes, all scaled by the velocity), mixed with a
//! little breath noise, the whole shaped by a four-segment envelope.
//! Construction validates all parameters (a zero sample rate, a velocity
//! outside [0, 1], a partial above the representable frequency range fail
//! fast with a [`ConfigurationError`]); sample generation never fails.

use vstd::prelude::*;
use vstd::arithmetic::div_mod::lemma_div_nonincreasing;
use vstd::arithmetic::mul::{lemma_mul_inequality, lemma_mul_strict_inequality};
use vstd::pervasive::unreached;
use crate::ConfigurationError;
use crate::envelope::EnvelopeStage;
use crate::fixed::{bounded, spec_q_mul, q_mul};
use crate::node::{Node, wf_node};

verus! {

/// Upper limit on a note's fundamental, in milli-hertz.
pub const MAX_NOTE_FREQ_MILLIHZ: u64 = 1099511627776;

/// Upper limit on a note's length: one hour, in milliseconds.
pub const MAX_NOTE_LENGTH_MS: u64 = 3600000;

/// Upper limit on a session's sample rate, in hertz.
pub const MAX_SAMPLE_RATE: u32 = 1000000;

/// A note to be synthesized: fundamental frequency in milli-hertz, length
/// in milliseconds, velocity as a Q16 gain in [0, 1.0]. Immutable once a
/// voice is built from it.
#[derive(Clone, Copy, PartialEq, Eq, Structural, Debug)]
pub struct Note {
    pub freq_millihz: u64,
    pub length_ms: u64,
    pub velocity: u32,
}

/// The oscillator phase increment per sample, as a Q16 fraction of a cycle:
/// `freq / sample_rate`, with the frequency in milli-hertz.
pub open spec fn spec_phase_inc(freq_millihz: int, sample_rate: int) -> int {
    freq_millihz * 65536 / (1000 * sample_rate)
}

/// A freshly built oscillator node (phase starts at zero).
pub open spec fn spec_osc_node(freq_millihz: int, amplitude: i64, sample_rate: int) -> Node {
    Node::Oscillator {
        amplitude,
        phase: 0,
        phase_inc: spec_phase_inc(freq_millihz, sample_rate) as u64,
    }
}

/// What [`oscillator`] returns: an error for a zero sample rate or a
/// frequency at or above 1000 times the sample rate (the phase increment
/// would reach a full cycle), otherwise the oscillator node.
pub open spec fn spec_oscillator_res(
    freq_millihz: int,
    amplitude: i64,
    sample_rate: int,
) -> Result<Node, ConfigurationError> {
    if sample_rate == 0 {
        Err(ConfigurationError::ZeroSampleRate)
    } else if freq_millihz >= 1000 * sample_rate {
        Err(ConfigurationError::FrequencyOutOfRange)
    } else {
        Ok(spec_osc_node(freq_millihz, amplitude, sample_rate))
    }
}

/// Builds a sine oscillator at the given frequency and amplitude, failing
/// fast on invalid configuration.
pub fn oscillator(freq_millihz: u64, amplitude: i64, sample_rate: u32) -> (r: Result<
    Node,
    ConfigurationError,
>)
    requires
        bounded(amplitude as int),
    ensures
        r == spec_oscillator_res(freq_millihz as int, amplitude, sample_rate as int),
        r matches Ok(n) ==> wf_node(n),
{
    if sample_rate == 0 {
        return Err(ConfigurationError::ZeroSampleRate);
    }
    let limit: u64 = 1000 * (sample_rate as u64);
    if freq_millihz >= limit {
        return Err(ConfigurationError::FrequencyOutOfRange);
    }
    let inc: u64 = freq_millihz * 65536 / limit;
    proof {
        assert((freq_millihz as int) * 65536 < (limit as int) * 65536) by {
            lemma_mul_strict_inequality(freq_millihz as int, limit as int, 65536);
        }
        vstd::arithmetic::div_mod::lemma_multiply_divide_lt(
            (freq_millihz as int) * 65536,
            limit as int,
            65536,
        );
        vstd::arithmetic::div_mod::lemma_div_pos_is_pos((freq_millihz as int) * 65536, limit as int);
    }
    Ok(Node::Oscillator { amplitude, phase: 0, phase_inc: inc })
}

/// A freshly seeded noise source. Any seed is accepted; it is reduced into
/// the generator's state space, so equal seeds give equal noise streams.
pub open spec fn spec_noise_source(amplitude: i64, seed: int) -> Node {
    Node::Noise { amplitude, state: (seed % 2147483648) as u64 }
}

/// Builds a white-noise source with a deterministic, reseedable generator.
pub fn noise_source(amplitude: i64, seed: u64) -> (n: Node)
    requires
        bounded(amplitude as int),
    ensures
        n == spec_noise_source(amplitude, seed as int),
        wf_node(n),
{
    Node::Noise { amplitude, state: seed % 2147483648 }
}

/// The harmonic stack node: a left-nested mix of one oscillator per
/// partial, partial `i` at frequency `fund * ratio_i` and its own
/// amplitude.
pub open spec fn spec_harmonics_node(fund: int, partials: Seq<(u64, i64)>, sample_rate: int) -> Node
    decreases partials.len(),
{
    if partials.len() <= 1 {
        spec_osc_node(fund * partials[0].0, partials[0].1, sample_rate)
    } else {
        Node::Sum(
            Box::new(spec_harmonics_node(fund, partials.drop_last(), sample_rate)),
            Box::new(spec_osc_node(fund * partials.last().0, partials.last().1, sample_rate)),
        )
    }
}

/// What [`harmonics`] returns: an error for a zero sample rate or for any
/// partial whose frequency is out of range, otherwise the harmonic stack.
pub open spec fn spec_harmonics_res(
    fund: int,
    partials: Seq<(u64, i64)>,
    sample_rate: int,
) -> Result<Node, ConfigurationError> {
    if sample_rate == 0 {
        Err(ConfigurationError::ZeroSampleRate)
    } else if exists|i: int|
        0 <= i < partials.len() && fund * (#[trigger] partials[i]).0 >= 1000 * sample_rate {
        Err(ConfigurationError::FrequencyOutOfRange)
    } else {
        Ok(spec_harmonics_node(fund, partials, sample_rate))
    }
}

/// Builds a stack of oscillators at integer-ratio multiples of a
/// fundamental — additive synthesis of a harmonic series.
pub fn harmonics(fundamental_millihz: u64, partials: &Vec<(u64, i64)>, sample_rate: u32) -> (r:
    Result<Node, ConfigurationError>)
    requires
        partials@.len() >= 1,
        fundamental_millihz <= MAX_NOTE_FREQ_MILLIHZ,
        forall|i: int|
            0 <= i < partials@.len() ==> (#[trigger] partials@[i]).0 <= 1048576 && bounded(
                partials@[i].1 as int,
            ),
    ensures
        r == spec_harmonics_res(fundamental_millihz as int, partials@, sample_rate as int),
        r matches Ok(n) ==> wf_node(n),
{
    if sample_rate == 0 {
        return Err(ConfigurationError::ZeroSampleRate);
    }
    let limit: u64 = 1000 * (sample_rate as u64);
    // Validate every partial first, so that the error contract is exact.
    let mut i: usize = 0;
    while i < partials.len()
        invariant
            i <= partials@.len(),
            limit == 1000 * (sample_rate as int),
            sample_rate > 0,
            fundamental_millihz <= MAX_NOTE_FREQ_MILLIHZ,
            forall|j: int|
                0 <= j < partials@.len() ==> (#[trigger] partials@[j]).0 <= 1048576 && bounded(
                    partials@[j].1 as int,
                ),
            forall|j: int|
                0 <= j < i ==> (fundamental_millihz as int) * (#[trigger] partials@[j]).0 < limit,
        decreases partials@.len() - i,
    {
        let p: (u64, i64) = partials[i];
        proof {
            assert((fundamental_millihz as int) * (p.0 as int) <= 1099511627776 * 1048576)
                by (nonlinear_arith)
                requires
                    fundamental_millihz <= 1099511627776,
                    p.0 <= 1048576,
                    0 <= fundamental_millihz,
                    0 <= p.0,
            ;
        }
        let freq: u64 = fundamental_millihz * p.0;
        if freq >= limit {
            return Err(ConfigurationError::FrequencyOutOfRange);
        }
        i = i + 1;
    }
    // Build the left-nested stack.
    let p0: (u64, i64) = partials[0];
    let acc0: Result<Node, ConfigurationError> = oscillator(
        fundamental_millihz * p0.0,
        p0.1,
        sample_rate,
    );
    let mut acc: Node = match acc0 {
        Ok(n) => n,
        Err(_) => unreached(),
    };
    let mut k: usize = 1;
    proof {
        assert(partials@.take(1).len() == 1);
        assert(partials@.take(1)[0] == partials@[0]);
    }
    while k < partials.len()
        invariant
            1 <= k <= partials@.len(),
            limit == 1000 * (sample_rate as int),
            sample_rate > 0,
            fundamental_millihz <= MAX_NOTE_FREQ_MILLIHZ,
            forall|j: int|
                0 <= j < partials@.len() ==> (#[trigger] partials@[j]).0 <= 1048576 && bounded(
                    partials@[j].1 as int,
                ),
            forall|j: int|
                0 <= j < partials@.len() ==> (fundamental_millihz as int) * (
                #[trigger] partials@[j]).0 < limit,
            acc == spec_harmonics_node(
                fundamental_millihz as int,
                partials@.take(k as int),
                sample_rate as int,
            ),
            wf_node(acc),
        decreases partials@.len() - k,
    {
        let p: (u64, i64) = partials[k];
        proof {
            assert((fundamental_millihz as int) * (p.0 as int) <= 1099511627776 * 1048576)
                by (nonlinear_arith)
                requires
                    fundamental_millihz <= 1099511627776,
                    p.0 <= 1048576,
                    0 <= fundamental_millihz,
                    0 <= p.0,
            ;
        }
        let o: Result<Node, ConfigurationError> = oscillator(
            fundamental_millihz * p.0,
            p.1,
            sample_rate,
        );
        let osc: Node = match o {
            Ok(n) => n,
            Err(_) => unreached(),
        };
        acc = Node::Sum(Box::new(acc), Box::new(osc));
        proof {
            let taken = partials@.take(k as int + 1);
            assert(taken.drop_last() =~= partials@.take(k as int));
            assert(taken.last() == partials@[k as int]);
        }
        k = k + 1;
    }
    proof {
        assert(partials@.take(partials@.len() as int) =~= partials@);
    }
    Ok(acc)
}

/// Chains a one-pole lowpass filter onto a node: the filter's history
/// starts at rest, and each sample moves it toward the child's output by
/// the Q16 coefficient.
pub fn lowpass(coeff: i64, input: Node) -> (n: Node)
    requires
        0 <= coeff <= 65536,
        wf_node(input),
    ensures
        n == (Node::Lowpass { coeff, history: 0i64, input: Box::new(input) }),
        wf_node(n),
{
    Node::Lowpass { coeff, history: 0, input: Box::new(input) }
}

/// The flute's five partials for a given velocity: frequency ratios 1..=5
/// at amplitudes 0.8, 0.4, 0.3, 0.2, 0.1 (Q16), each scaled by the
/// velocity.
pub open spec fn spec_flute_partials(velocity: int) -> Seq<(u64, i64)> {
    seq![
        (1u64, spec_q_mul(52429, velocity) as i64),
        (2u64, spec_q_mul(26214, velocity) as i64),
        (3u64, spec_q_mul(19661, velocity) as i64),
        (4u64, spec_q_mul(13107, velocity) as i64),
        (5u64, spec_q_mul(6554, velocity) as i64),
    ]
}

/// The flute envelope for a note: attack 0.01 s, decay 0.1 s, sustain
/// level 0.7, release 0.05 s; the sustain time absorbs the rest of the
/// note's length.
pub open spec fn spec_flute_envelope(length_samples: int, sample_rate: int) -> EnvelopeStage {
    EnvelopeStage {
        attack: (sample_rate / 100) as u64,
        decay: (sample_rate / 10) as u64,
        sustain_time: crate::envelope::spec_clamped_sustain(
            sample_rate / 100,
            sample_rate / 10,
            sample_rate / 20,
            length_samples,
            length_samples,
        ) as u64,
        release: (sample_rate / 20) as u64,
        sustain_level: 45875,
    }
}

/// What [`flute`] returns: the full mono voice for a note — the harmonic
/// stack plus breath noise, modulated by the envelope — or the
/// configuration error the note's parameters force.
pub open spec fn spec_flute_res(note: Note, sample_rate: int, noise_seed: int) -> Result<
    Node,
    ConfigurationError,
> {
    let freq = note.freq_millihz as int;
    let v = note.velocity as int;
    let length_samples = note.length_ms as int * sample_rate / 1000;
    if note.velocity > 65536 {
        Err(ConfigurationError::VelocityOutOfRange)
    } else if sample_rate == 0 {
        Err(ConfigurationError::ZeroSampleRate)
    } else if freq * 5 >= 1000 * sample_rate {
        Err(ConfigurationError::FrequencyOutOfRange)
    } else {
        Ok(
            Node::Product(
                Box::new(
                    Node::Sum(
                        Box::new(spec_harmonics_node(freq, spec_flute_partials(v), sample_rate)),
                        Box::new(spec_noise_source(spec_q_mul(6554, v) as i64, noise_seed)),
                    ),
                ),
                Box::new(Node::Envelope { stage: spec_flute_envelope(length_samples, sample_rate), t: 0 }),
            ),
        )
    }
}

/// Builds the flute voice for a note. The graph's topology is fixed; only
/// its internal state evolves while rendering.
pub fn flute(note: &Note, sample_rate: u32, noise_seed: u64) -> (r: Result<
    Node,
    ConfigurationError,
>)
    requires
        note.freq_millihz <= MAX_NOTE_FREQ_MILLIHZ,
        note.length_ms <= MAX_NOTE_LENGTH_MS,
        sample_rate <= MAX_SAMPLE_RATE,
    ensures
        r == spec_flute_res(*note, sample_rate as int, noise_seed as int),
        r matches Ok(n) ==> wf_node(n),
{
    if note.velocity > 65536 {
        return Err(ConfigurationError::VelocityOutOfRange);
    }
    if sample_rate == 0 {
        return Err(ConfigurationError::ZeroSampleRate);
    }
    let v: i64 = note.velocity as i64;
    let partials: Vec<(u64, i64)> = vec![
        (1u64, q_mul(52429, v)),
        (2u64, q_mul(26214, v)),
        (3u64, q_mul(19661, v)),
        (4u64, q_mul(13107, v)),
        (5u64, q_mul(6554, v)),
    ];
    proof {
        assert(partials@ =~= spec_flute_partials(note.velocity as int));
    }
    let stack_res: Result<Node, ConfigurationError> = harmonics(
        note.freq_millihz,
        &partials,
        sample_rate,
    );
    proof {
        let freq = note.freq_millihz as int;
        let lim = 1000 * (sample_rate as int);
        let ps = spec_flute_partials(note.velocity as int);
        if freq * 5 >= lim {
            assert(ps[4].0 == 5);
        } else {
            assert forall|i: int| 0 <= i < ps.len() implies freq * (#[trigger] ps[i]).0 < lim by {
                assert(ps[i].0 <= 5);
                assert(freq * ps[i].0 <= freq * 5) by {
                    lemma_mul_inequality(ps[i].0 as int, 5, freq);
                    assert(ps[i].0 as int * freq == freq * ps[i].0 as int)
                        by (nonlinear_arith);
                    assert(5 * freq == freq * 5) by (nonlinear_arith);
                }
            }
        }
    }
    let stack: Node = match stack_res {
        Ok(n) => n,
        Err(_) => {
            proof {
                assert(stack_res == Err::<Node, ConfigurationError>(
                    ConfigurationError::FrequencyOutOfRange,
                ));
            }
            return Err(ConfigurationError::FrequencyOutOfRange);
        },
    };
    let breath: Node = noise_source(q_mul(6554, v), noise_seed);
    let mixed: Node = Node::Sum(Box::new(stack), Box::new(breath));
    let sr64: u64 = sample_rate as u64;
    proof {
        assert((note.length_ms as int) * (sr64 as int) <= 3600000 * 1000000)
            by (nonlinear_arith)
            requires
                note.length_ms <= 3600000,
                sr64 <= 1000000,
                0 <= note.length_ms,
                0 <= sr64,
        ;
        lemma_div_nonincreasing(note.length_ms as int * sr64 as int, 1000);
        lemma_div_nonincreasing(sr64 as int, 100);
        lemma_div_nonincreasing(sr64 as int, 10);
        lemma_div_nonincreasing(sr64 as int, 20);
    }
    let length_samples: u64 = note.length_ms * sr64 / 1000;
    let stage: EnvelopeStage = EnvelopeStage::new(
        sr64 / 100,
        sr64 / 10,
        45875,
        sr64 / 20,
        length_samples,
        length_samples,
    );
    let env: Node = Node::Envelope { stage, t: 0 };
    let voice: Node = Node::Product(Box::new(mixed), Box::new(env));
    proof {
        assert(wf_node(mixed));
        assert(wf_node(env));
        assert(wf_node(voice));
    }
    Ok(voice)
}

/// Duration: the flute envelope for a note of `length_samples` samples
/// lasts exactly that long, and every sample strictly between the onset
/// and the note's end has a nonzero envelope gain — the voice is
/// non-silent-by-envelope for the note's whole configured length.
pub proof fn lemma_flute_duration(length_samples: int, sample_rate: int)
    requires
        100 <= sample_rate <= 1000000,
        sample_rate / 100 + sample_rate / 10 + sample_rate / 20 <= length_samples,
        length_samples <= 1099511627776,
    ensures
        spec_flute_envelope(length_samples, sample_rate).total() == length_samples,
        forall|t: int|
            1 <= t < length_samples ==> crate::envelope::spec_env_gain(
                spec_flute_envelope(length_samples, sample_rate),
                t,
            ) >= 1,
{
    let e = spec_flute_envelope(length_samples, sample_rate);
    assert(sample_rate / 100 <= 10000int) by {
        vstd::arithmetic::div_mod::lemma_div_is_ordered(sample_rate, 1000000, 100);
    }
    assert(sample_rate / 10 <= 100000int) by {
        vstd::arithmetic::div_mod::lemma_div_is_ordered(sample_rate, 1000000, 10);
    }
    assert(sample_rate / 20 <= 50000int) by {
        vstd::arithmetic::div_mod::lemma_div_is_ordered(sample_rate, 1000000, 20);
    }
    assert(sample_rate / 100 >= 1) by {
        vstd::arithmetic::div_mod::lemma_div_is_ordered(100, sample_rate, 100);
        vstd::arithmetic::div_mod::lemma_div_by_self(100);
    }
    assert(sample_rate / 10 >= 0 && sample_rate / 20 >= 0) by {
        vstd::arithmetic::div_mod::lemma_div_pos_is_pos(sample_rate, 10);
        vstd::arithmetic::div_mod::lemma_div_pos_is_pos(sample_rate, 20);
    }
    let fixed_part = sample_rate / 100 + sample_rate / 10 + sample_rate / 20;
    assert(e.sustain_time as int == length_samples - fixed_part);
    assert(e.wf());
    assert(e.total() == length_samples);
    assert forall|t: int| 1 <= t < length_samples implies crate::envelope::spec_env_gain(e, t)
        >= 1 by {
        crate::envelope::lemma_envelope_positive_before_end(e, t);
    }
}

} // verus!
