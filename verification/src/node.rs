//! The signal graph: unit generators (oscillator, noise, envelope, filter)
//! and the combinators that compose them (mixing, modulation, chaining).
//!
//! A [`Node`] advances one sample per call: it emits a Q16 sample and
//! updates its internal state. Combinators are nodes themselves, so graphs
//! are closed under composition; topology never changes after construction,
//! only the internal state evolves. Advancing is a pure function of the
//! state ([`spec_advance`]), which is what makes rendering deterministic.

use vstd::prelude::*;
use crate::envelope::{EnvelopeStage, spec_env_gain, env_gain, lemma_env_gain_bounds};
use crate::fixed::{
    bounded, spec_q_mul, spec_sat_add, spec_sat_sub, q_mul, sat_add, sat_sub,
};

verus! {

/// A unit of the signal graph. Sources ignore their surroundings; the
/// lowpass filter reads one child (chaining is nesting); `Sum` mixes and
/// `Product` amplitude-modulates two children.
pub enum Node {
    /// Sine oscillator: `amplitude * sin(2*pi*phase)`, with the phase kept
    /// in [0, 1) as a Q16 fraction of a cycle so it never grows without
    /// bound. `phase_inc` is added each sample, modulo one cycle.
    Oscillator { amplitude: i64, phase: u64, phase_inc: u64 },
    /// White noise: `amplitude * uniform(-1, 1)` from a reseedable,
    /// deterministic linear congruential generator.
    Noise { amplitude: i64, state: u64 },
    /// Envelope shaper: emits the envelope gain at the elapsed sample `t`,
    /// then advances `t` (stopping once the envelope has ended).
    Envelope { stage: EnvelopeStage, t: u64 },
    /// One-pole lowpass over the child's output:
    /// `history += coeff * (x - history)` with `coeff` a Q16 gain.
    Lowpass { coeff: i64, history: i64, input: Box<Node> },
    /// Mix: the sum of the two children's samples (no gain compensation;
    /// callers pre-scale, the final limiter bounds the result).
    Sum(Box<Node>, Box<Node>),
    /// Amplitude modulation: the Q16 product of the two children's samples.
    Product(Box<Node>, Box<Node>),
}

/// Piecewise-parabolic sine: one positive arch on the first half cycle,
/// its mirror on the second, peaking at exactly +/-1.0 (Q16). The phase
/// `p` is a Q16 fraction of a cycle in [0, 65536).
pub open spec fn spec_sine_q16(p: int) -> int {
    if p < 32768 {
        (p * (32768 - p)) / 4096
    } else {
        -(((p - 32768) * (65536 - p)) / 4096)
    }
}

proof fn lemma_sine_bounds(p: int)
    requires
        0 <= p < 65536,
    ensures
        -65536 <= spec_sine_q16(p) <= 65536,
{
    if p < 32768 {
        assert(0 <= p * (32768 - p) <= 268435456) by (nonlinear_arith)
            requires
                0 <= p < 32768,
        ;
    } else {
        assert(0 <= (p - 32768) * (65536 - p) <= 268435456) by (nonlinear_arith)
            requires
                32768 <= p < 65536,
        ;
    }
}

fn sine_q16(p: u64) -> (s: i64)
    requires
        p < 65536,
    ensures
        s as int == spec_sine_q16(p as int),
        -65536 <= s <= 65536,
{
    proof {
        lemma_sine_bounds(p as int);
    }
    if p < 32768 {
        proof {
            assert(0 <= p * (32768 - p) <= 268435456) by (nonlinear_arith)
                requires
                    0 <= p < 32768,
            ;
        }
        let v: u64 = (p * (32768 - p)) / 4096;
        v as i64
    } else {
        proof {
            assert(0 <= (p - 32768) * (65536 - p) <= 268435456) by (nonlinear_arith)
                requires
                    32768 <= p < 65536,
            ;
        }
        let v: u64 = ((p - 32768) * (65536 - p)) / 4096;
        -(v as i64)
    }
}

/// One step of the noise generator: a linear congruential generator with
/// modulus 2^31, so it is deterministic from its seed.
pub open spec fn spec_lcg_next(s: int) -> int {
    (1103515245 * s + 12345) % 2147483648
}

/// The noise sample drawn from an LCG state: uniform over [-1.0, 1.0] (Q16).
pub open spec fn spec_noise_value(s: int) -> int {
    s % 131073 - 65536
}

fn lcg_next(s: u64) -> (r: u64)
    requires
        s < 2147483648,
    ensures
        r as int == spec_lcg_next(s as int),
        r < 2147483648,
{
    (1103515245 * s + 12345) % 2147483648
}

/// Well-formedness of a node's state: amplitudes and histories are bounded
/// signals, phases sit inside one cycle, gains are valid Q16 gains.
pub open spec fn wf_node(n: Node) -> bool
    decreases n,
{
    match n {
        Node::Oscillator { amplitude, phase, phase_inc } => {
            &&& bounded(amplitude as int)
            &&& phase < 65536
            &&& phase_inc < 65536
        },
        Node::Noise { amplitude, state } => {
            &&& bounded(amplitude as int)
            &&& state < 2147483648
        },
        Node::Envelope { stage, t } => stage.wf(),
        Node::Lowpass { coeff, history, input } => {
            &&& 0 <= coeff <= 65536
            &&& bounded(history as int)
            &&& wf_node(*input)
        },
        Node::Sum(l, r) => wf_node(*l) && wf_node(*r),
        Node::Product(l, r) => wf_node(*l) && wf_node(*r),
    }
}

/// Advancing a node by one sample: the emitted sample and the successor
/// state, as a pure function of the current state.
pub open spec fn spec_advance(n: Node) -> (Node, i64)
    decreases n,
{
    match n {
        Node::Oscillator { amplitude, phase, phase_inc } => {
            let sample = spec_q_mul(amplitude as int, spec_sine_q16(phase as int)) as i64;
            let new_phase = ((phase + phase_inc) % 65536) as u64;
            (Node::Oscillator { amplitude, phase: new_phase, phase_inc }, sample)
        },
        Node::Noise { amplitude, state } => {
            let next = spec_lcg_next(state as int) as u64;
            let sample = spec_q_mul(amplitude as int, spec_noise_value(next as int)) as i64;
            (Node::Noise { amplitude, state: next }, sample)
        },
        Node::Envelope { stage, t } => {
            let sample = spec_env_gain(stage, t as int) as i64;
            let nt = if (t as int) < stage.total() {
                (t + 1) as u64
            } else {
                t
            };
            (Node::Envelope { stage, t: nt }, sample)
        },
        Node::Lowpass { coeff, history, input } => {
            let (child, x) = spec_advance(*input);
            let y = spec_sat_add(
                history as int,
                spec_q_mul(coeff as int, spec_sat_sub(x as int, history as int)),
            ) as i64;
            (Node::Lowpass { coeff, history: y, input: Box::new(child) }, y)
        },
        Node::Sum(l, r) => {
            let (l2, a) = spec_advance(*l);
            let (r2, b) = spec_advance(*r);
            (Node::Sum(Box::new(l2), Box::new(r2)), spec_sat_add(a as int, b as int) as i64)
        },
        Node::Product(l, r) => {
            let (l2, a) = spec_advance(*l);
            let (r2, b) = spec_advance(*r);
            (Node::Product(Box::new(l2), Box::new(r2)), spec_q_mul(a as int, b as int) as i64)
        },
    }
}

/// Advancing preserves well-formedness and emits a bounded sample.
pub proof fn lemma_spec_advance_props(n: Node)
    requires
        wf_node(n),
    ensures
        wf_node(spec_advance(n).0),
        bounded(spec_advance(n).1 as int),
    decreases n,
{
    match n {
        Node::Oscillator { amplitude, phase, phase_inc } => {
            lemma_sine_bounds(phase as int);
        },
        Node::Noise { amplitude, state } => {},
        Node::Envelope { stage, t } => {
            lemma_env_gain_bounds(stage, t as int);
        },
        Node::Lowpass { coeff, history, input } => {
            lemma_spec_advance_props(*input);
        },
        Node::Sum(l, r) => {
            lemma_spec_advance_props(*l);
            lemma_spec_advance_props(*r);
        },
        Node::Product(l, r) => {
            lemma_spec_advance_props(*l);
            lemma_spec_advance_props(*r);
        },
    }
}

impl Node {
    /// Pulls one sample out of the graph, updating all internal state in
    /// place. The result and the new state are exactly [`spec_advance`]
    /// of the old state.
    pub fn advance(&mut self) -> (sample: i64)
        requires
            wf_node(*old(self)),
        ensures
            *final(self) == spec_advance(*old(self)).0,
            sample == spec_advance(*old(self)).1,
            wf_node(*final(self)),
            bounded(sample as int),
        decreases *old(self),
    {
        proof {
            lemma_spec_advance_props(*self);
        }
        match self {
            Node::Oscillator { amplitude, phase, phase_inc } => {
                let s = sine_q16(*phase);
                let sample = q_mul(*amplitude, s);
                *phase = (*phase + *phase_inc) % 65536;
                sample
            },
            Node::Noise { amplitude, state } => {
                *state = lcg_next(*state);
                let v: i64 = (*state % 131073) as i64 - 65536;
                proof {
                    assert(v as int == spec_noise_value(*state as int));
                }
                q_mul(*amplitude, v)
            },
            Node::Envelope { stage, t } => {
                let g = env_gain(stage, *t);
                let total: u64 = stage.attack + stage.decay + stage.sustain_time
                    + stage.release;
                if *t < total {
                    *t = *t + 1;
                }
                g
            },
            Node::Lowpass { coeff, history, input } => {
                let x = input.advance();
                let y = sat_add(*history, q_mul(*coeff, sat_sub(x, *history)));
                *history = y;
                y
            },
            Node::Sum(l, r) => {
                let a = l.advance();
                let b = r.advance();
                sat_add(a, b)
            },
            Node::Product(l, r) => {
                let a = l.advance();
                let b = r.advance();
                q_mul(a, b)
            },
        }
    }
}

} // verus!
