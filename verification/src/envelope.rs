//! The envelope shaper: a four-segment gain curve (attack, decay, sustain,
//! release) over the life of a note.
//!
//! Times are in samples, gains in Q16 fixed point (1.0 is 65536). The gain
//! rises from 0 to 1.0 over the attack, falls to the sustain level over the
//! decay, holds, then falls to 0 over the release; after that the envelope
//! emits 0 indefinitely.

use vstd::prelude::*;
use vstd::arithmetic::div_mod::{
    lemma_basic_div, lemma_div_is_ordered, lemma_div_pos_is_pos, lemma_div_by_self,
    lemma_multiply_divide_lt,
};
use vstd::arithmetic::mul::{lemma_mul_inequality, lemma_mul_nonnegative};
use crate::fixed::lemma_frac_le;

verus! {

/// Upper limit on the length, in samples, of any one envelope segment:
/// keeps every intermediate product comfortably inside a `u64`.
pub const MAX_STAGE_SAMPLES: u64 = 1099511627776;

/// The four-segment envelope, with all durations in samples and the
/// sustain level in Q16 fixed point.
#[derive(Clone, Copy, PartialEq, Eq, Structural, Debug)]
pub struct EnvelopeStage {
    pub attack: u64,
    pub decay: u64,
    pub sustain_time: u64,
    pub release: u64,
    pub sustain_level: u32,
}

impl EnvelopeStage {
    /// Well-formedness: segment lengths within range, sustain level in [0, 1].
    pub open spec fn wf(self) -> bool {
        &&& self.attack <= MAX_STAGE_SAMPLES
        &&& self.decay <= MAX_STAGE_SAMPLES
        &&& self.sustain_time <= MAX_STAGE_SAMPLES
        &&& self.release <= MAX_STAGE_SAMPLES
        &&& self.sustain_level <= 65536
    }

    /// Total length of the envelope in samples; the gain is 0 from here on.
    pub open spec fn total(self) -> int {
        self.attack as int + self.decay as int + self.sustain_time as int + self.release as int
    }
}

/// The sustain time that the constructor actually stores: the requested
/// sustain time, clamped so that the whole envelope fits into the requested
/// note length. Attack, decay and release are never clamped — sustain
/// absorbs all slack.
pub open spec fn spec_clamped_sustain(
    attack: int,
    decay: int,
    release: int,
    sustain_time: int,
    note_length: int,
) -> int {
    let fixed_part = attack + decay + release;
    if fixed_part + sustain_time <= note_length {
        sustain_time
    } else if fixed_part <= note_length {
        note_length - fixed_part
    } else {
        0
    }
}

impl EnvelopeStage {
    /// Builds an envelope, clamping the sustain time (never attack, decay or
    /// release) so that the envelope does not outlast the note.
    pub fn new(
        attack: u64,
        decay: u64,
        sustain_level: u32,
        release: u64,
        sustain_time: u64,
        note_length: u64,
    ) -> (e: EnvelopeStage)
        requires
            attack <= MAX_STAGE_SAMPLES,
            decay <= MAX_STAGE_SAMPLES,
            release <= MAX_STAGE_SAMPLES,
            sustain_time <= MAX_STAGE_SAMPLES,
            note_length <= MAX_STAGE_SAMPLES,
            sustain_level <= 65536,
        ensures
            e.wf(),
            e.attack == attack,
            e.decay == decay,
            e.release == release,
            e.sustain_level == sustain_level,
            e.sustain_time as int == spec_clamped_sustain(
                attack as int,
                decay as int,
                release as int,
                sustain_time as int,
                note_length as int,
            ),
            attack + decay + release <= note_length ==> e.total() <= note_length as int,
    {
        let fixed_part: u64 = attack + decay + release;
        let clamped: u64 = if fixed_part + sustain_time <= note_length {
            sustain_time
        } else if fixed_part <= note_length {
            note_length - fixed_part
        } else {
            0
        };
        EnvelopeStage {
            attack,
            decay,
            sustain_time: clamped,
            release,
            sustain_level,
        }
    }
}

/// The envelope gain at sample `t` (Q16): a ceiling-division ramp up over
/// the attack, a linear fall to the sustain level over the decay, a hold,
/// a linear fall to 0 over the release, and 0 after the envelope ends.
pub open spec fn spec_env_gain(e: EnvelopeStage, t: int) -> int {
    let a = e.attack as int;
    let d = e.decay as int;
    let s = e.sustain_time as int;
    let r = e.release as int;
    let sus = e.sustain_level as int;
    if t < 0 {
        0
    } else if t < a {
        (t * 65536 + a - 1) / a
    } else if t < a + d {
        65536 - ((t - a) * (65536 - sus)) / d
    } else if t < a + d + s {
        sus
    } else if t < a + d + s + r {
        sus - ((t - (a + d + s)) * sus) / r
    } else {
        0
    }
}

/// The attack ramp `(t * 65536 + a - 1) / a` lies in `[0, 65536]` for
/// `0 <= t <= a`, and is at least 1 once `t >= 1`.
proof fn lemma_attack_ramp_bounds(t: int, a: int)
    requires
        1 <= a,
        0 <= t <= a,
    ensures
        0 <= (t * 65536 + a - 1) / a <= 65536,
        t >= 1 ==> (t * 65536 + a - 1) / a >= 1,
{
    let num = t * 65536 + a - 1;
    lemma_mul_nonnegative(t, 65536);
    lemma_div_pos_is_pos(num, a);
    assert(num < a * 65537) by (nonlinear_arith)
        requires
            num == t * 65536 + a - 1,
            t <= a,
            a >= 1,
    ;
    lemma_multiply_divide_lt(num, a, 65537);
    if t >= 1 {
        assert(1 * 65536 <= t * 65536) by {
            lemma_mul_inequality(1, t, 65536);
        }
        lemma_div_by_self(a);
        lemma_div_is_ordered(a, num, a);
    }
}

/// The envelope gain is always a valid Q16 gain in `[0, 1.0]`.
pub proof fn lemma_env_gain_bounds(e: EnvelopeStage, t: int)
    requires
        e.wf(),
    ensures
        0 <= spec_env_gain(e, t) <= 65536,
{
    let a = e.attack as int;
    let d = e.decay as int;
    let s = e.sustain_time as int;
    let r = e.release as int;
    let sus = e.sustain_level as int;
    if 0 <= t < a {
        lemma_attack_ramp_bounds(t, a);
    } else if a <= t < a + d {
        lemma_frac_le(t - a, d, 65536 - sus);
    } else if a + d + s <= t < a + d + s + r {
        lemma_frac_le(t - (a + d + s), r, sus);
    }
}

/// Envelope shape: the gain starts at 0, rises monotonically through the
/// attack to exactly 1.0, falls monotonically through the decay to the
/// sustain level, holds there for the sustain time, then falls
/// monotonically through the release, reaching 0 at the envelope's end.
pub proof fn lemma_envelope_shape(e: EnvelopeStage, t1: int, t2: int)
    requires
        e.wf(),
        e.attack >= 1,
        e.decay >= 1,
        e.release >= 1,
    ensures
        spec_env_gain(e, 0) == 0,
        spec_env_gain(e, e.attack as int) == 65536,
        spec_env_gain(e, e.total()) == 0,
        0 <= t1 <= t2 <= e.attack as int ==> spec_env_gain(e, t1) <= spec_env_gain(e, t2),
        e.attack as int <= t1 <= t2 <= e.attack as int + e.decay as int ==> spec_env_gain(e, t1)
            >= spec_env_gain(e, t2),
        e.attack as int + e.decay as int <= t1 < e.attack as int + e.decay as int
            + e.sustain_time as int ==> spec_env_gain(e, t1) == e.sustain_level as int,
        e.attack as int + e.decay as int + e.sustain_time as int <= t1 <= t2 <= e.total()
            ==> spec_env_gain(e, t1) >= spec_env_gain(e, t2),
{
    let a = e.attack as int;
    let d = e.decay as int;
    let s = e.sustain_time as int;
    let r = e.release as int;
    let sus = e.sustain_level as int;
    // Endpoint values.
    lemma_basic_div(a - 1, a);
    assert(spec_env_gain(e, 0) == (a - 1) / a == 0);
    assert(spec_env_gain(e, a) == 65536 - (0 * (65536 - sus)) / d);
    assert((0 * (65536 - sus)) / d == 0) by {
        lemma_basic_div(0, d);
    }
    // Attack is monotone.
    if 0 <= t1 <= t2 <= a {
        lemma_attack_ramp_bounds(t1, a);
        lemma_attack_ramp_bounds(t2, a);
        if t2 < a {
            assert(t1 * 65536 <= t2 * 65536) by {
                lemma_mul_inequality(t1, t2, 65536);
            }
            lemma_div_is_ordered(t1 * 65536 + a - 1, t2 * 65536 + a - 1, a);
        }
    }
    // Decay is monotone, and never falls below the sustain level.
    if a <= t1 <= t2 <= a + d {
        if t1 < a + d {
            lemma_frac_le(t1 - a, d, 65536 - sus);
        }
        if t2 < a + d {
            assert((t1 - a) * (65536 - sus) <= (t2 - a) * (65536 - sus)) by {
                lemma_mul_inequality(t1 - a, t2 - a, 65536 - sus);
            }
            lemma_div_is_ordered((t1 - a) * (65536 - sus), (t2 - a) * (65536 - sus), d);
        }
    }
    // Release is monotone.
    if a + d + s <= t1 <= t2 <= a + d + s + r {
        if t1 < a + d + s + r {
            lemma_frac_le(t1 - (a + d + s), r, sus);
        }
        if t2 < a + d + s + r {
            assert((t1 - (a + d + s)) * sus <= (t2 - (a + d + s)) * sus) by {
                lemma_mul_inequality(t1 - (a + d + s), t2 - (a + d + s), sus);
            }
            lemma_div_is_ordered((t1 - (a + d + s)) * sus, (t2 - (a + d + s)) * sus, r);
        }
    }
}

/// Duration: with a positive sustain level, every sample strictly after the
/// onset and strictly before the envelope's end has a nonzero gain — the
/// note is non-silent-by-envelope for its whole configured length.
pub proof fn lemma_envelope_positive_before_end(e: EnvelopeStage, t: int)
    requires
        e.wf(),
        e.sustain_level >= 1,
        1 <= t < e.total(),
    ensures
        spec_env_gain(e, t) >= 1,
{
    let a = e.attack as int;
    let d = e.decay as int;
    let s = e.sustain_time as int;
    let r = e.release as int;
    let sus = e.sustain_level as int;
    if t < a {
        lemma_attack_ramp_bounds(t, a);
    } else if t < a + d {
        lemma_frac_le(t - a, d, 65536 - sus);
    } else if t < a + d + s {
    } else {
        lemma_frac_le(t - (a + d + s), r, sus);
    }
}

/// Computes the envelope gain at sample `t`.
pub fn env_gain(e: &EnvelopeStage, t: u64) -> (g: i64)
    requires
        e.wf(),
    ensures
        g as int == spec_env_gain(*e, t as int),
        0 <= g <= 65536,
{
    proof {
        lemma_env_gain_bounds(*e, t as int);
    }
    if t < e.attack {
        let num: u64 = t * 65536 + (e.attack - 1);
        let g64: u64 = num / e.attack;
        g64 as i64
    } else if t < e.attack + e.decay {
        let dk: u64 = t - e.attack;
        let c: u64 = 65536 - (e.sustain_level as u64);
        proof {
            lemma_mul_nonnegative(dk as int, c as int);
            assert(dk * c <= 1099511627776 * 65536) by (nonlinear_arith)
                requires
                    dk <= 1099511627776,
                    c <= 65536,
            ;
            lemma_frac_le(dk as int, e.decay as int, c as int);
        }
        let drop: u64 = (dk * c) / e.decay;
        65536 - (drop as i64)
    } else if t < e.attack + e.decay + e.sustain_time {
        e.sustain_level as i64
    } else if t < e.attack + e.decay + e.sustain_time + e.release {
        let rk: u64 = t - (e.attack + e.decay + e.sustain_time);
        let sus: u64 = e.sustain_level as u64;
        proof {
            lemma_mul_nonnegative(rk as int, sus as int);
            assert(rk * sus <= 1099511627776 * 65536) by (nonlinear_arith)
                requires
                    rk <= 1099511627776,
                    sus <= 65536,
            ;
            lemma_frac_le(rk as int, e.release as int, sus as int);
        }
        let drop: u64 = (rk * sus) / e.release;
        (sus as i64) - (drop as i64)
    } else {
        0
    }
}

} // verus!
