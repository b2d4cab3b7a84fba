//! Pitch mapping: MIDI key number to fundamental frequency in
//! A440 equal temperament, `440 * 2^((key - 69) / 12)` Hz.
//!
//! Frequencies are integers in milli-hertz, so key 69 maps to exactly
//! 440000 and every shift by 12 keys doubles or halves the result exactly.

use vstd::prelude::*;

verus! {

/// `2^n`.
pub open spec fn spec_pow2(n: nat) -> nat
    decreases n,
{
    if n == 0 {
        1
    } else {
        2 * spec_pow2((n - 1) as nat)
    }
}

/// Equal-temperament semitone ratio `2^(r/12)`, scaled by 10^6 and rounded,
/// for `r` in `0..12`.
pub open spec fn spec_semi_ratio(r: int) -> int {
    if r == 0 {
        1000000
    } else if r == 1 {
        1059463
    } else if r == 2 {
        1122462
    } else if r == 3 {
        1189207
    } else if r == 4 {
        1259921
    } else if r == 5 {
        1334840
    } else if r == 6 {
        1414214
    } else if r == 7 {
        1498307
    } else if r == 8 {
        1587401
    } else if r == 9 {
        1681793
    } else if r == 10 {
        1781797
    } else {
        1887749
    }
}

/// Frequency of a MIDI key in milli-hertz. The key is split into an octave
/// (a factor of two, exact) and a residual semitone (the scaled ratio), so
/// key 69 gives exactly 440000 and key 69 + 12k gives exactly 440000 * 2^k.
pub open spec fn spec_midi_freq_millihz(key: int) -> int {
    let r = (key + 3) % 12;
    let o = (key + 3) / 12;
    let base = 440000 * spec_semi_ratio(r) / 1000000;
    if o >= 6 {
        base * spec_pow2((o - 6) as nat)
    } else {
        base / spec_pow2((6 - o) as nat) as int
    }
}

fn semi_ratio(r: u32) -> (out: u64)
    requires
        r < 12,
    ensures
        out as int == spec_semi_ratio(r as int),
        1000000 <= out < 2000000,
{
    if r == 0 {
        1000000
    } else if r == 1 {
        1059463
    } else if r == 2 {
        1122462
    } else if r == 3 {
        1189207
    } else if r == 4 {
        1259921
    } else if r == 5 {
        1334840
    } else if r == 6 {
        1414214
    } else if r == 7 {
        1498307
    } else if r == 8 {
        1587401
    } else if r == 9 {
        1681793
    } else if r == 10 {
        1781797
    } else {
        1887749
    }
}

fn pow2(n: u32) -> (out: u64)
    requires
        n <= 10,
    ensures
        out as int == spec_pow2(n as nat),
        1 <= out <= 1024,
{
    let mut out: u64 = 1;
    let mut i: u32 = 0;
    while i < n
        invariant
            i <= n,
            n <= 10,
            out as int == spec_pow2(i as nat),
            1 <= out <= 1024,
        decreases n - i,
    {
        proof {
            assert(spec_pow2((i + 1) as nat) == 2 * spec_pow2(i as nat));
            assert(spec_pow2((i + 1) as nat) <= spec_pow2(10) <= 1024) by {
                lemma_pow2_le((i + 1) as nat, 10);
            }
        }
        out = out * 2;
        i = i + 1;
    }
    out
}

proof fn lemma_pow2_le(a: nat, b: nat)
    requires
        a <= b,
    ensures
        spec_pow2(a) <= spec_pow2(b),
        spec_pow2(10) == 1024,
    decreases b,
{
    assert(spec_pow2(10) == 1024) by {
        reveal_with_fuel(spec_pow2, 11);
    }
    if a < b {
        lemma_pow2_le(a, (b - 1) as nat);
        assert(spec_pow2(b) == 2 * spec_pow2((b - 1) as nat));
    }
}

/// Maps a MIDI key (0..=127) to its A440 equal-temperament frequency in
/// milli-hertz.
pub fn midi_to_freq_millihz(key: u32) -> (freq: u64)
    requires
        key <= 127,
    ensures
        freq as int == spec_midi_freq_millihz(key as int),
        freq <= 15000000,
{
    let r: u32 = (key + 3) % 12;
    let o: u32 = (key + 3) / 12;
    let ratio: u64 = semi_ratio(r);
    let base: u64 = 440000 * ratio / 1000000;
    proof {
        assert(base < 880000);
    }
    if o >= 6 {
        let m: u64 = pow2(o - 6);
        proof {
            assert(o - 6 <= 4);
            assert(spec_pow2((o - 6) as nat) <= 16) by {
                lemma_pow2_le((o - 6) as nat, 4);
                assert(spec_pow2(4) == 16) by {
                    reveal_with_fuel(spec_pow2, 5);
                }
            }
            assert(m <= 16);
            assert(base * m <= 880000 * 16) by (nonlinear_arith)
                requires
                    base <= 880000,
                    m <= 16,
            ;
        }
        base * m
    } else {
        let d: u64 = pow2(6 - o);
        base / d
    }
}

/// The reference points of the pitch mapping: key 69 is exactly 440 Hz and
/// key 81, one octave up, exactly 880 Hz.
pub proof fn lemma_pitch_mapping_reference()
    ensures
        spec_midi_freq_millihz(69) == 440000,
        spec_midi_freq_millihz(81) == 880000,
{
    assert(spec_pow2(0) == 1 && spec_pow2(1) == 2) by {
        reveal_with_fuel(spec_pow2, 2);
    }
    assert(spec_midi_freq_millihz(69) == 440000);
    let b: int = 440000 * spec_semi_ratio(0) / 1000000;
    assert(b == 440000);
    assert(b * spec_pow2(1) == 880000) by (nonlinear_arith)
        requires
            b == 440000,
            spec_pow2(1) == 2,
    ;
    assert(spec_midi_freq_millihz(81) == b * spec_pow2(1));
}

} // verus!
