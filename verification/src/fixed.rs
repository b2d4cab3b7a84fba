//! Fixed-point signal arithmetic.
//!
//! A signal value is an `i64` holding a Q16 fixed-point number: the real
//! amplitude 1.0 is represented by [`SCALE`]. Every helper saturates its
//! result into `[-SIG_MAX, SIG_MAX]`, so node outputs stay in a range where
//! no product of two signals can overflow an `i64`.

use vstd::prelude::*;
use vstd::arithmetic::div_mod::{
    lemma_div_pos_is_pos, lemma_multiply_divide_le, lemma_multiply_divide_lt,
};
use vstd::arithmetic::mul::{
    lemma_mul_inequality, lemma_mul_nonnegative, lemma_mul_strict_inequality,
};

verus! {

/// For `0 <= k < d`, the scaled fraction `k * c / d` lies in `[0, c]`,
/// and strictly below `c` when `c > 0`.
pub proof fn lemma_frac_le(k: int, d: int, c: int)
    requires
        0 < d,
        0 <= k < d,
        0 <= c,
    ensures
        0 <= (k * c) / d <= c,
        c > 0 ==> (k * c) / d < c,
{
    lemma_mul_inequality(k, d, c);
    lemma_mul_nonnegative(k, c);
    lemma_div_pos_is_pos(k * c, d);
    lemma_multiply_divide_le(k * c, d, c);
    if c > 0 {
        lemma_mul_strict_inequality(k, d, c);
        lemma_multiply_divide_lt(k * c, d, c);
    }
}

/// Fixed-point unit: the real amplitude 1.0.
pub const SCALE: i64 = 65536;

/// Largest magnitude any signal value may take (1024.0 in real terms).
/// All arithmetic helpers saturate here.
pub const SIG_MAX: i64 = 67108864;

/// A signal value inside the saturation range.
pub open spec fn bounded(x: int) -> bool {
    -(SIG_MAX as int) <= x <= SIG_MAX as int
}

pub open spec fn spec_clamp(x: int, lo: int, hi: int) -> int {
    if x < lo {
        lo
    } else if x > hi {
        hi
    } else {
        x
    }
}

pub open spec fn spec_abs(x: int) -> int {
    if x < 0 {
        -x
    } else {
        x
    }
}

/// Saturating addition of two signal values.
pub open spec fn spec_sat_add(a: int, b: int) -> int {
    spec_clamp(a + b, -(SIG_MAX as int), SIG_MAX as int)
}

/// Fixed-point multiplication: `a * b / SCALE`, rounding the magnitude
/// toward zero, then saturating.
pub open spec fn spec_q_mul(a: int, b: int) -> int {
    let m = (spec_abs(a) * spec_abs(b)) / (SCALE as int);
    let s = if (a < 0) != (b < 0) {
        -m
    } else {
        m
    };
    spec_clamp(s, -(SIG_MAX as int), SIG_MAX as int)
}

pub fn clamp_i64(x: i64, lo: i64, hi: i64) -> (r: i64)
    requires
        lo <= hi,
    ensures
        r as int == spec_clamp(x as int, lo as int, hi as int),
{
    if x < lo {
        lo
    } else if x > hi {
        hi
    } else {
        x
    }
}

pub fn sat_add(a: i64, b: i64) -> (r: i64)
    requires
        bounded(a as int),
        bounded(b as int),
    ensures
        r as int == spec_sat_add(a as int, b as int),
        bounded(r as int),
{
    clamp_i64(a + b, -SIG_MAX, SIG_MAX)
}

/// Saturating subtraction of two signal values.
pub open spec fn spec_sat_sub(a: int, b: int) -> int {
    spec_clamp(a - b, -(SIG_MAX as int), SIG_MAX as int)
}

pub fn sat_sub(a: i64, b: i64) -> (r: i64)
    requires
        bounded(a as int),
        bounded(b as int),
    ensures
        r as int == spec_sat_sub(a as int, b as int),
        bounded(r as int),
{
    clamp_i64(a - b, -SIG_MAX, SIG_MAX)
}

pub fn q_mul(a: i64, b: i64) -> (r: i64)
    requires
        bounded(a as int),
        bounded(b as int),
    ensures
        r as int == spec_q_mul(a as int, b as int),
        bounded(r as int),
{
    let neg: bool = (a < 0) != (b < 0);
    let aa: u64 = if a < 0 {
        (-a) as u64
    } else {
        a as u64
    };
    let bb: u64 = if b < 0 {
        (-b) as u64
    } else {
        b as u64
    };
    proof {
        assert(aa as int == spec_abs(a as int));
        assert(bb as int == spec_abs(b as int));
        assert(aa * bb <= 67108864 * 67108864) by (nonlinear_arith)
            requires
                aa <= 67108864,
                bb <= 67108864,
        ;
    }
    let p: u64 = aa * bb;
    let m: u64 = p / 65536;
    proof {
        assert(m <= p);
        assert(m as int == (spec_abs(a as int) * spec_abs(b as int)) / (SCALE as int));
    }
    let s: i64 = if neg {
        -(m as i64)
    } else {
        m as i64
    };
    clamp_i64(s, -SIG_MAX, SIG_MAX)
}

/// Sample value written to 16-bit PCM output: the real sample `s / SCALE`
/// times 32767, rounded half away from zero, clamped to the representable
/// range.
pub open spec fn spec_pcm16(s: int) -> int {
    let mag = (spec_abs(s) * 32767 + 32768) / 65536;
    let v = if s < 0 {
        -mag
    } else {
        mag
    };
    spec_clamp(v, -32768, 32767)
}

pub fn pcm16_of_sample(s: i64) -> (r: i16)
    requires
        bounded(s as int),
    ensures
        r as int == spec_pcm16(s as int),
{
    let sa: u64 = if s < 0 {
        (-s) as u64
    } else {
        s as u64
    };
    proof {
        assert(sa as int == spec_abs(s as int));
        assert(sa * 32767 <= 67108864 * 32767) by (nonlinear_arith)
            requires
                sa <= 67108864,
        ;
    }
    let mag: u64 = (sa * 32767 + 32768) / 65536;
    proof {
        assert(mag <= sa * 32767 + 32768);
    }
    let v: i64 = if s < 0 {
        -(mag as i64)
    } else {
        mag as i64
    };
    let c: i64 = clamp_i64(v, -32768, 32767);
    c as i16
}

} // verus!
