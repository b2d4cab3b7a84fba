//! The sample clock / renderer: pulls stereo frames out of a fully built
//! graph, one at a time ([`RenderSession::render_one`]) or in blocks
//! ([`RenderSession::render_block`]).
//!
//! Both entry points drive the very same state-transition function
//! ([`spec_render_one`]), so block rendering and one-at-a-time streaming
//! produce identical sequences from identical states: state is carried
//! exactly across block boundaries, and rendering is deterministic.
//!
//! Each channel runs through a declick fade-in and a DC-blocking filter,
//! then a limiter clamps the frame into `[-ceiling, ceiling]`.

use vstd::prelude::*;
use crate::fixed::{
    bounded, lemma_frac_le, spec_abs, spec_clamp, spec_q_mul, spec_sat_add, spec_sat_sub,
    clamp_i64, q_mul,
};
use crate::node::{Node, spec_advance, wf_node, lemma_spec_advance_props};

verus! {

/// Per-channel effects: a declick fade-in ramp and a one-pole DC blocker.
pub struct ChannelChain {
    /// Length of the fade-in, in samples (at least 1).
    pub declick_len: u64,
    /// Samples elapsed since the chain started (saturates at `declick_len`).
    pub declick_t: u64,
    /// DC-blocker feedback coefficient, Q16 in [0, 1.0].
    pub dc_coeff: i64,
    /// Previous input to the DC blocker.
    pub dc_prev_in: i64,
    /// Previous output of the DC blocker.
    pub dc_prev_out: i64,
}

impl ChannelChain {
    pub open spec fn wf(self) -> bool {
        &&& 1 <= self.declick_len <= 1099511627776
        &&& self.declick_t <= self.declick_len
        &&& 0 <= self.dc_coeff <= 65536
        &&& bounded(self.dc_prev_in as int)
        &&& bounded(self.dc_prev_out as int)
    }
}

/// One step of a channel chain on input `x`: fade-in gain, then
/// `y = x1 - x1_prev + coeff * y_prev` (the DC blocker), saturating.
pub open spec fn spec_chain_step(c: ChannelChain, x: i64) -> (ChannelChain, i64) {
    let g = if c.declick_t >= c.declick_len {
        65536
    } else {
        (c.declick_t as int) * 65536 / (c.declick_len as int)
    };
    let x1 = spec_q_mul(x as int, g) as i64;
    let y = spec_sat_add(
        spec_sat_sub(x1 as int, c.dc_prev_in as int),
        spec_q_mul(c.dc_coeff as int, c.dc_prev_out as int),
    ) as i64;
    let nt = if c.declick_t < c.declick_len {
        (c.declick_t + 1) as u64
    } else {
        c.declick_t
    };
    (
        ChannelChain {
            declick_len: c.declick_len,
            declick_t: nt,
            dc_coeff: c.dc_coeff,
            dc_prev_in: x1,
            dc_prev_out: y,
        },
        y,
    )
}

proof fn lemma_chain_step_props(c: ChannelChain, x: i64)
    requires
        c.wf(),
        bounded(x as int),
    ensures
        spec_chain_step(c, x).0.wf(),
        bounded(spec_chain_step(c, x).1 as int),
        spec_chain_step(c, x).0.declick_len == c.declick_len,
        spec_chain_step(c, x).0.dc_coeff == c.dc_coeff,
{
    if c.declick_t < c.declick_len {
        lemma_frac_le(c.declick_t as int, c.declick_len as int, 65536);
    }
}

fn chain_step(c: &mut ChannelChain, x: i64) -> (y: i64)
    requires
        old(c).wf(),
        bounded(x as int),
    ensures
        *final(c) == spec_chain_step(*old(c), x).0,
        y == spec_chain_step(*old(c), x).1,
        final(c).wf(),
        bounded(y as int),
{
    proof {
        lemma_chain_step_props(*c, x);
    }
    let g: i64 = if c.declick_t >= c.declick_len {
        65536
    } else {
        proof {
            lemma_frac_le(c.declick_t as int, c.declick_len as int, 65536);
        }
        ((c.declick_t * 65536) / c.declick_len) as i64
    };
    let x1 = q_mul(x, g);
    let y = crate::fixed::sat_add(
        crate::fixed::sat_sub(x1, c.dc_prev_in),
        q_mul(c.dc_coeff, c.dc_prev_out),
    );
    if c.declick_t < c.declick_len {
        c.declick_t = c.declick_t + 1;
    }
    c.dc_prev_in = x1;
    c.dc_prev_out = y;
    y
}

/// One render session: a fully built graph, the fixed stereo image, the
/// per-channel effect chains and the limiter ceiling. Built once before
/// rendering starts; after that only [`spec_render_one`] transitions it.
pub struct RenderSession {
    pub graph: Node,
    pub left: ChannelChain,
    pub right: ChannelChain,
    /// Q16 gain of the left channel in the fixed stereo image.
    pub pan_left: i64,
    /// Q16 gain of the right channel in the fixed stereo image.
    pub pan_right: i64,
    /// Peak bound enforced by the limiter, Q16.
    pub ceiling: i64,
    pub sample_rate: u32,
}

impl RenderSession {
    pub open spec fn wf(self) -> bool {
        &&& wf_node(self.graph)
        &&& self.left.wf()
        &&& self.right.wf()
        &&& 0 <= self.pan_left <= 65536
        &&& 0 <= self.pan_right <= 65536
        &&& 0 <= self.ceiling <= crate::fixed::SIG_MAX
    }
}

/// Advancing a session by one stereo frame: advance the graph, pan the
/// mono sample into the stereo image, run each channel's effects, then
/// clamp both channels to the ceiling. A pure function of the session
/// state — the sole transition both rendering entry points use.
pub open spec fn spec_render_one(s: RenderSession) -> (RenderSession, (i64, i64)) {
    let (g2, m) = spec_advance(s.graph);
    let l0 = spec_q_mul(m as int, s.pan_left as int) as i64;
    let r0 = spec_q_mul(m as int, s.pan_right as int) as i64;
    let (lc, l1) = spec_chain_step(s.left, l0);
    let (rc, r1) = spec_chain_step(s.right, r0);
    let l = spec_clamp(l1 as int, -(s.ceiling as int), s.ceiling as int) as i64;
    let r = spec_clamp(r1 as int, -(s.ceiling as int), s.ceiling as int) as i64;
    (
        RenderSession {
            graph: g2,
            left: lc,
            right: rc,
            pan_left: s.pan_left,
            pan_right: s.pan_right,
            ceiling: s.ceiling,
            sample_rate: s.sample_rate,
        },
        (l, r),
    )
}

/// A frame whose two channels both have magnitude at most `ceiling`.
pub open spec fn frame_within(frame: (i64, i64), ceiling: int) -> bool {
    spec_abs(frame.0 as int) <= ceiling && spec_abs(frame.1 as int) <= ceiling
}

pub proof fn lemma_spec_render_one_props(s: RenderSession)
    requires
        s.wf(),
    ensures
        spec_render_one(s).0.wf(),
        frame_within(spec_render_one(s).1, s.ceiling as int),
        spec_render_one(s).0.ceiling == s.ceiling,
{
    lemma_spec_advance_props(s.graph);
    let (g2, m) = spec_advance(s.graph);
    let l0 = spec_q_mul(m as int, s.pan_left as int) as i64;
    let r0 = spec_q_mul(m as int, s.pan_right as int) as i64;
    lemma_chain_step_props(s.left, l0);
    lemma_chain_step_props(s.right, r0);
}

/// Rendering `n` frames from state `s`: the emitted frame sequence and the
/// state left behind.
pub open spec fn spec_render_block(s: RenderSession, n: nat) -> (Seq<(i64, i64)>, RenderSession)
    decreases n,
{
    if n == 0 {
        (Seq::empty(), s)
    } else {
        let (s1, frame) = spec_render_one(s);
        let (rest, sf) = spec_render_block(s1, (n - 1) as nat);
        (seq![frame] + rest, sf)
    }
}

/// Every rendered block has one frame per requested sample; from a
/// well-formed session it stays well-formed, keeps its configured ceiling,
/// and — the limiter's guarantee — every frame's magnitude stays within
/// that ceiling.
pub proof fn lemma_render_block_props(s: RenderSession, n: nat)
    requires
        s.wf(),
    ensures
        spec_render_block(s, n).0.len() == n,
        spec_render_block(s, n).1.wf(),
        spec_render_block(s, n).1.ceiling == s.ceiling,
        forall|i: int|
            0 <= i < n ==> frame_within(
                #[trigger] spec_render_block(s, n).0[i],
                s.ceiling as int,
            ),
    decreases n,
{
    if n > 0 {
        lemma_spec_render_one_props(s);
        let (s1, frame) = spec_render_one(s);
        lemma_render_block_props(s1, (n - 1) as nat);
        let (rest, sf) = spec_render_block(s1, (n - 1) as nat);
        assert forall|i: int| 0 <= i < n implies frame_within(
            #[trigger] spec_render_block(s, n).0[i],
            s.ceiling as int,
        ) by {
            if i == 0 {
                assert(spec_render_block(s, n).0[0] == frame);
            } else {
                assert(spec_render_block(s, n).0[i] == rest[i - 1]);
            }
        }
    }
}

/// Continuity across block boundaries: rendering `k + m` frames in one
/// call emits exactly the frames of a `k`-frame call followed by an
/// `m`-frame call on the state the first call left behind, and lands in
/// the same final state. Splitting a block — down to single frames pulled
/// one at a time — never changes the rendered signal.
pub proof fn lemma_render_block_split(s: RenderSession, k: nat, m: nat)
    ensures
        spec_render_block(s, k + m).0 == spec_render_block(s, k).0 + spec_render_block(
            spec_render_block(s, k).1,
            m,
        ).0,
        spec_render_block(s, k + m).1 == spec_render_block(spec_render_block(s, k).1, m).1,
    decreases k,
{
    if k == 0 {
        assert(spec_render_block(s, 0).0 == Seq::<(i64, i64)>::empty());
        assert(spec_render_block(s, 0).1 == s);
        assert(Seq::<(i64, i64)>::empty() + spec_render_block(s, m).0 =~= spec_render_block(
            s,
            m,
        ).0);
    } else {
        let (s1, frame) = spec_render_one(s);
        lemma_render_block_split(s1, (k - 1) as nat, m);
        let a = spec_render_block(s1, (k - 1) as nat).0;
        let b = spec_render_block(spec_render_block(s1, (k - 1) as nat).1, m).0;
        assert(spec_render_block(s1, (k - 1) as nat + m).0 == a + b);
        assert(seq![frame] + (a + b) =~= (seq![frame] + a) + b);
    }
}

/// Determinism: rendering is a pure function of the session state, so two
/// sessions in equal states — same note parameters, sample rate and noise
/// seed — render identical frame sequences, however often it is repeated.
pub proof fn lemma_render_deterministic(s1: RenderSession, s2: RenderSession, n: nat)
    requires
        s1 == s2,
    ensures
        spec_render_block(s1, n).0 == spec_render_block(s2, n).0,
        spec_render_block(s1, n).1 == spec_render_block(s2, n).1,
{
}

impl RenderSession {
    /// Pulls one stereo frame — the primitive the real-time adapter calls
    /// once per output slot. Both channels are limited to the ceiling.
    pub fn render_one(&mut self) -> (frame: (i64, i64))
        requires
            old(self).wf(),
        ensures
            *final(self) == spec_render_one(*old(self)).0,
            frame == spec_render_one(*old(self)).1,
            final(self).wf(),
            frame_within(frame, old(self).ceiling as int),
    {
        proof {
            lemma_spec_render_one_props(*self);
        }
        let m = self.graph.advance();
        let l0 = q_mul(m, self.pan_left);
        let r0 = q_mul(m, self.pan_right);
        let l1 = chain_step(&mut self.left, l0);
        let r1 = chain_step(&mut self.right, r0);
        let l = clamp_i64(l1, -self.ceiling, self.ceiling);
        let r = clamp_i64(r1, -self.ceiling, self.ceiling);
        (l, r)
    }

    /// Pulls exactly `frames` stereo frames, advancing state each call, so
    /// repeated calls continue the signal without discontinuity.
    pub fn render_block(&mut self, frames: usize) -> (out: Vec<(i64, i64)>)
        requires
            old(self).wf(),
        ensures
            out@ == spec_render_block(*old(self), frames as nat).0,
            *final(self) == spec_render_block(*old(self), frames as nat).1,
            final(self).wf(),
            out@.len() == frames,
    {
        let ghost s0: RenderSession = *self;
        let mut out: Vec<(i64, i64)> = Vec::new();
        let mut i: usize = 0;
        proof {
            lemma_render_block_props(s0, frames as nat);
        }
        while i < frames
            invariant
                i <= frames,
                s0.wf(),
                out@ == spec_render_block(s0, i as nat).0,
                *self == spec_render_block(s0, i as nat).1,
            decreases frames - i,
        {
            proof {
                lemma_render_block_props(s0, i as nat);
                lemma_render_block_split(s0, i as nat, 1);
                let si = spec_render_block(s0, i as nat).1;
                let (s1, frame) = spec_render_one(si);
                assert(spec_render_block(si, 1).0 == seq![frame] + spec_render_block(s1, 0).0);
                assert(seq![frame] + Seq::<(i64, i64)>::empty() =~= seq![frame]);
                assert(spec_render_block(si, 1).1 == s1);
            }
            let f = self.render_one();
            out.push(f);
            proof {
                assert(out@ =~= spec_render_block(s0, i as nat).0 + seq![f]);
                assert(spec_render_block(s0, (i + 1) as nat).0 =~= spec_render_block(
                    s0,
                    i as nat,
                ).0 + seq![f]);
            }
            i = i + 1;
        }
        out
    }
}

/// A fresh channel chain for a sample rate: a 10 ms declick fade-in (at
/// least one sample) and a DC blocker with feedback 0.995 (Q16: 65208).
pub open spec fn spec_fresh_chain(sample_rate: int) -> ChannelChain {
    let len = if sample_rate / 100 >= 1 {
        sample_rate / 100
    } else {
        1
    };
    ChannelChain {
        declick_len: len as u64,
        declick_t: 0,
        dc_coeff: 65208,
        dc_prev_in: 0,
        dc_prev_out: 0,
    }
}

/// What [`new_session`] returns: the flute voice for the note, panned to
/// the center of the stereo image (equal-power: 0.7071 on each side), with
/// fresh effect chains and the limiter ceiling at 1.0.
pub open spec fn spec_new_session(
    note: crate::instrument::Note,
    sample_rate: u32,
    noise_seed: int,
) -> Result<RenderSession, crate::ConfigurationError> {
    match crate::instrument::spec_flute_res(note, sample_rate as int, noise_seed) {
        Err(e) => Err(e),
        Ok(g) => Ok(
            RenderSession {
                graph: g,
                left: spec_fresh_chain(sample_rate as int),
                right: spec_fresh_chain(sample_rate as int),
                pan_left: 46341,
                pan_right: 46341,
                ceiling: 65536,
                sample_rate,
            },
        ),
    }
}

/// Builds a complete render session for one note: voice, stereo image,
/// effect chains and limiter. Construction happens entirely before
/// rendering or streaming starts; the session is then moved into whichever
/// context drives it.
pub fn new_session(note: &crate::instrument::Note, sample_rate: u32, noise_seed: u64) -> (r:
    Result<RenderSession, crate::ConfigurationError>)
    requires
        note.freq_millihz <= crate::instrument::MAX_NOTE_FREQ_MILLIHZ,
        note.length_ms <= crate::instrument::MAX_NOTE_LENGTH_MS,
        sample_rate <= crate::instrument::MAX_SAMPLE_RATE,
    ensures
        r == spec_new_session(*note, sample_rate, noise_seed as int),
        r matches Ok(s) ==> s.wf(),
{
    let graph = match crate::instrument::flute(note, sample_rate, noise_seed) {
        Ok(g) => g,
        Err(e) => {
            return Err(e);
        },
    };
    let len100: u32 = sample_rate / 100;
    let declick_len: u64 = if len100 >= 1 {
        len100 as u64
    } else {
        1
    };
    let fresh = ChannelChain {
        declick_len,
        declick_t: 0,
        dc_coeff: 65208,
        dc_prev_in: 0,
        dc_prev_out: 0,
    };
    let fresh2 = ChannelChain {
        declick_len,
        declick_t: 0,
        dc_coeff: 65208,
        dc_prev_in: 0,
        dc_prev_out: 0,
    };
    Ok(
        RenderSession {
            graph,
            left: fresh,
            right: fresh2,
            pan_left: 46341,
            pan_right: 46341,
            ceiling: 65536,
            sample_rate,
        },
    )
}

/// The cells one stereo frame contributes to an interleaved buffer of
/// `channels` channels: even channels carry the left sample, odd channels
/// the right, each saturated to 16-bit PCM.
pub open spec fn spec_frame_cells(frame: (i64, i64), channels: int) -> Seq<i16> {
    Seq::new(
        channels as nat,
        |c: int|
            if c % 2 == 0 {
                crate::fixed::spec_pcm16(frame.0 as int) as i16
            } else {
                crate::fixed::spec_pcm16(frame.1 as int) as i16
            },
    )
}

/// A rendered block, interleaved for an output buffer of `channels`
/// channels, frame by frame.
pub open spec fn spec_interleave(frames: Seq<(i64, i64)>, channels: int) -> Seq<i16>
    decreases frames.len(),
{
    if frames.len() == 0 {
        Seq::empty()
    } else {
        spec_interleave(frames.drop_last(), channels) + spec_frame_cells(frames.last(), channels)
    }
}

/// Converts rendered stereo frames into an interleaved 16-bit PCM buffer,
/// with saturation — the computation the output adapter performs for each
/// hardware buffer. Channels beyond the first two are filled by parity.
pub fn interleave_frames(frames: &Vec<(i64, i64)>, channels: usize) -> (out: Vec<i16>)
    requires
        channels >= 1,
        forall|i: int|
            0 <= i < frames@.len() ==> bounded((#[trigger] frames@[i]).0 as int) && bounded(
                frames@[i].1 as int,
            ),
    ensures
        out@ == spec_interleave(frames@, channels as int),
{
    let mut out: Vec<i16> = Vec::new();
    let mut f: usize = 0;
    proof {
        assert(out@ =~= spec_interleave(frames@.take(0), channels as int));
    }
    while f < frames.len()
        invariant
            f <= frames@.len(),
            channels >= 1,
            forall|i: int|
                0 <= i < frames@.len() ==> bounded((#[trigger] frames@[i]).0 as int) && bounded(
                    frames@[i].1 as int,
                ),
            out@ == spec_interleave(frames@.take(f as int), channels as int),
        decreases frames@.len() - f,
    {
        let frame: (i64, i64) = frames[f];
        let pl: i16 = crate::fixed::pcm16_of_sample(frame.0);
        let pr: i16 = crate::fixed::pcm16_of_sample(frame.1);
        let ghost cells = spec_frame_cells(frame, channels as int);
        let ghost base = out@;
        let mut c: usize = 0;
        proof {
            assert(base + cells.take(0) =~= base);
        }
        while c < channels
            invariant
                c <= channels,
                cells == spec_frame_cells(frame, channels as int),
                pl as int == crate::fixed::spec_pcm16(frame.0 as int),
                pr as int == crate::fixed::spec_pcm16(frame.1 as int),
                out@ == base + cells.take(c as int),
            decreases channels - c,
        {
            if c % 2 == 0 {
                out.push(pl);
            } else {
                out.push(pr);
            }
            proof {
                assert(cells[c as int] == if c as int % 2 == 0 {
                    crate::fixed::spec_pcm16(frame.0 as int) as i16
                } else {
                    crate::fixed::spec_pcm16(frame.1 as int) as i16
                });
                assert(base + cells.take(c as int + 1) =~= (base + cells.take(c as int)).push(
                    cells[c as int],
                ));
            }
            c = c + 1;
        }
        proof {
            assert(cells.take(channels as int) =~= cells);
            assert(frames@.take(f as int + 1).drop_last() =~= frames@.take(f as int));
            assert(frames@.take(f as int + 1).last() == frame);
            assert(out@ =~= spec_interleave(frames@.take(f as int + 1), channels as int));
        }
        f = f + 1;
    }
    proof {
        assert(frames@.take(frames@.len() as int) =~= frames@);
    }
    out
}

} // verus!
