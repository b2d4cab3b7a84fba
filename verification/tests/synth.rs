use flute_synth::envelope::EnvelopeStage;
use flute_synth::fixed::{pcm16_of_sample, q_mul, sat_add, sat_sub};
use flute_synth::instrument::{flute, harmonics, noise_source, oscillator, Note};
use flute_synth::pitch::midi_to_freq_millihz;
use flute_synth::render::{interleave_frames, new_session};
use flute_synth::score::{note_of_song, Song, SongFile};
use flute_synth::ConfigurationError;

fn a4_note() -> Note {
    Note { freq_millihz: 440000, length_ms: 2500, velocity: 65536 }
}

#[test]
fn pitch_maps_a440_exactly() {
    assert_eq!(midi_to_freq_millihz(69), 440000);
}

#[test]
fn pitch_maps_octave_up_exactly() {
    assert_eq!(midi_to_freq_millihz(81), 880000);
}

#[test]
fn pitch_maps_octave_down_exactly() {
    assert_eq!(midi_to_freq_millihz(57), 220000);
}

#[test]
fn envelope_clamps_sustain_not_attack() {
    // 0.01 s / 0.1 s / 0.05 s at 44100 Hz, note length 2.5 s.
    let e = EnvelopeStage::new(441, 4410, 45875, 2205, 110250, 110250);
    assert_eq!(e.attack, 441);
    assert_eq!(e.decay, 4410);
    assert_eq!(e.release, 2205);
    // Sustain absorbs the slack: total is exactly the note length.
    assert_eq!(e.sustain_time, 110250 - 441 - 4410 - 2205);
}

#[test]
fn envelope_sustain_zero_when_note_too_short() {
    let e = EnvelopeStage::new(441, 4410, 45875, 2205, 5000, 5000);
    assert_eq!(e.sustain_time, 0);
}

#[test]
fn envelope_shape_endpoints() {
    let e = EnvelopeStage::new(441, 4410, 45875, 2205, 110250, 110250);
    // Starts silent, peaks at exactly 1.0 at the end of the attack.
    assert_eq!(flute_synth::envelope::env_gain(&e, 0), 0);
    assert_eq!(flute_synth::envelope::env_gain(&e, 441), 65536);
    // Decays to exactly the sustain level and holds there.
    assert_eq!(flute_synth::envelope::env_gain(&e, 441 + 4410), 45875);
    assert_eq!(flute_synth::envelope::env_gain(&e, 50000), 45875);
    // Back to silence exactly at the end of the release.
    assert_eq!(flute_synth::envelope::env_gain(&e, 110250), 0);
    assert_eq!(flute_synth::envelope::env_gain(&e, 200000), 0);
}

#[test]
fn envelope_rises_and_falls_monotonically() {
    let e = EnvelopeStage::new(441, 4410, 45875, 2205, 110250, 110250);
    let mut prev = flute_synth::envelope::env_gain(&e, 0);
    for t in 1..=441u64 {
        let g = flute_synth::envelope::env_gain(&e, t);
        assert!(g >= prev);
        prev = g;
    }
    assert_eq!(prev, 65536);
    for t in 442..=(441 + 4410u64) {
        let g = flute_synth::envelope::env_gain(&e, t);
        assert!(g <= prev);
        assert!(g >= 45875);
        prev = g;
    }
    let release_start = 110250 - 2205u64;
    prev = flute_synth::envelope::env_gain(&e, release_start);
    assert_eq!(prev, 45875);
    for t in release_start..110250u64 {
        let g = flute_synth::envelope::env_gain(&e, t);
        assert!(g <= prev);
        assert!(g > 0);
        prev = g;
    }
}

#[test]
fn envelope_nonzero_for_whole_note() {
    // Duration: every sample strictly inside the note is non-silent.
    let e = EnvelopeStage::new(441, 4410, 45875, 2205, 110250, 110250);
    for t in 1..110250u64 {
        assert!(flute_synth::envelope::env_gain(&e, t) > 0);
    }
}

#[test]
fn render_block_is_deterministic() {
    let mut s1 = new_session(&a4_note(), 44100, 12345).unwrap();
    let mut s2 = new_session(&a4_note(), 44100, 12345).unwrap();
    let b1 = s1.render_block(2000);
    let b2 = s2.render_block(2000);
    assert_eq!(b1, b2);
}

#[test]
fn render_split_matches_single_block() {
    // Continuity: one 1000-frame block equals 400 + 600, and equals
    // pulling frames one at a time.
    let mut whole = new_session(&a4_note(), 44100, 7).unwrap();
    let mut split = new_session(&a4_note(), 44100, 7).unwrap();
    let mut single = new_session(&a4_note(), 44100, 7).unwrap();
    let b = whole.render_block(1000);
    let mut c = split.render_block(400);
    c.extend(split.render_block(600));
    assert_eq!(b, c);
    let mut d = Vec::new();
    for _ in 0..1000 {
        d.push(single.render_one());
    }
    assert_eq!(b, d);
}

#[test]
fn rendered_samples_stay_within_ceiling() {
    // Boundedness: after the limiter, |sample| <= the configured ceiling.
    let mut s = new_session(&a4_note(), 44100, 99).unwrap();
    let ceiling = s.ceiling;
    for frame in s.render_block(44100) {
        assert!(frame.0.abs() <= ceiling);
        assert!(frame.1.abs() <= ceiling);
    }
}

#[test]
fn flute_rejects_bad_velocity() {
    let n = Note { freq_millihz: 440000, length_ms: 1000, velocity: 70000 };
    assert!(matches!(flute(&n, 44100, 0), Err(ConfigurationError::VelocityOutOfRange)));
}

#[test]
fn flute_rejects_zero_sample_rate() {
    assert!(matches!(flute(&a4_note(), 0, 0), Err(ConfigurationError::ZeroSampleRate)));
}

#[test]
fn flute_rejects_excessive_frequency() {
    // The fifth harmonic of 10 kHz is past what a 44.1 kHz clock can hold.
    let n = Note { freq_millihz: 10000000, length_ms: 1000, velocity: 65536 };
    assert!(matches!(flute(&n, 44100, 0), Err(ConfigurationError::FrequencyOutOfRange)));
}

#[test]
fn oscillator_rejects_zero_sample_rate() {
    assert!(matches!(oscillator(440000, 65536, 0), Err(ConfigurationError::ZeroSampleRate)));
}

#[test]
fn harmonics_accepts_and_rejects_by_partial() {
    let ok = vec![(1u64, 30000i64), (2, 15000)];
    assert!(harmonics(440000, &ok, 44100).is_ok());
    let bad = vec![(1u64, 30000i64), (200, 15000)];
    assert!(matches!(
        harmonics(440000, &bad, 44100),
        Err(ConfigurationError::FrequencyOutOfRange)
    ));
}

#[test]
fn lowpass_smooths_toward_input() {
    // A fully open filter (coefficient 1.0) passes its child through; a
    // closed one (0) stays at rest.
    let open_osc = oscillator(440000, 65536, 44100).unwrap();
    let mut plain = oscillator(440000, 65536, 44100).unwrap();
    let mut open = flute_synth::instrument::lowpass(65536, open_osc);
    for _ in 0..50 {
        assert_eq!(open.advance(), plain.advance());
    }
    let closed_osc = oscillator(440000, 65536, 44100).unwrap();
    let mut closed = flute_synth::instrument::lowpass(0, closed_osc);
    for _ in 0..50 {
        assert_eq!(closed.advance(), 0);
    }
}

#[test]
fn noise_is_deterministic_from_seed() {
    let mut a = noise_source(65536, 42);
    let mut b = noise_source(65536, 42);
    for _ in 0..100 {
        assert_eq!(a.advance(), b.advance());
    }
}

#[test]
fn oscillator_first_samples_are_exact() {
    // phase_inc = floor(440000 * 65536 / 44100000) = 653; the parabolic
    // sine gives floor(653 * (32768 - 653) / 4096) = 5119 on the second
    // sample.
    let mut o = oscillator(440000, 65536, 44100).unwrap();
    assert_eq!(o.advance(), 0);
    assert_eq!(o.advance(), 5119);
}

#[test]
fn noise_first_sample_is_exact() {
    // One step of the congruential generator from seed 42, reduced to the
    // Q16 range: (1103515245 * 42 + 12345) mod 2^31, then mod 131073,
    // minus 65536.
    let mut n = noise_source(65536, 42);
    assert_eq!(n.advance(), -5929);
}

#[test]
fn score_line_parses_to_song_note() {
    let text = "0.0\tnote\t69\t480\t1.0\t12 3";
    let file = SongFile::from_str(text, String::from("demo.tsv")).unwrap();
    assert_eq!(file.name, "demo.tsv");
    assert_eq!(file.notes.len(), 1);
    let n = &file.notes[0];
    assert_eq!(n.moment, 0);
    assert_eq!(n.midi_key, 69);
    assert_eq!(n.duration, 480);
    assert_eq!(n.duration_length, 1000000);
    assert_eq!(n.notehead_id, "Note-12-3");
}

#[test]
fn score_non_numeric_onset_fails() {
    let text = "abc\tnote\t69\t480\t1.0\t12 3";
    assert!(SongFile::from_str(text, String::from("bad.tsv")).is_err());
}

#[test]
fn score_rest_records_are_skipped() {
    let text = "0.0\trest\t0\t0\t0.0\tx\n1.5\tnote\t81\t240\t0.5\t4 7\n";
    let file = SongFile::from_str(text, String::from("s.tsv")).unwrap();
    assert_eq!(file.notes.len(), 1);
    let n = &file.notes[0];
    assert_eq!(n.moment, 1500000);
    assert_eq!(n.midi_key, 81);
    assert_eq!(n.duration, 240);
    assert_eq!(n.duration_length, 500000);
    assert_eq!(n.notehead_id, "Note-4-7");
}

#[test]
fn score_handles_crlf_and_blank_lines() {
    let text = "\r\n0.25\tnote\t60\t120\t0.125\t1 2\r\n\r\n";
    let file = SongFile::from_str(text, String::from("s.tsv")).unwrap();
    assert_eq!(file.notes.len(), 1);
    assert_eq!(file.notes[0].moment, 250000);
    assert_eq!(file.notes[0].duration_length, 125000);
}

#[test]
fn score_missing_fields_fail() {
    let text = "0.0\tnote\t69";
    assert!(SongFile::from_str(text, String::from("s.tsv")).is_err());
}

#[test]
fn score_notehead_pair_skips_bad_tokens() {
    // Tokens that are not numbers are skipped; the first two numbers win.
    let text = "0.0\tnote\t69\t480\t1.0\tfoo 12 bar 3";
    let file = SongFile::from_str(text, String::from("s.tsv")).unwrap();
    assert_eq!(file.notes[0].notehead_id, "Note-12-3");
}

#[test]
fn score_notehead_pair_requires_two_numbers() {
    let text = "0.0\tnote\t69\t480\t1.0\t12";
    assert!(SongFile::from_str(text, String::from("s.tsv")).is_err());
}

#[test]
fn song_note_maps_to_playable_note() {
    let text = "0.0\tnote\t69\t480\t1.0\t12 3";
    let file = SongFile::from_str(text, String::from("s.tsv")).unwrap();
    let note = note_of_song(&file.notes[0], 65536);
    assert_eq!(note.freq_millihz, 440000);
    assert_eq!(note.length_ms, 1000);
    assert_eq!(note.velocity, 65536);
}

#[test]
fn song_wraps_file() {
    let file = SongFile::from_str("", String::from("empty.tsv")).unwrap();
    assert_eq!(file.notes.len(), 0);
    let song = Song::new(file);
    assert_eq!(song.file.name, "empty.tsv");
}

#[test]
fn pcm16_rounds_and_saturates() {
    assert_eq!(pcm16_of_sample(0), 0);
    // Full scale maps to the full 16-bit range.
    assert_eq!(pcm16_of_sample(65536), 32767);
    assert_eq!(pcm16_of_sample(-65536), -32767);
    // Half scale rounds half away from zero: 0.5 * 32767 = 16383.5.
    assert_eq!(pcm16_of_sample(32768), 16384);
    assert_eq!(pcm16_of_sample(-32768), -16384);
    // Values past full scale saturate instead of wrapping.
    assert_eq!(pcm16_of_sample(40000000), 32767);
    assert_eq!(pcm16_of_sample(-40000000), -32768);
}

#[test]
fn interleave_fills_extra_channels_by_parity() {
    let frames = vec![(65536i64, -65536i64), (0, 32768)];
    let out = interleave_frames(&frames, 4);
    assert_eq!(out, vec![32767, -32767, 32767, -32767, 0, 16384, 0, 16384]);
}

#[test]
fn interleave_mono_takes_left_channel() {
    let frames = vec![(65536i64, 0i64)];
    assert_eq!(interleave_frames(&frames, 1), vec![32767]);
}

#[test]
fn fixed_point_ops_saturate() {
    let max = flute_synth::fixed::SIG_MAX;
    assert_eq!(sat_add(max, max), max);
    assert_eq!(sat_sub(-max, max), -max);
    assert_eq!(q_mul(65536, 65536), 65536);
    assert_eq!(q_mul(-65536, 65536), -65536);
    assert_eq!(q_mul(max, max), max);
}
