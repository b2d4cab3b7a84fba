//! Score ingestion: the tab-separated score-file format.
//!
//! One record per line; a record is a note event when its second field is
//! the tag `note`, and its fields are onset time, record type, MIDI key,
//! duration in ticks, duration in seconds, and a space-separated pair of
//! notehead numbers. Unrecognized record types are silently skipped; a
//! malformed note record fails the whole parse.
//!
//! Times arrive as decimal text ("0.5"); they are held exactly as integer
//! microseconds, so parsing is exact integer arithmetic.

use vstd::prelude::*;
use vstd::string::{StrSliceExecFns, StringExecFns, StringSliceAdditionalSpecFns};
use crate::instrument::Note;
use crate::pitch::{midi_to_freq_millihz, spec_midi_freq_millihz};

verus! {

/// A malformed note record: a bad numeric field, a missing field, or a
/// notehead field without two numbers. The whole parse fails — no partial
/// results.
#[derive(Clone, Copy, PartialEq, Eq, Structural, Debug)]
pub enum ParseError {
    MalformedRecord,
}

/// Splitting a byte sequence on a separator: the list of (possibly empty)
/// fields between separators. Always at least one field.
pub open spec fn split_on(s: Seq<u8>, sep: u8) -> Seq<Seq<u8>>
    decreases s.len(),
{
    if s.len() == 0 {
        seq![Seq::<u8>::empty()]
    } else if s[0] == sep {
        seq![Seq::<u8>::empty()] + split_on(s.drop_first(), sep)
    } else {
        let rest = split_on(s.drop_first(), sep);
        seq![seq![s[0]] + rest[0]] + rest.drop_first()
    }
}

pub proof fn lemma_split_on_len(s: Seq<u8>, sep: u8)
    ensures
        split_on(s, sep).len() >= 1,
    decreases s.len(),
{
    if s.len() > 0 {
        lemma_split_on_len(s.drop_first(), sep);
    }
}

/// How splitting changes when one byte is appended: a separator opens a
/// new empty field; any other byte extends the last field.
#[verifier::rlimit(50)]
proof fn lemma_split_on_snoc(s: Seq<u8>, b: u8, sep: u8)
    ensures
        b == sep ==> split_on(s.push(b), sep) == split_on(s, sep).push(Seq::<u8>::empty()),
        b != sep ==> split_on(s.push(b), sep) == split_on(s, sep).update(
            split_on(s, sep).len() - 1,
            split_on(s, sep).last().push(b),
        ),
    decreases s.len(),
{
    lemma_split_on_len(s, sep);
    let t = s.push(b);
    if s.len() == 0 {
        assert(t.len() == 1 && t[0] == b);
        assert(t.drop_first() =~= Seq::<u8>::empty());
        if b == sep {
            assert(split_on(t, sep) == seq![Seq::<u8>::empty()] + split_on(t.drop_first(), sep));
            assert(split_on(t.drop_first(), sep) == seq![Seq::<u8>::empty()]);
            assert(split_on(s, sep) == seq![Seq::<u8>::empty()]);
            assert(split_on(t, sep) =~= split_on(s, sep).push(Seq::<u8>::empty()));
        } else {
            assert(seq![t[0]] + split_on(t.drop_first(), sep)[0] =~= Seq::<u8>::empty().push(b));
            assert(split_on(t, sep) =~= split_on(s, sep).update(
                0,
                split_on(s, sep).last().push(b),
            ));
        }
    } else {
        assert(t[0] == s[0]);
        assert(t.drop_first() =~= s.drop_first().push(b));
        lemma_split_on_snoc(s.drop_first(), b, sep);
        lemma_split_on_len(s.drop_first(), sep);
        let rest = split_on(s.drop_first(), sep);
        let rest_t = split_on(t.drop_first(), sep);
        if s[0] == sep {
            if b == sep {
                assert(split_on(t, sep) =~= (seq![Seq::<u8>::empty()] + rest).push(
                    Seq::<u8>::empty(),
                ));
            } else {
                assert(split_on(t, sep) =~= (seq![Seq::<u8>::empty()] + rest).update(
                    (seq![Seq::<u8>::empty()] + rest).len() - 1,
                    (seq![Seq::<u8>::empty()] + rest).last().push(b),
                ));
            }
        } else {
            if b == sep {
                assert(rest_t == rest.push(Seq::<u8>::empty()));
                assert(rest_t[0] == rest[0]);
                assert(rest_t.drop_first() =~= rest.drop_first().push(Seq::<u8>::empty()));
                assert(split_on(t, sep) =~= split_on(s, sep).push(Seq::<u8>::empty()));
            } else {
                let k = rest.len() as int;
                assert(rest_t == rest.update(k - 1, rest.last().push(b)));
                if k == 1 {
                    assert(rest_t[0] == rest[0].push(b));
                    assert(rest_t.drop_first() =~= rest.drop_first());
                    assert(seq![t[0]] + rest_t[0] =~= (seq![s[0]] + rest[0]).push(b));
                    assert(split_on(t, sep) =~= split_on(s, sep).update(
                        split_on(s, sep).len() - 1,
                        split_on(s, sep).last().push(b),
                    ));
                } else {
                    assert(rest_t[0] == rest[0]);
                    assert(rest_t.drop_first() =~= rest.drop_first().update(
                        k - 2,
                        rest.last().push(b),
                    ));
                    assert(split_on(s, sep).last() == rest.last());
                    assert(split_on(t, sep) =~= split_on(s, sep).update(
                        split_on(s, sep).len() - 1,
                        split_on(s, sep).last().push(b),
                    ));
                }
            }
        }
    }
}

/// The views of a list of byte vectors.
pub open spec fn views_of(parts: Seq<Vec<u8>>) -> Seq<Seq<u8>> {
    parts.map_values(|p: Vec<u8>| p@)
}

/// Splits a byte vector on a separator, exactly as [`split_on`] describes.
pub fn split_bytes(v: &Vec<u8>, sep: u8) -> (parts: Vec<Vec<u8>>)
    ensures
        views_of(parts@) == split_on(v@, sep),
        parts@.len() >= 1,
{
    let mut parts: Vec<Vec<u8>> = Vec::new();
    let mut cur: Vec<u8> = Vec::new();
    let mut i: usize = 0;
    proof {
        assert(views_of(parts@).push(cur@) =~= split_on(v@.take(0), sep));
    }
    while i < v.len()
        invariant
            i <= v@.len(),
            views_of(parts@).push(cur@) == split_on(v@.take(i as int), sep),
        decreases v@.len() - i,
    {
        let b = v[i];
        proof {
            lemma_split_on_snoc(v@.take(i as int), b, sep);
            assert(v@.take(i as int + 1) =~= v@.take(i as int).push(b));
        }
        if b == sep {
            parts.push(cur);
            cur = Vec::new();
            proof {
                assert(views_of(parts@).push(cur@) =~= split_on(v@.take(i as int), sep).push(
                    Seq::<u8>::empty(),
                ));
            }
        } else {
            let ghost old_split = split_on(v@.take(i as int), sep);
            cur.push(b);
            proof {
                assert(old_split.last() == cur@.drop_last());
                assert(cur@ =~= old_split.last().push(b));
                assert(views_of(parts@).push(cur@) =~= old_split.update(
                    old_split.len() - 1,
                    old_split.last().push(b),
                ));
            }
        }
        i = i + 1;
    }
    proof {
        assert(v@.take(v@.len() as int) =~= v@);
    }
    parts.push(cur);
    proof {
        assert(views_of(parts@) =~= split_on(v@, sep));
    }
    parts
}

/// An ASCII decimal digit.
pub open spec fn is_digit(b: u8) -> bool {
    48 <= b <= 57
}

pub open spec fn all_digits(s: Seq<u8>) -> bool {
    forall|i: int| 0 <= i < s.len() ==> is_digit(#[trigger] s[i])
}

/// The number a digit string denotes (most significant digit first).
pub open spec fn digits_val(s: Seq<u8>) -> int
    decreases s.len(),
{
    if s.len() == 0 {
        0
    } else {
        digits_val(s.drop_last()) * 10 + (s.last() - 48)
    }
}

/// `10^k`.
pub open spec fn pow10(k: int) -> int
    decreases k,
{
    if k <= 0 {
        1
    } else {
        10 * pow10(k - 1)
    }
}

/// A string of `n` digits denotes a value in `[0, 10^n)`.
pub proof fn lemma_digits_val_bound(s: Seq<u8>)
    requires
        all_digits(s),
    ensures
        0 <= digits_val(s) < pow10(s.len() as int),
    decreases s.len(),
{
    if s.len() > 0 {
        lemma_digits_val_bound(s.drop_last());
    }
}

proof fn lemma_pow10_pos(k: int)
    ensures
        pow10(k) >= 1,
    decreases k,
{
    if k > 0 {
        lemma_pow10_pos(k - 1);
    }
}

proof fn lemma_pow10_le(a: int, b: int)
    requires
        0 <= a <= b,
    ensures
        pow10(a) <= pow10(b),
    decreases b,
{
    if a < b {
        lemma_pow10_le(a, b - 1);
        lemma_pow10_pos(b - 1);
    }
}

/// Extending a digit string never decreases its value.
proof fn lemma_digits_val_take_le(s: Seq<u8>, j: int)
    requires
        all_digits(s),
        0 <= j <= s.len(),
    ensures
        digits_val(s.take(j)) <= digits_val(s),
    decreases s.len() - j,
{
    if j < s.len() {
        assert(s.take(j + 1).drop_last() =~= s.take(j));
        assert(all_digits(s.take(j)));
        lemma_digits_val_bound(s.take(j));
        lemma_digits_val_take_le(s, j + 1);
    } else {
        assert(s.take(j) =~= s);
    }
}

/// What parsing a plain digit string yields: its value, provided the
/// string is nonempty, all digits, and the value is within `cap`.
pub open spec fn spec_parse_digits(s: Seq<u8>, cap: int) -> Option<u64> {
    if s.len() >= 1 && all_digits(s) && digits_val(s) <= cap {
        Some(digits_val(s) as u64)
    } else {
        None
    }
}

fn parse_digits(v: &Vec<u8>, cap: u64) -> (r: Option<u64>)
    requires
        cap <= 999999999999999999,
    ensures
        r == spec_parse_digits(v@, cap as int),
{
    if v.len() == 0 {
        return None;
    }
    let mut acc: u64 = 0;
    let mut i: usize = 0;
    while i < v.len()
        invariant
            i <= v@.len(),
            cap <= 999999999999999999,
            all_digits(v@.take(i as int)),
            acc == digits_val(v@.take(i as int)),
            acc <= cap,
        decreases v@.len() - i,
    {
        let b = v[i];
        if b < 48 || b > 57 {
            proof {
                assert(!is_digit(v@[i as int]));
            }
            return None;
        }
        acc = acc * 10 + ((b - 48) as u64);
        proof {
            assert(v@.take(i as int + 1).drop_last() =~= v@.take(i as int));
            assert(v@.take(i as int + 1).last() == b);
        }
        if acc > cap {
            proof {
                if all_digits(v@) {
                    lemma_digits_val_take_le(v@, i as int + 1);
                }
            }
            return None;
        }
        i = i + 1;
    }
    proof {
        assert(v@.take(v@.len() as int) =~= v@);
    }
    Some(acc)
}

/// What parsing a nonnegative decimal field yields, in microseconds: the
/// integer part (at most 12 digits) times one million plus the fraction
/// (at most 6 digits) scaled to six places. At most one decimal point;
/// at least one digit in all.
pub open spec fn spec_parse_micros(s: Seq<u8>) -> Option<u64> {
    let parts = split_on(s, 46);
    if parts.len() == 1 {
        if parts[0].len() >= 1 && all_digits(parts[0]) && digits_val(parts[0]) <= 999999999999 {
            Some((digits_val(parts[0]) * 1000000) as u64)
        } else {
            None
        }
    } else if parts.len() == 2 {
        let w = parts[0];
        let f = parts[1];
        if w.len() + f.len() >= 1 && all_digits(w) && all_digits(f) && f.len() <= 6
            && digits_val(w) <= 999999999999 {
            Some((digits_val(w) * 1000000 + digits_val(f) * pow10(6 - f.len() as int)) as u64)
        } else {
            None
        }
    } else {
        None
    }
}

fn pow10_u64(k: u64) -> (r: u64)
    requires
        k <= 6,
    ensures
        r as int == pow10(k as int),
        r <= 1000000,
{
    proof {
        reveal_with_fuel(pow10, 8);
    }
    if k == 0 {
        1
    } else if k == 1 {
        10
    } else if k == 2 {
        100
    } else if k == 3 {
        1000
    } else if k == 4 {
        10000
    } else if k == 5 {
        100000
    } else {
        1000000
    }
}

fn parse_micros(v: &Vec<u8>) -> (r: Option<u64>)
    ensures
        r == spec_parse_micros(v@),
{
    let parts = split_bytes(v, 46);
    if parts.len() == 1 {
        let w = &parts[0];
        proof {
            assert(w@ == split_on(v@, 46)[0]);
        }
        match parse_digits(w, 999999999999) {
            Some(x) => {
                proof {
                    lemma_digits_val_bound(w@);
                }
                Some(x * 1000000)
            },
            None => None,
        }
    } else if parts.len() == 2 {
        let w = &parts[0];
        let f = &parts[1];
        proof {
            assert(w@ == split_on(v@, 46)[0]);
            assert(f@ == split_on(v@, 46)[1]);
        }
        if w.len() == 0 && f.len() == 0 {
            return None;
        }
        if f.len() > 6 {
            return None;
        }
        let w_val: u64 = if w.len() == 0 {
            0
        } else {
            match parse_digits(w, 999999999999) {
                Some(x) => x,
                None => {
                    return None;
                },
            }
        };
        let f_val: u64 = if f.len() == 0 {
            0
        } else {
            match parse_digits(f, 999999) {
                Some(x) => x,
                None => {
                    proof {
                        reveal_with_fuel(pow10, 8);
                        if all_digits(f@) {
                            lemma_digits_val_bound(f@);
                            lemma_pow10_le(f@.len() as int, 6);
                        }
                    }
                    return None;
                },
            }
        };
        let scale: u64 = pow10_u64(6 - (f.len() as u64));
        proof {
            reveal_with_fuel(pow10, 8);
            if w@.len() > 0 {
                lemma_digits_val_bound(w@);
            }
            if f@.len() > 0 {
                lemma_digits_val_bound(f@);
                lemma_pow10_le(f@.len() as int, 6);
            }
            assert(f_val as int * (scale as int) <= 999999 * 1000000) by (nonlinear_arith)
                requires
                    0 <= f_val <= 999999,
                    0 <= scale <= 1000000,
            ;
        }
        Some(w_val * 1000000 + f_val * scale)
    } else {
        None
    }
}

/// The record-type tag `note`, as bytes.
pub open spec fn note_tag() -> Seq<u8> {
    seq![110u8, 111u8, 116u8, 101u8]
}

/// A line with a trailing carriage return stripped.
pub open spec fn strip_cr(l: Seq<u8>) -> Seq<u8> {
    if l.len() >= 1 && l.last() == 13 {
        l.drop_last()
    } else {
        l
    }
}

/// A line is a note record when its second tab-separated field is `note`.
pub open spec fn line_is_note(l: Seq<u8>) -> bool {
    let fs = split_on(l, 9);
    fs.len() >= 2 && fs[1] == note_tag()
}

/// The numbers among a list of tokens; tokens that do not parse are
/// skipped.
pub open spec fn good_tokens(toks: Seq<Seq<u8>>) -> Seq<u64>
    decreases toks.len(),
{
    if toks.len() == 0 {
        Seq::empty()
    } else {
        let pre = good_tokens(toks.drop_last());
        match spec_parse_digits(toks.last(), 4294967295) {
            Some(v) => pre.push(v),
            None => pre,
        }
    }
}

/// The notehead pair: the first two numbers among the space-separated
/// tokens of the field.
pub open spec fn spec_parse_noteheads(field: Seq<u8>) -> Option<(u64, u64)> {
    let goods = good_tokens(split_on(field, 32));
    if goods.len() >= 2 {
        Some((goods[0], goods[1]))
    } else {
        None
    }
}

/// The numeric content of a (stripped) note-record line: onset
/// microseconds, MIDI key, duration ticks, duration microseconds, and the
/// notehead pair — or nothing, if any field is malformed or missing.
pub open spec fn spec_parse_note_line(l: Seq<u8>) -> Option<(u64, u64, u64, u64, u64, u64)> {
    let fs = split_on(l, 9);
    if fs.len() < 6 {
        None
    } else {
        match (
            spec_parse_micros(fs[0]),
            spec_parse_digits(fs[2], 4294967295),
            spec_parse_digits(fs[3], 4294967295),
            spec_parse_micros(fs[4]),
            spec_parse_noteheads(fs[5]),
        ) {
            (Some(m), Some(k), Some(d), Some(dl), Some(nh)) => Some((m, k, d, dl, nh.0, nh.1)),
            _ => None,
        }
    }
}

/// Folding the lines of a score: note records accumulate in order, other
/// records are skipped, and one malformed note record fails everything.
pub open spec fn notes_of_lines(lines: Seq<Seq<u8>>) -> Result<
    Seq<(u64, u64, u64, u64, u64, u64)>,
    ParseError,
>
    decreases lines.len(),
{
    if lines.len() == 0 {
        Ok(Seq::empty())
    } else {
        match notes_of_lines(lines.drop_last()) {
            Err(e) => Err(e),
            Ok(acc) => {
                let l = strip_cr(lines.last());
                if !line_is_note(l) {
                    Ok(acc)
                } else {
                    match spec_parse_note_line(l) {
                        Some(t) => Ok(acc.push(t)),
                        None => Err(ParseError::MalformedRecord),
                    }
                }
            },
        }
    }
}

/// What parsing a whole score text yields.
pub open spec fn spec_parse_song(bytes: Seq<u8>) -> Result<
    Seq<(u64, u64, u64, u64, u64, u64)>,
    ParseError,
> {
    notes_of_lines(split_on(bytes, 10))
}

proof fn lemma_notes_of_lines_err(lines: Seq<Seq<u8>>, j: int)
    requires
        0 <= j <= lines.len(),
        notes_of_lines(lines.take(j)) is Err,
    ensures
        notes_of_lines(lines) == notes_of_lines(lines.take(j)),
    decreases lines.len() - j,
{
    if j < lines.len() {
        assert(lines.take(j + 1).drop_last() =~= lines.take(j));
        lemma_notes_of_lines_err(lines, j + 1);
    } else {
        assert(lines.take(j) =~= lines);
    }
}

/// The decimal digits of `n`, most significant first.
pub open spec fn digit_char(d: int) -> char {
    ((48 + d) as u8) as char
}

pub open spec fn dec_digits(n: int) -> Seq<char>
    decreases n,
{
    if n < 10 {
        seq![digit_char(n)]
    } else {
        dec_digits(n / 10).push(digit_char(n % 10))
    }
}

/// The identifier a notehead pair denotes: `Note-<a>-<b>`.
pub open spec fn spec_notehead_id(a: int, b: int) -> Seq<char> {
    seq!['N', 'o', 't', 'e', '-'] + dec_digits(a) + seq!['-'] + dec_digits(b)
}

fn push_dec_digits(s: &mut String, n: u64)
    ensures
        final(s)@ == old(s)@ + dec_digits(n as int),
    decreases n,
{
    let ds: &str = "0123456789";
    proof {
        reveal_strlit("0123456789");
        assert(ds@.len() == 10);
        assert(forall|i: int| 0 <= i < 10 ==> (ds@[i] as nat) < 128);
        assert(vstd::string::is_ascii(ds));
    }
    if n >= 10 {
        push_dec_digits(s, n / 10);
    }
    let ghost mid = s@;
    let d: usize = (n % 10) as usize;
    let piece: &str = ds.substring_ascii(d, d + 1);
    s.append(piece);
    proof {
        assert(piece@ =~= seq![digit_char(d as int)]);
        if n < 10 {
            assert(dec_digits(n as int) =~= seq![digit_char(n as int)]);
            assert(final(s)@ =~= old(s)@ + dec_digits(n as int));
        } else {
            assert(dec_digits(n as int) == dec_digits(n as int / 10).push(
                digit_char(n as int % 10),
            ));
            assert(mid + piece@ =~= old(s)@ + dec_digits(n as int));
        }
    }
}

/// Builds the notehead identifier string `Note-<a>-<b>`.
fn notehead_id_string(a: u64, b: u64) -> (s: String)
    ensures
        s@ == spec_notehead_id(a as int, b as int),
{
    let mut s: String = String::from_str("Note-");
    proof {
        reveal_strlit("Note-");
        assert(s@ =~= seq!['N', 'o', 't', 'e', '-']);
    }
    push_dec_digits(&mut s, a);
    let ghost mid = s@;
    let dash: &str = "-";
    s.append(dash);
    proof {
        reveal_strlit("-");
        assert(dash@ =~= seq!['-']);
    }
    push_dec_digits(&mut s, b);
    proof {
        assert(s@ =~= spec_notehead_id(a as int, b as int));
    }
    s
}

/// One parsed note event of a score.
#[derive(Debug, Clone)]
pub struct SongNote {
    /// Onset time, in microseconds.
    pub moment: u64,
    pub midi_key: u32,
    /// Duration, in ticks.
    pub duration: u32,
    /// Duration, in microseconds.
    pub duration_length: u64,
    /// The `Note-<a>-<b>` identifier built from the notehead pair.
    pub notehead_id: String,
}

/// A parsed note carries exactly the numbers of its record.
pub open spec fn note_matches(n: SongNote, t: (u64, u64, u64, u64, u64, u64)) -> bool {
    &&& n.moment == t.0
    &&& n.midi_key == t.1
    &&& n.duration == t.2
    &&& n.duration_length == t.3
    &&& n.notehead_id@ == spec_notehead_id(t.4 as int, t.5 as int)
}

/// A parsed score file: its name and its note events, in order.
#[derive(Debug, Clone)]
pub struct SongFile {
    pub name: String,
    pub notes: Vec<SongNote>,
}

/// A song: its parsed file.
#[derive(Debug, Clone)]
pub struct Song {
    pub file: SongFile,
}

impl Song {
    pub fn new(file: SongFile) -> (s: Song)
        ensures
            s.file == file,
    {
        Song { file }
    }
}

fn prefix_vec(v: &Vec<u8>, n: usize) -> (out: Vec<u8>)
    requires
        n <= v@.len(),
    ensures
        out@ == v@.take(n as int),
{
    let mut out: Vec<u8> = Vec::new();
    let mut i: usize = 0;
    while i < n
        invariant
            i <= n <= v@.len(),
            out@ == v@.take(i as int),
        decreases n - i,
    {
        out.push(v[i]);
        proof {
            assert(v@.take(i as int + 1) =~= v@.take(i as int).push(v@[i as int]));
        }
        i = i + 1;
    }
    out
}

fn is_note_tag(f: &Vec<u8>) -> (r: bool)
    ensures
        r == (f@ == note_tag()),
{
    if f.len() == 4 && f[0] == 110 && f[1] == 111 && f[2] == 116 && f[3] == 101 {
        proof {
            assert(f@ =~= note_tag());
        }
        true
    } else {
        proof {
            assert(f@ != note_tag());
        }
        false
    }
}

fn parse_noteheads(field: &Vec<u8>) -> (r: Option<(u64, u64)>)
    ensures
        r == spec_parse_noteheads(field@),
{
    let toks = split_bytes(field, 32);
    let mut goods: Vec<u64> = Vec::new();
    let mut i: usize = 0;
    proof {
        assert(views_of(toks@).take(0) =~= Seq::<Seq<u8>>::empty());
    }
    while i < toks.len()
        invariant
            i <= toks@.len(),
            views_of(toks@) == split_on(field@, 32),
            goods@ == good_tokens(views_of(toks@).take(i as int)),
        decreases toks@.len() - i,
    {
        let t = &toks[i];
        proof {
            let vs = views_of(toks@);
            assert(vs.take(i as int + 1).drop_last() =~= vs.take(i as int));
            assert(vs.take(i as int + 1).last() == t@);
        }
        match parse_digits(t, 4294967295) {
            Some(v) => {
                goods.push(v);
            },
            None => {},
        }
        i = i + 1;
    }
    proof {
        assert(views_of(toks@).take(toks@.len() as int) =~= views_of(toks@));
    }
    if goods.len() >= 2 {
        Some((goods[0], goods[1]))
    } else {
        None
    }
}

impl SongFile {
    /// Parses score text: one tab-separated record per line, note records
    /// collected in order, unrecognized record types skipped, any
    /// malformed note record failing the whole parse.
    pub fn from_str(text: &str, name: String) -> (r: Result<SongFile, ParseError>)
        ensures
            ({
                let parsed = spec_parse_song(text.spec_bytes());
                match r {
                    Ok(file) => {
                        &&& parsed matches Ok(ts)
                        &&& file.name@ == name@
                        &&& file.notes@.len() == ts.len()
                        &&& forall|i: int|
                            0 <= i < ts.len() ==> note_matches(#[trigger] file.notes@[i], ts[i])
                    },
                    Err(e) => parsed == Err::<Seq<(u64, u64, u64, u64, u64, u64)>, ParseError>(e),
                }
            }),
    {
        let bytes: Vec<u8> = text.as_bytes_vec();
        let lines = split_bytes(&bytes, 10);
        let ghost ls = split_on(bytes@, 10);
        let mut notes: Vec<SongNote> = Vec::new();
        let mut li: usize = 0;
        proof {
            assert(ls.take(0) =~= Seq::<Seq<u8>>::empty());
        }
        while li < lines.len()
            invariant
                li <= lines@.len(),
                views_of(lines@) == ls,
                ls == split_on(bytes@, 10),
                bytes@ == text.spec_bytes(),
                notes_of_lines(ls.take(li as int)) matches Ok(acc) && notes@.len() == acc.len()
                    && (forall|i: int|
                    0 <= i < acc.len() ==> note_matches(#[trigger] notes@[i], acc[i])),
            decreases lines@.len() - li,
        {
            let line = &lines[li];
            proof {
                assert(ls.take(li as int + 1).drop_last() =~= ls.take(li as int));
                assert(ls.take(li as int + 1).last() == line@);
            }
            let stripped: Vec<u8> = if line.len() >= 1 && line[line.len() - 1] == 13 {
                let p = prefix_vec(line, line.len() - 1);
                proof {
                    assert(line@.take(line@.len() - 1) =~= line@.drop_last());
                }
                p
            } else {
                prefix_vec(line, line.len())
            };
            proof {
                assert(line@.take(line@.len() as int) =~= line@);
                assert(stripped@ == strip_cr(line@));
            }
            let fields = split_bytes(&stripped, 9);
            if fields.len() >= 2 && is_note_tag(&fields[1]) {
                proof {
                    assert(line_is_note(strip_cr(line@)));
                }
                if fields.len() < 6 {
                    proof {
                        lemma_notes_of_lines_err(ls, li as int + 1);
                    }
                    return Err(ParseError::MalformedRecord);
                }
                let m = parse_micros(&fields[0]);
                let k = parse_digits(&fields[2], 4294967295);
                let dd = parse_digits(&fields[3], 4294967295);
                let dl = parse_micros(&fields[4]);
                let nh = parse_noteheads(&fields[5]);
                match (m, k, dd, dl, nh) {
                    (Some(mv), Some(kv), Some(dv), Some(dlv), Some(nhv)) => {
                        let id = notehead_id_string(nhv.0, nhv.1);
                        let note = SongNote {
                            moment: mv,
                            midi_key: kv as u32,
                            duration: dv as u32,
                            duration_length: dlv,
                            notehead_id: id,
                        };
                        proof {
                            let fs = split_on(stripped@, 9);
                            assert(fields@[0]@ == fs[0]);
                            assert(fields@[2]@ == fs[2]);
                            assert(fields@[3]@ == fs[3]);
                            assert(fields@[4]@ == fs[4]);
                            assert(fields@[5]@ == fs[5]);
                            lemma_digits_val_bound(fs[2]);
                            lemma_digits_val_bound(fs[3]);
                            let t = (mv, kv, dv, dlv, nhv.0, nhv.1);
                            assert(spec_parse_note_line(stripped@) == Some(t));
                            assert(note_matches(note, t));
                        }
                        notes.push(note);
                    },
                    _ => {
                        proof {
                            assert(spec_parse_note_line(strip_cr(line@)) is None);
                            lemma_notes_of_lines_err(ls, li as int + 1);
                        }
                        return Err(ParseError::MalformedRecord);
                    },
                }
            } else {
                proof {
                    assert(!line_is_note(strip_cr(line@)));
                }
            }
            li = li + 1;
        }
        proof {
            assert(ls.take(ls.len() as int) =~= ls);
        }
        Ok(SongFile { name, notes })
    }
}

/// Derives a playable [`Note`] from a score note: A440 equal-temperament
/// frequency from the MIDI key, milliseconds from the duration.
pub fn note_of_song(n: &SongNote, velocity: u32) -> (out: Note)
    requires
        n.midi_key <= 127,
    ensures
        out.freq_millihz as int == spec_midi_freq_millihz(n.midi_key as int),
        out.freq_millihz <= 15000000,
        out.length_ms == n.duration_length / 1000,
        out.velocity == velocity,
{
    Note {
        freq_millihz: midi_to_freq_millihz(n.midi_key),
        length_ms: n.duration_length / 1000,
        velocity,
    }
}

} // verus!
