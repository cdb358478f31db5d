//! SRT rendering: `HH:MM:SS,mmm` timestamps and the numbered, CRLF-terminated
//! cue blocks of an `.srt` document.
//!
//! Timestamps arrive here as whole milliseconds; turning seconds into
//! milliseconds (and repairing broken or overlapping cue times) happens in
//! floating point before that.

use vstd::prelude::*;
use crate::text::{chars_of, decimal, digit, digit_char, lemma_trim_slice, push_decimal, string_from_chars, trim, trim_chars};

verus! {

/// The largest timestamp an SRT file written here can show: 99:59:59,999.
pub const MAX_SRT_MILLIS: u64 = 359_999_999;

/// `n < 100` as two digits.
pub open spec fn two_digits(n: nat) -> Seq<char> {
    seq![digit_char(n / 10), digit_char(n % 10)]
}

/// `n < 1000` as three digits.
pub open spec fn three_digits(n: nat) -> Seq<char> {
    seq![digit_char(n / 100), digit_char((n / 10) % 10), digit_char(n % 10)]
}

/// `ms` clamped to the largest representable timestamp.
pub open spec fn clamp_millis(ms: nat) -> nat {
    if ms > MAX_SRT_MILLIS { MAX_SRT_MILLIS as nat } else { ms }
}

/// The SRT timestamp `HH:MM:SS,mmm` of `ms` milliseconds, clamped at
/// 99:59:59,999.
pub open spec fn timestamp(ms: nat) -> Seq<char> {
    let t = clamp_millis(ms);
    two_digits(t / 3_600_000) + seq![':'] + two_digits((t % 3_600_000) / 60_000) + seq![':']
        + two_digits((t % 60_000) / 1000) + seq![','] + three_digits(t % 1000)
}

/// The value of the ASCII digit `c`.
pub open spec fn digit_value(c: char) -> int {
    (c as int) - 48
}

/// The number of milliseconds a `HH:MM:SS,mmm` timestamp denotes.
pub open spec fn timestamp_value(s: Seq<char>) -> int {
    (digit_value(s[0]) * 10 + digit_value(s[1])) * 3_600_000
        + (digit_value(s[3]) * 10 + digit_value(s[4])) * 60_000
        + (digit_value(s[6]) * 10 + digit_value(s[7])) * 1000
        + digit_value(s[9]) * 100 + digit_value(s[10]) * 10 + digit_value(s[11])
}

fn push_two_digits(out: &mut Vec<char>, n: u64)
    requires
        n < 100,
    ensures
        final(out)@ == old(out)@ + two_digits(n as nat),
{
    out.push(digit(n / 10));
    out.push(digit(n % 10));
}

fn push_three_digits(out: &mut Vec<char>, n: u64)
    requires
        n < 1000,
    ensures
        final(out)@ == old(out)@ + three_digits(n as nat),
{
    out.push(digit(n / 100));
    out.push(digit((n / 10) % 10));
    out.push(digit(n % 10));
}

/// Appends the timestamp of `total_ms` to `out`.
pub fn push_timestamp(out: &mut Vec<char>, total_ms: u64)
    ensures
        final(out)@ == old(out)@ + timestamp(total_ms as nat),
{
    let t = if total_ms > MAX_SRT_MILLIS { MAX_SRT_MILLIS } else { total_ms };
    let ghost start = out@;
    push_two_digits(out, t / 3_600_000);
    out.push(':');
    push_two_digits(out, (t % 3_600_000) / 60_000);
    out.push(':');
    push_two_digits(out, (t % 60_000) / 1000);
    out.push(',');
    push_three_digits(out, t % 1000);
    assert(out@ =~= start + timestamp(total_ms as nat));
}

/// Formats `total_ms` milliseconds as an SRT timestamp `HH:MM:SS,mmm`;
/// values beyond 99:59:59,999 show as 99:59:59,999.
pub fn format_millis(total_ms: u64) -> (r: String)
    ensures
        r@ == timestamp(total_ms as nat),
{
    let mut out: Vec<char> = Vec::new();
    push_timestamp(&mut out, total_ms);
    assert(out@ =~= timestamp(total_ms as nat));
    string_from_chars(out.as_slice())
}

/// One cue of an SRT document: its start and end in milliseconds and its
/// text.
#[derive(Debug, Clone)]
pub struct SrtEntry {
    pub start_ms: u64,
    pub end_ms: u64,
    pub text: String,
}

/// `\r\n`.
pub open spec fn crlf() -> Seq<char> {
    seq!['\r', '\n']
}

/// ` --> `.
pub open spec fn arrow() -> Seq<char> {
    seq![' ', '-', '-', '>', ' ']
}

/// `s` with every line break in it (CRLF, a lone CR or a lone LF) written
/// as CRLF.
pub open spec fn crlf_breaks(s: Seq<char>) -> Seq<char>
    decreases s.len(),
{
    if s.len() == 0 {
        seq![]
    } else if s[0] == '\r' && s.len() > 1 && s[1] == '\n' {
        crlf() + crlf_breaks(s.skip(2))
    } else if s[0] == '\r' || s[0] == '\n' {
        crlf() + crlf_breaks(s.skip(1))
    } else {
        seq![s[0]] + crlf_breaks(s.skip(1))
    }
}

/// The block of cue number `index`: its number, its time line and its
/// trimmed text with its line breaks as CRLF, each line ended by CRLF.
pub open spec fn cue_block(index: nat, e: SrtEntry) -> Seq<char> {
    decimal(index) + crlf() + timestamp(e.start_ms as nat) + arrow() + timestamp(e.end_ms as nat)
        + crlf() + crlf_breaks(trim(e.text@)) + crlf()
}

/// The SRT document of `entries`: their blocks numbered from 1 and
/// separated by an empty line.
pub open spec fn srt_document(entries: Seq<SrtEntry>) -> Seq<char>
    decreases entries.len(),
{
    if entries.len() == 0 {
        seq![]
    } else {
        let prev = srt_document(entries.drop_last());
        let sep = if entries.len() > 1 { crlf() } else { seq![] };
        prev + sep + cue_block(entries.len(), entries.last())
    }
}

/// Appends `v` to `out` with its line breaks written as CRLF.
fn push_crlf_breaks(out: &mut Vec<char>, v: &Vec<char>)
    ensures
        final(out)@ == old(out)@ + crlf_breaks(v@),
{
    let ghost start = out@;
    let n = v.len();
    let mut i: usize = 0;
    assert(v@.skip(0) =~= v@);
    while i < n
        invariant
            n == v@.len(),
            i <= n,
            start + crlf_breaks(v@) == out@ + crlf_breaks(v@.skip(i as int)),
        decreases n - i,
    {
        let ghost t = v@.skip(i as int);
        if v[i] == '\r' && i + 1 < n && v[i + 1] == '\n' {
            out.push('\r');
            out.push('\n');
            assert(t.skip(2) =~= v@.skip(i + 2));
            i = i + 2;
        } else if v[i] == '\r' || v[i] == '\n' {
            out.push('\r');
            out.push('\n');
            assert(t.skip(1) =~= v@.skip(i + 1));
            i = i + 1;
        } else {
            out.push(v[i]);
            assert(t.skip(1) =~= v@.skip(i + 1));
            i = i + 1;
        }
        assert(start + crlf_breaks(v@) =~= out@ + crlf_breaks(v@.skip(i as int)));
    }
    assert(crlf_breaks(v@.skip(n as int)) =~= Seq::<char>::empty());
    assert(out@ =~= start + crlf_breaks(v@));
}

fn push_cue_block(out: &mut Vec<char>, index: u64, e: &SrtEntry)
    ensures
        final(out)@ == old(out)@ + cue_block(index as nat, *e),
{
    let ghost start = out@;
    push_decimal(out, index);
    out.push('\r');
    out.push('\n');
    push_timestamp(out, e.start_ms);
    out.push(' ');
    out.push('-');
    out.push('-');
    out.push('>');
    out.push(' ');
    push_timestamp(out, e.end_ms);
    out.push('\r');
    out.push('\n');
    let body = trim_chars(&chars_of(e.text.as_str()));
    push_crlf_breaks(out, &body);
    out.push('\r');
    out.push('\n');
    assert(out@ =~= start + cue_block(index as nat, *e));
}

/// Renders `entries` as an SRT document with CRLF line endings: every line
/// feed in it follows a carriage return.
pub fn render_srt(entries: &Vec<SrtEntry>) -> (r: String)
    ensures
        r@ == srt_document(entries@),
        crlf_only(r@),
{
    let mut out: Vec<char> = Vec::new();
    let n = entries.len();
    let mut i: usize = 0;
    while i < n
        invariant
            n == entries@.len(),
            i <= n,
            out@ == srt_document(entries@.take(i as int)),
        decreases n - i,
    {
        let e = &entries[i];
        if i > 0 {
            out.push('\r');
            out.push('\n');
        }
        push_cue_block(&mut out, (i + 1) as u64, e);
        assert(entries@.take(i + 1).drop_last() =~= entries@.take(i as int));
        assert(out@ =~= srt_document(entries@.take(i + 1)));
        i = i + 1;
    }
    assert(entries@.take(n as int) =~= entries@);
    proof {
        lemma_document_crlf(entries@);
    }
    string_from_chars(out.as_slice())
}

proof fn lemma_digit_value(d: nat)
    requires
        d < 10,
    ensures
        digit_value(digit_char(d)) == d,
        digit_char(d) != '\n',
{
}

/// A timestamp is exact: for every time up to 99:59:59,999 it has the
/// twelve characters `HH:MM:SS,mmm`, and reading its digits back gives the
/// time it was made from. Later times show as 99:59:59,999.
pub proof fn lemma_timestamp_exact(ms: nat)
    ensures
        timestamp(ms).len() == 12,
        ms <= MAX_SRT_MILLIS ==> timestamp_value(timestamp(ms)) == ms,
        ms > MAX_SRT_MILLIS ==> timestamp(ms) == timestamp(MAX_SRT_MILLIS as nat),
{
    let t = clamp_millis(ms);
    let h = t / 3_600_000;
    let m = (t % 3_600_000) / 60_000;
    let s = (t % 60_000) / 1000;
    let f = t % 1000;
    assert(h < 100);
    assert(m < 60 && s < 60 && f < 1000);
    assert(h * 3_600_000 + m * 60_000 + s * 1000 + f == t) by (nonlinear_arith)
        requires
            h == t / 3_600_000,
            m == (t % 3_600_000) / 60_000,
            s == (t % 60_000) / 1000,
            f == t % 1000,
    ;
    assert((f / 100) * 100 + ((f / 10) % 10) * 10 + f % 10 == f) by (nonlinear_arith)
        requires
            f < 1000,
    ;
    lemma_digit_value(h / 10);
    lemma_digit_value(h % 10);
    lemma_digit_value(m / 10);
    lemma_digit_value(m % 10);
    lemma_digit_value(s / 10);
    lemma_digit_value(s % 10);
    lemma_digit_value(f / 100);
    lemma_digit_value((f / 10) % 10);
    lemma_digit_value(f % 10);
    let ts = timestamp(ms);
    assert(ts[0] == digit_char(h / 10));
    assert(ts[1] == digit_char(h % 10));
    assert(ts[3] == digit_char(m / 10));
    assert(ts[4] == digit_char(m % 10));
    assert(ts[6] == digit_char(s / 10));
    assert(ts[7] == digit_char(s % 10));
    assert(ts[9] == digit_char(f / 100));
    assert(ts[10] == digit_char((f / 10) % 10));
    assert(ts[11] == digit_char(f % 10));
}

/// Every line feed in `s` ends a CRLF pair.
pub open spec fn crlf_only(s: Seq<char>) -> bool {
    forall|i: int| 0 <= i < s.len() && #[trigger] s[i] == '\n' ==> i > 0 && s[i - 1] == '\r'
}

/// `s` holds no line feed.
pub open spec fn no_lf(s: Seq<char>) -> bool {
    forall|i: int| 0 <= i < s.len() ==> #[trigger] s[i] != '\n'
}

proof fn lemma_crlf_only_concat(a: Seq<char>, b: Seq<char>)
    requires
        crlf_only(a),
        crlf_only(b),
        b.len() > 0 ==> b[0] != '\n',
    ensures
        crlf_only(a + b),
{
    assert forall|i: int| 0 <= i < (a + b).len() && #[trigger] (a + b)[i] == '\n' implies i > 0 && (a
        + b)[i - 1] == '\r' by {
        if i >= a.len() {
            assert((a + b)[i] == b[i - a.len()]);
            if i > a.len() {
                assert((a + b)[i - 1] == b[i - 1 - a.len()]);
            }
        }
    }
}

proof fn lemma_decimal_no_lf(n: nat)
    ensures
        no_lf(decimal(n)),
        decimal(n).len() > 0,
    decreases n,
{
    if n >= 10 {
        lemma_decimal_no_lf(n / 10);
        lemma_digit_value(n % 10);
    } else {
        lemma_digit_value(n);
    }
}

proof fn lemma_timestamp_no_lf(ms: nat)
    ensures
        no_lf(timestamp(ms)),
{
    let t = clamp_millis(ms);
    lemma_digit_value((t / 3_600_000) / 10);
    lemma_digit_value((t / 3_600_000) % 10);
    lemma_digit_value(((t % 3_600_000) / 60_000) / 10);
    lemma_digit_value(((t % 3_600_000) / 60_000) % 10);
    lemma_digit_value(((t % 60_000) / 1000) / 10);
    lemma_digit_value(((t % 60_000) / 1000) % 10);
    lemma_digit_value((t % 1000) / 100);
    lemma_digit_value(((t % 1000) / 10) % 10);
    lemma_digit_value((t % 1000) % 10);
    assert(t / 3_600_000 < 100);
}

/// Whether every carriage return in `s` is followed by a line feed.
pub open spec fn no_lone_cr(s: Seq<char>) -> bool {
    forall|i: int| 0 <= i < s.len() && #[trigger] s[i] == '\r' ==> i + 1 < s.len() && s[i + 1] == '\n'
}

/// Writing a text's line breaks as CRLF leaves neither a bare line feed nor
/// a bare carriage return, and the result neither starts with a line feed
/// nor ends with a carriage return.
pub proof fn lemma_crlf_breaks_shape(s: Seq<char>)
    ensures
        crlf_only(crlf_breaks(s)),
        no_lone_cr(crlf_breaks(s)),
        crlf_breaks(s).len() > 0 ==> crlf_breaks(s)[0] != '\n',
        crlf_breaks(s).len() > 0 ==> crlf_breaks(s).last() != '\r',
    decreases s.len(),
{
    if s.len() > 0 {
        let rest = if s[0] == '\r' && s.len() > 1 && s[1] == '\n' { s.skip(2) } else { s.skip(1) };
        lemma_crlf_breaks_shape(rest);
        let head = if (s[0] == '\r' && s.len() > 1 && s[1] == '\n') || s[0] == '\r' || s[0] == '\n' {
            crlf()
        } else {
            seq![s[0]]
        };
        assert(crlf_breaks(s) == head + crlf_breaks(rest));
        assert(crlf_only(head));
        lemma_crlf_only_concat(head, crlf_breaks(rest));
        if crlf_breaks(rest).len() > 0 {
            assert((head + crlf_breaks(rest)).last() == crlf_breaks(rest).last());
        }
        let r = crlf_breaks(rest);
        let w = head + r;
        assert forall|i: int| 0 <= i < w.len() && #[trigger] w[i] == '\r' implies i + 1 < w.len() && w[i + 1] == '\n' by {
            if i < head.len() {
                if head.len() == 1 {
                    assert(head[0] == s[0]);
                } else {
                    assert(i == 0);
                }
            } else {
                assert(w[i] == r[i - head.len()]);
                assert(w[i + 1] == r[i + 1 - head.len()]);
            }
        }
    }
}

proof fn lemma_cue_block_crlf(index: nat, e: SrtEntry)
    ensures
        crlf_only(cue_block(index, e)),
        cue_block(index, e)[0] != '\n',
{
    lemma_decimal_no_lf(index);
    lemma_timestamp_no_lf(e.start_ms as nat);
    lemma_timestamp_no_lf(e.end_ms as nat);
    let body = crlf_breaks(trim(e.text@));
    lemma_crlf_breaks_shape(trim(e.text@));
    let d = decimal(index);
    let t1 = timestamp(e.start_ms as nat);
    let t2 = timestamp(e.end_ms as nat);
    assert(crlf_only(d));
    assert(crlf_only(crlf()));
    lemma_crlf_only_concat(d, crlf());
    assert(crlf_only(t1 + arrow() + t2)) by {
        assert(no_lf(t1 + arrow() + t2)) by {
            assert forall|i: int| 0 <= i < (t1 + arrow() + t2).len() implies #[trigger] (t1 + arrow()
                + t2)[i] != '\n' by {
                if i < t1.len() {
                    assert((t1 + arrow() + t2)[i] == t1[i]);
                } else if i < t1.len() + 5 {
                    assert((t1 + arrow() + t2)[i] == arrow()[i - t1.len()]);
                } else {
                    assert((t1 + arrow() + t2)[i] == t2[i - t1.len() - 5]);
                }
            }
        }
    }
    assert(t1.len() == 12) by {
        lemma_timestamp_exact(e.start_ms as nat);
    }
    lemma_crlf_only_concat(d + crlf(), t1 + arrow() + t2);
    lemma_crlf_only_concat(d + crlf() + (t1 + arrow() + t2), crlf());
    lemma_crlf_only_concat(d + crlf() + (t1 + arrow() + t2) + crlf(), body);
    lemma_crlf_only_concat(d + crlf() + (t1 + arrow() + t2) + crlf() + body, crlf());
    assert(cue_block(index, e) =~= d + crlf() + (t1 + arrow() + t2) + crlf() + body + crlf());
    assert(cue_block(index, e)[0] == d[0]);
}

/// A timestamp is made of ASCII digits, `:` and `,`.
pub proof fn lemma_timestamp_chars(ms: nat)
    ensures
        forall|i: int| 0 <= i < timestamp(ms).len() ==> ('0' <= #[trigger] timestamp(ms)[i] && timestamp(ms)[i] <= '9')
            || timestamp(ms)[i] == ':' || timestamp(ms)[i] == ',',
{
    lemma_timestamp_exact(ms);
    let t = clamp_millis(ms);
    let h = t / 3_600_000;
    let m = (t % 3_600_000) / 60_000;
    let s = (t % 60_000) / 1000;
    let f = t % 1000;
    assert(h < 100 && m < 60 && s < 60 && f < 1000);
    let x = timestamp(ms);
    assert(x[0] == digit_char(h / 10) && x[1] == digit_char(h % 10) && x[2] == ':');
    assert(x[3] == digit_char(m / 10) && x[4] == digit_char(m % 10) && x[5] == ':');
    assert(x[6] == digit_char(s / 10) && x[7] == digit_char(s % 10) && x[8] == ',');
    assert(x[9] == digit_char(f / 100) && x[10] == digit_char((f / 10) % 10) && x[11] == digit_char(f % 10));
}

proof fn lemma_digit_char_order(x: nat, y: nat)
    requires
        x < 10,
        y < 10,
    ensures
        (x <= y) == (digit_char(x) <= digit_char(y)),
        (x == y) == (digit_char(x) == digit_char(y)),
{
}

proof fn lemma_two_digits_order(x: nat, y: nat)
    requires
        x <= y < 100,
    ensures
        two_digits(x)[0] <= two_digits(y)[0],
        two_digits(x)[0] == two_digits(y)[0] ==> two_digits(x)[1] <= two_digits(y)[1],
        two_digits(x)[0] == two_digits(y)[0] && two_digits(x)[1] == two_digits(y)[1] ==> x == y,
{
    assert(x / 10 <= y / 10 && (x / 10 == y / 10 ==> x % 10 <= y % 10)) by (nonlinear_arith)
        requires
            x <= y,
    ;
    assert(x / 10 == y / 10 && x % 10 == y % 10 ==> x == y) by (nonlinear_arith);
    lemma_digit_char_order(x / 10, y / 10);
    lemma_digit_char_order(x % 10, y % 10);
}

proof fn lemma_three_digits_order(x: nat, y: nat)
    requires
        x <= y < 1000,
    ensures
        three_digits(x)[0] <= three_digits(y)[0],
        three_digits(x)[0] == three_digits(y)[0] ==> three_digits(x)[1] <= three_digits(y)[1],
        three_digits(x)[0] == three_digits(y)[0] && three_digits(x)[1] == three_digits(y)[1]
            ==> three_digits(x)[2] <= three_digits(y)[2],
{
    assert(x / 100 <= y / 100) by (nonlinear_arith)
        requires
            x <= y,
    ;
    assert(x / 100 == y / 100 ==> (x / 10) % 10 <= (y / 10) % 10) by (nonlinear_arith)
        requires
            x <= y,
    ;
    assert(x / 100 == y / 100 && (x / 10) % 10 == (y / 10) % 10 ==> x % 10 <= y % 10) by (nonlinear_arith)
        requires
            x <= y,
    ;
    lemma_digit_char_order(x / 100, y / 100);
    lemma_digit_char_order((x / 10) % 10, (y / 10) % 10);
    lemma_digit_char_order(x % 10, y % 10);
}

/// Timestamps sort as the times they show: both are twelve characters long,
/// and for `a <= b`, at the first position where the timestamps of `a` and
/// `b` differ, that of `a` holds the smaller character.
pub proof fn lemma_timestamp_order(a: nat, b: nat)
    requires
        a <= b,
    ensures
        timestamp(a).len() == 12,
        timestamp(b).len() == 12,
        forall|k: int|
            0 <= k < 12 && (forall|j: int| 0 <= j < k ==> timestamp(a)[j] == timestamp(b)[j])
                ==> #[trigger] timestamp(a)[k] <= timestamp(b)[k],
{
    let t = clamp_millis(a);
    let u = clamp_millis(b);
    assert(t <= u);
    let h1 = t / 3_600_000;
    let h2 = u / 3_600_000;
    let m1 = (t % 3_600_000) / 60_000;
    let m2 = (u % 3_600_000) / 60_000;
    let s1 = (t % 60_000) / 1000;
    let s2 = (u % 60_000) / 1000;
    let f1 = t % 1000;
    let f2 = u % 1000;
    assert(h1 <= h2) by (nonlinear_arith)
        requires
            t <= u,
            h1 == t / 3_600_000,
            h2 == u / 3_600_000,
    ;
    assert(h1 == h2 ==> m1 <= m2) by (nonlinear_arith)
        requires
            t <= u,
            h1 == t / 3_600_000,
            h2 == u / 3_600_000,
            m1 == (t % 3_600_000) / 60_000,
            m2 == (u % 3_600_000) / 60_000,
    ;
    assert(h1 == h2 && m1 == m2 ==> s1 <= s2) by (nonlinear_arith)
        requires
            t <= u,
            h1 == t / 3_600_000,
            h2 == u / 3_600_000,
            m1 == (t % 3_600_000) / 60_000,
            m2 == (u % 3_600_000) / 60_000,
            s1 == (t % 60_000) / 1000,
            s2 == (u % 60_000) / 1000,
    ;
    assert(h1 == h2 && m1 == m2 && s1 == s2 ==> f1 <= f2) by (nonlinear_arith)
        requires
            t <= u,
            h1 == t / 3_600_000,
            h2 == u / 3_600_000,
            m1 == (t % 3_600_000) / 60_000,
            m2 == (u % 3_600_000) / 60_000,
            s1 == (t % 60_000) / 1000,
            s2 == (u % 60_000) / 1000,
            f1 == t % 1000,
            f2 == u % 1000,
    ;
    assert(h2 < 100 && m1 < 60 && m2 < 60 && s1 < 60 && s2 < 60 && f1 < 1000 && f2 < 1000);
    lemma_two_digits_order(h1, h2);
    if h1 == h2 {
        lemma_two_digits_order(m1, m2);
        if m1 == m2 {
            lemma_two_digits_order(s1, s2);
            if s1 == s2 {
                lemma_three_digits_order(f1, f2);
            }
        }
    }
    let x = timestamp(a);
    let y = timestamp(b);
    assert(x[0] == two_digits(h1)[0] && x[1] == two_digits(h1)[1] && x[2] == ':');
    assert(x[3] == two_digits(m1)[0] && x[4] == two_digits(m1)[1] && x[5] == ':');
    assert(x[6] == two_digits(s1)[0] && x[7] == two_digits(s1)[1] && x[8] == ',');
    assert(x[9] == three_digits(f1)[0] && x[10] == three_digits(f1)[1] && x[11] == three_digits(f1)[2]);
    assert(y[0] == two_digits(h2)[0] && y[1] == two_digits(h2)[1] && y[2] == ':');
    assert(y[3] == two_digits(m2)[0] && y[4] == two_digits(m2)[1] && y[5] == ':');
    assert(y[6] == two_digits(s2)[0] && y[7] == two_digits(s2)[1] && y[8] == ',');
    assert(y[9] == three_digits(f2)[0] && y[10] == three_digits(f2)[1] && y[11] == three_digits(f2)[2]);
    assert forall|k: int|
        0 <= k < 12 && (forall|j: int| 0 <= j < k ==> x[j] == y[j]) implies #[trigger] x[k] <= y[k] by {
        if k >= 3 {
            assert(x[0] == y[0] && x[1] == y[1]);
        }
        if k >= 6 {
            assert(x[3] == y[3] && x[4] == y[4]);
        }
        if k >= 9 {
            assert(x[6] == y[6] && x[7] == y[7]);
        }
        if k >= 1 {
            assert(x[0] == y[0]);
        }
        if k >= 4 {
            assert(x[3] == y[3]);
        }
        if k >= 7 {
            assert(x[6] == y[6]);
        }
        if k >= 10 {
            assert(x[9] == y[9]);
        }
        if k >= 11 {
            assert(x[10] == y[10]);
        }
    }
}

/// An empty list of cues renders as an empty document.
pub proof fn lemma_document_of_no_cues()
    ensures
        srt_document(Seq::<SrtEntry>::empty()) == Seq::<char>::empty(),
{
}

/// Block `k` of a document, numbered from 1 by its plain position: the
/// document of the first `k + 1` cues is that of the first `k`, then, after
/// an empty line unless it is the first block, the number `k + 1` in
/// decimal, CRLF, the start time, ` --> `, the end time, CRLF, the cue text
/// trimmed with its line breaks as CRLF, and CRLF.
pub proof fn lemma_document_block(entries: Seq<SrtEntry>, k: int)
    requires
        0 <= k < entries.len(),
    ensures
        srt_document(entries.take(k + 1)) == srt_document(entries.take(k)) + (if k > 0 {
            seq!['\r', '\n']
        } else {
            Seq::<char>::empty()
        }) + decimal((k + 1) as nat) + seq!['\r', '\n'] + timestamp(entries[k].start_ms as nat) + seq![
            ' ',
            '-',
            '-',
            '>',
            ' ',
        ] + timestamp(entries[k].end_ms as nat) + seq!['\r', '\n'] + crlf_breaks(trim(entries[k].text@))
            + seq!['\r', '\n'],
{
    let t = entries.take(k + 1);
    let e = entries[k];
    assert(t.drop_last() =~= entries.take(k));
    assert(t.last() == e);
    assert(t.len() == k + 1);
    let prev = srt_document(entries.take(k));
    let sep = if k > 0 { crlf() } else { Seq::<char>::empty() };
    let d = decimal((k + 1) as nat);
    let t1 = timestamp(e.start_ms as nat);
    let t2 = timestamp(e.end_ms as nat);
    let body = crlf_breaks(trim(e.text@));
    assert(srt_document(t) == prev + sep + cue_block((k + 1) as nat, e));
    assert(cue_block((k + 1) as nat, e) == d + crlf() + t1 + arrow() + t2 + crlf() + body + crlf());
    assert(crlf() =~= seq!['\r', '\n']);
    assert(arrow() =~= seq![' ', '-', '-', '>', ' ']);
    assert(srt_document(t) =~= prev + sep + d + crlf() + t1 + arrow() + t2 + crlf() + body + crlf());
}

/// Line ends are CRLF throughout an SRT document, line breaks inside cue
/// texts included.
pub proof fn lemma_document_crlf(entries: Seq<SrtEntry>)
    ensures
        crlf_only(srt_document(entries)),
    decreases entries.len(),
{
    if entries.len() > 0 {
        let prev = entries.drop_last();
        lemma_document_crlf(prev);
        lemma_cue_block_crlf(entries.len(), entries.last());
        if entries.len() > 1 {
            lemma_crlf_only_concat(srt_document(prev), crlf());
            lemma_crlf_only_concat(srt_document(prev) + crlf(), cue_block(entries.len(), entries.last()));
        } else {
            assert(srt_document(prev) == Seq::<char>::empty());
            assert(srt_document(entries) =~= cue_block(entries.len(), entries.last()));
        }
    }
}

} // verus!
