//! The SRT time line: `H:MM:SS,mmm --> H:MM:SS,mmm`, read with the Unicode
//! decimal digits of the `regex` crate's `\d` class.
//!
//! A time is one or more digits of hours, `:`, two digits of minutes, `:`,
//! two digits of seconds, `,` or `.`, and one to three digits of fraction.
//! A time line is a time, optional whitespace, `-->`, optional whitespace and
//! a second time, starting at the beginning of a line; whatever follows the
//! second time's first three fraction digits is ignored. Whitespace here is
//! the Unicode `White_Space` property and so includes the line feed.

use vstd::prelude::*;
use crate::srt::{arrow, timestamp};
use crate::text::{chars_of, digit_char, is_whitespace, is_ws, slice_chars, string_from_chars, views};

verus! {

#[verifier::external_type_specification]
#[verifier::external_body]
pub struct ExRegex(regex::Regex);

/// Whether `c` is a decimal digit (Unicode general category `Nd`), as the
/// `regex` crate's class `\d` decides.
pub uninterp spec fn unicode_digit(c: char) -> bool;

/// The compiled class `\d`, built once and used for every character.
pub struct DigitClass {
    re: regex::Regex,
}

/// Compiles the pattern `\d` with `regex::Regex::new`. The pattern is fixed
/// and valid, so compilation succeeds.
#[verifier::external_body]
pub(crate) fn digit_class() -> (r: DigitClass) {
    DigitClass { re: regex::Regex::new(r"\d").unwrap() }
}

/// Calls `Regex::is_match` of the class `\d` on the one-character string
/// `c`. The result is named by `unicode_digit`; beside it the contract
/// states the one fact of the Unicode tables that the `regex` documentation
/// implies for ASCII (`\d` is `\p{Nd}`): the ASCII characters of `Nd` are
/// exactly `0` to `9`.
#[verifier::external_body]
fn is_decimal_digit(class: &DigitClass, c: char) -> (r: bool)
    ensures
        r == unicode_digit(c),
        c <= '\u{7f}' ==> (r <==> ('0' <= c && c <= '9')),
{
    let mut buf = [0u8; 4];
    class.re.is_match(c.encode_utf8(&mut buf))
}

/// Whether position `i` of `s` holds a decimal digit.
pub open spec fn digit_at(s: Seq<char>, i: int) -> bool {
    0 <= i < s.len() && unicode_digit(s[i])
}

/// Whether position `i` of `s` holds `c`.
pub open spec fn char_at(s: Seq<char>, i: int, c: char) -> bool {
    0 <= i < s.len() && s[i] == c
}

/// The number of consecutive decimal digits in `s` from position `i` on.
pub open spec fn digit_run(s: Seq<char>, i: int) -> nat
    decreases s.len() - i,
{
    if digit_at(s, i) {
        1 + digit_run(s, i + 1)
    } else {
        0
    }
}

/// The number of consecutive whitespace characters in `s` from position
/// `i` on.
pub open spec fn ws_run(s: Seq<char>, i: int) -> nat
    decreases s.len() - i,
{
    if 0 <= i < s.len() && is_ws(s[i]) {
        1 + ws_run(s, i + 1)
    } else {
        0
    }
}

/// The time that starts at position `i` of `s`, if one does: its four
/// fields (hours, minutes, seconds, fraction) and the position after it.
/// Within a time line the first time's fraction is its whole digit run,
/// which must be one to three digits long; the closing time's fraction is
/// the first one to three digits of its run (`closing`).
pub open spec fn time_at(s: Seq<char>, i: int, closing: bool) -> Option<(Seq<Seq<char>>, int)> {
    let h = digit_run(s, i);
    let m = i + h + 1;
    let f = m + 6;
    let run = digit_run(s, f);
    let e = if closing && run > 3 {
        f + 3
    } else {
        f + run
    };
    if h >= 1 && char_at(s, i + h, ':') && digit_at(s, m) && digit_at(s, m + 1) && char_at(s, m + 2, ':')
        && digit_at(s, m + 3) && digit_at(s, m + 4) && (char_at(s, m + 5, ',') || char_at(s, m + 5, '.'))
        && run >= 1 && (closing || run <= 3) {
        Some((seq![s.subrange(i, i + h), s.subrange(m, m + 2), s.subrange(m + 3, m + 5), s.subrange(f, e)], e))
    } else {
        None
    }
}

/// The eight fields of the time line that starts at position `p` of `s`,
/// if one does: start time, optional whitespace, `-->`, optional
/// whitespace, end time.
pub open spec fn time_line_at(s: Seq<char>, p: int) -> Option<Seq<Seq<char>>> {
    match time_at(s, p, false) {
        None => None,
        Some((start, e)) => {
            let a = e + ws_run(s, e);
            let b = a + 3 + ws_run(s, a + 3);
            if char_at(s, a, '-') && char_at(s, a + 1, '-') && char_at(s, a + 2, '>') {
                match time_at(s, b, true) {
                    None => None,
                    Some((end, _)) => Some(start + end),
                }
            } else {
                None
            }
        },
    }
}

/// Whether position `p` of `s` is the start of a line.
pub open spec fn line_start(s: Seq<char>, p: int) -> bool {
    p == 0 || (0 < p <= s.len() && s[p - 1] == '\n')
}

/// The fields of the first time line of `s` that starts at a line start at
/// or after position `p`.
pub open spec fn time_line_from(s: Seq<char>, p: int) -> Option<Seq<Seq<char>>>
    decreases s.len() + 1 - p,
{
    if p < 0 || p > s.len() {
        None
    } else if line_start(s, p) && time_line_at(s, p) is Some {
        time_line_at(s, p)
    } else {
        time_line_from(s, p + 1)
    }
}

/// The eight fields (start hours, minutes, seconds, fraction, then the same
/// of the end) of the first time line of `text`, or `None` where `text` has
/// none.
pub open spec fn time_line_captures(text: Seq<char>) -> Option<Seq<Seq<char>>> {
    time_line_from(text, 0)
}

fn char_is(s: &Vec<char>, i: usize, c: char) -> (r: bool)
    ensures
        r == char_at(s@, i as int, c),
{
    i < s.len() && s[i] == c
}

fn digit_is(class: &DigitClass, s: &Vec<char>, i: usize) -> (r: bool)
    ensures
        r == digit_at(s@, i as int),
{
    i < s.len() && is_decimal_digit(class, s[i])
}

fn digit_run_of(class: &DigitClass, s: &Vec<char>, i: usize) -> (r: usize)
    requires
        i <= s@.len(),
    ensures
        r == digit_run(s@, i as int),
        i + r <= s@.len(),
{
    let mut j = i;
    while j < s.len() && is_decimal_digit(class, s[j])
        invariant
            i <= j <= s@.len(),
            digit_run(s@, i as int) == (j - i) + digit_run(s@, j as int),
        decreases s@.len() - j,
    {
        j = j + 1;
    }
    j - i
}

fn ws_run_of(s: &Vec<char>, i: usize) -> (r: usize)
    requires
        i <= s@.len(),
    ensures
        r == ws_run(s@, i as int),
        i + r <= s@.len(),
{
    let mut j = i;
    while j < s.len() && is_whitespace(s[j])
        invariant
            i <= j <= s@.len(),
            ws_run(s@, i as int) == (j - i) + ws_run(s@, j as int),
        decreases s@.len() - j,
    {
        j = j + 1;
    }
    j - i
}

fn time_at_of(class: &DigitClass, s: &Vec<char>, i: usize, closing: bool) -> (r: Option<(Vec<Vec<char>>, usize)>)
    requires
        i <= s@.len(),
    ensures
        match r {
            None => time_at(s@, i as int, closing) is None,
            Some((fields, e)) => e <= s@.len() && fields@.len() == 4 && time_at(s@, i as int, closing) == Some((views(fields@), e as int)),
        },
{
    let n = s.len();
    let h = digit_run_of(class, s, i);
    if h == 0 || i + h >= n || s[i + h] != ':' {
        return None;
    }
    let m = i + h + 1;
    if !(digit_is(class, s, m) && digit_is(class, s, m + 1) && char_is(s, m + 2, ':')
        && digit_is(class, s, m + 3) && digit_is(class, s, m + 4)
        && (char_is(s, m + 5, ',') || char_is(s, m + 5, '.'))) {
        return None;
    }
    let f = m + 6;
    let run = digit_run_of(class, s, f);
    if run == 0 || (!closing && run > 3) {
        return None;
    }
    let e = if closing && run > 3 {
        f + 3
    } else {
        f + run
    };
    let mut fields: Vec<Vec<char>> = Vec::new();
    fields.push(slice_chars(s, i, i + h));
    fields.push(slice_chars(s, m, m + 2));
    fields.push(slice_chars(s, m + 3, m + 5));
    fields.push(slice_chars(s, f, e));
    proof {
        let t = time_at(s@, i as int, closing);
        assert(views(fields@) =~= t.unwrap().0);
    }
    Some((fields, e))
}

fn time_line_at_of(class: &DigitClass, s: &Vec<char>, p: usize) -> (r: Option<Vec<Vec<char>>>)
    requires
        p <= s@.len(),
    ensures
        match r {
            None => time_line_at(s@, p as int) is None,
            Some(fields) => fields@.len() == 8 && time_line_at(s@, p as int) == Some(views(fields@)),
        },
{
    let n = s.len();
    let (mut start, e) = match time_at_of(class, s, p, false) {
        None => {
            return None;
        },
        Some(t) => t,
    };
    let a = e + ws_run_of(s, e);
    if n - a < 3 || s[a] != '-' || s[a + 1] != '-' || s[a + 2] != '>' {
        return None;
    }
    let b = a + 3 + ws_run_of(s, a + 3);
    let (mut end, _) = match time_at_of(class, s, b, true) {
        None => {
            return None;
        },
        Some(t) => t,
    };
    let ghost v0 = views(start@);
    let ghost v1 = views(end@);
    start.append(&mut end);
    assert(views(start@) =~= v0 + v1);
    Some(start)
}

/// The fields of the first time line of `s`, searched with `class`.
pub(crate) fn time_line_of(class: &DigitClass, s: &Vec<char>) -> (r: Option<Vec<Vec<char>>>)
    ensures
        match r {
            None => time_line_captures(s@) is None,
            Some(fields) => fields@.len() == 8 && time_line_captures(s@) == Some(views(fields@)),
        },
{
    let n = s.len();
    let mut p: usize = 0;
    while p < n
        invariant
            n == s@.len(),
            p <= n,
            time_line_from(s@, 0) == time_line_from(s@, p as int),
        decreases n - p,
    {
        if p == 0 || s[p - 1] == '\n' {
            match time_line_at_of(class, s, p) {
                Some(fields) => {
                    return Some(fields);
                },
                None => {},
            }
        }
        p = p + 1;
    }
    assert(digit_run(s@, n as int) == 0);
    assert(time_line_at(s@, n as int) is None);
    assert(time_line_from(s@, n + 1) is None);
    None
}

/// The eight fields of the first SRT time line of `text` (start hours,
/// minutes, seconds and fraction, then the same of the end), as written,
/// or `None` where `text` holds no time line.
pub fn srt_ts_capture(text: &str) -> (r: Option<Vec<String>>)
    ensures
        r.deep_view() == time_line_captures(text@),
{
    let class = digit_class();
    let chars = chars_of(text);
    match time_line_of(&class, &chars) {
        None => None,
        Some(fields) => {
            let ghost fv = views(fields@);
            let mut out: Vec<String> = Vec::new();
            let mut k: usize = 0;
            while k < fields.len()
                invariant
                    fv == views(fields@),
                    k <= fields@.len(),
                    out@.len() == k,
                    forall|j: int| 0 <= j < k ==> #[trigger] out@[j]@ == fv[j],
                decreases fields@.len() - k,
            {
                out.push(string_from_chars(fields[k].as_slice()));
                k = k + 1;
            }
            assert(out.deep_view() =~= fv);
            Some(out)
        },
    }
}

/// Whether the class `\d` takes, of the ASCII characters, exactly `0` to
/// `9`, as `is_decimal_digit` states.
pub open spec fn ascii_digits_exact() -> bool {
    forall|c: char| c <= '\u{7f}' ==> (#[trigger] unicode_digit(c) <==> ('0' <= c && c <= '9'))
}

/// Runs the class `\d` over the 128 ASCII characters and reports whether
/// it takes exactly `0` to `9` among them; afterwards `ascii_digits_exact()`
/// holds, so the laws that rest on it apply.
pub fn ascii_digits_agree() -> (r: bool)
    ensures
        r,
        ascii_digits_exact(),
{
    let class = digit_class();
    let mut agree = true;
    let mut b: u8 = 0;
    while b < 128
        invariant
            b <= 128,
            agree,
            forall|k: u32| k < b ==> (#[trigger] unicode_digit(k as char) <==> ('0' <= k as char && k as char <= '9')),
        decreases 128 - b,
    {
        let c = b as char;
        let d = is_decimal_digit(&class, c);
        agree = agree && d == ('0' <= c && c <= '9');
        b = b + 1;
    }
    assert forall|c: char| c <= '\u{7f}' implies (#[trigger] unicode_digit(c) <==> ('0' <= c && c <= '9')) by {
        let k = c as u32;
        vstd::utf8::char_u32_cast(c, k);
        assert(k < 128);
    }
    agree
}

/// The four fields of the twelve-character timestamp `t`.
pub open spec fn timestamp_fields(t: Seq<char>) -> Seq<Seq<char>> {
    seq![t.subrange(0, 2), t.subrange(3, 5), t.subrange(6, 8), t.subrange(9, 12)]
}

proof fn lemma_digit_char_is_digit(d: nat)
    requires
        d < 10,
        ascii_digits_exact(),
    ensures
        unicode_digit(digit_char(d)),
        !is_ws(digit_char(d)),
{
    assert(digit_char(d) <= '\u{7f}');
}

proof fn lemma_timestamp_shape(s: Seq<char>, i: int, ms: nat)
    requires
        ascii_digits_exact(),
        0 <= i,
        i + 12 <= s.len(),
        s.subrange(i, i + 12) == timestamp(ms),
    ensures
        digit_at(s, i) && digit_at(s, i + 1) && char_at(s, i + 2, ':'),
        digit_at(s, i + 3) && digit_at(s, i + 4) && char_at(s, i + 5, ':'),
        digit_at(s, i + 6) && digit_at(s, i + 7) && char_at(s, i + 8, ','),
        digit_at(s, i + 9) && digit_at(s, i + 10) && digit_at(s, i + 11),
        !is_ws(s[i]),
        !is_ws(s[i + 11]),
{
    crate::srt::lemma_timestamp_exact(ms);
    let t = crate::srt::clamp_millis(ms);
    let h = t / 3_600_000;
    let m = (t % 3_600_000) / 60_000;
    let sec = (t % 60_000) / 1000;
    let f = t % 1000;
    assert(h < 100 && m < 60 && sec < 60 && f < 1000);
    let x = timestamp(ms);
    assert forall|k: int| 0 <= k < 12 implies s[i + k] == #[trigger] x[k] by {
        assert(s.subrange(i, i + 12)[k] == s[i + k]);
    }
    lemma_digit_char_is_digit(h / 10);
    lemma_digit_char_is_digit(h % 10);
    lemma_digit_char_is_digit(m / 10);
    lemma_digit_char_is_digit(m % 10);
    lemma_digit_char_is_digit(sec / 10);
    lemma_digit_char_is_digit(sec % 10);
    lemma_digit_char_is_digit(f / 100);
    lemma_digit_char_is_digit((f / 10) % 10);
    lemma_digit_char_is_digit(f % 10);
    assert(x[0] == digit_char(h / 10) && x[1] == digit_char(h % 10) && x[2] == ':');
    assert(x[3] == digit_char(m / 10) && x[4] == digit_char(m % 10) && x[5] == ':');
    assert(x[6] == digit_char(sec / 10) && x[7] == digit_char(sec % 10) && x[8] == ',');
    assert(x[9] == digit_char(f / 100) && x[10] == digit_char((f / 10) % 10) && x[11] == digit_char(f % 10));
    assert(s[i] == x[0] && s[i + 1] == x[1] && s[i + 2] == x[2] && s[i + 3] == x[3]);
    assert(s[i + 4] == x[4] && s[i + 5] == x[5] && s[i + 6] == x[6] && s[i + 7] == x[7]);
    assert(s[i + 8] == x[8] && s[i + 9] == x[9] && s[i + 10] == x[10] && s[i + 11] == x[11]);
}

/// Where `s` holds, from position `p`, the time line that rendering writes
/// for a cue from `a` to `b` milliseconds, not followed by a digit, a time
/// line starts at `p` and its fields are the digits written.
#[verifier::rlimit(60)]
pub proof fn lemma_written_time_line_at(s: Seq<char>, p: int, a: nat, b: nat)
    requires
        ascii_digits_exact(),
        0 <= p,
        p + 29 <= s.len(),
        s.subrange(p, p + 29) == timestamp(a) + arrow() + timestamp(b),
        p + 29 == s.len() || !unicode_digit(s[p + 29]),
    ensures
        time_line_at(s, p) == Some(timestamp_fields(timestamp(a)) + timestamp_fields(timestamp(b))),
{
    crate::srt::lemma_timestamp_exact(a);
    crate::srt::lemma_timestamp_exact(b);
    let w = timestamp(a) + arrow() + timestamp(b);
    assert forall|k: int| 0 <= k < 29 implies s[p + k] == #[trigger] w[k] by {
        assert(s.subrange(p, p + 29)[k] == s[p + k]);
    }
    assert(s.subrange(p, p + 12) =~= timestamp(a)) by {
        assert forall|k: int| 0 <= k < 12 implies s.subrange(p, p + 12)[k] == timestamp(a)[k] by {
            assert(w[k] == timestamp(a)[k]);
        }
    }
    assert(s.subrange(p + 17, p + 29) =~= timestamp(b)) by {
        assert forall|k: int| 0 <= k < 12 implies s.subrange(p + 17, p + 29)[k] == timestamp(b)[k] by {
            assert(w[17 + k] == timestamp(b)[k]);
        }
    }
    lemma_timestamp_shape(s, p, a);
    lemma_timestamp_shape(s, p + 17, b);
    assert(w[12] == ' ' && w[13] == '-' && w[14] == '-' && w[15] == '>' && w[16] == ' ');
    assert(s[p + 12] == ' ' && s[p + 13] == '-' && s[p + 14] == '-' && s[p + 15] == '>' && s[p + 16] == ' ');
    assert(!unicode_digit(s[p + 2]) && !unicode_digit(s[p + 12]) && !unicode_digit(s[p + 19]));
    assert(digit_run(s, p + 2) == 0);
    assert(digit_run(s, p + 1) == 1);
    assert(digit_run(s, p) == 2);
    assert(digit_run(s, p + 12) == 0);
    assert(digit_run(s, p + 11) == 1);
    assert(digit_run(s, p + 10) == 2);
    assert(digit_run(s, p + 9) == 3);
    assert(ws_run(s, p + 13) == 0);
    assert(ws_run(s, p + 12) == 1);
    assert(ws_run(s, p + 17) == 0);
    assert(ws_run(s, p + 16) == 1);
    assert(digit_run(s, p + 19) == 0);
    assert(digit_run(s, p + 18) == 1);
    assert(digit_run(s, p + 17) == 2);
    assert(digit_run(s, p + 29) == 0);
    assert(digit_run(s, p + 28) == 1);
    assert(digit_run(s, p + 27) == 2);
    assert(digit_run(s, p + 26) == 3);
    let first = timestamp_fields(timestamp(a));
    let second = timestamp_fields(timestamp(b));
    assert(time_at(s, p, false) == Some((first, p + 12))) by {
        assert(s.subrange(p, p + 2) =~= timestamp(a).subrange(0, 2));
        assert(s.subrange(p + 3, p + 5) =~= timestamp(a).subrange(3, 5));
        assert(s.subrange(p + 6, p + 8) =~= timestamp(a).subrange(6, 8));
        assert(s.subrange(p + 9, p + 12) =~= timestamp(a).subrange(9, 12));
    }
    assert(time_at(s, p + 17, true) == Some((second, p + 29))) by {
        assert(s.subrange(p + 17, p + 19) =~= timestamp(b).subrange(0, 2));
        assert(s.subrange(p + 20, p + 22) =~= timestamp(b).subrange(3, 5));
        assert(s.subrange(p + 23, p + 25) =~= timestamp(b).subrange(6, 8));
        assert(s.subrange(p + 26, p + 29) =~= timestamp(b).subrange(9, 12));
    }
}

/// The time line that rendering writes for a cue from `a` to `b`
/// milliseconds is read back with the very digits it was written with,
/// given that `\d` takes the ASCII digits and no other ASCII character.
pub proof fn lemma_written_time_line_reads_back(a: nat, b: nat)
    requires
        ascii_digits_exact(),
    ensures
        time_line_captures(timestamp(a) + arrow() + timestamp(b))
            == Some(timestamp_fields(timestamp(a)) + timestamp_fields(timestamp(b))),
{
    crate::srt::lemma_timestamp_exact(a);
    crate::srt::lemma_timestamp_exact(b);
    let s = timestamp(a) + arrow() + timestamp(b);
    assert(s.subrange(0, 29) =~= s);
    lemma_written_time_line_at(s, 0, a, b);
}

/// A run of `k` digits from position `i` adds `k` to the digit run there.
pub(crate) proof fn lemma_digit_run_prefix(s: Seq<char>, i: int, k: int)
    requires
        0 <= i,
        0 <= k,
        forall|j: int| i <= j < i + k ==> #[trigger] digit_at(s, j),
    ensures
        digit_run(s, i) == k + digit_run(s, i + k),
    decreases k,
{
    if k > 0 {
        assert(digit_at(s, i));
        lemma_digit_run_prefix(s, i + 1, k - 1);
    }
}

/// Positions that start no line are passed over by the search.
pub(crate) proof fn lemma_time_line_from_skip(s: Seq<char>, p: int, q: int)
    requires
        0 <= p <= q <= s.len() + 1,
        forall|j: int| p <= j < q ==> !#[trigger] line_start(s, j),
    ensures
        time_line_from(s, p) == time_line_from(s, q),
    decreases q - p,
{
    if p < q {
        assert(!line_start(s, p));
        lemma_time_line_from_skip(s, p + 1, q);
    }
}

} // verus!
