//! Reading back what rendering writes: an SRT document made by `render_srt`
//! parses into the cues it was made from.

use vstd::prelude::*;
use crate::srt::{arrow, crlf, crlf_breaks, cue_block, no_lf, srt_document, timestamp, SrtEntry};
use crate::srt_parse::{
    block_cue, block_cues, body_lines, is_index_line, is_time_line, join_lines, no_cr, split_blocks,
    split_lines, srt_cues, strip_boms, trim_newlines, trim_newlines_end, trim_newlines_start,
    unify_newlines, lemma_unify_without_cr,
};
use crate::text::{decimal, is_ws, lemma_trim_idempotent, lemma_trim_of_trimmed, lemma_trim_slice, trim};
use crate::timeline::{
    ascii_digits_exact, digit_at, lemma_digit_run_prefix, lemma_time_line_from_skip,
    lemma_written_time_line_at, line_start, time_line_at, time_line_captures, timestamp_fields,
    unicode_digit,
};

verus! {

/// Whether `s` holds no empty line, that is no two line feeds in a row.
pub open spec fn no_blank_line(s: Seq<char>) -> bool {
    forall|i: int| 0 <= i < s.len() - 1 ==> !(#[trigger] s[i] == '\n' && s[i + 1] == '\n')
}

proof fn lemma_unify_concat(a: Seq<char>, b: Seq<char>)
    requires
        a.len() == 0 || a.last() != '\r',
    ensures
        unify_newlines(a + b) == unify_newlines(a) + unify_newlines(b),
    decreases a.len(),
{
    let s = a + b;
    if a.len() == 0 {
        assert(s =~= b);
    } else if s[0] == '\r' && s.len() > 1 && s[1] == '\n' {
        assert(a.len() >= 2);
        assert(s.skip(2) =~= a.skip(2) + b);
        lemma_unify_concat(a.skip(2), b);
        assert(unify_newlines(s) =~= unify_newlines(a) + unify_newlines(b));
    } else if s[0] == '\r' {
        assert(a.len() >= 2);
        assert(s.skip(1) =~= a.skip(1) + b);
        lemma_unify_concat(a.skip(1), b);
        assert(unify_newlines(s) =~= unify_newlines(a) + unify_newlines(b));
    } else {
        assert(s.skip(1) =~= a.skip(1) + b);
        lemma_unify_concat(a.skip(1), b);
        assert(unify_newlines(s) =~= unify_newlines(a) + unify_newlines(b));
    }
}

proof fn lemma_split_blocks_concat(a: Seq<char>, b: Seq<char>)
    requires
        a.len() == 0 || a.last() != '\n',
    ensures
        split_blocks(a + seq!['\n', '\n'] + b) == split_blocks(a) + split_blocks(b),
    decreases a.len(),
{
    let s = a + seq!['\n', '\n'] + b;
    if a.len() == 0 {
        assert(s.skip(2) =~= b);
        assert(s[0] == '\n' && s[1] == '\n');
        assert(a =~= Seq::<char>::empty());
        assert(split_blocks(a) =~= seq![a]);
        assert(split_blocks(s) =~= split_blocks(a) + split_blocks(b));
    } else if s[0] == '\n' && s[1] == '\n' {
        assert(a.len() >= 2);
        assert(s.skip(2) =~= a.skip(2) + seq!['\n', '\n'] + b);
        lemma_split_blocks_concat(a.skip(2), b);
        assert(split_blocks(s) =~= split_blocks(a) + split_blocks(b));
    } else {
        assert(s.skip(1) =~= a.skip(1) + seq!['\n', '\n'] + b);
        lemma_split_blocks_concat(a.skip(1), b);
        let r = split_blocks(s.skip(1));
        let ra = split_blocks(a.skip(1));
        crate::srt_parse::lemma_split_blocks_nonempty(a.skip(1));
        if a.len() < 2 {
            assert(a.skip(1) =~= Seq::<char>::empty());
            assert(ra =~= seq![Seq::<char>::empty()]);
            assert(seq![a[0]] + Seq::<char>::empty() =~= a);
            assert(split_blocks(s) =~= split_blocks(a) + split_blocks(b));
        } else {
            assert(r[0] == ra[0]);
            assert(r.skip(1) =~= ra.skip(1) + split_blocks(b));
            assert(split_blocks(s) =~= split_blocks(a) + split_blocks(b));
        }
    }
}

proof fn lemma_split_blocks_single(x: Seq<char>)
    requires
        no_blank_line(x),
    ensures
        split_blocks(x) == seq![x],
    decreases x.len(),
{
    if x.len() >= 2 {
        assert(!(x[0] == '\n' && x[1] == '\n'));
        assert(no_blank_line(x.skip(1))) by {
            assert forall|i: int| 0 <= i < x.skip(1).len() - 1 implies !(#[trigger] x.skip(1)[i] == '\n'
                && x.skip(1)[i + 1] == '\n') by {
                assert(x.skip(1)[i] == x[i + 1]);
                assert(x.skip(1)[i + 1] == x[i + 2]);
            }
        }
        lemma_split_blocks_single(x.skip(1));
        assert(seq![x[0]] + x.skip(1) =~= x);
    }
}

proof fn lemma_split_blocks_newline_end(a: Seq<char>)
    requires
        a.len() == 0 || a.last() != '\n',
    ensures
        split_blocks(a).len() >= 1,
        split_blocks(a + seq!['\n']) == split_blocks(a).drop_last().push(split_blocks(a).last() + seq!['\n']),
    decreases a.len(),
{
    crate::srt_parse::lemma_split_blocks_nonempty(a);
    let s = a + seq!['\n'];
    if a.len() == 0 {
        assert(s =~= seq!['\n']);
        assert(split_blocks(s) =~= split_blocks(a).drop_last().push(split_blocks(a).last() + seq!['\n']));
    } else if a.len() == 1 {
        assert(a[0] != '\n');
        assert(s[0] == a[0]);
        assert(s.skip(1) =~= seq!['\n']);
        assert(split_blocks(s.skip(1)) =~= seq![seq!['\n']]);
        assert(split_blocks(s.skip(1)).skip(1) =~= Seq::<Seq<char>>::empty());
        assert(split_blocks(a) =~= seq![a]);
        assert(seq![a[0]] + seq!['\n'] =~= s);
        assert(split_blocks(s) =~= split_blocks(a).drop_last().push(split_blocks(a).last() + seq!['\n']));
    } else if a[0] == '\n' && a[1] == '\n' {
        assert(s.skip(2) =~= a.skip(2) + seq!['\n']);
        lemma_split_blocks_newline_end(a.skip(2));
        assert(split_blocks(s) =~= split_blocks(a).drop_last().push(split_blocks(a).last() + seq!['\n']));
    } else {
        assert(s.skip(1) =~= a.skip(1) + seq!['\n']);
        lemma_split_blocks_newline_end(a.skip(1));
        let ra = split_blocks(a.skip(1));
        if ra.len() == 1 {
            assert(seq![a[0]] + (ra[0] + seq!['\n']) =~= (seq![a[0]] + ra[0]) + seq!['\n']);
            assert(split_blocks(s) =~= split_blocks(a).drop_last().push(split_blocks(a).last() + seq!['\n']));
        } else {
            assert(split_blocks(s) =~= split_blocks(a).drop_last().push(split_blocks(a).last() + seq!['\n']));
        }
    }
}

proof fn lemma_split_lines_concat(x: Seq<char>, y: Seq<char>)
    requires
        no_lf(x),
    ensures
        split_lines(x + seq!['\n'] + y) == seq![x] + split_lines(y),
    decreases x.len(),
{
    let s = x + seq!['\n'] + y;
    if x.len() == 0 {
        assert(s.skip(1) =~= y);
        assert(s[0] == '\n');
        assert(x =~= Seq::<char>::empty());
        assert(split_lines(s) =~= seq![x] + split_lines(y));
    } else {
        assert(x[0] != '\n');
        assert(s.skip(1) =~= x.skip(1) + seq!['\n'] + y);
        assert(no_lf(x.skip(1))) by {
            assert forall|i: int| 0 <= i < x.skip(1).len() implies #[trigger] x.skip(1)[i] != '\n' by {
                assert(x.skip(1)[i] == x[i + 1]);
            }
        }
        lemma_split_lines_concat(x.skip(1), y);
        assert(seq![x[0]] + x.skip(1) =~= x);
        assert(split_lines(s) =~= seq![x] + split_lines(y));
    }
}

proof fn lemma_join_prepend_first(c: Seq<char>, r: Seq<Seq<char>>)
    requires
        r.len() >= 1,
    ensures
        join_lines(seq![c + r[0]] + r.skip(1)) == c + join_lines(r),
    decreases r.len(),
{
    let p = seq![c + r[0]] + r.skip(1);
    if r.len() == 1 {
        assert(p =~= seq![c + r[0]]);
    } else {
        let q = r.drop_last();
        lemma_join_prepend_first(c, q);
        assert(p.drop_last() =~= seq![c + q[0]] + q.skip(1));
        assert(p.last() == r.last());
        assert(join_lines(p) =~= c + join_lines(r));
    }
}

proof fn lemma_join_first(x: Seq<char>, r: Seq<Seq<char>>)
    requires
        r.len() >= 1,
    ensures
        join_lines(seq![x] + r) == x + seq!['\n'] + join_lines(r),
    decreases r.len(),
{
    let p = seq![x] + r;
    if r.len() == 1 {
        assert(p.drop_last() =~= seq![x]);
        assert(p.last() == r[0]);
        assert(join_lines(seq![x]) == x);
        assert(join_lines(r) == r[0]);
        assert(join_lines(p) =~= x + seq!['\n'] + join_lines(r));
    } else {
        lemma_join_first(x, r.drop_last());
        assert(p.drop_last() =~= seq![x] + r.drop_last());
        assert(join_lines(p) =~= x + seq!['\n'] + join_lines(r));
    }
}

proof fn lemma_join_split_lines(x: Seq<char>)
    ensures
        join_lines(split_lines(x)) == x,
    decreases x.len(),
{
    if x.len() > 0 {
        crate::srt_parse::lemma_split_lines_nonempty(x.skip(1));
        lemma_join_split_lines(x.skip(1));
        let r = split_lines(x.skip(1));
        if x[0] == '\n' {
            lemma_join_first(Seq::<char>::empty(), r);
            assert(Seq::<char>::empty() + seq!['\n'] + x.skip(1) =~= x);
        } else {
            lemma_join_prepend_first(seq![x[0]], r);
            assert(seq![x[0]] + x.skip(1) =~= x);
        }
    }
}

proof fn lemma_body_after_time_line(ls: Seq<Seq<char>>)
    ensures
        body_lines(ls, true) == ls,
    decreases ls.len(),
{
    if ls.len() > 0 {
        lemma_body_after_time_line(ls.skip(1));
        assert(seq![ls[0]] + ls.skip(1) =~= ls);
    }
}

/// The time line that rendering writes for `e`.
pub open spec fn written_time_line(e: SrtEntry) -> Seq<char> {
    timestamp(e.start_ms as nat) + arrow() + timestamp(e.end_ms as nat)
}

/// Block `index` of a rendered document as it reads once line ends are LF
/// and its final line end is dropped: number, time line and trimmed text.
pub open spec fn lf_block(index: nat, e: SrtEntry) -> Seq<char> {
    decimal(index) + seq!['\n'] + written_time_line(e) + seq!['\n'] + trim(e.text@)
}

/// The cue that reading is to give back for `e`: the digits of its two
/// timestamps and its trimmed text.
pub open spec fn written_cue(e: SrtEntry) -> (Seq<Seq<char>>, Seq<char>) {
    (timestamp_fields(timestamp(e.start_ms as nat)) + timestamp_fields(timestamp(e.end_ms as nat)), trim(e.text@))
}

/// Whether a cue text comes back unchanged: something is left once it is
/// trimmed, and that holds no carriage return and no empty line.
pub open spec fn round_trip_text(t: Seq<char>) -> bool {
    trim(t).len() > 0 && no_cr(trim(t)) && no_blank_line(trim(t))
}

proof fn lemma_decimal_digits(n: nat)
    ensures
        decimal(n).len() >= 1,
        forall|i: int| 0 <= i < decimal(n).len() ==> '0' <= #[trigger] decimal(n)[i] && decimal(n)[i] <= '9',
    decreases n,
{
    if n >= 10 {
        lemma_decimal_digits(n / 10);
        let d = decimal(n);
        assert forall|i: int| 0 <= i < d.len() implies '0' <= #[trigger] d[i] && d[i] <= '9' by {
            if i < d.len() - 1 {
                assert(d[i] == decimal(n / 10)[i]);
            }
        }
    }
}

proof fn lemma_written_time_line_chars(e: SrtEntry)
    ensures
        written_time_line(e).len() == 29,
        no_lf(written_time_line(e)),
        no_cr(written_time_line(e)),
{
    let ta = timestamp(e.start_ms as nat);
    let tb = timestamp(e.end_ms as nat);
    crate::srt::lemma_timestamp_exact(e.start_ms as nat);
    crate::srt::lemma_timestamp_exact(e.end_ms as nat);
    crate::srt::lemma_timestamp_chars(e.start_ms as nat);
    crate::srt::lemma_timestamp_chars(e.end_ms as nat);
    let w = ta + arrow() + tb;
    assert forall|i: int| 0 <= i < w.len() implies #[trigger] w[i] != '\n' && w[i] != '\r' by {
        if i < 12 {
            assert(w[i] == ta[i]);
        } else if i < 17 {
            assert(w[i] == arrow()[i - 12]);
        } else {
            assert(w[i] == tb[i - 17]);
        }
    }
}

proof fn lemma_number_line_is_no_time_line(d: Seq<char>)
    requires
        ascii_digits_exact(),
        d.len() >= 1,
        forall|i: int| 0 <= i < d.len() ==> '0' <= #[trigger] d[i] && d[i] <= '9',
    ensures
        !is_time_line(d),
        is_index_line(d),
        no_lf(d),
        no_cr(d),
{
    assert forall|j: int| 0 <= j < d.len() implies #[trigger] digit_at(d, j) by {
        assert(d[j] <= '\u{7f}');
    }
    lemma_digit_run_prefix(d, 0, d.len() as int);
    assert(time_line_at(d, 0) is None);
    assert forall|j: int| 1 <= j < d.len() + 1 implies !#[trigger] line_start(d, j) by {
        assert(d[j - 1] <= '9');
    }
    lemma_time_line_from_skip(d, 1, d.len() + 1int);
    lemma_trim_of_trimmed(d);
}

spec fn digits_line(d: Seq<char>) -> bool {
    d.len() >= 1 && forall|i: int| 0 <= i < d.len() ==> '0' <= #[trigger] d[i] && d[i] <= '9'
}

spec fn block_of(d: Seq<char>, w: Seq<char>, t: Seq<char>) -> Seq<char> {
    d + seq!['\n'] + w + seq!['\n'] + t
}

proof fn lemma_block_trim(d: Seq<char>, w: Seq<char>, t: Seq<char>)
    requires
        digits_line(d),
        t.len() > 0,
        t.last() != '\n',
    ensures
        trim_newlines(block_of(d, w, t)) == block_of(d, w, t),
        trim_newlines(block_of(d, w, t) + seq!['\n']) == block_of(d, w, t),
        block_of(d, w, t).last() != '\n',
{
    let b = block_of(d, w, t);
    assert(b[0] == d[0]);
    assert(b.last() == t.last());
    assert(trim_newlines_start(b) == b);
    assert(trim_newlines_end(b) == b);
    let b1 = b + seq!['\n'];
    assert(b1.drop_last() =~= b);
    assert(b1[0] == d[0]);
    assert(trim_newlines_start(b1) == b1);
    assert(trim_newlines_end(b1) == trim_newlines_end(b));
}

proof fn lemma_block_time_line(d: Seq<char>, w: Seq<char>, t: Seq<char>, fields: Seq<Seq<char>>)
    requires
        ascii_digits_exact(),
        digits_line(d),
        time_line_at(block_of(d, w, t), d.len() + 1int) == Some(fields),
    ensures
        time_line_captures(block_of(d, w, t)) == Some(fields),
{
    let b = block_of(d, w, t);
    let q: int = d.len() + 1int;
    assert forall|j: int| 0 <= j < d.len() implies #[trigger] digit_at(b, j) by {
        assert(b[j] == d[j]);
        assert(d[j] <= '\u{7f}');
    }
    lemma_digit_run_prefix(b, 0, d.len() as int);
    assert(b[d.len() as int] == '\n');
    assert(!unicode_digit(b[d.len() as int]));
    assert(time_line_at(b, 0) is None);
    assert forall|j: int| 1 <= j < q implies !#[trigger] line_start(b, j) by {
        assert(b[j - 1] == d[j - 1]);
    }
    lemma_time_line_from_skip(b, 1, q);
    assert(line_start(b, q));
}

proof fn lemma_block_body(d: Seq<char>, w: Seq<char>, t: Seq<char>)
    requires
        ascii_digits_exact(),
        digits_line(d),
        no_lf(w),
        is_time_line(w),
        trim(t) == t,
    ensures
        trim(join_lines(body_lines(split_lines(block_of(d, w, t)), false))) == t,
{
    let b = block_of(d, w, t);
    lemma_number_line_is_no_time_line(d);
    assert(b =~= d + seq!['\n'] + (w + seq!['\n'] + t));
    lemma_split_lines_concat(d, w + seq!['\n'] + t);
    lemma_split_lines_concat(w, t);
    let ls = split_lines(b);
    assert(ls =~= seq![d, w] + split_lines(t));
    assert(ls.skip(1) =~= seq![w] + split_lines(t));
    assert(ls.skip(1).skip(1) =~= split_lines(t));
    lemma_body_after_time_line(split_lines(t));
    assert(ls[0] == d && !is_time_line(ls[0]) && is_index_line(ls[0]));
    assert(body_lines(ls, false) == body_lines(ls.skip(1), false));
    assert(ls.skip(1)[0] == w && is_time_line(ls.skip(1)[0]));
    assert(body_lines(ls.skip(1), false) == body_lines(ls.skip(1).skip(1), true));
    assert(body_lines(ls, false) == split_lines(t));
    lemma_join_split_lines(t);
}

proof fn lemma_block_no_blank_line(d: Seq<char>, w: Seq<char>, t: Seq<char>)
    requires
        digits_line(d),
        w.len() > 0,
        w[0] != '\n',
        no_lf(w),
        t.len() > 0,
        t[0] != '\n',
        no_blank_line(t),
    ensures
        no_blank_line(block_of(d, w, t)),
{
    let b = block_of(d, w, t);
    let q: int = d.len() + 1int;
    let m: int = q + w.len();
    assert forall|i: int| 0 <= i < b.len() - 1 implies !(#[trigger] b[i] == '\n' && b[i + 1] == '\n') by {
        if i < d.len() {
            assert(b[i] == d[i]);
        } else if i == d.len() {
            assert(b[i + 1] == w[0]);
        } else if i < m {
            assert(b[i] == w[i - q]);
        } else if i == m {
            assert(b[i + 1] == t[0]);
        } else {
            assert(b[i] == t[i - m - 1]);
            assert(b[i + 1] == t[i - m]);
        }
    }
}

/// A block made of a number line `d`, a time line `w` and a text `t`.
proof fn lemma_block_lines(d: Seq<char>, w: Seq<char>, t: Seq<char>, fields: Seq<Seq<char>>)
    requires
        ascii_digits_exact(),
        digits_line(d),
        w.len() > 0,
        no_lf(w),
        is_time_line(w),
        t.len() > 0,
        !is_ws(t[0]),
        !is_ws(t.last()),
        trim(t) == t,
        no_blank_line(t),
        time_line_at(block_of(d, w, t), d.len() + 1int) == Some(fields),
    ensures
        block_cue(block_of(d, w, t)) == Some((fields, t)),
        block_cue(block_of(d, w, t) + seq!['\n']) == Some((fields, t)),
        block_of(d, w, t).last() != '\n',
        no_blank_line(block_of(d, w, t)),
{
    assert(t.last() != '\n' && t[0] != '\n');
    assert(w[0] != '\n');
    lemma_block_trim(d, w, t);
    lemma_block_time_line(d, w, t, fields);
    lemma_block_body(d, w, t);
    lemma_block_no_blank_line(d, w, t);
}

proof fn lemma_block_reads_back(index: nat, e: SrtEntry)
    requires
        ascii_digits_exact(),
        round_trip_text(e.text@),
    ensures
        block_cue(lf_block(index, e)) == Some(written_cue(e)),
        block_cue(lf_block(index, e) + seq!['\n']) == Some(written_cue(e)),
        lf_block(index, e).last() != '\n',
        no_blank_line(lf_block(index, e)),
{
    let d = decimal(index);
    let w = written_time_line(e);
    let t = trim(e.text@);
    let b = lf_block(index, e);
    lemma_decimal_digits(index);
    lemma_written_time_line_chars(e);
    lemma_trim_slice(e.text@);
    lemma_trim_idempotent(e.text@);
    let q: int = d.len() + 1int;
    assert(b.subrange(q, q + 29) =~= timestamp(e.start_ms as nat) + arrow() + timestamp(e.end_ms as nat));
    assert(b[q + 29] == '\n');
    lemma_written_time_line_at(b, q, e.start_ms as nat, e.end_ms as nat);
    crate::timeline::lemma_written_time_line_reads_back(e.start_ms as nat, e.end_ms as nat);
    assert(b == block_of(d, w, t));
    lemma_block_lines(d, w, t, written_cue(e).0);
}

/// A rendered document as it reads once line ends are LF and the final
/// line end is dropped: its blocks separated by empty lines.
pub open spec fn lf_body(entries: Seq<SrtEntry>) -> Seq<char>
    decreases entries.len(),
{
    if entries.len() == 0 {
        seq![]
    } else if entries.len() == 1 {
        lf_block(1, entries[0])
    } else {
        lf_body(entries.drop_last()) + seq!['\n', '\n'] + lf_block(entries.len(), entries.last())
    }
}

/// The blocks of `entries`, numbered from 1.
pub open spec fn lf_blocks(entries: Seq<SrtEntry>) -> Seq<Seq<char>> {
    Seq::new(entries.len(), |i: int| lf_block((i + 1) as nat, entries[i]))
}

proof fn lemma_unify_crlf()
    ensures
        unify_newlines(crlf()) == seq!['\n'],
{
    let c = crlf();
    assert(c.len() == 2 && c[0] == '\r' && c[1] == '\n');
    assert(c.skip(2) =~= Seq::<char>::empty());
    assert(unify_newlines(c.skip(2)) == Seq::<char>::empty());
    assert(unify_newlines(c) =~= seq!['\n']);
}

/// Writing line breaks as CRLF changes no line: read back with line ends
/// unified, the text is the same as the original read the same way.
pub proof fn lemma_unify_crlf_breaks(s: Seq<char>)
    ensures
        unify_newlines(crlf_breaks(s)) == unify_newlines(s),
    decreases s.len(),
{
    if s.len() > 0 {
        let two = s[0] == '\r' && s.len() > 1 && s[1] == '\n';
        let rest = if two { s.skip(2) } else { s.skip(1) };
        lemma_unify_crlf_breaks(rest);
        if two || s[0] == '\r' || s[0] == '\n' {
            assert(crlf_breaks(s) == crlf() + crlf_breaks(rest));
            lemma_unify_crlf();
            lemma_unify_concat(crlf(), crlf_breaks(rest));
            if s[0] == '\n' {
                assert(unify_newlines(s) == seq![s[0]] + unify_newlines(rest));
            }
            assert(unify_newlines(s) =~= seq!['\n'] + unify_newlines(rest));
        } else {
            let h = seq![s[0]];
            assert(crlf_breaks(s) == h + crlf_breaks(rest));
            assert(unify_newlines(h.skip(1)) == Seq::<char>::empty()) by {
                assert(h.skip(1) =~= Seq::<char>::empty());
            }
            assert(unify_newlines(h) =~= h);
            lemma_unify_concat(h, crlf_breaks(rest));
        }
    }
}

proof fn lemma_unify_cue_block(index: nat, e: SrtEntry)
    requires
        round_trip_text(e.text@),
    ensures
        unify_newlines(cue_block(index, e)) == lf_block(index, e) + seq!['\n'],
        cue_block(index, e).last() == '\n',
        '0' <= cue_block(index, e)[0] && cue_block(index, e)[0] <= '9',
{
    let d = decimal(index);
    let w = written_time_line(e);
    let t = trim(e.text@);
    let b = crlf_breaks(t);
    let c = crlf();
    lemma_decimal_digits(index);
    lemma_written_time_line_chars(e);
    assert(no_cr(d)) by {
        assert forall|i: int| 0 <= i < d.len() implies #[trigger] d[i] != '\r' by {
            assert(d[i] <= '9');
        }
    }
    lemma_unify_crlf();
    lemma_unify_without_cr(d);
    lemma_unify_without_cr(w);
    lemma_unify_without_cr(t);
    lemma_unify_crlf_breaks(t);
    crate::srt::lemma_crlf_breaks_shape(t);
    assert(cue_block(index, e) =~= d + (c + (w + (c + (b + c)))));
    lemma_unify_concat(b, c);
    lemma_unify_concat(c, b + c);
    lemma_unify_concat(w, c + (b + c));
    lemma_unify_concat(c, w + (c + (b + c)));
    lemma_unify_concat(d, c + (w + (c + (b + c))));
    assert(unify_newlines(cue_block(index, e)) =~= lf_block(index, e) + seq!['\n']);
}

proof fn lemma_unify_document(entries: Seq<SrtEntry>)
    requires
        forall|i: int| 0 <= i < entries.len() ==> round_trip_text(#[trigger] entries[i].text@),
    ensures
        entries.len() > 0 ==> unify_newlines(srt_document(entries)) == lf_body(entries) + seq!['\n'],
        entries.len() > 0 ==> srt_document(entries).last() == '\n',
        entries.len() > 0 ==> '0' <= srt_document(entries)[0] && srt_document(entries)[0] <= '9',
        entries.len() == 0 ==> srt_document(entries) == Seq::<char>::empty(),
    decreases entries.len(),
{
    if entries.len() > 0 {
        let n = entries.len();
        let prev = entries.drop_last();
        assert forall|i: int| 0 <= i < prev.len() implies round_trip_text(#[trigger] prev[i].text@) by {
            assert(prev[i] == entries[i]);
        }
        lemma_unify_document(prev);
        let cb = cue_block(n, entries.last());
        lemma_unify_cue_block(n, entries.last());
        let doc = srt_document(entries);
        if n == 1 {
            assert(doc =~= cb);
        } else {
            let pd = srt_document(prev);
            assert(doc =~= pd + (crlf() + cb));
            lemma_unify_crlf();
            lemma_unify_concat(crlf(), cb);
            lemma_unify_concat(pd, crlf() + cb);
            assert(doc[0] == pd[0]);
            assert(unify_newlines(doc) =~= lf_body(entries) + seq!['\n']);
        }
    }
}

#[verifier::rlimit(100)]
proof fn lemma_split_lf_body(entries: Seq<SrtEntry>)
    requires
        ascii_digits_exact(),
        entries.len() > 0,
        forall|i: int| 0 <= i < entries.len() ==> round_trip_text(#[trigger] entries[i].text@),
    ensures
        split_blocks(lf_body(entries)) == lf_blocks(entries),
        lf_body(entries).last() != '\n',
    decreases entries.len(),
{
    let n = entries.len();
    lemma_block_reads_back(n, entries.last());
    if n == 1 {
        lemma_split_blocks_single(lf_block(1, entries[0]));
        assert(split_blocks(lf_body(entries)) =~= lf_blocks(entries));
    } else {
        let prev = entries.drop_last();
        assert forall|i: int| 0 <= i < prev.len() implies round_trip_text(#[trigger] prev[i].text@) by {
            assert(prev[i] == entries[i]);
        }
        lemma_split_lf_body(prev);
        lemma_split_blocks_single(lf_block(n, entries.last()));
        lemma_split_blocks_concat(lf_body(prev), lf_block(n, entries.last()));
        assert(lf_blocks(prev) + seq![lf_block(n, entries.last())] =~= lf_blocks(entries)) by {
            assert forall|i: int| 0 <= i < prev.len() implies #[trigger] lf_blocks(entries)[i] == lf_blocks(prev)[i] by {
                assert(prev[i] == entries[i]);
            }
        }
    }
}

#[verifier::rlimit(100)]
proof fn lemma_block_cues_of_blocks(entries: Seq<SrtEntry>)
    requires
        ascii_digits_exact(),
        forall|i: int| 0 <= i < entries.len() ==> round_trip_text(#[trigger] entries[i].text@),
    ensures
        block_cues(lf_blocks(entries)) == entries.map_values(|e: SrtEntry| written_cue(e)),
        entries.len() > 0 ==> block_cues(lf_blocks(entries).drop_last().push(lf_blocks(entries).last() + seq!['\n']))
            == entries.map_values(|e: SrtEntry| written_cue(e)),
    decreases entries.len(),
{
    if entries.len() > 0 {
        let n = entries.len();
        let prev = entries.drop_last();
        assert forall|i: int| 0 <= i < prev.len() implies round_trip_text(#[trigger] prev[i].text@) by {
            assert(prev[i] == entries[i]);
        }
        lemma_block_cues_of_blocks(prev);
        lemma_block_reads_back(n, entries.last());
        let bs = lf_blocks(entries);
        assert(bs.drop_last() =~= lf_blocks(prev));
        assert(bs.last() == lf_block(n, entries.last()));
        assert(entries.map_values(|e: SrtEntry| written_cue(e)) =~= prev.map_values(|e: SrtEntry| written_cue(e)).push(written_cue(entries.last())));
        let bs1 = bs.drop_last().push(bs.last() + seq!['\n']);
        assert(bs1.drop_last() =~= lf_blocks(prev));
    } else {
        assert(lf_blocks(entries) =~= Seq::<Seq<char>>::empty());
        assert(entries.map_values(|e: SrtEntry| written_cue(e)) =~= Seq::<(Seq<Seq<char>>, Seq<char>)>::empty());
    }
}

/// An SRT document that `render_srt` writes reads back, through
/// `parse_srt`, as the cues it was written from: each with the digits of its
/// two timestamps and its trimmed text. This holds for every cue text that
/// is not blank and, once trimmed, holds no carriage return and no empty
/// line, given that the class `\d` takes the ASCII digits and no other
/// ASCII character, which a call of `ascii_digits_agree` establishes.
#[verifier::rlimit(100)]
pub proof fn lemma_render_then_parse(entries: Seq<SrtEntry>)
    requires
        ascii_digits_exact(),
        forall|i: int| 0 <= i < entries.len() ==> round_trip_text(#[trigger] entries[i].text@),
    ensures
        srt_cues(srt_document(entries)) == entries.map_values(|e: SrtEntry| written_cue(e)),
{
    lemma_unify_document(entries);
    lemma_block_cues_of_blocks(entries);
    let doc = srt_document(entries);
    if entries.len() == 0 {
        assert(strip_boms(doc) =~= doc);
        assert(unify_newlines(doc) =~= doc);
        assert(split_blocks(doc) =~= seq![doc]);
        assert(block_cues(split_blocks(doc)).len() == 0) by {
            let bs = split_blocks(doc);
            assert(bs.len() == 1);
            assert(bs.drop_last() =~= Seq::<Seq<char>>::empty());
            assert(block_cues(bs.drop_last()).len() == 0);
            assert(bs.last() == doc);
            assert(trim_newlines_start(doc) == doc);
            assert(trim_newlines_end(doc) == doc);
            assert(trim_newlines(bs.last()).len() == 0);
            assert(block_cue(bs.last()) is None);
        }
        assert(srt_cues(doc) =~= entries.map_values(|e: SrtEntry| written_cue(e)));
    } else {
        assert(strip_boms(doc) == doc);
        lemma_split_lf_body(entries);
        lemma_split_blocks_newline_end(lf_body(entries));
    }
}

} // verus!
