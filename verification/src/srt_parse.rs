//! Reading the SRT files that whisper.cpp writes: byte-order marks, CRLF
//! and CR line ends and stray blank lines are tolerated, cue numbers are
//! ignored, and blocks without a time line or without text are skipped.
//! The time fields are kept as written; turning them into seconds is left to
//! the caller.

use vstd::prelude::*;
use crate::text::{
    views, chars_of, is_whitespace, is_ws, lemma_trim_idempotent, string_from_chars, trim, trim_chars,
};
use crate::timeline::{digit_class, time_line_captures, time_line_of, DigitClass};

verus! {

/// `s` without its leading byte-order marks.
pub open spec fn strip_boms(s: Seq<char>) -> Seq<char>
    decreases s.len(),
{
    if s.len() > 0 && s[0] == '\u{feff}' {
        strip_boms(s.drop_first())
    } else {
        s
    }
}

/// `s` with every CRLF and every lone CR turned into LF.
pub open spec fn unify_newlines(s: Seq<char>) -> Seq<char>
    decreases s.len(),
{
    if s.len() == 0 {
        seq![]
    } else if s[0] == '\r' && s.len() > 1 && s[1] == '\n' {
        seq!['\n'] + unify_newlines(s.skip(2))
    } else if s[0] == '\r' {
        seq!['\n'] + unify_newlines(s.skip(1))
    } else {
        seq![s[0]] + unify_newlines(s.skip(1))
    }
}

/// `s` split at every empty line, that is at every non-overlapping `\n\n`
/// from the left, as `str::split("\n\n")` does.
pub open spec fn split_blocks(s: Seq<char>) -> Seq<Seq<char>>
    decreases s.len(),
{
    if s.len() < 2 {
        seq![s]
    } else if s[0] == '\n' && s[1] == '\n' {
        seq![seq![]] + split_blocks(s.skip(2))
    } else {
        let r = split_blocks(s.skip(1));
        seq![seq![s[0]] + r[0]] + r.skip(1)
    }
}

/// `s` split at every `\n`.
pub open spec fn split_lines(s: Seq<char>) -> Seq<Seq<char>>
    decreases s.len(),
{
    if s.len() == 0 {
        seq![seq![]]
    } else if s[0] == '\n' {
        seq![seq![]] + split_lines(s.skip(1))
    } else {
        let r = split_lines(s.skip(1));
        seq![seq![s[0]] + r[0]] + r.skip(1)
    }
}

/// `lines` joined with `\n`.
pub open spec fn join_lines(lines: Seq<Seq<char>>) -> Seq<char>
    decreases lines.len(),
{
    if lines.len() == 0 {
        seq![]
    } else if lines.len() == 1 {
        lines[0]
    } else {
        join_lines(lines.drop_last()) + seq!['\n'] + lines.last()
    }
}

/// `s` without leading line feeds.
pub open spec fn trim_newlines_start(s: Seq<char>) -> Seq<char>
    decreases s.len(),
{
    if s.len() > 0 && s[0] == '\n' {
        trim_newlines_start(s.drop_first())
    } else {
        s
    }
}

/// `s` without trailing line feeds.
pub open spec fn trim_newlines_end(s: Seq<char>) -> Seq<char>
    decreases s.len(),
{
    if s.len() > 0 && s.last() == '\n' {
        trim_newlines_end(s.drop_last())
    } else {
        s
    }
}

/// `s` without line feeds at either end.
pub open spec fn trim_newlines(s: Seq<char>) -> Seq<char> {
    trim_newlines_end(trim_newlines_start(s))
}

/// Whether `c` is an ASCII digit.
pub open spec fn ascii_digit(c: char) -> bool {
    '0' <= c && c <= '9'
}

/// A cue-number line: once trimmed, nothing but ASCII digits and
/// whitespace.
pub open spec fn is_index_line(line: Seq<char>) -> bool {
    forall|i: int| 0 <= i < trim(line).len() ==> ascii_digit(#[trigger] trim(line)[i]) || is_ws(trim(line)[i])
}

/// Whether `line` holds an SRT time line.
pub open spec fn is_time_line(line: Seq<char>) -> bool {
    time_line_captures(line) is Some
}

/// The four fields of an SRT time as they were written: hours, minutes,
/// seconds and the fraction digits.
#[derive(Debug, Clone)]
pub struct SrtTime {
    pub hours: String,
    pub minutes: String,
    pub seconds: String,
    pub fraction: String,
}

/// One cue read from an SRT file: its start and end time fields and its
/// text (lines joined by `\n`, trimmed).
#[derive(Debug, Clone)]
pub struct SrtCue {
    pub start: SrtTime,
    pub end: SrtTime,
    pub text: String,
}

/// The eight time fields of `c`, start first.
pub open spec fn cue_fields(c: SrtCue) -> Seq<Seq<char>> {
    seq![c.start.hours@, c.start.minutes@, c.start.seconds@, c.start.fraction@,
        c.end.hours@, c.end.minutes@, c.end.seconds@, c.end.fraction@]
}

/// The lines of a cue block that make up its text: every line after the
/// time line, and before it those lines that are not cue numbers.
pub open spec fn body_lines(lines: Seq<Seq<char>>, seen: bool) -> Seq<Seq<char>>
    decreases lines.len(),
{
    if lines.len() == 0 {
        seq![]
    } else if !seen && is_time_line(lines[0]) {
        body_lines(lines.skip(1), true)
    } else if !seen && is_index_line(lines[0]) {
        body_lines(lines.skip(1), false)
    } else {
        seq![lines[0]] + body_lines(lines.skip(1), seen)
    }
}

/// What one block of an SRT file yields: `None` for a blank block, one
/// without a time line, or one without text; otherwise the eight time
/// fields and the trimmed text.
pub open spec fn block_cue(block: Seq<char>) -> Option<(Seq<Seq<char>>, Seq<char>)> {
    let b = trim_newlines(block);
    if b.len() == 0 {
        None
    } else {
        match time_line_captures(b) {
            None => None,
            Some(fields) => {
                let body = trim(join_lines(body_lines(split_lines(b), false)));
                if body.len() == 0 {
                    None
                } else {
                    Some((fields, body))
                }
            },
        }
    }
}

/// The cues of `blocks`, in order.
pub open spec fn block_cues(blocks: Seq<Seq<char>>) -> Seq<(Seq<Seq<char>>, Seq<char>)>
    decreases blocks.len(),
{
    if blocks.len() == 0 {
        seq![]
    } else {
        let r = block_cues(blocks.drop_last());
        match block_cue(blocks.last()) {
            Some(c) => r.push(c),
            None => r,
        }
    }
}

/// The cues of an SRT file: leading byte-order marks dropped, line ends
/// unified to LF, the text cut at empty lines, and each block read by
/// `block_cue`.
pub open spec fn srt_cues(text: Seq<char>) -> Seq<(Seq<Seq<char>>, Seq<char>)> {
    block_cues(split_blocks(unify_newlines(strip_boms(text))))
}

/// What a cue contributes to the result of `parse_srt`: its time fields and
/// its text.
pub open spec fn cue_view(c: SrtCue) -> (Seq<Seq<char>>, Seq<char>) {
    (cue_fields(c), c.text@)
}

/// `r` with `c` put in front of its first element.
pub open spec fn prepend_first(c: Seq<char>, r: Seq<Seq<char>>) -> Seq<Seq<char>> {
    seq![c + r[0]] + r.skip(1)
}

proof fn lemma_prepend_first_assoc(a: Seq<char>, b: Seq<char>, r: Seq<Seq<char>>)
    requires
        r.len() >= 1,
    ensures
        prepend_first(a, prepend_first(b, r)) == prepend_first(a + b, r),
{
    assert(prepend_first(b, r).skip(1) =~= r.skip(1));
    assert(a + (b + r[0]) =~= (a + b) + r[0]);
    assert(prepend_first(a, prepend_first(b, r)) =~= prepend_first(a + b, r));
}

pub(crate) proof fn lemma_split_blocks_nonempty(s: Seq<char>)
    ensures
        split_blocks(s).len() >= 1,
    decreases s.len(),
{
    if s.len() >= 2 {
        if s[0] == '\n' && s[1] == '\n' {
            lemma_split_blocks_nonempty(s.skip(2));
        } else {
            lemma_split_blocks_nonempty(s.skip(1));
        }
    }
}

pub(crate) proof fn lemma_split_lines_nonempty(s: Seq<char>)
    ensures
        split_lines(s).len() >= 1,
    decreases s.len(),
{
    if s.len() >= 1 {
        lemma_split_lines_nonempty(s.skip(1));
    }
}

fn strip_boms_chars(v: &Vec<char>) -> (r: Vec<char>)
    ensures
        r@ == strip_boms(v@),
{
    let n = v.len();
    let mut i: usize = 0;
    assert(v@.skip(0) =~= v@);
    while i < n && v[i] == '\u{feff}'
        invariant
            n == v@.len(),
            i <= n,
            strip_boms(v@) == strip_boms(v@.skip(i as int)),
        decreases n - i,
    {
        assert(v@.skip(i as int).drop_first() =~= v@.skip(i + 1));
        i = i + 1;
    }
    let mut r: Vec<char> = Vec::new();
    let mut j = i;
    while j < n
        invariant
            n == v@.len(),
            i <= j <= n,
            r@ == v@.subrange(i as int, j as int),
        decreases n - j,
    {
        r.push(v[j]);
        assert(r@ =~= v@.subrange(i as int, j + 1));
        j = j + 1;
    }
    assert(r@ =~= v@.skip(i as int));
    r
}

fn unify_newlines_chars(v: &Vec<char>) -> (r: Vec<char>)
    ensures
        r@ == unify_newlines(v@),
{
    let n = v.len();
    let mut r: Vec<char> = Vec::new();
    let mut i: usize = 0;
    assert(v@.skip(0) =~= v@);
    while i < n
        invariant
            n == v@.len(),
            i <= n,
            unify_newlines(v@) == r@ + unify_newlines(v@.skip(i as int)),
        decreases n - i,
    {
        let ghost t = v@.skip(i as int);
        if v[i] == '\r' && i + 1 < n && v[i + 1] == '\n' {
            r.push('\n');
            assert(t.skip(2) =~= v@.skip(i + 2));
            i = i + 2;
        } else if v[i] == '\r' {
            r.push('\n');
            assert(t.skip(1) =~= v@.skip(i + 1));
            i = i + 1;
        } else {
            r.push(v[i]);
            assert(t.skip(1) =~= v@.skip(i + 1));
            i = i + 1;
        }
        assert(unify_newlines(v@) =~= r@ + unify_newlines(v@.skip(i as int)));
    }
    assert(unify_newlines(v@.skip(n as int)) =~= Seq::<char>::empty());
    assert(r@ =~= unify_newlines(v@));
    r
}

proof fn lemma_split_blocks_step(s: Seq<char>, i: int)
    requires
        0 <= i < s.len(),
        !(s[i] == '\n' && i + 1 < s.len() && s[i + 1] == '\n'),
    ensures
        split_blocks(s.skip(i)) == prepend_first(seq![s[i]], split_blocks(s.skip(i + 1))),
{
    let t = s.skip(i);
    assert(t.skip(1) =~= s.skip(i + 1));
    if t.len() < 2 {
        assert(s.skip(i + 1) =~= Seq::<char>::empty());
        assert(t =~= seq![s[i]]);
        assert(split_blocks(s.skip(i + 1)) == seq![Seq::<char>::empty()]);
        assert(seq![s[i]] + Seq::<char>::empty() =~= seq![s[i]]);
        assert(prepend_first(seq![s[i]], seq![Seq::<char>::empty()]) =~= seq![seq![s[i]]]);
        assert(split_blocks(s.skip(i)) =~= prepend_first(seq![s[i]], split_blocks(s.skip(i + 1))));
    }
}

/// The blocks of `v`: split at every `\n\n`.
fn split_blocks_chars(v: &Vec<char>) -> (r: Vec<Vec<char>>)
    ensures
        views(r@) == split_blocks(v@),
{
    let n = v.len();
    let mut done: Vec<Vec<char>> = Vec::new();
    let mut cur: Vec<char> = Vec::new();
    let mut i: usize = 0;
    proof {
        assert(v@.skip(0) =~= v@);
        lemma_split_blocks_nonempty(v@);
        assert(prepend_first(seq![], split_blocks(v@)) =~= split_blocks(v@));
        assert(views(done@) + prepend_first(cur@, split_blocks(v@)) =~= split_blocks(v@));
    }
    while i < n
        invariant
            n == v@.len(),
            i <= n,
            split_blocks(v@) == views(done@) + prepend_first(cur@, split_blocks(v@.skip(i as int))),
        decreases n - i,
    {
        if v[i] == '\n' && i + 1 < n && v[i + 1] == '\n' {
            proof {
                let t = v@.skip(i as int);
                assert(t.skip(2) =~= v@.skip(i + 2));
                lemma_split_blocks_nonempty(v@.skip(i + 2));
                let r = split_blocks(v@.skip(i + 2));
                assert(prepend_first(cur@, seq![seq![]] + r) =~= seq![cur@] + r);
            }
            let ghost old_done = views(done@);
            done.push(cur);
            assert(views(done@) =~= old_done.push(cur@));
            cur = Vec::new();
            proof {
                let r = split_blocks(v@.skip(i + 2));
                assert(prepend_first(cur@, r) =~= r);
                assert(split_blocks(v@) =~= views(done@) + prepend_first(cur@, r));
            }
            i = i + 2;
        } else {
            proof {
                lemma_split_blocks_step(v@, i as int);
                lemma_split_blocks_nonempty(v@.skip(i + 1));
                lemma_prepend_first_assoc(cur@, seq![v@[i as int]], split_blocks(v@.skip(i + 1)));
                assert(cur@ + seq![v@[i as int]] =~= cur@.push(v@[i as int]));
            }
            cur.push(v[i]);
            i = i + 1;
        }
    }
    proof {
        assert(v@.skip(n as int) =~= Seq::<char>::empty());
        assert(prepend_first(cur@, seq![seq![]]) =~= seq![cur@]);
    }
    let ghost old_done = views(done@);
    done.push(cur);
    assert(views(done@) =~= old_done.push(cur@));
    assert(views(done@) =~= split_blocks(v@));
    done
}

proof fn lemma_split_lines_step(s: Seq<char>, i: int)
    requires
        0 <= i < s.len(),
        s[i] != '\n',
    ensures
        split_lines(s.skip(i)) == prepend_first(seq![s[i]], split_lines(s.skip(i + 1))),
{
    let t = s.skip(i);
    assert(t.skip(1) =~= s.skip(i + 1));
}

/// The lines of `v`: split at every `\n`.
fn split_lines_chars(v: &Vec<char>) -> (r: Vec<Vec<char>>)
    ensures
        views(r@) == split_lines(v@),
{
    let n = v.len();
    let mut done: Vec<Vec<char>> = Vec::new();
    let mut cur: Vec<char> = Vec::new();
    let mut i: usize = 0;
    proof {
        assert(v@.skip(0) =~= v@);
        lemma_split_lines_nonempty(v@);
        assert(prepend_first(seq![], split_lines(v@)) =~= split_lines(v@));
        assert(views(done@) + prepend_first(cur@, split_lines(v@)) =~= split_lines(v@));
    }
    while i < n
        invariant
            n == v@.len(),
            i <= n,
            split_lines(v@) == views(done@) + prepend_first(cur@, split_lines(v@.skip(i as int))),
        decreases n - i,
    {
        if v[i] == '\n' {
            proof {
                let t = v@.skip(i as int);
                assert(t.skip(1) =~= v@.skip(i + 1));
                lemma_split_lines_nonempty(v@.skip(i + 1));
                let r = split_lines(v@.skip(i + 1));
                assert(prepend_first(cur@, seq![seq![]] + r) =~= seq![cur@] + r);
            }
            let ghost old_done = views(done@);
            done.push(cur);
            assert(views(done@) =~= old_done.push(cur@));
            cur = Vec::new();
            proof {
                let r = split_lines(v@.skip(i + 1));
                assert(prepend_first(cur@, r) =~= r);
                assert(split_lines(v@) =~= views(done@) + prepend_first(cur@, r));
            }
            i = i + 1;
        } else {
            proof {
                lemma_split_lines_step(v@, i as int);
                lemma_split_lines_nonempty(v@.skip(i + 1));
                lemma_prepend_first_assoc(cur@, seq![v@[i as int]], split_lines(v@.skip(i + 1)));
                assert(cur@ + seq![v@[i as int]] =~= cur@.push(v@[i as int]));
            }
            cur.push(v[i]);
            i = i + 1;
        }
    }
    proof {
        assert(v@.skip(n as int) =~= Seq::<char>::empty());
        assert(prepend_first(cur@, seq![seq![]]) =~= seq![cur@]);
    }
    let ghost old_done = views(done@);
    done.push(cur);
    assert(views(done@) =~= old_done.push(cur@));
    assert(views(done@) =~= split_lines(v@));
    done
}

/// `v` without line feeds at either end.
fn trim_newlines_chars(v: &Vec<char>) -> (r: Vec<char>)
    ensures
        r@ == trim_newlines(v@),
{
    let n = v.len();
    let mut a: usize = 0;
    assert(v@.subrange(0, n as int) =~= v@);
    while a < n && v[a] == '\n'
        invariant
            n == v@.len(),
            a <= n,
            trim_newlines_start(v@) == trim_newlines_start(v@.subrange(a as int, n as int)),
        decreases n - a,
    {
        assert(v@.subrange(a as int, n as int).drop_first() =~= v@.subrange(a + 1, n as int));
        a = a + 1;
    }
    let mut b: usize = n;
    while b > a && v[b - 1] == '\n'
        invariant
            n == v@.len(),
            a <= b <= n,
            trim_newlines_start(v@) == v@.subrange(a as int, n as int),
            trim_newlines(v@) == trim_newlines_end(v@.subrange(a as int, b as int)),
        decreases b - a,
    {
        assert(v@.subrange(a as int, b as int).drop_last() =~= v@.subrange(a as int, b - 1));
        b = b - 1;
    }
    crate::text::slice_chars(v, a, b)
}

/// Whether `v` is a cue-number line.
fn index_line(v: &Vec<char>) -> (r: bool)
    ensures
        r == is_index_line(v@),
{
    let t = trim_chars(v);
    let n = t.len();
    let mut i: usize = 0;
    while i < n
        invariant
            n == t@.len(),
            t@ == trim(v@),
            i <= n,
            forall|j: int| 0 <= j < i ==> ascii_digit(#[trigger] t@[j]) || is_ws(t@[j]),
        decreases n - i,
    {
        let c = t[i];
        if !(('0' <= c && c <= '9') || is_whitespace(c)) {
            return false;
        }
        i = i + 1;
    }
    true
}

/// The text lines of a cue block's lines.
fn body_lines_of(class: &DigitClass, lines: &Vec<Vec<char>>) -> (r: Vec<Vec<char>>)
    ensures
        views(r@) == body_lines(views(lines@), false),
{
    let n = lines.len();
    let ghost ls = views(lines@);
    let mut acc: Vec<Vec<char>> = Vec::new();
    let mut seen = false;
    let mut i: usize = 0;
    assert(ls.skip(0) =~= ls);
    while i < n
        invariant
            n == lines@.len(),
            ls == views(lines@),
            i <= n,
            body_lines(ls, false) == views(acc@) + body_lines(ls.skip(i as int), seen),
        decreases n - i,
    {
        let line = &lines[i];
        let ghost t = ls.skip(i as int);
        assert(t[0] == line@);
        assert(t.skip(1) =~= ls.skip(i + 1));
        if !seen && time_line_of(class, line).is_some() {
            seen = true;
        } else if !seen && index_line(line) {
        } else {
            let ghost old_acc = views(acc@);
            acc.push(crate::text::slice_chars(line, 0, line.len()));
            assert(line@.subrange(0, line@.len() as int) =~= line@);
            assert(views(acc@) =~= old_acc.push(line@));
            assert(views(acc@) + body_lines(ls.skip(i + 1), seen) =~= old_acc + (seq![line@] + body_lines(ls.skip(i + 1), seen)));
        }
        i = i + 1;
    }
    assert(ls.skip(n as int) =~= Seq::<Seq<char>>::empty());
    assert(views(acc@) + Seq::<Seq<char>>::empty() =~= views(acc@));
    acc
}

/// `lines` joined with `\n`.
fn join_lines_chars(lines: &Vec<Vec<char>>) -> (r: Vec<char>)
    ensures
        r@ == join_lines(views(lines@)),
{
    let n = lines.len();
    let ghost ls = views(lines@);
    let mut out: Vec<char> = Vec::new();
    let mut i: usize = 0;
    while i < n
        invariant
            n == lines@.len(),
            ls == views(lines@),
            i <= n,
            out@ == join_lines(ls.take(i as int)),
        decreases n - i,
    {
        if i > 0 {
            out.push('\n');
        }
        let mut piece = crate::text::slice_chars(&lines[i], 0, lines[i].len());
        assert(lines@[i as int]@.subrange(0, lines@[i as int]@.len() as int) =~= lines@[i as int]@);
        out.append(&mut piece);
        assert(ls.take(i + 1).drop_last() =~= ls.take(i as int));
        assert(ls.take(i + 1).last() == ls[i as int]);
        assert(out@ =~= join_lines(ls.take(i + 1)));
        i = i + 1;
    }
    assert(ls.take(n as int) =~= ls);
    out
}

/// The cue of one block of an SRT file, if it has one.
fn block_cue_of(class: &DigitClass, block: &Vec<char>) -> (r: Option<SrtCue>)
    ensures
        match r {
            Some(c) => block_cue(block@) == Some(cue_view(c)),
            None => block_cue(block@) is None,
        },
{
    let b = trim_newlines_chars(block);
    if b.len() == 0 {
        return None;
    }
    let fields = match time_line_of(class, &b) {
        None => {
            return None;
        },
        Some(f) => f,
    };
    let lines = split_lines_chars(&b);
    let body_ls = body_lines_of(class, &lines);
    let joined = join_lines_chars(&body_ls);
    let body = trim_chars(&joined);
    if body.len() == 0 {
        return None;
    }
    let cue = SrtCue {
        start: SrtTime {
            hours: string_from_chars(fields[0].as_slice()),
            minutes: string_from_chars(fields[1].as_slice()),
            seconds: string_from_chars(fields[2].as_slice()),
            fraction: string_from_chars(fields[3].as_slice()),
        },
        end: SrtTime {
            hours: string_from_chars(fields[4].as_slice()),
            minutes: string_from_chars(fields[5].as_slice()),
            seconds: string_from_chars(fields[6].as_slice()),
            fraction: string_from_chars(fields[7].as_slice()),
        },
        text: string_from_chars(body.as_slice()),
    };
    proof {
        let g = time_line_captures(b@).unwrap();
        assert(views(fields@) == g);
        assert(cue_fields(cue) =~= g);
    }
    Some(cue)
}

/// Reads the cues of an SRT file: tolerates byte-order marks, CRLF and CR
/// line ends and blank lines, ignores cue numbers, and skips blocks without
/// a time line or without text.
pub fn parse_srt(text: &str) -> (r: Vec<SrtCue>)
    ensures
        r@.map_values(|c: SrtCue| cue_view(c)) == srt_cues(text@),
{
    let class = digit_class();
    let chars = chars_of(text);
    let stripped = strip_boms_chars(&chars);
    let normalized = unify_newlines_chars(&stripped);
    let blocks = split_blocks_chars(&normalized);
    let ghost bs = views(blocks@);
    let n = blocks.len();
    let mut out: Vec<SrtCue> = Vec::new();
    let mut i: usize = 0;
    while i < n
        invariant
            n == blocks@.len(),
            bs == views(blocks@),
            bs == split_blocks(unify_newlines(strip_boms(text@))),
            i <= n,
            out@.map_values(|c: SrtCue| cue_view(c)) == block_cues(bs.take(i as int)),
        decreases n - i,
    {
        let ghost prev = out@;
        let cue = block_cue_of(&class, &blocks[i]);
        assert(bs.take(i + 1).drop_last() =~= bs.take(i as int));
        assert(bs.take(i + 1).last() == blocks@[i as int]@);
        match cue {
            Some(c) => {
                out.push(c);
                assert(out@.map_values(|c: SrtCue| cue_view(c)) =~= prev.map_values(|c: SrtCue| cue_view(c)).push(cue_view(c)));
            },
            None => {},
        }
        i = i + 1;
    }
    assert(bs.take(n as int) =~= bs);
    out
}

/// `s` holds no carriage return.
pub open spec fn no_cr(s: Seq<char>) -> bool {
    forall|i: int| 0 <= i < s.len() ==> #[trigger] s[i] != '\r'
}

proof fn lemma_unify_no_cr(s: Seq<char>)
    ensures
        no_cr(unify_newlines(s)),
    decreases s.len(),
{
    if s.len() > 0 {
        if s[0] == '\r' && s.len() > 1 && s[1] == '\n' {
            lemma_unify_no_cr(s.skip(2));
        } else {
            lemma_unify_no_cr(s.skip(1));
        }
        let u = unify_newlines(s);
        assert forall|i: int| 0 <= i < u.len() implies #[trigger] u[i] != '\r' by {
            if i > 0 {
                if s[0] == '\r' && s.len() > 1 && s[1] == '\n' {
                    assert(u[i] == unify_newlines(s.skip(2))[i - 1]);
                } else {
                    assert(u[i] == unify_newlines(s.skip(1))[i - 1]);
                }
            }
        }
    }
}

pub(crate) proof fn lemma_unify_without_cr(s: Seq<char>)
    requires
        no_cr(s),
    ensures
        unify_newlines(s) == s,
    decreases s.len(),
{
    if s.len() > 0 {
        assert(s[0] != '\r');
        assert(no_cr(s.skip(1))) by {
            assert forall|i: int| 0 <= i < s.skip(1).len() implies #[trigger] s.skip(1)[i] != '\r' by {
                assert(s.skip(1)[i] == s[i + 1]);
            }
        }
        lemma_unify_without_cr(s.skip(1));
        assert(seq![s[0]] + s.skip(1) =~= s);
    }
}

proof fn lemma_strip_boms_unify_commute(s: Seq<char>)
    ensures
        strip_boms(unify_newlines(s)) == unify_newlines(strip_boms(s)),
    decreases s.len(),
{
    if s.len() > 0 {
        if s[0] == '\u{feff}' {
            lemma_strip_boms_unify_commute(s.skip(1));
            assert(s.drop_first() =~= s.skip(1));
            let u = unify_newlines(s);
            assert(u == seq!['\u{feff}'] + unify_newlines(s.skip(1)));
            assert(u.drop_first() =~= unify_newlines(s.skip(1)));
        } else {
            let u = unify_newlines(s);
            assert(u.len() > 0 && u[0] != '\u{feff}');
        }
    }
}

/// Line ends do not matter: a file with CRLF or CR line ends reads as the
/// same file with LF line ends.
pub proof fn lemma_parse_ignores_line_end_style(text: Seq<char>)
    ensures
        srt_cues(unify_newlines(text)) == srt_cues(text),
{
    lemma_strip_boms_unify_commute(text);
    lemma_unify_no_cr(strip_boms(text));
    lemma_unify_without_cr(unify_newlines(strip_boms(text)));
}

/// A leading byte-order mark does not matter.
pub proof fn lemma_parse_ignores_bom(text: Seq<char>)
    ensures
        srt_cues(seq!['\u{feff}'] + text) == srt_cues(text),
{
    assert((seq!['\u{feff}'] + text).drop_first() =~= text);
}

/// Every cue read from an SRT file has a non-empty, trimmed text.
pub proof fn lemma_parsed_cues_have_text(text: Seq<char>)
    ensures
        forall|i: int| 0 <= i < srt_cues(text).len() ==> (#[trigger] srt_cues(text)[i]).1.len() > 0
            && trim(srt_cues(text)[i].1) == srt_cues(text)[i].1,
{
    lemma_block_cues_have_text(split_blocks(unify_newlines(strip_boms(text))));
}

proof fn lemma_block_cues_have_text(blocks: Seq<Seq<char>>)
    ensures
        forall|i: int| 0 <= i < block_cues(blocks).len() ==> (#[trigger] block_cues(blocks)[i]).1.len() > 0
            && trim(block_cues(blocks)[i].1) == block_cues(blocks)[i].1,
    decreases blocks.len(),
{
    if blocks.len() > 0 {
        lemma_block_cues_have_text(blocks.drop_last());
        let prev = block_cues(blocks.drop_last());
        let b = trim_newlines(blocks.last());
        let body = trim(join_lines(body_lines(split_lines(b), false)));
        lemma_trim_idempotent(join_lines(body_lines(split_lines(b), false)));
        assert forall|i: int| 0 <= i < block_cues(blocks).len() implies (#[trigger] block_cues(
            blocks,
        )[i]).1.len() > 0 && trim(block_cues(blocks)[i].1) == block_cues(blocks)[i].1 by {
            if i < prev.len() {
                assert(block_cues(blocks)[i] == prev[i]);
            } else {
                assert(block_cue(blocks.last()) is Some);
                assert(block_cues(blocks)[i] == block_cue(blocks.last()).unwrap());
            }
        }
    }
}

} // verus!
