//! Cutting a plain transcript, which carries no timestamps, into subtitle
//! cues at sentence ends and line breaks.

use vstd::prelude::*;
use crate::text::{
    chars_of, has_text, is_ws, lemma_trim_empty_iff, lemma_trim_idempotent, lemma_trim_slice,
    string_from_chars, trim, trim_chars,
};

verus! {

/// Characters after which a transcript is cut into a new cue: sentence-ending
/// punctuation (full- and half-width) and line breaks.
pub open spec fn ends_cue(c: char) -> bool {
    c == '。' || c == '！' || c == '？' || c == '!' || c == '?' || c == ';' || c == '；' || c == '\n'
}

fn is_cue_end(c: char) -> (r: bool)
    ensures
        r == ends_cue(c),
{
    c == '。' || c == '！' || c == '？' || c == '!' || c == '?' || c == ';' || c == '；' || c == '\n'
}

/// `s` cut after every cue-ending character. The last piece is what follows
/// the last cue end (possibly empty); every other piece ends with a cue end.
pub open spec fn pieces(s: Seq<char>) -> Seq<Seq<char>>
    decreases s.len(),
{
    if s.len() == 0 {
        seq![seq![]]
    } else {
        let p = pieces(s.drop_last());
        let c = s.last();
        let p2 = p.update(p.len() - 1, p.last().push(c));
        if ends_cue(c) {
            p2.push(seq![])
        } else {
            p2
        }
    }
}

/// The trimmed pieces of `ps` that are not blank, in order.
pub open spec fn nonblank_trimmed(ps: Seq<Seq<char>>) -> Seq<Seq<char>>
    decreases ps.len(),
{
    if ps.len() == 0 {
        seq![]
    } else {
        let r = nonblank_trimmed(ps.drop_last());
        let t = trim(ps.last());
        if t.len() > 0 {
            r.push(t)
        } else {
            r
        }
    }
}

/// The cue texts of a transcript: the trimmed transcript cut after every
/// cue end, each piece trimmed, blank pieces dropped; a non-blank transcript
/// with no such piece becomes one cue.
pub open spec fn cue_texts(text: Seq<char>) -> Seq<Seq<char>> {
    let t = trim(text);
    if t.len() == 0 {
        seq![]
    } else {
        let cs = nonblank_trimmed(pieces(t));
        if cs.len() == 0 {
            seq![t]
        } else {
            cs
        }
    }
}

proof fn lemma_pieces_nonempty(s: Seq<char>)
    ensures
        pieces(s).len() >= 1,
    decreases s.len(),
{
    if s.len() > 0 {
        lemma_pieces_nonempty(s.drop_last());
    }
}

/// No cue end inside `p` except, where `closed`, at its last position.
pub open spec fn ends_only_at_end(p: Seq<char>, closed: bool) -> bool {
    forall|j: int| 0 <= j < p.len() && !(closed && j == p.len() - 1) ==> !ends_cue(#[trigger] p[j])
}

proof fn lemma_pieces_shape(s: Seq<char>)
    ensures
        pieces(s).len() >= 1,
        forall|k: int| 0 <= k < pieces(s).len() - 1 ==> ends_only_at_end(#[trigger] pieces(s)[k], true),
        ends_only_at_end(pieces(s).last(), false),
        has_text(s) ==> exists|k: int| 0 <= k < pieces(s).len() && has_text(#[trigger] pieces(s)[k]),
    decreases s.len(),
{
    if s.len() > 0 {
        let s0 = s.drop_last();
        let c = s.last();
        lemma_pieces_shape(s0);
        let p = pieces(s0);
        let lp = p.last().push(c);
        let p2 = p.update(p.len() - 1, lp);
        assert forall|k: int| 0 <= k < p2.len() - 1 implies ends_only_at_end(#[trigger] p2[k], true) by {
            assert(p2[k] == p[k]);
        }
        if ends_cue(c) {
            assert(pieces(s) == p2.push(seq![]));
            assert forall|k: int| 0 <= k < pieces(s).len() - 1 implies ends_only_at_end(
                #[trigger] pieces(s)[k],
                true,
            ) by {
                if k < p2.len() - 1 {
                    assert(pieces(s)[k] == p2[k]);
                } else {
                    assert(pieces(s)[k] == lp);
                    assert forall|j: int| 0 <= j < lp.len() && !(j == lp.len() - 1) implies !ends_cue(
                        #[trigger] lp[j],
                    ) by {
                        assert(lp[j] == p.last()[j]);
                    }
                }
            }
            assert(ends_only_at_end(pieces(s).last(), false));
        } else {
            assert(pieces(s) == p2);
            assert forall|j: int| 0 <= j < lp.len() implies !ends_cue(#[trigger] lp[j]) by {
                if j < lp.len() - 1 {
                    assert(lp[j] == p.last()[j]);
                }
            }
        }
        if has_text(s) {
            if !is_ws(c) {
                assert(lp[lp.len() - 1] == c);
                assert(has_text(lp));
                assert(pieces(s)[p.len() - 1] == lp);
            } else {
                let i = choose|i: int| 0 <= i < s.len() && !is_ws(#[trigger] s[i]);
                assert(s0[i] == s[i]);
                assert(has_text(s0));
                let k = choose|k: int| 0 <= k < p.len() && has_text(#[trigger] p[k]);
                if k < p.len() - 1 {
                    assert(pieces(s)[k] == p[k]);
                } else {
                    let jj = choose|jj: int| 0 <= jj < p[k].len() && !is_ws(#[trigger] p[k][jj]);
                    assert(lp[jj] == p[k][jj]);
                    assert(has_text(lp));
                    assert(pieces(s)[k] == lp);
                }
            }
        }
    } else {
        assert(pieces(s) == seq![Seq::<char>::empty()]);
    }
}

proof fn lemma_nonblank_trimmed_props(ps: Seq<Seq<char>>)
    ensures
        forall|i: int| 0 <= i < nonblank_trimmed(ps).len() ==> exists|k: int| 0 <= k < ps.len()
            && #[trigger] nonblank_trimmed(ps)[i] == trim(ps[k]) && trim(ps[k]).len() > 0,
        (exists|k: int| 0 <= k < ps.len() && has_text(#[trigger] ps[k])) ==> nonblank_trimmed(ps).len() > 0,
    decreases ps.len(),
{
    if ps.len() > 0 {
        let ps0 = ps.drop_last();
        lemma_nonblank_trimmed_props(ps0);
        let r = nonblank_trimmed(ps0);
        assert forall|i: int| 0 <= i < nonblank_trimmed(ps).len() implies exists|k: int| 0 <= k < ps.len()
            && #[trigger] nonblank_trimmed(ps)[i] == trim(ps[k]) && trim(ps[k]).len() > 0 by {
            if i < r.len() {
                let k = choose|k: int| 0 <= k < ps0.len() && #[trigger] r[i] == trim(ps0[k]) && trim(ps0[k]).len() > 0;
                assert(ps[k] == ps0[k]);
                assert(nonblank_trimmed(ps)[i] == r[i]);
            } else {
                assert(nonblank_trimmed(ps)[i] == trim(ps[ps.len() - 1]));
            }
        }
        if exists|k: int| 0 <= k < ps.len() && has_text(#[trigger] ps[k]) {
            let k = choose|k: int| 0 <= k < ps.len() && has_text(#[trigger] ps[k]);
            if k == ps.len() - 1 {
                lemma_trim_empty_iff(ps[k]);
            } else {
                assert(ps0[k] == ps[k]);
            }
        }
    }
}

/// Every cue is non-empty and already trimmed.
pub proof fn lemma_cues_are_trimmed(text: Seq<char>)
    ensures
        forall|i: int| 0 <= i < cue_texts(text).len() ==> (#[trigger] cue_texts(text)[i]).len() > 0
            && trim(cue_texts(text)[i]) == cue_texts(text)[i],
{
    let t = trim(text);
    if t.len() > 0 {
        let ps = pieces(t);
        lemma_nonblank_trimmed_props(ps);
        lemma_trim_idempotent(text);
        assert forall|i: int| 0 <= i < cue_texts(text).len() implies (#[trigger] cue_texts(text)[i]).len()
            > 0 && trim(cue_texts(text)[i]) == cue_texts(text)[i] by {
            if nonblank_trimmed(ps).len() > 0 {
                let k = choose|k: int| 0 <= k < ps.len() && #[trigger] nonblank_trimmed(ps)[i] == trim(ps[k])
                    && trim(ps[k]).len() > 0;
                lemma_trim_idempotent(ps[k]);
            }
        }
    }
}

/// A transcript is cut at every sentence end: no cue holds a cue-ending
/// character anywhere but in its last position, and a transcript with any
/// text yields at least one cue.
pub proof fn lemma_cues_end_at_sentence_ends(text: Seq<char>)
    ensures
        forall|i: int, j: int|
            0 <= i < cue_texts(text).len() && 0 <= j < cue_texts(text)[i].len() - 1 ==> !ends_cue(
                #[trigger] cue_texts(text)[i][j],
            ),
        has_text(text) ==> cue_texts(text).len() > 0,
{
    let t = trim(text);
    lemma_trim_empty_iff(text);
    if t.len() > 0 {
        let ps = pieces(t);
        lemma_pieces_shape(t);
        lemma_trim_empty_iff(t);
        lemma_trim_idempotent(text);
        lemma_nonblank_trimmed_props(ps);
        assert(nonblank_trimmed(ps).len() > 0);
        assert forall|i: int, j: int|
            0 <= i < cue_texts(text).len() && 0 <= j < cue_texts(text)[i].len() - 1 implies !ends_cue(
            #[trigger] cue_texts(text)[i][j],
        ) by {
            let k = choose|k: int| 0 <= k < ps.len() && #[trigger] nonblank_trimmed(ps)[i] == trim(ps[k])
                && trim(ps[k]).len() > 0;
            let a = lemma_trim_slice(ps[k]);
            assert(cue_texts(text)[i][j] == ps[k][a + j]);
            if k < ps.len() - 1 {
                assert(ends_only_at_end(ps[k], true));
            } else {
                assert(ends_only_at_end(ps[k], false));
            }
        }
    }
}

/// Whether `c` is one of the marks a transcript is cut at: the sentence
/// ends 。！？!?;； and the line feed.
pub open spec fn cut_mark(c: char) -> bool {
    c == '。' || c == '！' || c == '？' || c == '!' || c == '?' || c == ';' || c == '；' || c == '\n'
}

/// The cue-ending characters are exactly 。！？!?;； and the line feed.
pub proof fn lemma_cue_ends_are_the_cut_marks(c: char)
    ensures
        ends_cue(c) <==> cut_mark(c),
{
}

/// Every cut mark cuts: no cue holds one of 。！？!?;； or a line feed
/// anywhere but in its last position, so two words with such a mark
/// between them never share a cue.
pub proof fn lemma_no_mark_inside_a_cue(text: Seq<char>)
    ensures
        forall|i: int, j: int|
            0 <= i < cue_texts(text).len() && 0 <= j < cue_texts(text)[i].len() - 1 ==> !cut_mark(
                #[trigger] cue_texts(text)[i][j],
            ),
{
    lemma_cues_end_at_sentence_ends(text);
    assert forall|i: int, j: int|
        0 <= i < cue_texts(text).len() && 0 <= j < cue_texts(text)[i].len() - 1 implies !cut_mark(
        #[trigger] cue_texts(text)[i][j],
    ) by {
        lemma_cue_ends_are_the_cut_marks(cue_texts(text)[i][j]);
    }
}

proof fn lemma_pieces_without_marks(s: Seq<char>)
    requires
        forall|i: int| 0 <= i < s.len() ==> !cut_mark(#[trigger] s[i]),
    ensures
        pieces(s) == seq![s],
    decreases s.len(),
{
    if s.len() > 0 {
        let s0 = s.drop_last();
        assert forall|i: int| 0 <= i < s0.len() implies !cut_mark(#[trigger] s0[i]) by {
            assert(s0[i] == s[i]);
        }
        lemma_pieces_without_marks(s0);
        assert(!cut_mark(s.last()));
        lemma_cue_ends_are_the_cut_marks(s.last());
        assert(!ends_cue(s.last()));
        assert(s0.push(s.last()) =~= s);
        let p = pieces(s0);
        assert(p.update(p.len() - 1, p.last().push(s.last())) =~= seq![s]);
        assert(pieces(s) == p.update(p.len() - 1, p.last().push(s.last())));
    } else {
        assert(s =~= Seq::<char>::empty());
        assert(pieces(s) =~= seq![s]);
    }
}

/// Nothing but a cut mark cuts: a transcript with text and none of
/// 。！？!?;； or a line feed is one cue, the transcript trimmed.
pub proof fn lemma_text_without_marks_is_one_cue(text: Seq<char>)
    requires
        has_text(text),
        forall|i: int| 0 <= i < text.len() ==> !cut_mark(#[trigger] text[i]),
    ensures
        cue_texts(text) == seq![trim(text)],
{
    let t = trim(text);
    lemma_trim_empty_iff(text);
    let a = lemma_trim_slice(text);
    assert forall|i: int| 0 <= i < t.len() implies !cut_mark(#[trigger] t[i]) by {
        assert(t[i] == text[a + i]);
    }
    assert forall|i: int| 0 <= i < t.len() implies !ends_cue(#[trigger] t[i]) by {
        lemma_cue_ends_are_the_cut_marks(t[i]);
        assert(!cut_mark(t[i]));
    }
    lemma_pieces_without_marks(t);
    lemma_trim_idempotent(text);
    let ps = pieces(t);
    assert(ps.drop_last() =~= Seq::<Seq<char>>::empty());
    assert(nonblank_trimmed(ps.drop_last()) =~= Seq::<Seq<char>>::empty());
    assert(nonblank_trimmed(ps) =~= seq![t]);
}

/// Splits a transcript into subtitle cue texts on sentence-ending
/// punctuation and line breaks; the caller assigns the timestamps.
pub fn split_into_cues(text: &str) -> (cues: Vec<String>)
    ensures
        cues.deep_view() == cue_texts(text@),
{
    let trimmed = trim_chars(&chars_of(text));
    let n = trimmed.len();
    if n == 0 {
        let empty: Vec<String> = Vec::new();
        assert(empty.deep_view() =~= cue_texts(text@));
        return empty;
    }
    let mut cues: Vec<String> = Vec::new();
    let mut buf: Vec<char> = Vec::new();
    let mut i: usize = 0;
    proof {
        assert(trimmed@.take(0) =~= Seq::<char>::empty());
    }
    while i < n
        invariant
            n == trimmed@.len(),
            i <= n,
            pieces(trimmed@.take(i as int)).len() >= 1,
            cues.deep_view() == nonblank_trimmed(pieces(trimmed@.take(i as int)).drop_last()),
            buf@ == pieces(trimmed@.take(i as int)).last(),
        decreases n - i,
    {
        let c = trimmed[i];
        let ghost pre = trimmed@.take(i as int);
        let ghost p = pieces(pre);
        let ghost post = trimmed@.take(i + 1);
        proof {
            assert(post.drop_last() =~= pre);
            assert(post.last() == c);
            lemma_pieces_nonempty(post);
        }
        buf.push(c);
        if is_cue_end(c) {
            let cue = trim_chars(&buf);
            if cue.len() > 0 {
                cues.push(string_from_chars(cue.as_slice()));
            }
            proof {
                let p2 = p.update(p.len() - 1, p.last().push(c));
                assert(pieces(post) == p2.push(seq![]));
                assert(pieces(post).drop_last() =~= p2);
                assert(p2.drop_last() =~= p.drop_last());
            }
            assert(cues.deep_view() =~= nonblank_trimmed(pieces(post).drop_last()));
            buf = Vec::new();
        } else {
            proof {
                let p2 = p.update(p.len() - 1, p.last().push(c));
                assert(pieces(post) == p2);
                assert(p2.drop_last() =~= p.drop_last());
            }
        }
        i = i + 1;
    }
    proof {
        assert(trimmed@.take(n as int) =~= trimmed@);
    }
    let tail = trim_chars(&buf);
    if tail.len() > 0 {
        cues.push(string_from_chars(tail.as_slice()));
    }
    assert(cues.deep_view() =~= nonblank_trimmed(pieces(trimmed@)));
    if cues.len() == 0 {
        cues.push(string_from_chars(trimmed.as_slice()));
    }
    assert(cues.deep_view() =~= cue_texts(text@));
    cues
}

} // verus!
