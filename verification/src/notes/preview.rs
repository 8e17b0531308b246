//! The one-line preview of a note shown in the note list.
use vstd::prelude::*;
use crate::notes::model::{Note, format_created_at, minute_stamp};
use crate::text::{chars_of, extend_chars, is_white_space, is_whitespace, string_from_chars};

verus! {

/// Longest preview, in characters, before it is cut short.
pub const PREVIEW_LIMIT: usize = 96;

/// The words of `s` (its maximal runs of non-white-space characters) joined
/// by single spaces, as `s.split_whitespace().collect::<Vec<_>>().join(" ")`
/// gives them. Defined character by character from the left: white space is
/// dropped, a character that starts a word is preceded by one space unless it
/// starts the first word, and any other character is kept.
pub open spec fn collapse_white_space(s: Seq<char>) -> Seq<char>
    decreases s.len(),
{
    if s.len() == 0 {
        seq![]
    } else {
        let p = s.drop_last();
        let c = s.last();
        let r = collapse_white_space(p);
        if is_white_space(c) {
            r
        } else if p.len() == 0 || is_white_space(p.last()) {
            if r.len() == 0 {
                seq![c]
            } else {
                r.push(' ').push(c)
            }
        } else {
            r.push(c)
        }
    }
}

/// The body text of the preview: the collapsed body, cut to 95 characters
/// and an ellipsis when it is longer than the limit.
pub open spec fn preview_body(content: Seq<char>) -> Seq<char> {
    let collapsed = collapse_white_space(content);
    if collapsed.len() > PREVIEW_LIMIT {
        collapsed.take(PREVIEW_LIMIT - 1).push('\u{2026}')
    } else {
        collapsed
    }
}

/// The preview line of a note: body preview, a bullet, the creation minute.
pub open spec fn note_preview(note: Note) -> Seq<char> {
    preview_body(note.content@) + seq![' ', '\u{2022}', ' '] + minute_stamp(note.created_at)
}

/// Every character of `w` is white space.
pub open spec fn all_white_space(w: Seq<char>) -> bool {
    forall|i: int| 0 <= i < w.len() ==> is_white_space(#[trigger] w[i])
}

/// Trailing white space does not change the collapsed text.
proof fn lemma_collapse_trailing_space(a: Seq<char>, w: Seq<char>)
    requires
        all_white_space(w),
    ensures
        collapse_white_space(a + w) == collapse_white_space(a),
    decreases w.len(),
{
    if w.len() > 0 {
        let u = w.drop_last();
        assert((a + w).drop_last() =~= a + u);
        assert((a + w).last() == w[w.len() - 1]);
        lemma_collapse_trailing_space(a, u);
    } else {
        assert(a + w =~= a);
    }
}

/// A text that starts with a non-white-space character collapses to a
/// non-empty text.
proof fn lemma_collapse_nonempty(b: Seq<char>)
    requires
        b.len() > 0,
        !is_white_space(b[0]),
    ensures
        collapse_white_space(b).len() > 0,
    decreases b.len(),
{
    if b.len() > 1 {
        let p = b.drop_last();
        assert(p[0] == b[0]);
        lemma_collapse_nonempty(p);
    }
}

/// Words separated by white space, line breaks included, are kept apart by
/// one space: for a text `a` ending in a word, any non-empty run `w` of
/// white space, and a text `b` starting with a word, the collapsed
/// `a + w + b` is the collapsed `a`, a space, and the collapsed `b`.
pub proof fn lemma_collapse_separates_words(a: Seq<char>, w: Seq<char>, b: Seq<char>)
    requires
        a.len() > 0,
        !is_white_space(a.last()),
        w.len() > 0,
        all_white_space(w),
        b.len() > 0,
        !is_white_space(b[0]),
    ensures
        collapse_white_space(a + w + b) == collapse_white_space(a) + seq![' '] + collapse_white_space(b),
    decreases b.len(),
{
    let ca = collapse_white_space(a);
    assert(a =~= a.drop_last().push(a.last()));
    assert(ca.len() > 0);
    lemma_collapse_trailing_space(a, w);
    if b.len() == 1 {
        let x = a + w + b;
        assert(x.drop_last() =~= a + w);
        assert(x.last() == b[0]);
        assert((a + w).last() == w[w.len() - 1]);
        assert(b.drop_last() =~= Seq::<char>::empty());
        assert(collapse_white_space(b.drop_last()).len() == 0);
        assert(b.last() == b[0]);
        assert(collapse_white_space(b) =~= seq![b[0]]);
        assert(collapse_white_space(x) =~= ca.push(' ').push(b[0]));
        assert(ca + seq![' '] + collapse_white_space(b) =~= ca.push(' ').push(b[0]));
    } else {
        let q = b.drop_last();
        let c = b.last();
        assert(q[0] == b[0]);
        lemma_collapse_separates_words(a, w, q);
        lemma_collapse_nonempty(q);
        let x = a + w + b;
        assert(x.drop_last() =~= a + w + q);
        assert(x.last() == c);
        assert((a + w + q).last() == q.last());
        let cq = collapse_white_space(q);
        if is_white_space(c) {
        } else if is_white_space(q.last()) {
            assert(collapse_white_space(x) =~= (ca + seq![' '] + cq).push(' ').push(c));
            assert(collapse_white_space(b) =~= cq.push(' ').push(c));
            assert((ca + seq![' '] + cq).push(' ').push(c) =~= ca + seq![' '] + cq.push(' ').push(c));
        } else {
            assert((ca + seq![' '] + cq).push(c) =~= ca + seq![' '] + cq.push(c));
        }
    }
}

/// A single word collapses to itself.
pub proof fn lemma_collapse_keeps_a_word(b: Seq<char>)
    requires
        forall|i: int| 0 <= i < b.len() ==> !is_white_space(#[trigger] b[i]),
    ensures
        collapse_white_space(b) == b,
    decreases b.len(),
{
    if b.len() > 0 {
        let q = b.drop_last();
        assert forall|i: int| 0 <= i < q.len() implies !is_white_space(#[trigger] q[i]) by {
            assert(q[i] == b[i]);
        }
        lemma_collapse_keeps_a_word(q);
        assert(b =~= q.push(b.last()));
        if q.len() == 0 {
            assert(collapse_white_space(q).len() == 0);
            assert(seq![b.last()] =~= b);
        } else {
            assert(q.last() == b[q.len() - 1]);
        }
    }
}

/// White space before and after the text is dropped.
pub proof fn lemma_collapse_drops_outer_space(w1: Seq<char>, b: Seq<char>, w2: Seq<char>)
    requires
        all_white_space(w1),
        all_white_space(w2),
    ensures
        collapse_white_space(w1 + b + w2) == collapse_white_space(b),
        collapse_white_space(w1) == Seq::<char>::empty(),
{
    lemma_collapse_trailing_space(Seq::<char>::empty(), w1);
    assert(Seq::<char>::empty() + w1 =~= w1);
    lemma_collapse_leading_space(w1, b);
    lemma_collapse_trailing_space(w1 + b, w2);
}

proof fn lemma_collapse_leading_space(w: Seq<char>, b: Seq<char>)
    requires
        all_white_space(w),
    ensures
        collapse_white_space(w + b) == collapse_white_space(b),
    decreases b.len(),
{
    if b.len() == 0 {
        lemma_collapse_trailing_space(Seq::<char>::empty(), w);
        assert(Seq::<char>::empty() + w =~= w);
        assert(w + b =~= w);
    } else {
        let q = b.drop_last();
        let c = b.last();
        lemma_collapse_leading_space(w, q);
        let x = w + b;
        assert(x.drop_last() =~= w + q);
        assert(x.last() == c);
        if q.len() == 0 {
            if w.len() > 0 {
                assert((w + q).last() == w[w.len() - 1]);
            }
            assert(collapse_white_space(q).len() == 0);
        } else {
            assert((w + q).last() == q.last());
        }
    }
}

/// The preview body is the whole collapsed body when it fits the limit;
/// otherwise it is exactly the limit long: the first characters of the
/// collapsed body and an ellipsis.
pub proof fn lemma_preview_body_fits(content: Seq<char>)
    ensures
        ({
            let c = collapse_white_space(content);
            let p = preview_body(content);
            &&& p.len() <= PREVIEW_LIMIT
            &&& (c.len() <= PREVIEW_LIMIT ==> p == c)
            &&& (c.len() > PREVIEW_LIMIT ==> p.len() == PREVIEW_LIMIT && p.last() == '\u{2026}'
                && p.take(PREVIEW_LIMIT - 1) == c.take(PREVIEW_LIMIT - 1))
        }),
{
    let c = collapse_white_space(content);
    if c.len() > PREVIEW_LIMIT {
        assert(preview_body(content).take(PREVIEW_LIMIT - 1) =~= c.take(PREVIEW_LIMIT - 1));
    }
}

fn collapse_chars(cs: &Vec<char>) -> (out: Vec<char>)
    ensures
        out@ == collapse_white_space(cs@),
{
    let mut out: Vec<char> = Vec::new();
    let mut i: usize = 0;
    while i < cs.len()
        invariant
            i <= cs@.len(),
            out@ == collapse_white_space(cs@.take(i as int)),
        decreases cs.len() - i,
    {
        let c = cs[i];
        proof {
            let t = cs@.take(i + 1);
            assert(t.drop_last() =~= cs@.take(i as int));
            assert(t.last() == c);
            if i > 0 {
                assert(cs@.take(i as int).last() == cs@[i - 1]);
            }
        }
        if is_whitespace(c) {
        } else if i == 0 || is_whitespace(cs[i - 1]) {
            if out.len() == 0 {
                out.push(c);
                assert(out@ =~= seq![c]);
            } else {
                out.push(' ');
                out.push(c);
            }
        } else {
            out.push(c);
        }
        i = i + 1;
    }
    assert(cs@.take(cs@.len() as int) =~= cs@);
    out
}

/// Formats the preview of a note: its body with white space collapsed, cut
/// to the preview limit, then ` • ` and the creation time to the minute.
pub fn format_note_preview(note: &Note) -> (s: String)
    ensures
        s@ == note_preview(*note),
{
    let cs = chars_of(note.content.as_str());
    let collapsed = collapse_chars(&cs);
    let mut line: Vec<char> = Vec::new();
    if collapsed.len() > PREVIEW_LIMIT {
        let mut k: usize = 0;
        while k < PREVIEW_LIMIT - 1
            invariant
                k <= PREVIEW_LIMIT - 1,
                collapsed@.len() > PREVIEW_LIMIT,
                line@ == collapsed@.take(k as int),
            decreases PREVIEW_LIMIT - 1 - k,
        {
            line.push(collapsed[k]);
            k = k + 1;
            assert(line@ =~= collapsed@.take(k as int));
        }
        line.push('\u{2026}');
    } else {
        extend_chars(&mut line, collapsed.as_slice());
        assert(line@ =~= collapsed@);
    }
    assert(line@ == preview_body(note.content@));
    line.push(' ');
    line.push('\u{2022}');
    line.push(' ');
    let stamp = chars_of(format_created_at(&note.created_at).as_str());
    extend_chars(&mut line, stamp.as_slice());
    assert(line@ =~= note_preview(*note));
    string_from_chars(line.as_slice())
}

} // verus!
