//! The state behind an editable text field: content, cursor, selection and
//! IME composition range, all as UTF-8 byte offsets into the content, with the
//! edits, cursor moves and UTF-16 conversions that keyboard, clipboard and
//! platform input drive. Painting, focus and the clipboard itself belong to
//! the view that holds this state.
use vstd::prelude::*;
use std::ops::Range;
use unicode_segmentation::UnicodeSegmentation;
use crate::framework::offsets::{
    index_at, index_at_offset, is_boundary, lemma_encode_len, lemma_index_at_bounds,
    lemma_index_at_offset, lemma_index_at_utf16_bounds, lemma_offset_end, lemma_offset_monotone,
    lemma_offset_step, offset_from_utf16_in, offset_of, offset_of_index, offset_to_utf16,
    offset_to_utf16_in, str_byte_len, text_before, text_from, utf16_to_offset,
    index_at_utf16, lemma_index_at_utf16_offset, lemma_index_at_monotone,
};
use crate::text::{
    byte_len, chars_of, count_char, extend_chars, extend_from_range, lemma_byte_len_concat,
    string_from_chars, string_of,
};

verus! {

/// The byte offsets at which the extended grapheme clusters of a text start,
/// as `unicode_segmentation`'s `grapheme_indices(true)` gives them.
pub uninterp spec fn grapheme_starts(s: Seq<char>) -> Seq<usize>;

/// Calls `UnicodeSegmentation::grapheme_indices(text, true)` and keeps the
/// byte offset of each grapheme. The offsets are named (`grapheme_starts`):
/// the segmentation rules of UAX #29 are not spelled out. What is stated is
/// what the crate's iterator shows: it cuts the text into consecutive
/// non-empty slices, so the offsets rise strictly, each is a char boundary
/// below the text's length, and a non-empty text starts at 0.
#[verifier::external_body]
pub fn grapheme_offsets(text: &str) -> (starts: Vec<usize>)
    ensures
        starts@ == grapheme_starts(text@),
        forall|i: int, j: int| 0 <= i < j < starts@.len() ==> starts@[i] < starts@[j],
        forall|i: int|
            0 <= i < starts@.len() ==> is_boundary(text@, #[trigger] starts@[i] as int)
                && starts@[i] < byte_len(text@),
        text@.len() > 0 ==> starts@.len() > 0 && starts@[0] == 0,
{
    text.grapheme_indices(true).map(|(offset, _)| offset).collect()
}

/// The last grapheme start before `b`, or 0.
pub open spec fn prev_start(g: Seq<usize>, b: int) -> usize
    decreases g.len(),
{
    if g.len() == 0 {
        0
    } else if g.last() < b {
        g.last()
    } else {
        prev_start(g.drop_last(), b)
    }
}

/// The first grapheme start after `b`, or `end`.
pub open spec fn next_start(g: Seq<usize>, b: int, end: usize) -> usize
    decreases g.len(),
{
    if g.len() == 0 {
        end
    } else if g[0] > b {
        g[0]
    } else {
        next_start(g.drop_first(), b, end)
    }
}

/// Character position of the start of the line holding position `k`.
pub open spec fn line_start_index(s: Seq<char>, k: int) -> int
    decreases k,
{
    if k <= 0 {
        0
    } else if s[k - 1] == '\n' {
        k
    } else {
        line_start_index(s, k - 1)
    }
}

/// Character position of the line break ending the line that holds
/// position `k`, or the end of the text.
pub open spec fn line_end_index(s: Seq<char>, k: int) -> int
    decreases s.len() - k,
{
    if k >= s.len() {
        s.len() as int
    } else if s[k] == '\n' {
        k
    } else {
        line_end_index(s, k + 1)
    }
}

/// A range of byte offsets that runs forward between char boundaries.
pub open spec fn valid_range(s: Seq<char>, r: Range<usize>) -> bool {
    &&& r.start <= r.end
    &&& is_boundary(s, r.start as int)
    &&& is_boundary(s, r.end as int)
}

/// `text` with every line break turned into a space.
pub open spec fn single_line(text: Seq<char>) -> Seq<char> {
    text.map_values(|c: char| if c == '\n' { ' ' } else { c })
}

pub open spec fn point(offset: usize) -> Range<usize> {
    Range { start: offset, end: offset }
}

/// The abstract state of a text field.
pub struct TextInputView {
    pub content: Seq<char>,
    pub placeholder: Seq<char>,
    /// The selection, in byte offsets; an empty one is the cursor.
    pub selected: Range<usize>,
    /// The cursor sits at the start of the selection instead of its end.
    pub reversed: bool,
    /// The range of text that an input method is composing.
    pub marked: Option<Range<usize>>,
    pub multi_line: bool,
    pub rows: usize,
}

impl TextInputView {
    /// Selection and composition range run forward between char boundaries.
    pub open spec fn wf(self) -> bool {
        &&& valid_range(self.content, self.selected)
        &&& (self.marked matches Some(m) ==> valid_range(self.content, m))
    }

    pub open spec fn cursor(self) -> usize {
        if self.reversed {
            self.selected.start
        } else {
            self.selected.end
        }
    }

    pub open spec fn moved_to(self, offset: usize) -> TextInputView {
        TextInputView { selected: point(offset), ..self }
    }

    /// Moves the cursor end of the selection to `offset`, keeping the other
    /// end, and flips the selection's direction when the ends cross.
    pub open spec fn selected_to(self, offset: usize) -> TextInputView {
        let r = if self.reversed {
            Range { start: offset, end: self.selected.end }
        } else {
            Range { start: self.selected.start, end: offset }
        };
        if r.end < r.start {
            TextInputView {
                selected: Range { start: r.end, end: r.start },
                reversed: !self.reversed,
                ..self
            }
        } else {
            TextInputView { selected: r, ..self }
        }
    }

    pub open spec fn previous_boundary(self, offset: usize) -> usize {
        prev_start(grapheme_starts(self.content), offset as int)
    }

    pub open spec fn next_boundary(self, offset: usize) -> usize {
        next_start(grapheme_starts(self.content), offset as int, byte_len(self.content) as usize)
    }

    pub open spec fn line_start(self, offset: usize) -> usize {
        offset_of(self.content, line_start_index(self.content, index_at(self.content, offset as int))) as usize
    }

    pub open spec fn line_end(self, offset: usize) -> usize {
        offset_of(self.content, line_end_index(self.content, index_at(self.content, offset as int))) as usize
    }

    /// The range that an edit without an explicit range replaces: the
    /// composition range if there is one, else the selection.
    pub open spec fn edit_range(self, range_utf16: Option<Range<usize>>) -> Range<usize> {
        match range_utf16 {
            Some(r) => Range {
                start: utf16_to_offset(self.content, r.start as int) as usize,
                end: utf16_to_offset(self.content, r.end as int) as usize,
            },
            None => match self.marked {
                Some(m) => m,
                None => self.selected,
            },
        }
    }

    /// The content with the bytes of `range` replaced by `text`.
    pub open spec fn spliced(self, range: Range<usize>, text: Seq<char>) -> Seq<char> {
        text_before(self.content, range.start as int) + text + text_from(self.content, range.end as int)
    }

    /// Replaces `range` by `text`, puts the cursor after it and ends any
    /// composition.
    pub open spec fn replaced(self, range: Range<usize>, text: Seq<char>) -> TextInputView {
        TextInputView {
            content: self.spliced(range, text),
            selected: point((range.start + byte_len(text)) as usize),
            marked: None,
            ..self
        }
    }

    pub open spec fn replaced_in(self, range_utf16: Option<Range<usize>>, text: Seq<char>) -> TextInputView {
        self.replaced(self.edit_range(range_utf16), text)
    }

    /// An edit that the platform can make without a panic or an overflow.
    pub open spec fn can_replace(self, range_utf16: Option<Range<usize>>, text: Seq<char>) -> bool {
        let r = self.edit_range(range_utf16);
        &&& is_boundary(self.content, r.start as int)
        &&& is_boundary(self.content, r.end as int)
        &&& byte_len(self.spliced(r, text)) <= usize::MAX
        &&& r.start + byte_len(text) <= usize::MAX
    }

    pub open spec fn after_backspace(self) -> TextInputView {
        let v = if self.selected.start >= self.selected.end {
            self.selected_to(self.previous_boundary(self.cursor()))
        } else {
            self
        };
        v.replaced_in(None, seq![])
    }

    pub open spec fn after_delete(self) -> TextInputView {
        let v = if self.selected.start >= self.selected.end {
            self.selected_to(self.next_boundary(self.cursor()))
        } else {
            self
        };
        v.replaced_in(None, seq![])
    }

    pub open spec fn after_left(self) -> TextInputView {
        if self.selected.start >= self.selected.end {
            self.moved_to(self.previous_boundary(self.cursor()))
        } else {
            self.moved_to(self.selected.start)
        }
    }

    pub open spec fn after_right(self) -> TextInputView {
        if self.selected.start >= self.selected.end {
            self.moved_to(self.next_boundary(self.selected.end))
        } else {
            self.moved_to(self.selected.end)
        }
    }

    /// What is pasted: the clipboard text, with line breaks turned into
    /// spaces in a single-line field.
    pub open spec fn pasted_text(self, text: Seq<char>) -> Seq<char> {
        if self.multi_line {
            text
        } else {
            single_line(text)
        }
    }

    /// The selected text.
    pub open spec fn selected_text(self) -> Seq<char> {
        self.content.subrange(
            index_at(self.content, self.selected.start as int),
            index_at(self.content, self.selected.end as int),
        )
    }
}

/// The state behind an editable text field.
pub struct TextInputState {
    content: String,
    placeholder: String,
    selected_range: Range<usize>,
    selection_reversed: bool,
    marked_range: Option<Range<usize>>,
    multi_line: bool,
    rows: usize,
}

impl View for TextInputState {
    type V = TextInputView;

    closed spec fn view(&self) -> TextInputView {
        TextInputView {
            content: self.content@,
            placeholder: self.placeholder@,
            selected: self.selected_range,
            reversed: self.selection_reversed,
            marked: self.marked_range,
            multi_line: self.multi_line,
            rows: self.rows,
        }
    }
}

pub proof fn lemma_zero_is_boundary(s: Seq<char>)
    ensures
        is_boundary(s, 0),
{
    assert(s.take(0) =~= Seq::<char>::empty());
    assert(offset_of(s, 0) == 0);
}

pub proof fn lemma_end_is_boundary(s: Seq<char>)
    ensures
        is_boundary(s, byte_len(s) as int),
{
    lemma_offset_end(s);
}

/// A char boundary is the byte offset of the position `index_at` finds.
pub proof fn lemma_boundary_index(s: Seq<char>, b: int)
    requires
        is_boundary(s, b),
    ensures
        offset_of(s, index_at(s, b)) == b,
        0 <= index_at(s, b) <= s.len(),
        b <= byte_len(s),
{
    let k = choose|k: int| 0 <= k <= s.len() && #[trigger] offset_of(s, k) == b;
    lemma_index_at_offset(s, k);
    lemma_offset_monotone(s, k, s.len() as int);
    lemma_offset_end(s);
}

impl TextInputState {
    pub fn new() -> (t: TextInputState)
        ensures
            t@.content.len() == 0,
            t@.placeholder.len() == 0,
            t@.selected == point(0),
            !t@.reversed,
            t@.marked is None,
            !t@.multi_line,
            t@.rows == 1,
    {
        TextInputState {
            content: string_from_chars(&[]),
            placeholder: string_from_chars(&[]),
            selected_range: 0..0,
            selection_reversed: false,
            marked_range: None,
            multi_line: false,
            rows: 1,
        }
    }

    pub fn placeholder(self, placeholder: &str) -> (t: TextInputState)
        ensures
            t@ == (TextInputView { placeholder: placeholder@, ..self@ }),
    {
        TextInputState { placeholder: string_of(placeholder), ..self }
    }

    pub fn multi_line(self, multi_line: bool) -> (t: TextInputState)
        ensures
            t@ == (TextInputView { multi_line, ..self@ }),
    {
        TextInputState { multi_line, ..self }
    }

    /// Sets the number of rows the field shows at least (never below one).
    pub fn rows(self, rows: usize) -> (t: TextInputState)
        ensures
            t@ == (TextInputView { rows: if rows >= 1 { rows } else { 1 }, ..self@ }),
    {
        let rows = if rows >= 1 { rows } else { 1 };
        TextInputState { rows, ..self }
    }

    pub fn value(&self) -> (s: &str)
        ensures
            s@ == self@.content,
    {
        self.content.as_str()
    }

    /// Replaces the content, puts the cursor at the start and ends any
    /// composition.
    pub fn set_value(&mut self, value: &str)
        ensures
            final(self)@ == (TextInputView {
                content: value@,
                selected: point(0),
                marked: None,
                ..old(self)@
            }),
            final(self)@.wf(),
    {
        self.content = string_of(value);
        self.selected_range = 0..0;
        self.marked_range = None;
        proof {
            lemma_zero_is_boundary(value@);
        }
    }

    pub fn placeholder_text(&self) -> (s: &str)
        ensures
            s@ == self@.placeholder,
    {
        self.placeholder.as_str()
    }

    pub fn is_multi_line(&self) -> (b: bool)
        ensures
            b == self@.multi_line,
    {
        self.multi_line
    }

    pub fn min_rows(&self) -> (n: usize)
        ensures
            n == self@.rows,
    {
        self.rows
    }

    pub fn selected_range(&self) -> (r: Range<usize>)
        ensures
            r == self@.selected,
    {
        self.selected_range.start..self.selected_range.end
    }

    pub fn selection_reversed(&self) -> (b: bool)
        ensures
            b == self@.reversed,
    {
        self.selection_reversed
    }

    pub fn marked_range(&self) -> (r: Option<Range<usize>>)
        ensures
            r == self@.marked,
    {
        match &self.marked_range {
            Some(m) => Some(m.start..m.end),
            None => None,
        }
    }

    /// The characters of the content, with its byte length known to fit.
    fn content_chars(&self) -> (cs: Vec<char>)
        ensures
            cs@ == self@.content,
            byte_len(cs@) <= usize::MAX,
    {
        let _n = str_byte_len(self.content.as_str());
        chars_of(self.content.as_str())
    }

    pub fn cursor_offset(&self) -> (offset: usize)
        ensures
            offset == self@.cursor(),
    {
        if self.selection_reversed {
            self.selected_range.start
        } else {
            self.selected_range.end
        }
    }

    pub fn move_to(&mut self, offset: usize)
        ensures
            final(self)@ == old(self)@.moved_to(offset),
    {
        self.selected_range = offset..offset;
    }

    pub fn select_to(&mut self, offset: usize)
        ensures
            final(self)@ == old(self)@.selected_to(offset),
    {
        if self.selection_reversed {
            self.selected_range = offset..self.selected_range.end;
        } else {
            self.selected_range = self.selected_range.start..offset;
        }
        if self.selected_range.end < self.selected_range.start {
            self.selection_reversed = !self.selection_reversed;
            self.selected_range = self.selected_range.end..self.selected_range.start;
        }
    }

    /// The start of the grapheme before `offset` (0 at the start).
    pub fn previous_boundary(&self, offset: usize) -> (b: usize)
        ensures
            b == self@.previous_boundary(offset),
            is_boundary(self@.content, b as int),
    {
        let g = grapheme_offsets(self.content.as_str());
        let mut i: usize = g.len();
        assert(g@.take(g@.len() as int) =~= g@);
        while i > 0 && g[i - 1] >= offset
            invariant
                i <= g@.len(),
                prev_start(g@, offset as int) == prev_start(g@.take(i as int), offset as int),
            decreases i,
        {
            assert(g@.take(i as int).drop_last() =~= g@.take(i - 1));
            i = i - 1;
        }
        proof {
            lemma_zero_is_boundary(self@.content);
            if i > 0 {
                assert(g@.take(i as int).last() == g@[i - 1]);
            }
        }
        if i == 0 {
            0
        } else {
            g[i - 1]
        }
    }

    /// The start of the grapheme after `offset` (the end of the text at the end).
    pub fn next_boundary(&self, offset: usize) -> (b: usize)
        ensures
            b == self@.next_boundary(offset),
            is_boundary(self@.content, b as int),
    {
        let g = grapheme_offsets(self.content.as_str());
        let len = str_byte_len(self.content.as_str());
        let mut i: usize = 0;
        assert(g@.skip(0) =~= g@);
        while i < g.len() && g[i] <= offset
            invariant
                i <= g@.len(),
                len == byte_len(self@.content),
                next_start(g@, offset as int, len) == next_start(g@.skip(i as int), offset as int, len),
            decreases g.len() - i,
        {
            assert(g@.skip(i as int).drop_first() =~= g@.skip(i + 1));
            i = i + 1;
        }
        proof {
            lemma_end_is_boundary(self@.content);
        }
        if i == g.len() {
            assert(g@.skip(i as int) =~= Seq::<usize>::empty());
            len
        } else {
            g[i]
        }
    }

    /// Byte offset of the start of the line containing `offset`.
    pub fn line_start(&self, offset: usize) -> (b: usize)
        requires
            is_boundary(self@.content, offset as int),
        ensures
            b == self@.line_start(offset),
            is_boundary(self@.content, b as int),
    {
        let cs = self.content_chars();
        let k = index_at_offset(&cs, offset);
        let mut j: usize = k;
        while j > 0 && cs[j - 1] != '\n'
            invariant
                j <= k <= cs@.len(),
                line_start_index(cs@, k as int) == line_start_index(cs@, j as int),
            decreases j,
        {
            j = j - 1;
        }
        offset_of_index(&cs, j)
    }

    /// Byte offset of the end of the line containing `offset` (exclusive of
    /// the newline).
    pub fn line_end(&self, offset: usize) -> (b: usize)
        requires
            is_boundary(self@.content, offset as int),
        ensures
            b == self@.line_end(offset),
            is_boundary(self@.content, b as int),
    {
        let cs = self.content_chars();
        let k = index_at_offset(&cs, offset);
        let mut j: usize = k;
        while j < cs.len() && cs[j] != '\n'
            invariant
                k <= j <= cs@.len(),
                line_end_index(cs@, k as int) == line_end_index(cs@, j as int),
            decreases cs.len() - j,
        {
            j = j + 1;
        }
        offset_of_index(&cs, j)
    }

    /// The byte offset that the UTF-16 offset `offset` falls on.
    pub fn offset_from_utf16(&self, offset: usize) -> (b: usize)
        ensures
            b == utf16_to_offset(self@.content, offset as int),
            is_boundary(self@.content, b as int),
    {
        let cs = self.content_chars();
        proof {
            lemma_index_at_utf16_bounds(cs@, offset as int);
        }
        offset_from_utf16_in(&cs, offset)
    }

    /// The UTF-16 offset of the byte offset `offset`.
    pub fn offset_to_utf16(&self, offset: usize) -> (u: usize)
        ensures
            u == offset_to_utf16(self@.content, offset as int),
    {
        let cs = self.content_chars();
        offset_to_utf16_in(&cs, offset)
    }

    pub fn range_to_utf16(&self, range: &Range<usize>) -> (r: Range<usize>)
        ensures
            r.start == offset_to_utf16(self@.content, range.start as int),
            r.end == offset_to_utf16(self@.content, range.end as int),
    {
        self.offset_to_utf16(range.start)..self.offset_to_utf16(range.end)
    }

    pub fn range_from_utf16(&self, range_utf16: &Range<usize>) -> (r: Range<usize>)
        ensures
            r.start == utf16_to_offset(self@.content, range_utf16.start as int),
            r.end == utf16_to_offset(self@.content, range_utf16.end as int),
            is_boundary(self@.content, r.start as int),
            is_boundary(self@.content, r.end as int),
    {
        self.offset_from_utf16(range_utf16.start)..self.offset_from_utf16(range_utf16.end)
    }
}

impl TextInputView {
    /// Replaces `range_utf16` (or the composition range, or the selection)
    /// by `text`, composing `text` when it is non-empty, and selects
    /// `new_selected_utf16` (taken in the new content, its start shifted by
    /// the replaced range's start and its end by the replaced range's end),
    /// or else puts the cursor after `text`.
    pub open spec fn replaced_and_marked(
        self,
        range_utf16: Option<Range<usize>>,
        text: Seq<char>,
        new_selected_utf16: Option<Range<usize>>,
    ) -> TextInputView {
        let r = self.edit_range(range_utf16);
        let content = self.spliced(r, text);
        TextInputView {
            content,
            marked: if text.len() > 0 {
                Some(Range { start: r.start, end: (r.start + byte_len(text)) as usize })
            } else {
                None
            },
            selected: match new_selected_utf16 {
                Some(ns) => Range {
                    start: (utf16_to_offset(content, ns.start as int) + r.start) as usize,
                    end: (utf16_to_offset(content, ns.end as int) + r.end) as usize,
                },
                None => point((r.start + byte_len(text)) as usize),
            },
            ..self
        }
    }

    pub open spec fn can_replace_and_mark(
        self,
        range_utf16: Option<Range<usize>>,
        text: Seq<char>,
        new_selected_utf16: Option<Range<usize>>,
    ) -> bool {
        let r = self.edit_range(range_utf16);
        let content = self.spliced(r, text);
        &&& self.can_replace(range_utf16, text)
        &&& (new_selected_utf16 matches Some(ns) ==> {
            &&& utf16_to_offset(content, ns.start as int) + r.start <= usize::MAX
            &&& utf16_to_offset(content, ns.end as int) + r.end <= usize::MAX
        })
    }
}

pub proof fn lemma_byte_len_split(s: Seq<char>, k: int)
    requires
        0 <= k <= s.len(),
    ensures
        byte_len(s) == offset_of(s, k) + byte_len(s.skip(k)),
{
    assert(s =~= s.take(k) + s.skip(k));
    lemma_byte_len_concat(s.take(k), s.skip(k));
}

/// Deleting a forward range between boundaries shortens the text.
pub proof fn lemma_delete_shrinks(v: TextInputView, r: Range<usize>)
    requires
        valid_range(v.content, r),
        byte_len(v.content) <= usize::MAX,
    ensures
        byte_len(v.spliced(r, seq![])) <= byte_len(v.content),
        v.can_replace_range(r, seq![]),
{
    let s = v.content;
    lemma_boundary_index(s, r.start as int);
    lemma_boundary_index(s, r.end as int);
    let ks = index_at(s, r.start as int);
    let ke = index_at(s, r.end as int);
    lemma_index_at_monotone(s, r.start as int, r.end as int);
    assert(v.spliced(r, seq![]) =~= s.take(ks) + s.skip(ke));
    lemma_byte_len_concat(s.take(ks), s.skip(ke));
    lemma_byte_len_split(s, ke);
    lemma_offset_monotone(s, ks, ke);
    assert(byte_len(Seq::<char>::empty()) == 0);
}

impl TextInputView {
    /// Replacing the byte range `r` by `text` is possible without a panic or
    /// an overflow.
    pub open spec fn can_replace_range(self, r: Range<usize>, text: Seq<char>) -> bool {
        &&& is_boundary(self.content, r.start as int)
        &&& is_boundary(self.content, r.end as int)
        &&& byte_len(self.spliced(r, text)) <= usize::MAX
        &&& r.start + byte_len(text) <= usize::MAX
    }
}

/// Moving the cursor end of a well-formed selection to a boundary keeps it
/// well formed.
pub proof fn lemma_selected_to_wf(v: TextInputView, offset: usize)
    requires
        v.wf(),
        is_boundary(v.content, offset as int),
    ensures
        v.selected_to(offset).wf(),
{
}

pub proof fn lemma_moved_to_wf(v: TextInputView, offset: usize)
    requires
        v.wf(),
        is_boundary(v.content, offset as int),
    ensures
        v.moved_to(offset).wf(),
{
}

/// After a replacement the cursor sits on a boundary of the new text.
pub proof fn lemma_replaced_cursor(v: TextInputView, r: Range<usize>, text: Seq<char>)
    requires
        v.can_replace_range(r, text),
    ensures
        is_boundary(v.spliced(r, text), r.start + byte_len(text)),
{
    let s = v.content;
    lemma_boundary_index(s, r.start as int);
    let ks = index_at(s, r.start as int);
    let c = v.spliced(r, text);
    let k = ks + text.len();
    lemma_index_at_bounds(s, r.end as int);
    assert(c.take(k) =~= s.take(ks) + text);
    lemma_byte_len_concat(s.take(ks), text);
    assert(offset_of(c, k) == r.start + byte_len(text));
}

/// What a replacement writes is what a read of its range then gives back,
/// and the text on either side of the range is kept.
pub proof fn lemma_replace_then_read(v: TextInputView, r: Range<usize>, text: Seq<char>)
    requires
        v.can_replace_range(r, text),
    ensures
        ({
            let w = v.replaced(r, text);
            &&& w.content.subrange(
                index_at(w.content, r.start as int),
                index_at(w.content, r.start + byte_len(text)),
            ) == text
            &&& text_before(w.content, r.start as int) == text_before(v.content, r.start as int)
            &&& text_from(w.content, r.start + byte_len(text)) == text_from(v.content, r.end as int)
        }),
{
    let s = v.content;
    lemma_boundary_index(s, r.start as int);
    lemma_boundary_index(s, r.end as int);
    let ks = index_at(s, r.start as int);
    let ke = index_at(s, r.end as int);
    let c = v.spliced(r, text);
    let k = ks + text.len();
    assert(c.take(ks) =~= s.take(ks));
    assert(c.take(k) =~= s.take(ks) + text);
    lemma_byte_len_concat(s.take(ks), text);
    lemma_index_at_offset(c, ks);
    lemma_index_at_offset(c, k);
    assert(c.subrange(ks, k) =~= text);
    assert(c.skip(k) =~= s.skip(ke));
}

impl TextInputState {
    /// Replaces the bytes of `range` by `new_text`, puts the cursor after it
    /// and ends any composition.
    fn replace_range(&mut self, range: Range<usize>, new_text: &str)
        requires
            old(self)@.can_replace_range(range, new_text@),
        ensures
            final(self)@ == old(self)@.replaced(range, new_text@),
            final(self)@.wf(),
    {
        let cs = self.content_chars();
        proof {
            lemma_boundary_index(cs@, range.start as int);
            lemma_boundary_index(cs@, range.end as int);
            lemma_replaced_cursor(self@, range, new_text@);
        }
        let ks = index_at_offset(&cs, range.start);
        let ke = index_at_offset(&cs, range.end);
        let nt = chars_of(new_text);
        let n = str_byte_len(new_text);
        let mut out: Vec<char> = Vec::new();
        extend_from_range(&mut out, &cs, 0, ks);
        extend_chars(&mut out, nt.as_slice());
        extend_from_range(&mut out, &cs, ke, cs.len());
        assert(out@ =~= old(self)@.spliced(range, new_text@));
        self.content = string_from_chars(out.as_slice());
        let at = range.start + n;
        self.selected_range = at..at;
        self.marked_range = None;
    }

    /// The range an edit replaces (see `TextInputView::edit_range`).
    fn edit_range(&self, range_utf16: &Option<Range<usize>>) -> (r: Range<usize>)
        ensures
            r == self@.edit_range(*range_utf16),
    {
        match range_utf16 {
            Some(r) => self.range_from_utf16(r),
            None => match &self.marked_range {
                Some(m) => m.start..m.end,
                None => self.selected_range.start..self.selected_range.end,
            },
        }
    }

    pub fn replace_text_in_range(&mut self, range_utf16: Option<Range<usize>>, new_text: &str)
        requires
            old(self)@.can_replace(range_utf16, new_text@),
        ensures
            final(self)@ == old(self)@.replaced_in(range_utf16, new_text@),
            final(self)@.wf(),
    {
        let range = self.edit_range(&range_utf16);
        self.replace_range(range, new_text);
    }

    pub fn replace_and_mark_text_in_range(
        &mut self,
        range_utf16: Option<Range<usize>>,
        new_text: &str,
        new_selected_range_utf16: Option<Range<usize>>,
    )
        requires
            old(self)@.can_replace_and_mark(range_utf16, new_text@, new_selected_range_utf16),
        ensures
            final(self)@ == old(self)@.replaced_and_marked(
                range_utf16,
                new_text@,
                new_selected_range_utf16,
            ),
    {
        let range = self.edit_range(&range_utf16);
        let n = str_byte_len(new_text);
        self.replace_range(range.start..range.end, new_text);
        let nt = chars_of(new_text);
        if nt.len() > 0 {
            self.marked_range = Some(range.start..range.start + n);
        } else {
            self.marked_range = None;
        }
        match &new_selected_range_utf16 {
            Some(ns) => {
                let new_range = self.range_from_utf16(ns);
                self.selected_range = new_range.start + range.start..new_range.end + range.end;
            },
            None => {
                self.selected_range = range.start + n..range.start + n;
            },
        }
    }

    pub fn unmark_text(&mut self)
        ensures
            final(self)@ == (TextInputView { marked: None, ..old(self)@ }),
    {
        self.marked_range = None;
    }

    /// The UTF-16 range of the composition, if any.
    pub fn marked_text_range(&self) -> (r: Option<Range<usize>>)
        ensures
            r == match self@.marked {
                Some(m) => Some(
                    Range {
                        start: offset_to_utf16(self@.content, m.start as int) as usize,
                        end: offset_to_utf16(self@.content, m.end as int) as usize,
                    },
                ),
                None => None,
            },
    {
        match &self.marked_range {
            Some(m) => Some(self.range_to_utf16(m)),
            None => None,
        }
    }

    /// The UTF-16 range of the selection and whether it runs backwards.
    pub fn selected_text_range(&self) -> (r: (Range<usize>, bool))
        ensures
            r.0.start == offset_to_utf16(self@.content, self@.selected.start as int),
            r.0.end == offset_to_utf16(self@.content, self@.selected.end as int),
            r.1 == self@.reversed,
    {
        (self.range_to_utf16(&self.selected_range), self.selection_reversed)
    }

    /// The text of the UTF-16 range `range_utf16`, with the UTF-16 range it
    /// actually covers.
    pub fn text_for_range(&self, range_utf16: &Range<usize>) -> (r: (String, Range<usize>))
        requires
            utf16_to_offset(self@.content, range_utf16.start as int) <= utf16_to_offset(
                self@.content,
                range_utf16.end as int,
            ),
        ensures
            r.0@ == self@.content.subrange(
                index_at_utf16(self@.content, range_utf16.start as int),
                index_at_utf16(self@.content, range_utf16.end as int),
            ),
            r.1.start == offset_to_utf16(
                self@.content,
                utf16_to_offset(self@.content, range_utf16.start as int) as int,
            ),
            r.1.end == offset_to_utf16(
                self@.content,
                utf16_to_offset(self@.content, range_utf16.end as int) as int,
            ),
    {
        let range = self.range_from_utf16(range_utf16);
        let actual = self.range_to_utf16(&range);
        let cs = self.content_chars();
        let ghost s = cs@;
        proof {
            lemma_index_at_utf16_bounds(s, range_utf16.start as int);
            lemma_index_at_utf16_bounds(s, range_utf16.end as int);
            lemma_index_at_offset(s, index_at_utf16(s, range_utf16.start as int));
            lemma_index_at_offset(s, index_at_utf16(s, range_utf16.end as int));
            lemma_index_at_monotone(s, range.start as int, range.end as int);
        }
        let ks = index_at_offset(&cs, range.start);
        let ke = index_at_offset(&cs, range.end);
        let mut out: Vec<char> = Vec::new();
        extend_from_range(&mut out, &cs, ks, ke);
        assert(out@ =~= s.subrange(ks as int, ke as int));
        (string_from_chars(out.as_slice()), actual)
    }
}

/// The byte length of `text` spliced into `s` in place of the bytes between
/// the boundaries `start` and `end`.
proof fn lemma_spliced_len(v: TextInputView, r: Range<usize>, text: Seq<char>)
    requires
        is_boundary(v.content, r.start as int),
        is_boundary(v.content, r.end as int),
    ensures
        byte_len(v.spliced(r, text)) == r.start + byte_len(text) + (byte_len(v.content) - r.end),
        r.end <= byte_len(v.content),
{
    let s = v.content;
    lemma_boundary_index(s, r.start as int);
    lemma_boundary_index(s, r.end as int);
    let ks = index_at(s, r.start as int);
    let ke = index_at(s, r.end as int);
    lemma_byte_len_concat(s.take(ks) + text, s.skip(ke));
    lemma_byte_len_concat(s.take(ks), text);
    lemma_byte_len_split(s, ke);
}

impl TextInputState {
    /// Whether `offset` falls on a char boundary of the content.
    pub fn is_char_boundary(&self, offset: usize) -> (b: bool)
        ensures
            b == is_boundary(self@.content, offset as int),
    {
        let cs = self.content_chars();
        let k = index_at_offset(&cs, offset);
        let o = offset_of_index(&cs, k);
        proof {
            if is_boundary(cs@, offset as int) {
                lemma_boundary_index(cs@, offset as int);
            }
            if o == offset {
                assert(offset_of(cs@, k as int) == offset);
            }
        }
        o == offset
    }

    /// Whether the selection and the composition range run forward between
    /// char boundaries (see `TextInputView::wf`).
    pub fn is_well_formed(&self) -> (b: bool)
        ensures
            b == self@.wf(),
    {
        let selection_ok = self.selected_range.start <= self.selected_range.end
            && self.is_char_boundary(self.selected_range.start)
            && self.is_char_boundary(self.selected_range.end);
        let marked_ok = match &self.marked_range {
            Some(m) => m.start <= m.end && self.is_char_boundary(m.start) && self.is_char_boundary(
                m.end,
            ),
            None => true,
        };
        selection_ok && marked_ok
    }

    /// Whether `replace_text_in_range` can make this edit (see
    /// `TextInputView::can_replace`).
    pub fn can_replace(&self, range_utf16: &Option<Range<usize>>, new_text: &str) -> (b: bool)
        ensures
            b == self@.can_replace(*range_utf16, new_text@),
    {
        let r = self.edit_range(range_utf16);
        if !self.is_char_boundary(r.start) || !self.is_char_boundary(r.end) {
            return false;
        }
        let len = str_byte_len(self.content.as_str());
        let n = str_byte_len(new_text);
        proof {
            lemma_spliced_len(self@, r, new_text@);
        }
        match r.start.checked_add(n) {
            None => false,
            Some(a) => a.checked_add(len - r.end).is_some(),
        }
    }

    /// Whether `replace_and_mark_text_in_range` can make this edit (see
    /// `TextInputView::can_replace_and_mark`).
    pub fn can_replace_and_mark(
        &self,
        range_utf16: &Option<Range<usize>>,
        new_text: &str,
        new_selected_range_utf16: &Option<Range<usize>>,
    ) -> (b: bool)
        ensures
            b == self@.can_replace_and_mark(*range_utf16, new_text@, *new_selected_range_utf16),
    {
        if !self.can_replace(range_utf16, new_text) {
            return false;
        }
        match new_selected_range_utf16 {
            None => true,
            Some(ns) => {
                let r = self.edit_range(range_utf16);
                let cs = self.content_chars();
                proof {
                    lemma_boundary_index(cs@, r.start as int);
                    lemma_boundary_index(cs@, r.end as int);
                    lemma_spliced_len(self@, r, new_text@);
                }
                let ks = index_at_offset(&cs, r.start);
                let ke = index_at_offset(&cs, r.end);
                let nt = chars_of(new_text);
                let mut out: Vec<char> = Vec::new();
                extend_from_range(&mut out, &cs, 0, ks);
                extend_chars(&mut out, nt.as_slice());
                extend_from_range(&mut out, &cs, ke, cs.len());
                assert(out@ =~= self@.spliced(r, new_text@));
                let s = offset_from_utf16_in(&out, ns.start);
                let e = offset_from_utf16_in(&out, ns.end);
                s.checked_add(r.start).is_some() && e.checked_add(r.end).is_some()
            },
        }
    }
}

impl TextInputState {
    /// Deletes the selection, or the grapheme before the cursor; a pending
    /// composition is what goes when there is one.
    pub fn backspace(&mut self)
        requires
            old(self)@.wf(),
        ensures
            final(self)@ == old(self)@.after_backspace(),
            final(self)@.wf(),
    {
        let _n = str_byte_len(self.content.as_str());
        if self.selected_range.start >= self.selected_range.end {
            let b = self.previous_boundary(self.cursor_offset());
            proof {
                lemma_selected_to_wf(self@, b);
            }
            self.select_to(b);
        }
        let range = self.edit_range(&None);
        proof {
            lemma_delete_shrinks(self@, range);
            reveal_strlit("");
            assert(""@ =~= Seq::<char>::empty());
        }
        self.replace_range(range, "");
    }

    /// Deletes the selection, or the grapheme after the cursor; a pending
    /// composition is what goes when there is one.
    pub fn delete(&mut self)
        requires
            old(self)@.wf(),
        ensures
            final(self)@ == old(self)@.after_delete(),
            final(self)@.wf(),
    {
        let _n = str_byte_len(self.content.as_str());
        if self.selected_range.start >= self.selected_range.end {
            let b = self.next_boundary(self.cursor_offset());
            proof {
                lemma_selected_to_wf(self@, b);
            }
            self.select_to(b);
        }
        let range = self.edit_range(&None);
        proof {
            lemma_delete_shrinks(self@, range);
            reveal_strlit("");
            assert(""@ =~= Seq::<char>::empty());
        }
        self.replace_range(range, "");
    }

    pub fn left(&mut self)
        ensures
            final(self)@ == old(self)@.after_left(),
            old(self)@.wf() ==> final(self)@.wf(),
    {
        if self.selected_range.start >= self.selected_range.end {
            let b = self.previous_boundary(self.cursor_offset());
            self.move_to(b);
        } else {
            let b = self.selected_range.start;
            self.move_to(b);
        }
    }

    pub fn right(&mut self)
        ensures
            final(self)@ == old(self)@.after_right(),
            old(self)@.wf() ==> final(self)@.wf(),
    {
        if self.selected_range.start >= self.selected_range.end {
            let b = self.next_boundary(self.selected_range.end);
            self.move_to(b);
        } else {
            let b = self.selected_range.end;
            self.move_to(b);
        }
    }

    pub fn select_left(&mut self)
        ensures
            final(self)@ == old(self)@.selected_to(old(self)@.previous_boundary(old(self)@.cursor())),
            old(self)@.wf() ==> final(self)@.wf(),
    {
        let b = self.previous_boundary(self.cursor_offset());
        self.select_to(b);
    }

    pub fn select_right(&mut self)
        ensures
            final(self)@ == old(self)@.selected_to(old(self)@.next_boundary(old(self)@.cursor())),
            old(self)@.wf() ==> final(self)@.wf(),
    {
        let b = self.next_boundary(self.cursor_offset());
        self.select_to(b);
    }

    /// Selects the whole content, cursor at the end.
    pub fn select_all(&mut self)
        ensures
            final(self)@ == old(self)@.moved_to(0).selected_to(byte_len(old(self)@.content) as usize),
            final(self)@.selected == (Range { start: 0usize, end: byte_len(old(self)@.content) as usize }),
            old(self)@.wf() ==> final(self)@.wf(),
    {
        let len = str_byte_len(self.content.as_str());
        self.move_to(0);
        self.select_to(len);
        proof {
            lemma_zero_is_boundary(self@.content);
            lemma_end_is_boundary(self@.content);
        }
    }

    /// Moves the cursor to the start of its line.
    pub fn home(&mut self)
        requires
            is_boundary(old(self)@.content, old(self)@.cursor() as int),
        ensures
            final(self)@ == old(self)@.moved_to(old(self)@.line_start(old(self)@.cursor())),
            old(self)@.wf() ==> final(self)@.wf(),
    {
        let start = self.line_start(self.cursor_offset());
        self.move_to(start);
    }

    /// Moves the cursor to the end of its line.
    pub fn end(&mut self)
        requires
            is_boundary(old(self)@.content, old(self)@.cursor() as int),
        ensures
            final(self)@ == old(self)@.moved_to(old(self)@.line_end(old(self)@.cursor())),
            old(self)@.wf() ==> final(self)@.wf(),
    {
        let end = self.line_end(self.cursor_offset());
        self.move_to(end);
    }

    /// Enter: a line break in a multi-line field, nothing in a single-line one.
    pub fn newline(&mut self)
        requires
            old(self)@.multi_line ==> old(self)@.can_replace(None, seq!['\n']),
        ensures
            final(self)@ == if old(self)@.multi_line {
                old(self)@.replaced_in(None, seq!['\n'])
            } else {
                old(self)@
            },
    {
        if self.multi_line {
            proof {
                reveal_strlit("\n");
                assert("\n"@ =~= seq!['\n']);
            }
            self.replace_text_in_range(None, "\n");
        }
    }

    /// The text that pasting `text` inserts (see `TextInputView::pasted_text`).
    fn pasted(&self, text: &str) -> (r: String)
        ensures
            r@ == self@.pasted_text(text@),
    {
        if self.multi_line {
            string_of(text)
        } else {
            let cs = chars_of(text);
            let mut out: Vec<char> = Vec::new();
            let mut i: usize = 0;
            while i < cs.len()
                invariant
                    i <= cs@.len(),
                    out@ == single_line(cs@.take(i as int)),
                decreases cs.len() - i,
            {
                let c = cs[i];
                out.push(if c == '\n' { ' ' } else { c });
                i = i + 1;
                assert(out@ =~= single_line(cs@.take(i as int)));
            }
            assert(cs@.take(cs@.len() as int) =~= cs@);
            string_from_chars(out.as_slice())
        }
    }

    /// Whether `paste` can insert `text` (see `TextInputView::can_replace`).
    pub fn can_paste(&self, text: &str) -> (b: bool)
        ensures
            b == self@.can_replace(None, self@.pasted_text(text@)),
    {
        let t = self.pasted(text);
        self.can_replace(&None, t.as_str())
    }

    /// Pastes `text` over the selection (or the composition), turning line
    /// breaks into spaces in a single-line field.
    pub fn paste(&mut self, text: &str)
        requires
            old(self)@.can_replace(None, old(self)@.pasted_text(text@)),
        ensures
            final(self)@ == old(self)@.replaced_in(None, old(self)@.pasted_text(text@)),
            final(self)@.wf(),
    {
        let t = self.pasted(text);
        self.replace_text_in_range(None, t.as_str());
    }

    /// The selected text, when the selection is not empty.
    pub fn copy(&self) -> (r: Option<String>)
        requires
            self@.wf(),
        ensures
            self@.selected.start < self@.selected.end ==> r is Some && r->0@ == self@.selected_text(),
            self@.selected.start >= self@.selected.end ==> r is None,
    {
        if self.selected_range.start < self.selected_range.end {
            let cs = self.content_chars();
            proof {
                lemma_boundary_index(cs@, self@.selected.start as int);
                lemma_boundary_index(cs@, self@.selected.end as int);
                lemma_index_at_monotone(cs@, self@.selected.start as int, self@.selected.end as int);
            }
            let ks = index_at_offset(&cs, self.selected_range.start);
            let ke = index_at_offset(&cs, self.selected_range.end);
            let mut out: Vec<char> = Vec::new();
            extend_from_range(&mut out, &cs, ks, ke);
            assert(out@ =~= self@.selected_text());
            Some(string_from_chars(out.as_slice()))
        } else {
            None
        }
    }

    /// Cuts the selection: returns its text and deletes it (or deletes the
    /// composition, when there is one).
    pub fn cut(&mut self) -> (r: Option<String>)
        requires
            old(self)@.wf(),
        ensures
            old(self)@.selected.start < old(self)@.selected.end ==> r is Some && r->0@ == old(self)@.selected_text() && final(self)@ == old(self)@.replaced_in(None, seq![]),
            old(self)@.selected.start >= old(self)@.selected.end ==> r is None && final(self)@ == old(self)@,
            final(self)@.wf(),
    {
        let text = self.copy();
        match text {
            Some(t) => {
                let _n = str_byte_len(self.content.as_str());
                let range = self.edit_range(&None);
                proof {
                    lemma_delete_shrinks(self@, range);
                    reveal_strlit("");
                    assert(""@ =~= Seq::<char>::empty());
                }
                self.replace_range(range, "");
                Some(t)
            },
            None => None,
        }
    }
}

/// The pieces of `s` between line breaks, as `s.split('\n')` gives them.
pub open spec fn split_lines(s: Seq<char>) -> Seq<Seq<char>>
    decreases s.len(),
{
    if s.len() == 0 {
        seq![Seq::<char>::empty()]
    } else {
        let p = split_lines(s.drop_last());
        if s.last() == '\n' {
            p.push(Seq::<char>::empty())
        } else {
            p.update(p.len() - 1, p.last().push(s.last()))
        }
    }
}

/// The byte offset where line `i` starts when `lines` are laid out one after
/// another, each followed by a line break.
pub open spec fn start_of(lines: Seq<Seq<char>>, i: int) -> int
    decreases i,
{
    if i <= 0 {
        0
    } else {
        start_of(lines, i - 1) + byte_len(lines[i - 1]) + 1
    }
}

/// One row of a selection: the row, and the byte columns it covers there.
pub open spec fn row_span(lines: Seq<Seq<char>>, sel: Range<usize>, row: int) -> (int, int) {
    let row_start = start_of(lines, row);
    let row_end = row_start + byte_len(lines[row]);
    let s = if sel.start < row_start { row_start } else if sel.start > row_end { row_end } else { sel.start as int };
    let e = if sel.end < row_start { row_start } else if sel.end > row_end { row_end } else { sel.end as int };
    (s - row_start, e - row_start)
}

/// The non-empty row spans of the selection among the first `n` rows.
pub open spec fn spans_upto(lines: Seq<Seq<char>>, sel: Range<usize>, n: int) -> Seq<(usize, usize, usize)>
    decreases n,
{
    if n <= 0 {
        seq![]
    } else {
        let prev = spans_upto(lines, sel, n - 1);
        let (a, b) = row_span(lines, sel, n - 1);
        if a < b {
            prev.push(((n - 1) as usize, a as usize, b as usize))
        } else {
            prev
        }
    }
}

impl TextInputView {
    /// The lines the field paints: the content's lines, or the placeholder
    /// when the content is empty.
    pub open spec fn display_lines(self) -> Seq<Seq<char>> {
        if self.content.len() == 0 {
            seq![self.placeholder]
        } else {
            split_lines(self.content)
        }
    }

    /// The rows the field reserves: its lines in a multi-line field (one
    /// otherwise), and never fewer than `rows`.
    pub open spec fn visible_rows(self) -> int {
        let lines: int = if self.multi_line { count_char(self.content, '\n') as int + 1 } else { 1 };
        if lines >= self.rows { lines } else { self.rows as int }
    }

    /// The painted selection: for each row it touches, the row and the byte
    /// columns covered.
    pub open spec fn selection_spans(self) -> Seq<(usize, usize, usize)> {
        spans_upto(self.display_lines(), self.selected, self.display_lines().len() as int)
    }
}

proof fn lemma_split_lines_nonempty(s: Seq<char>)
    ensures
        split_lines(s).len() >= 1,
    decreases s.len(),
{
    if s.len() > 0 {
        lemma_split_lines_nonempty(s.drop_last());
    }
}

proof fn lemma_start_of_update(lines: Seq<Seq<char>>, k: int, x: Seq<char>, i: int)
    requires
        0 <= k < lines.len(),
        i <= k,
    ensures
        start_of(lines.update(k, x), i) == start_of(lines, i),
    decreases i,
{
    if i > 0 {
        lemma_start_of_update(lines, k, x, i - 1);
    }
}

proof fn lemma_start_of_push(lines: Seq<Seq<char>>, x: Seq<char>, i: int)
    requires
        i <= lines.len(),
    ensures
        start_of(lines.push(x), i) == start_of(lines, i),
    decreases i,
{
    if i > 0 {
        lemma_start_of_push(lines, x, i - 1);
    }
}

/// Laid end to end with a break after each, the lines of `s` take one byte
/// more than `s`.
proof fn lemma_split_lines_bytes(s: Seq<char>)
    ensures
        start_of(split_lines(s), split_lines(s).len() as int) == byte_len(s) + 1,
    decreases s.len(),
{
    reveal_with_fuel(start_of, 2);
    if s.len() == 0 {
        assert(byte_len(Seq::<char>::empty()) == 0);
    } else {
        let p = split_lines(s.drop_last());
        lemma_split_lines_bytes(s.drop_last());
        lemma_split_lines_nonempty(s.drop_last());
        crate::text::lemma_byte_len_push(s.drop_last(), s.last());
        assert(s.drop_last().push(s.last()) =~= s);
        let n = p.len() as int;
        if s.last() == '\n' {
            lemma_start_of_push(p, Seq::<char>::empty(), n);
            assert(byte_len(Seq::<char>::empty()) == 0);
        } else {
            let q = p.update(n - 1, p.last().push(s.last()));
            lemma_start_of_update(p, n - 1, p.last().push(s.last()), n - 1);
            crate::text::lemma_byte_len_push(p.last(), s.last());
        }
    }
}

proof fn lemma_start_of_monotone(lines: Seq<Seq<char>>, i: int, j: int)
    requires
        0 <= i <= j,
    ensures
        start_of(lines, i) <= start_of(lines, j),
    decreases j - i,
{
    if i < j {
        lemma_start_of_monotone(lines, i, j - 1);
    }
}

/// Each line ends within the text's bytes.
proof fn lemma_line_end_bound(s: Seq<char>, i: int)
    requires
        0 <= i < split_lines(s).len(),
    ensures
        start_of(split_lines(s), i) + byte_len(split_lines(s)[i]) <= byte_len(s),
        start_of(split_lines(s), i) >= 0,
{
    lemma_split_lines_bytes(s);
    lemma_start_of_monotone(split_lines(s), i + 1, split_lines(s).len() as int);
    lemma_start_of_monotone(split_lines(s), 0, i);
}

fn split_content(cs: &Vec<char>) -> (lines: Vec<String>)
    ensures
        lines@.map_values(|l: String| l@) == split_lines(cs@),
{
    let mut lines: Vec<String> = Vec::new();
    let mut current: Vec<char> = Vec::new();
    let mut i: usize = 0;
    assert(cs@.take(0) =~= Seq::<char>::empty());
    while i < cs.len()
        invariant
            i <= cs@.len(),
            lines@.map_values(|l: String| l@).push(current@) == split_lines(cs@.take(i as int)),
        decreases cs.len() - i,
    {
        let c = cs[i];
        let ghost before = lines@.map_values(|l: String| l@).push(current@);
        proof {
            assert(cs@.take(i + 1).drop_last() =~= cs@.take(i as int));
            assert(cs@.take(i + 1).last() == c);
        }
        if c == '\n' {
            let line = string_from_chars(current.as_slice());
            lines.push(line);
            current = Vec::new();
            assert(lines@.map_values(|l: String| l@).push(current@) =~= before.push(
                Seq::<char>::empty(),
            ));
        } else {
            current.push(c);
            assert(lines@.map_values(|l: String| l@).push(current@) =~= before.update(
                before.len() - 1,
                before.last().push(c),
            ));
        }
        i = i + 1;
    }
    assert(cs@.take(cs@.len() as int) =~= cs@);
    let last = string_from_chars(current.as_slice());
    let ghost before = lines@.map_values(|l: String| l@);
    lines.push(last);
    assert(lines@.map_values(|l: String| l@) =~= before.push(current@));
    lines
}

impl TextInputState {
    /// Number of line breaks in `v`.
    fn count_breaks(v: &Vec<char>) -> (n: usize)
        ensures
            n == count_char(v@, '\n'),
            n <= v@.len(),
    {
        let mut n: usize = 0;
        let mut i: usize = 0;
        assert(v@.take(0) =~= Seq::<char>::empty());
        while i < v.len()
            invariant
                i <= v@.len(),
                n == count_char(v@.take(i as int), '\n'),
                n <= i,
            decreases v.len() - i,
        {
            proof {
                assert(v@.take(i + 1) =~= v@.take(i as int).push(v@[i as int]));
                crate::text::lemma_count_char_push(v@.take(i as int), v@[i as int], '\n');
            }
            if v[i] == '\n' {
                n = n + 1;
            }
            i = i + 1;
        }
        assert(v@.take(i as int) =~= v@);
        n
    }

    /// The rows the field reserves (see `TextInputView::visible_rows`).
    pub fn visible_rows(&self) -> (n: usize)
        requires
            byte_len(self@.content) < usize::MAX,
        ensures
            n == self@.visible_rows(),
    {
        let lines = if self.multi_line {
            let cs = self.content_chars();
            proof {
                crate::text::lemma_byte_len_ge_len(cs@);
            }
            Self::count_breaks(&cs) + 1
        } else {
            1
        };
        if lines >= self.rows {
            lines
        } else {
            self.rows
        }
    }

    /// The row that byte offset `offset` falls in: the line breaks before it.
    pub fn row_of_offset(&self, offset: usize) -> (row: usize)
        requires
            is_boundary(self@.content, offset as int),
        ensures
            row == count_char(text_before(self@.content, offset as int), '\n'),
    {
        let cs = self.content_chars();
        let k = index_at_offset(&cs, offset);
        let mut before: Vec<char> = Vec::new();
        extend_from_range(&mut before, &cs, 0, k);
        assert(before@ =~= text_before(self@.content, offset as int));
        Self::count_breaks(&before)
    }

    /// The lines the field paints (see `TextInputView::display_lines`).
    pub fn display_lines(&self) -> (lines: Vec<String>)
        ensures
            lines@.map_values(|l: String| l@) == self@.display_lines(),
    {
        let cs = self.content_chars();
        if cs.len() == 0 {
            let mut lines: Vec<String> = Vec::new();
            lines.push(self.placeholder.clone());
            assert(lines@.map_values(|l: String| l@) =~= seq![self@.placeholder]);
            lines
        } else {
            split_content(&cs)
        }
    }

    /// The byte offset where each painted line starts.
    pub fn line_starts(&self) -> (starts: Vec<usize>)
        requires
            byte_len(self@.content) < usize::MAX,
            byte_len(self@.placeholder) < usize::MAX,
        ensures
            starts@.len() == self@.display_lines().len(),
            forall|i: int|
                0 <= i < starts@.len() ==> #[trigger] starts@[i] == start_of(
                    self@.display_lines(),
                    i,
                ),
    {
        let lines = self.display_lines();
        let ghost ls = self@.display_lines();
        let _pn = str_byte_len(self.placeholder.as_str());
        let mut starts: Vec<usize> = Vec::new();
        let mut offset: usize = 0;
        let mut i: usize = 0;
        while i < lines.len()
            invariant
                i <= lines@.len(),
                ls == self@.display_lines(),
                lines@.map_values(|l: String| l@) == ls,
                byte_len(self@.content) < usize::MAX,
                byte_len(self@.placeholder) < usize::MAX,
                offset == start_of(ls, i as int),
                starts@.len() == i,
                forall|j: int| 0 <= j < i ==> #[trigger] starts@[j] == start_of(ls, j),
            decreases lines.len() - i,
        {
            starts.push(offset);
            assert(lines@.map_values(|l: String| l@)[i as int] == lines@[i as int]@);
            let n = str_byte_len(lines[i].as_str());
            proof {
                if self@.content.len() == 0 {
                    assert(lines@.len() == lines@.map_values(|l: String| l@).len());
                    assert(ls.len() == 1);
                    assert(i == 0);
                } else {
                    lemma_line_end_bound(self@.content, i as int);
                }
            }
            offset = offset + n + 1;
            i = i + 1;
        }
        starts
    }

    /// The painted selection (see `TextInputView::selection_spans`).
    pub fn selection_spans(&self) -> (spans: Vec<(usize, usize, usize)>)
        requires
            byte_len(self@.content) < usize::MAX,
            byte_len(self@.placeholder) < usize::MAX,
        ensures
            spans@ == self@.selection_spans(),
    {
        let lines = self.display_lines();
        let starts = self.line_starts();
        let ghost ls = self@.display_lines();
        let mut spans: Vec<(usize, usize, usize)> = Vec::new();
        let mut row: usize = 0;
        while row < lines.len()
            invariant
                row <= lines@.len(),
                ls == self@.display_lines(),
                lines@.map_values(|l: String| l@) == ls,
                starts@.len() == ls.len(),
                forall|i: int| 0 <= i < starts@.len() ==> #[trigger] starts@[i] == start_of(ls, i),
                byte_len(self@.content) < usize::MAX,
                byte_len(self@.placeholder) < usize::MAX,
                spans@ == spans_upto(ls, self@.selected, row as int),
            decreases lines.len() - row,
        {
            assert(lines@.map_values(|l: String| l@)[row as int] == lines@[row as int]@);
            let n = str_byte_len(lines[row].as_str());
            proof {
                if self@.content.len() == 0 {
                    assert(row == 0);
                } else {
                    lemma_line_end_bound(self@.content, row as int);
                }
            }
            let row_start = starts[row];
            let row_end = row_start + n;
            let s0 = self.selected_range.start;
            let e0 = self.selected_range.end;
            let s = if s0 < row_start { row_start } else if s0 > row_end { row_end } else { s0 };
            let e = if e0 < row_start { row_start } else if e0 > row_end { row_end } else { e0 };
            if s < e {
                spans.push((row, s - row_start, e - row_start));
            }
            row = row + 1;
        }
        spans
    }
}

/// Converting a char boundary to UTF-16 and back gives the boundary again.
pub proof fn lemma_utf16_round_trip(s: Seq<char>, b: int)
    requires
        is_boundary(s, b),
    ensures
        utf16_to_offset(s, offset_to_utf16(s, b) as int) == b,
{
    lemma_boundary_index(s, b);
    let k = index_at(s, b);
    lemma_index_at_utf16_offset(s, k);
}

/// Moving the cursor end never leaves a selection that runs backwards.
pub proof fn lemma_selected_to_ordered(v: TextInputView, offset: usize)
    requires
        v.selected.start <= v.selected.end,
    ensures
        v.selected_to(offset).selected.start <= v.selected_to(offset).selected.end,
        v.selected_to(offset).cursor() == offset,
{
}

proof fn lemma_line_start_index(s: Seq<char>, k: int)
    requires
        0 <= k <= s.len(),
    ensures
        0 <= line_start_index(s, k) <= k,
        forall|i: int| line_start_index(s, k) <= i < k ==> s[i] != '\n',
        line_start_index(s, k) == 0 || s[line_start_index(s, k) - 1] == '\n',
    decreases k,
{
    if k > 0 && s[k - 1] != '\n' {
        lemma_line_start_index(s, k - 1);
    }
}

proof fn lemma_line_end_index(s: Seq<char>, k: int)
    requires
        0 <= k <= s.len(),
    ensures
        k <= line_end_index(s, k) <= s.len(),
        forall|i: int| k <= i < line_end_index(s, k) ==> s[i] != '\n',
        line_end_index(s, k) == s.len() || s[line_end_index(s, k)] == '\n',
    decreases s.len() - k,
{
    if k < s.len() && s[k] != '\n' {
        lemma_line_end_index(s, k + 1);
    }
}

/// Home goes to the start of the cursor's line: a char boundary at or
/// before the offset with no line break between the two, right after a line
/// break or at the start of the text.
pub proof fn lemma_line_start_is_after_last_break(v: TextInputView, offset: usize)
    requires
        is_boundary(v.content, offset as int),
    ensures
        ({
            let s = v.content;
            let start = v.line_start(offset);
            let j = index_at(s, start as int);
            let k = index_at(s, offset as int);
            &&& start <= offset
            &&& is_boundary(s, start as int)
            &&& offset_of(s, j) == start
            &&& offset_of(s, k) == offset
            &&& j <= k
            &&& (forall|i: int| j <= i < k ==> s[i] != '\n')
            &&& (start == 0 || s[j - 1] == '\n')
        }),
{
    let s = v.content;
    lemma_boundary_index(s, offset as int);
    let k = index_at(s, offset as int);
    let j = line_start_index(s, k);
    lemma_line_start_index(s, k);
    lemma_offset_monotone(s, j, k);
    lemma_index_at_offset(s, j);
    if j == 0 {
        assert(s.take(0) =~= Seq::<char>::empty());
    } else {
        lemma_offset_monotone(s, 1, j);
        assert(s.take(1) =~= seq![s[0]]);
        assert(s.take(1).drop_last() =~= Seq::<char>::empty());
    }
}

/// End goes to the end of the cursor's line: a char boundary at or after the
/// offset with no line break between the two, at a line break or at the end
/// of the text.
pub proof fn lemma_line_end_is_next_break(v: TextInputView, offset: usize)
    requires
        is_boundary(v.content, offset as int),
        byte_len(v.content) <= usize::MAX,
    ensures
        ({
            let s = v.content;
            let end = v.line_end(offset);
            let j = index_at(s, end as int);
            let k = index_at(s, offset as int);
            &&& offset <= end
            &&& is_boundary(s, end as int)
            &&& offset_of(s, j) == end
            &&& k <= j
            &&& (forall|i: int| k <= i < j ==> s[i] != '\n')
            &&& (j == s.len() || s[j] == '\n')
        }),
{
    let s = v.content;
    lemma_boundary_index(s, offset as int);
    let k = index_at(s, offset as int);
    let j = line_end_index(s, k);
    lemma_line_end_index(s, k);
    lemma_offset_monotone(s, k, j);
    lemma_offset_monotone(s, j, s.len() as int);
    lemma_offset_end(s);
    lemma_index_at_offset(s, j);
}

/// The field reserves at least its configured rows, and in a multi-line
/// field at least one row per line; it reserves no more than the larger of
/// the two.
pub proof fn lemma_visible_rows_cover(v: TextInputView)
    ensures
        v.visible_rows() >= v.rows,
        v.multi_line ==> v.visible_rows() >= count_char(v.content, '\n') + 1,
        v.visible_rows() >= 1,
        v.visible_rows() == v.rows || (v.multi_line && v.visible_rows() == count_char(v.content, '\n') + 1)
            || (!v.multi_line && v.visible_rows() == 1),
{
}

/// Offsets that rise strictly.
pub open spec fn strictly_rising(g: Seq<usize>) -> bool {
    forall|i: int, j: int| 0 <= i < j < g.len() ==> g[i] < g[j]
}

/// Moving back by a grapheme from `b` lands on the last grapheme start before
/// `b`, or 0 when there is none: a start of `g` (or 0) below `b` (when `b` is
/// past 0), with no start of `g` between it and `b`.
pub proof fn lemma_previous_start_is_nearest(g: Seq<usize>, b: int)
    requires
        strictly_rising(g),
    ensures
        prev_start(g, b) == 0 || g.contains(prev_start(g, b)),
        b > 0 ==> prev_start(g, b) < b,
        forall|i: int| 0 <= i < g.len() && g[i] < b ==> g[i] <= prev_start(g, b),
    decreases g.len(),
{
    if g.len() > 0 {
        let q = g.drop_last();
        assert forall|i: int, j: int| 0 <= i < j < q.len() implies q[i] < q[j] by {
            assert(q[i] == g[i] && q[j] == g[j]);
        }
        lemma_previous_start_is_nearest(q, b);
        if g.last() < b {
            assert(g[g.len() - 1] == g.last());
            assert forall|i: int| 0 <= i < g.len() && g[i] < b implies g[i] <= prev_start(g, b) by {
                if i < g.len() - 1 {
                    assert(g[i] < g[g.len() - 1]);
                }
            }
        } else {
            if q.contains(prev_start(q, b)) {
                let k = choose|k: int| 0 <= k < q.len() && q[k] == prev_start(q, b);
                assert(g[k] == q[k]);
            }
            assert forall|i: int| 0 <= i < g.len() && g[i] < b implies g[i] <= prev_start(g, b) by {
                if i < g.len() - 1 {
                    assert(q[i] == g[i]);
                }
            }
        }
    }
}

/// Moving forward by a grapheme from `b` lands on the first grapheme start
/// after `b`, or `end` when there is none: a start of `g` (or `end`) above
/// `b` (when `end` is), with no start of `g` between `b` and it.
pub proof fn lemma_next_start_is_nearest(g: Seq<usize>, b: int, end: usize)
    requires
        strictly_rising(g),
    ensures
        next_start(g, b, end) == end || g.contains(next_start(g, b, end)),
        end > b ==> next_start(g, b, end) > b,
        forall|i: int| 0 <= i < g.len() && g[i] > b ==> g[i] >= next_start(g, b, end),
    decreases g.len(),
{
    if g.len() > 0 {
        let q = g.drop_first();
        assert forall|i: int, j: int| 0 <= i < j < q.len() implies q[i] < q[j] by {
            assert(q[i] == g[i + 1] && q[j] == g[j + 1]);
        }
        lemma_next_start_is_nearest(q, b, end);
        if g[0] > b {
            assert forall|i: int| 0 <= i < g.len() && g[i] > b implies g[i] >= next_start(g, b, end) by {
                if i > 0 {
                    assert(g[0] < g[i]);
                }
            }
        } else {
            if q.contains(next_start(q, b, end)) {
                let k = choose|k: int| 0 <= k < q.len() && q[k] == next_start(q, b, end);
                assert(g[k + 1] == q[k]);
            }
            assert forall|i: int| 0 <= i < g.len() && g[i] > b implies g[i] >= next_start(g, b, end) by {
                if i > 0 {
                    assert(q[i - 1] == g[i]);
                }
            }
        }
    }
}

/// Left (and Backspace) go back to the nearest grapheme start before the
/// offset, or to 0; Right (and Delete) go on to the nearest grapheme start
/// after it, or to the end of the text.
pub proof fn lemma_boundaries_are_nearest(v: TextInputView, b: usize)
    requires
        strictly_rising(grapheme_starts(v.content)),
        byte_len(v.content) <= usize::MAX,
    ensures
        ({
            let g = grapheme_starts(v.content);
            let p = v.previous_boundary(b);
            let n = v.next_boundary(b);
            let end = byte_len(v.content);
            &&& p == 0 || g.contains(p)
            &&& b > 0 ==> p < b
            &&& (forall|i: int| 0 <= i < g.len() && g[i] < b ==> g[i] <= p)
            &&& n == end || g.contains(n)
            &&& end > b ==> n > b
            &&& (forall|i: int| 0 <= i < g.len() && g[i] > b ==> g[i] >= n)
        }),
{
    let g = grapheme_starts(v.content);
    lemma_previous_start_is_nearest(g, b as int);
    lemma_next_start_is_nearest(g, b as int, byte_len(v.content) as usize);
}

/// `lines` joined with a line break between each two.
pub open spec fn join_lines(lines: Seq<Seq<char>>) -> Seq<char>
    decreases lines.len(),
{
    if lines.len() == 0 {
        seq![]
    } else if lines.len() == 1 {
        lines[0]
    } else {
        join_lines(lines.drop_last()) + seq!['\n'] + lines.last()
    }
}

proof fn lemma_split_lines_join(s: Seq<char>)
    ensures
        join_lines(split_lines(s)) == s,
        split_lines(s).len() == count_char(s, '\n') + 1,
        forall|i: int| 0 <= i < split_lines(s).len() ==> !(#[trigger] split_lines(s)[i]).contains('\n'),
    decreases s.len(),
{
    if s.len() == 0 {
        assert(join_lines(seq![Seq::<char>::empty()]) =~= s);
        assert forall|i: int| 0 <= i < split_lines(s).len() implies !(#[trigger] split_lines(s)[i]).contains(
            '\n',
        ) by {
            assert(split_lines(s)[i] =~= Seq::<char>::empty());
        }
    } else {
        let p = s.drop_last();
        let c = s.last();
        lemma_split_lines_join(p);
        lemma_split_lines_nonempty(p);
        crate::text::lemma_count_char_push(p, c, '\n');
        assert(s =~= p.push(c));
        let lp = split_lines(p);
        let ls = split_lines(s);
        if c == '\n' {
            assert(ls.drop_last() =~= lp);
            assert(join_lines(ls) =~= s);
            assert forall|i: int| 0 <= i < ls.len() implies !(#[trigger] ls[i]).contains('\n') by {
                if i < lp.len() {
                    assert(ls[i] == lp[i]);
                } else {
                    assert(ls[i] =~= Seq::<char>::empty());
                }
            }
        } else {
            let x = lp.last().push(c);
            if lp.len() == 1 {
                assert(join_lines(lp) == lp[0]);
                assert(join_lines(ls) =~= s);
            } else {
                assert(ls.drop_last() =~= lp.drop_last());
                assert(join_lines(ls) =~= s);
            }
            assert forall|i: int| 0 <= i < ls.len() implies !(#[trigger] ls[i]).contains('\n') by {
                if i < lp.len() - 1 {
                    assert(ls[i] == lp[i]);
                } else {
                    assert(ls[i] == x);
                    assert(!lp[lp.len() - 1].contains('\n'));
                    if x.contains('\n') {
                        let k = choose|k: int| 0 <= k < x.len() && x[k] == '\n';
                        assert(lp.last()[k] == '\n');
                    }
                }
            }
        }
    }
}

/// The painted lines of a field with text are its lines: joined with line
/// breaks they give back the text, none holds a line break, and there is one
/// more of them than there are line breaks. An empty field paints its
/// placeholder.
pub proof fn lemma_display_lines_are_the_lines(v: TextInputView)
    ensures
        v.content.len() > 0 ==> join_lines(v.display_lines()) == v.content,
        v.content.len() > 0 ==> v.display_lines().len() == count_char(v.content, '\n') + 1,
        v.content.len() > 0 ==> forall|i: int|
            0 <= i < v.display_lines().len() ==> !(#[trigger] v.display_lines()[i]).contains('\n'),
        v.content.len() == 0 ==> v.display_lines() == seq![v.placeholder],
{
    lemma_split_lines_join(v.content);
}

/// Each painted line starts right after the line break that ends the line
/// before it: line `i` starts one byte past the joined text of the lines
/// before it, and the first line at 0.
pub proof fn lemma_line_start_follows_previous_lines(lines: Seq<Seq<char>>, i: int)
    requires
        0 <= i <= lines.len(),
    ensures
        i == 0 ==> start_of(lines, i) == 0,
        i > 0 ==> start_of(lines, i) == byte_len(join_lines(lines.take(i))) + 1,
    decreases i,
{
    if i > 1 {
        lemma_line_start_follows_previous_lines(lines, i - 1);
        let t = lines.take(i);
        assert(t.drop_last() =~= lines.take(i - 1));
        assert(t.last() == lines[i - 1]);
        lemma_byte_len_concat(join_lines(lines.take(i - 1)), seq!['\n']);
        lemma_byte_len_concat(join_lines(lines.take(i - 1)) + seq!['\n'], lines[i - 1]);
        crate::framework::offsets::lemma_byte_len_single('\n');
        assert(('\n' as u32) == 10);
    } else if i == 1 {
        assert(lines.take(1)[0] == lines[0]);
        assert(start_of(lines, 0) == 0);
    }
}

/// Every painted selection span lies in its row and covers exactly the part
/// of the row inside the selection: it starts at the selection start or the
/// row start, ends at the selection end or the row end, and rows come in
/// increasing order.
pub proof fn lemma_selection_spans_cover_selection(lines: Seq<Seq<char>>, sel: Range<usize>, n: int)
    requires
        0 <= n <= lines.len() <= usize::MAX,
        forall|i: int| 0 <= i < lines.len() ==> byte_len(#[trigger] lines[i]) <= usize::MAX,
    ensures
        forall|k: int|
            0 <= k < spans_upto(lines, sel, n).len() ==> {
                let (r, a, b) = #[trigger] spans_upto(lines, sel, n)[k];
                let rs = start_of(lines, r as int);
                &&& r < n
                &&& a < b <= byte_len(lines[r as int])
                &&& rs + a >= sel.start && rs + b <= sel.end
                &&& (a == 0 || rs + a == sel.start)
                &&& (b == byte_len(lines[r as int]) || rs + b == sel.end)
            },
        forall|k: int, l: int|
            0 <= k < l < spans_upto(lines, sel, n).len() ==> (#[trigger] spans_upto(lines, sel, n)[k]).0
                < (#[trigger] spans_upto(lines, sel, n)[l]).0,
    decreases n,
{
    if n > 0 {
        lemma_selection_spans_cover_selection(lines, sel, n - 1);
        let prev = spans_upto(lines, sel, n - 1);
        let cur = spans_upto(lines, sel, n);
        let (a, b) = row_span(lines, sel, n - 1);
        assert(byte_len(lines[n - 1]) <= usize::MAX);
        if a < b {
            assert(cur == prev.push(((n - 1) as usize, a as usize, b as usize)));
            assert forall|k: int| 0 <= k < prev.len() implies cur[k] == prev[k] by {}
            assert(cur[prev.len() as int] == ((n - 1) as usize, a as usize, b as usize));
        } else {
            assert(cur == prev);
        }
    }
}

/// The painted selection of a field: each span lies in its painted row and
/// covers exactly the part of the row inside the selection, rows in order.
pub proof fn lemma_painted_selection_is_the_selection(v: TextInputView)
    requires
        v.display_lines().len() <= usize::MAX,
        forall|i: int| 0 <= i < v.display_lines().len() ==> byte_len(#[trigger] v.display_lines()[i]) <= usize::MAX,
    ensures
        forall|k: int|
            0 <= k < v.selection_spans().len() ==> {
                let (r, a, b) = #[trigger] v.selection_spans()[k];
                let rs = start_of(v.display_lines(), r as int);
                &&& r < v.display_lines().len()
                &&& a < b <= byte_len(v.display_lines()[r as int])
                &&& rs + a >= v.selected.start && rs + b <= v.selected.end
                &&& (a == 0 || rs + a == v.selected.start)
                &&& (b == byte_len(v.display_lines()[r as int]) || rs + b == v.selected.end)
            },
        forall|k: int, l: int|
            0 <= k < l < v.selection_spans().len() ==> (#[trigger] v.selection_spans()[k]).0
                < (#[trigger] v.selection_spans()[l]).0,
{
    lemma_selection_spans_cover_selection(v.display_lines(), v.selected, v.display_lines().len() as int);
}

} // verus!
