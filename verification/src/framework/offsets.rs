//! Byte and UTF-16 offsets into text, stated over the `Seq<char>` view: the
//! byte offset of a character position is the UTF-8 length of the text
//! before it.
use vstd::prelude::*;
use crate::text::{byte_len, utf16_len, utf8_width, utf16_width, lemma_byte_len_concat, lemma_utf16_len_concat, char_utf8_len, char_utf16_len};

verus! {

/// Byte offset of character position `k` in `s`.
pub open spec fn offset_of(s: Seq<char>, k: int) -> nat {
    byte_len(s.take(k))
}

/// `b` is the byte offset of some character position of `s` (a char boundary).
pub open spec fn is_boundary(s: Seq<char>, b: int) -> bool {
    exists|k: int| 0 <= k <= s.len() && #[trigger] offset_of(s, k) == b
}

/// The first character position of `s` whose byte offset is at least `b`,
/// or the end of `s`.
pub open spec fn index_at(s: Seq<char>, b: int) -> int
    decreases s.len(),
{
    if s.len() == 0 || b <= 0 {
        0
    } else {
        1 + index_at(s.drop_first(), b - utf8_width(s[0]))
    }
}

/// The first character position of `s` whose UTF-16 offset is at least `u`,
/// or the end of `s`.
pub open spec fn index_at_utf16(s: Seq<char>, u: int) -> int
    decreases s.len(),
{
    if s.len() == 0 || u <= 0 {
        0
    } else {
        1 + index_at_utf16(s.drop_first(), u - utf16_width(s[0]))
    }
}

/// The byte offset that a UTF-16 offset falls on: that of the first
/// character position at or past it (the end of the text past the end).
pub open spec fn utf16_to_offset(s: Seq<char>, u: int) -> nat {
    offset_of(s, index_at_utf16(s, u))
}

/// The UTF-16 offset of a byte offset: that of the first character position
/// at or past it (the end of the text past the end).
pub open spec fn offset_to_utf16(s: Seq<char>, b: int) -> nat {
    utf16_len(s.take(index_at(s, b)))
}

/// The text of `s` before byte offset `b`.
pub open spec fn text_before(s: Seq<char>, b: int) -> Seq<char> {
    s.take(index_at(s, b))
}

/// The text of `s` from byte offset `b` on.
pub open spec fn text_from(s: Seq<char>, b: int) -> Seq<char> {
    s.skip(index_at(s, b))
}

pub proof fn lemma_byte_len_single(c: char)
    ensures
        byte_len(seq![c]) == utf8_width(c),
{
    reveal_with_fuel(byte_len, 2);
    reveal_with_fuel(utf16_len, 2);
    assert(seq![c].drop_last() =~= Seq::<char>::empty());
}

pub proof fn lemma_utf16_len_single(c: char)
    ensures
        utf16_len(seq![c]) == utf16_width(c),
{
    reveal_with_fuel(byte_len, 2);
    reveal_with_fuel(utf16_len, 2);
    assert(seq![c].drop_last() =~= Seq::<char>::empty());
}

/// Splitting off the first character of a prefix.
pub proof fn lemma_offset_front(s: Seq<char>, k: int)
    requires
        1 <= k <= s.len(),
    ensures
        offset_of(s, k) == utf8_width(s[0]) + offset_of(s.drop_first(), k - 1),
        utf16_len(s.take(k)) == utf16_width(s[0]) + utf16_len(s.drop_first().take(k - 1)),
{
    assert(s.take(k) =~= seq![s[0]] + s.drop_first().take(k - 1));
    lemma_byte_len_concat(seq![s[0]], s.drop_first().take(k - 1));
    lemma_utf16_len_concat(seq![s[0]], s.drop_first().take(k - 1));
    lemma_byte_len_single(s[0]);
    lemma_utf16_len_single(s[0]);
}

/// Extending a prefix by one character.
pub proof fn lemma_offset_step(s: Seq<char>, k: int)
    requires
        0 <= k < s.len(),
    ensures
        offset_of(s, k + 1) == offset_of(s, k) + utf8_width(s[k]),
        utf16_len(s.take(k + 1)) == utf16_len(s.take(k)) + utf16_width(s[k]),
{
    assert(s.take(k + 1) =~= s.take(k) + seq![s[k]]);
    lemma_byte_len_concat(s.take(k), seq![s[k]]);
    lemma_utf16_len_concat(s.take(k), seq![s[k]]);
    lemma_byte_len_single(s[k]);
    lemma_utf16_len_single(s[k]);
}

/// Byte offsets grow strictly with the character position.
pub proof fn lemma_offset_strictly_increasing(s: Seq<char>, j: int, k: int)
    requires
        0 <= j < k <= s.len(),
    ensures
        offset_of(s, j) < offset_of(s, k),
        utf16_len(s.take(j)) < utf16_len(s.take(k)),
    decreases k - j,
{
    lemma_offset_step(s, k - 1);
    if j < k - 1 {
        lemma_offset_strictly_increasing(s, j, k - 1);
    }
}

pub proof fn lemma_offset_monotone(s: Seq<char>, j: int, k: int)
    requires
        0 <= j <= k <= s.len(),
    ensures
        offset_of(s, j) <= offset_of(s, k),
        utf16_len(s.take(j)) <= utf16_len(s.take(k)),
{
    if j < k {
        lemma_offset_strictly_increasing(s, j, k);
    }
}

pub proof fn lemma_offset_end(s: Seq<char>)
    ensures
        offset_of(s, s.len() as int) == byte_len(s),
{
    assert(s.take(s.len() as int) =~= s);
}

/// A character boundary is the offset of exactly the position `index_at` finds.
pub proof fn lemma_index_at_offset(s: Seq<char>, k: int)
    requires
        0 <= k <= s.len(),
    ensures
        index_at(s, offset_of(s, k) as int) == k,
    decreases k,
{
    if k == 0 {
        assert(s.take(0) =~= Seq::<char>::empty());
    } else {
        lemma_offset_front(s, k);
        lemma_index_at_offset(s.drop_first(), k - 1);
    }
}

/// The position that `index_at_utf16` finds for the UTF-16 offset of a position.
pub proof fn lemma_index_at_utf16_offset(s: Seq<char>, k: int)
    requires
        0 <= k <= s.len(),
    ensures
        index_at_utf16(s, utf16_len(s.take(k)) as int) == k,
    decreases k,
{
    if k == 0 {
        assert(s.take(0) =~= Seq::<char>::empty());
    } else {
        lemma_offset_front(s, k);
        lemma_index_at_utf16_offset(s.drop_first(), k - 1);
    }
}

pub proof fn lemma_index_at_bounds(s: Seq<char>, b: int)
    ensures
        0 <= index_at(s, b) <= s.len(),
    decreases s.len(),
{
    if s.len() > 0 && b > 0 {
        lemma_index_at_bounds(s.drop_first(), b - utf8_width(s[0]));
    }
}

pub proof fn lemma_index_at_utf16_bounds(s: Seq<char>, u: int)
    ensures
        0 <= index_at_utf16(s, u) <= s.len(),
    decreases s.len(),
{
    if s.len() > 0 && u > 0 {
        lemma_index_at_utf16_bounds(s.drop_first(), u - utf16_width(s[0]));
    }
}

/// `index_at` is monotone in the offset.
pub proof fn lemma_index_at_monotone(s: Seq<char>, a: int, b: int)
    requires
        a <= b,
    ensures
        index_at(s, a) <= index_at(s, b),
    decreases s.len(),
{
    if s.len() > 0 && a > 0 {
        lemma_index_at_monotone(s.drop_first(), a - utf8_width(s[0]), b - utf8_width(s[0]));
    } else if s.len() > 0 && b > 0 {
        lemma_index_at_bounds(s.drop_first(), b - utf8_width(s[0]));
    }
}

/// UTF-16 offsets never exceed byte offsets.
pub proof fn lemma_utf16_len_le_byte_len(s: Seq<char>)
    ensures
        utf16_len(s) <= byte_len(s),
    decreases s.len(),
{
    if s.len() > 0 {
        lemma_utf16_len_le_byte_len(s.drop_last());
    }
}

/// The byte length of a string, as `str::len` reports it.
pub proof fn lemma_encode_len(s: Seq<char>)
    ensures
        vstd::utf8::encode_utf8(s).len() == byte_len(s),
    decreases s.len(),
{
    if s.len() > 0 {
        lemma_encode_len(s.drop_first());
        lemma_offset_front(s, s.len() as int);
        assert(s.take(s.len() as int) =~= s);
        assert(s.drop_first().take(s.len() - 1) =~= s.drop_first());
        let c = s[0];
        vstd::utf8::char_is_scalar(c);
    }
}

/// `str::len`: the byte length of `s`.
pub fn str_byte_len(s: &str) -> (n: usize)
    ensures
        n == byte_len(s@),
{
    let b = s.as_bytes();
    proof {
        lemma_encode_len(s@);
    }
    b.len()
}

/// The first position whose byte offset reaches `b` (see `index_at`).
pub fn index_at_offset(cs: &Vec<char>, b: usize) -> (k: usize)
    requires
        byte_len(cs@) <= usize::MAX,
    ensures
        k == index_at(cs@, b as int),
        k <= cs@.len(),
{
    let mut i: usize = 0;
    let mut acc: usize = 0;
    proof {
        assert(cs@.skip(0) =~= cs@);
        assert(cs@.take(0) =~= Seq::<char>::empty());
    }
    while i < cs.len() && acc < b
        invariant
            i <= cs@.len(),
            byte_len(cs@) <= usize::MAX,
            acc == offset_of(cs@, i as int),
            index_at(cs@, b as int) == i + index_at(cs@.skip(i as int), b - acc),
        decreases cs.len() - i,
    {
        proof {
            lemma_offset_step(cs@, i as int);
            lemma_offset_monotone(cs@, i + 1, cs@.len() as int);
            lemma_offset_end(cs@);
            assert(cs@.skip(i as int).drop_first() =~= cs@.skip(i + 1));
            assert(cs@.skip(i as int)[0] == cs@[i as int]);
        }
        acc = acc + char_utf8_len(cs[i]);
        i = i + 1;
    }
    i
}

/// `offset_from_utf16`: the byte offset that UTF-16 offset `u` falls on.
pub fn offset_from_utf16_in(cs: &Vec<char>, u: usize) -> (b: usize)
    requires
        byte_len(cs@) <= usize::MAX,
    ensures
        b == utf16_to_offset(cs@, u as int),
{
    let mut i: usize = 0;
    let mut utf8_offset: usize = 0;
    let mut utf16_count: usize = 0;
    proof {
        assert(cs@.skip(0) =~= cs@);
        assert(cs@.take(0) =~= Seq::<char>::empty());
    }
    while i < cs.len() && utf16_count < u
        invariant
            i <= cs@.len(),
            byte_len(cs@) <= usize::MAX,
            utf8_offset == offset_of(cs@, i as int),
            utf16_count == utf16_len(cs@.take(i as int)),
            index_at_utf16(cs@, u as int) == i + index_at_utf16(
                cs@.skip(i as int),
                u - utf16_count,
            ),
        decreases cs.len() - i,
    {
        proof {
            lemma_offset_step(cs@, i as int);
            lemma_offset_monotone(cs@, i + 1, cs@.len() as int);
            lemma_offset_end(cs@);
            lemma_utf16_len_le_byte_len(cs@.take(i + 1));
            assert(cs@.skip(i as int).drop_first() =~= cs@.skip(i + 1));
            assert(cs@.skip(i as int)[0] == cs@[i as int]);
        }
        utf16_count = utf16_count + char_utf16_len(cs[i]);
        utf8_offset = utf8_offset + char_utf8_len(cs[i]);
        i = i + 1;
    }
    utf8_offset
}

/// `offset_to_utf16`: the UTF-16 offset of byte offset `b`.
pub fn offset_to_utf16_in(cs: &Vec<char>, b: usize) -> (u: usize)
    requires
        byte_len(cs@) <= usize::MAX,
    ensures
        u == offset_to_utf16(cs@, b as int),
{
    let mut i: usize = 0;
    let mut utf16_offset: usize = 0;
    let mut utf8_count: usize = 0;
    proof {
        assert(cs@.skip(0) =~= cs@);
        assert(cs@.take(0) =~= Seq::<char>::empty());
    }
    while i < cs.len() && utf8_count < b
        invariant
            i <= cs@.len(),
            byte_len(cs@) <= usize::MAX,
            utf8_count == offset_of(cs@, i as int),
            utf16_offset == utf16_len(cs@.take(i as int)),
            index_at(cs@, b as int) == i + index_at(cs@.skip(i as int), b - utf8_count),
        decreases cs.len() - i,
    {
        proof {
            lemma_offset_step(cs@, i as int);
            lemma_offset_monotone(cs@, i + 1, cs@.len() as int);
            lemma_offset_end(cs@);
            lemma_utf16_len_le_byte_len(cs@.take(i + 1));
            assert(cs@.skip(i as int).drop_first() =~= cs@.skip(i + 1));
            assert(cs@.skip(i as int)[0] == cs@[i as int]);
        }
        utf8_count = utf8_count + char_utf8_len(cs[i]);
        utf16_offset = utf16_offset + char_utf16_len(cs[i]);
        i = i + 1;
    }
    utf16_offset
}

/// The byte offset of character position `k`.
pub fn offset_of_index(cs: &Vec<char>, k: usize) -> (b: usize)
    requires
        k <= cs@.len(),
        byte_len(cs@) <= usize::MAX,
    ensures
        b == offset_of(cs@, k as int),
{
    let mut i: usize = 0;
    let mut acc: usize = 0;
    proof {
        assert(cs@.take(0) =~= Seq::<char>::empty());
    }
    while i < k
        invariant
            i <= k <= cs@.len(),
            byte_len(cs@) <= usize::MAX,
            acc == offset_of(cs@, i as int),
        decreases k - i,
    {
        proof {
            lemma_offset_step(cs@, i as int);
            lemma_offset_monotone(cs@, i + 1, cs@.len() as int);
            lemma_offset_end(cs@);
        }
        acc = acc + char_utf8_len(cs[i]);
        i = i + 1;
    }
    acc
}

} // verus!
