//! Character-level text helpers shared by the calculator and the notes code:
//! UTF-8/UTF-16 widths, Unicode white space, trimming and substring search,
//! all stated over the `Seq<char>` view of strings.
use vstd::prelude::*;

verus! {

/// Number of bytes that `c` takes in UTF-8.
pub open spec fn utf8_width(c: char) -> nat {
    let u = c as u32;
    if u < 0x80 {
        1
    } else if u < 0x800 {
        2
    } else if u < 0x10000 {
        3
    } else {
        4
    }
}

/// Number of UTF-16 code units that `c` takes.
pub open spec fn utf16_width(c: char) -> nat {
    if (c as u32) < 0x10000 {
        1
    } else {
        2
    }
}

/// Length in bytes of the UTF-8 encoding of `s`.
pub open spec fn byte_len(s: Seq<char>) -> nat
    decreases s.len(),
{
    if s.len() == 0 {
        0
    } else {
        byte_len(s.drop_last()) + utf8_width(s.last())
    }
}

/// Length in UTF-16 code units of `s`.
pub open spec fn utf16_len(s: Seq<char>) -> nat
    decreases s.len(),
{
    if s.len() == 0 {
        0
    } else {
        utf16_len(s.drop_last()) + utf16_width(s.last())
    }
}

/// The Unicode `White_Space` property, which `char::is_whitespace` tests.
pub open spec fn is_white_space(c: char) -> bool {
    let u = c as u32;
    ||| 9 <= u <= 13
    ||| u == 32
    ||| u == 0x85
    ||| u == 0xA0
    ||| u == 0x1680
    ||| 0x2000 <= u <= 0x200A
    ||| u == 0x2028
    ||| u == 0x2029
    ||| u == 0x202F
    ||| u == 0x205F
    ||| u == 0x3000
}

/// `s` without its leading white space.
pub open spec fn trim_start(s: Seq<char>) -> Seq<char>
    decreases s.len(),
{
    if s.len() > 0 && is_white_space(s[0]) {
        trim_start(s.drop_first())
    } else {
        s
    }
}

/// `s` without its trailing white space.
pub open spec fn trim_end(s: Seq<char>) -> Seq<char>
    decreases s.len(),
{
    if s.len() > 0 && is_white_space(s.last()) {
        trim_end(s.drop_last())
    } else {
        s
    }
}

/// `s` without leading and trailing white space, as `str::trim` gives it.
pub open spec fn trim(s: Seq<char>) -> Seq<char> {
    trim_end(trim_start(s))
}

/// `s` is empty or made of white space only.
pub open spec fn is_blank(s: Seq<char>) -> bool {
    trim(s).len() == 0
}

/// `needle` occurs in `hay` as a contiguous run.
pub open spec fn contains_seq(hay: Seq<char>, needle: Seq<char>) -> bool {
    exists|i: int| 0 <= i <= hay.len() - needle.len() && #[trigger] hay.subrange(i, i + needle.len()) == needle
}

/// Number of occurrences of `c` in `s`.
pub open spec fn count_char(s: Seq<char>, c: char) -> nat
    decreases s.len(),
{
    if s.len() == 0 {
        0
    } else {
        count_char(s.drop_last(), c) + if s.last() == c { 1nat } else { 0nat }
    }
}

pub proof fn lemma_byte_len_push(s: Seq<char>, c: char)
    ensures
        byte_len(s.push(c)) == byte_len(s) + utf8_width(c),
{
    assert(s.push(c).drop_last() =~= s);
}

pub proof fn lemma_byte_len_concat(a: Seq<char>, b: Seq<char>)
    ensures
        byte_len(a + b) == byte_len(a) + byte_len(b),
    decreases b.len(),
{
    if b.len() == 0 {
        assert(a + b =~= a);
    } else {
        assert((a + b).drop_last() =~= a + b.drop_last());
        lemma_byte_len_concat(a, b.drop_last());
    }
}

pub proof fn lemma_utf16_len_concat(a: Seq<char>, b: Seq<char>)
    ensures
        utf16_len(a + b) == utf16_len(a) + utf16_len(b),
    decreases b.len(),
{
    if b.len() == 0 {
        assert(a + b =~= a);
    } else {
        assert((a + b).drop_last() =~= a + b.drop_last());
        lemma_utf16_len_concat(a, b.drop_last());
    }
}

pub proof fn lemma_byte_len_ge_len(s: Seq<char>)
    ensures
        byte_len(s) >= s.len(),
    decreases s.len(),
{
    if s.len() > 0 {
        lemma_byte_len_ge_len(s.drop_last());
    }
}

pub proof fn lemma_count_char_push(s: Seq<char>, d: char, c: char)
    ensures
        count_char(s.push(d), c) == count_char(s, c) + if d == c { 1nat } else { 0nat },
{
    assert(s.push(d).drop_last() =~= s);
}

pub proof fn lemma_count_char_zero(s: Seq<char>, c: char)
    ensures
        count_char(s, c) == 0 <==> !s.contains(c),
    decreases s.len(),
{
    if s.len() > 0 {
        lemma_count_char_zero(s.drop_last(), c);
        if s.drop_last().contains(c) {
            let i = choose|i: int| 0 <= i < s.drop_last().len() && s.drop_last()[i] == c;
            assert(s[i] == c);
        }
        if s.contains(c) && s.last() != c {
            let i = choose|i: int| 0 <= i < s.len() && s[i] == c;
            assert(s.drop_last()[i] == c);
        }
    }
}

proof fn lemma_trim_start_skip(s: Seq<char>, i: int)
    requires
        0 <= i <= s.len(),
        forall|k: int| 0 <= k < i ==> is_white_space(#[trigger] s[k]),
        i == s.len() || !is_white_space(s[i]),
    ensures
        trim_start(s) == s.subrange(i, s.len() as int),
    decreases i,
{
    if i == 0 {
        assert(s.subrange(0, s.len() as int) =~= s);
    } else {
        let t = s.drop_first();
        assert forall|k: int| 0 <= k < i - 1 implies is_white_space(#[trigger] t[k]) by {
            assert(t[k] == s[k + 1]);
        }
        lemma_trim_start_skip(t, i - 1);
        assert(t.subrange(i - 1, t.len() as int) =~= s.subrange(i, s.len() as int));
    }
}

proof fn lemma_trim_end_skip(s: Seq<char>, j: int)
    requires
        0 <= j <= s.len(),
        forall|k: int| j <= k < s.len() ==> is_white_space(#[trigger] s[k]),
        j == 0 || !is_white_space(s[j - 1]),
    ensures
        trim_end(s) == s.subrange(0, j),
    decreases s.len() - j,
{
    if j == s.len() {
        assert(s.subrange(0, j) =~= s);
    } else {
        let t = s.drop_last();
        lemma_trim_end_skip(t, j);
        assert(t.subrange(0, j) =~= s.subrange(0, j));
    }
}

/// The position of the first non-white-space character of `s` at or after
/// `from`, or the length of `s`.
proof fn first_word_char(s: Seq<char>, from: int) -> (i: int)
    requires
        0 <= from <= s.len(),
    ensures
        from <= i <= s.len(),
        forall|k: int| from <= k < i ==> is_white_space(#[trigger] s[k]),
        i == s.len() || !is_white_space(s[i]),
    decreases s.len() - from,
{
    if from == s.len() || !is_white_space(s[from]) {
        from
    } else {
        first_word_char(s, from + 1)
    }
}

/// One past the position of the last non-white-space character of `s`
/// before `upto`, or `lo` when there is none at or after `lo`.
proof fn last_word_end(s: Seq<char>, lo: int, upto: int) -> (j: int)
    requires
        0 <= lo <= upto <= s.len(),
    ensures
        lo <= j <= upto,
        forall|k: int| j <= k < upto ==> is_white_space(#[trigger] s[k]),
        j == lo || !is_white_space(s[j - 1]),
    decreases upto - lo,
{
    if upto == lo || !is_white_space(s[upto - 1]) {
        upto
    } else {
        last_word_end(s, lo, upto - 1)
    }
}

/// Trimming keeps the inner text: `trim(s)` is the run of `s` from its first
/// to its last non-white-space character, everything outside that run is
/// white space, and the run starts and ends with a non-white-space character.
pub proof fn lemma_trim_is_inner_text(s: Seq<char>)
    ensures
        exists|i: int, j: int|
            0 <= i <= j <= s.len() && trim(s) == s.subrange(i, j) && (forall|k: int|
                0 <= k < i ==> is_white_space(#[trigger] s[k])) && (forall|k: int|
                j <= k < s.len() ==> is_white_space(#[trigger] s[k])) && (i < j ==> !is_white_space(s[i])
                && !is_white_space(s[j - 1])),
{
    let i = first_word_char(s, 0);
    lemma_trim_start_skip(s, i);
    let j = last_word_end(s, i, s.len() as int);
    let t = s.subrange(i, s.len() as int);
    assert forall|k: int| j - i <= k < t.len() implies is_white_space(#[trigger] t[k]) by {
        assert(t[k] == s[k + i]);
    }
    if j > i {
        assert(t[j - i - 1] == s[j - 1]);
    }
    lemma_trim_end_skip(t, j - i);
    assert(t.subrange(0, j - i) =~= s.subrange(i, j));
    if i < j && is_white_space(s[i]) {
        assert(false);
    }
    assert(trim(s) == s.subrange(i, j));
}

/// A text is blank exactly when all its characters are white space.
pub proof fn lemma_blank_is_all_white_space(s: Seq<char>)
    ensures
        is_blank(s) <==> forall|k: int| 0 <= k < s.len() ==> is_white_space(#[trigger] s[k]),
{
    let i = first_word_char(s, 0);
    lemma_trim_start_skip(s, i);
    let j = last_word_end(s, i, s.len() as int);
    let t = s.subrange(i, s.len() as int);
    assert forall|k: int| j - i <= k < t.len() implies is_white_space(#[trigger] t[k]) by {
        assert(t[k] == s[k + i]);
    }
    if j > i {
        assert(t[j - i - 1] == s[j - 1]);
    }
    lemma_trim_end_skip(t, j - i);
    if i < s.len() {
        if i < j {
            assert(trim(s).len() > 0);
        } else {
            assert(!is_white_space(s[i]));
            assert(is_white_space(s[i]));
        }
    }
}

proof fn lemma_trim_start_after_space(w: Seq<char>, x: Seq<char>)
    requires
        forall|k: int| 0 <= k < w.len() ==> is_white_space(#[trigger] w[k]),
    ensures
        trim_start(w + x) == trim_start(x),
    decreases w.len(),
{
    if w.len() == 0 {
        assert(w + x =~= x);
    } else {
        assert((w + x).drop_first() =~= w.drop_first() + x);
        assert((w + x)[0] == w[0]);
        assert forall|k: int| 0 <= k < w.drop_first().len() implies is_white_space(#[trigger] w.drop_first()[k]) by {
            assert(w.drop_first()[k] == w[k + 1]);
        }
        lemma_trim_start_after_space(w.drop_first(), x);
    }
}

proof fn lemma_trim_end_before_space(x: Seq<char>, w: Seq<char>)
    requires
        forall|k: int| 0 <= k < w.len() ==> is_white_space(#[trigger] w[k]),
    ensures
        trim_end(x + w) == trim_end(x),
    decreases w.len(),
{
    if w.len() == 0 {
        assert(x + w =~= x);
    } else {
        assert((x + w).drop_last() =~= x + w.drop_last());
        assert((x + w).last() == w[w.len() - 1]);
        assert forall|k: int| 0 <= k < w.drop_last().len() implies is_white_space(#[trigger] w.drop_last()[k]) by {
            assert(w.drop_last()[k] == w[k]);
        }
        lemma_trim_end_before_space(x, w.drop_last());
    }
}

proof fn lemma_trim_start_keeps_tail(q: Seq<char>, w: Seq<char>)
    requires
        exists|k: int| 0 <= k < q.len() && !is_white_space(#[trigger] q[k]),
    ensures
        trim_start(q + w) == trim_start(q) + w,
    decreases q.len(),
{
    assert((q + w)[0] == q[0]);
    if is_white_space(q[0]) {
        let k = choose|k: int| 0 <= k < q.len() && !is_white_space(#[trigger] q[k]);
        assert(q.drop_first()[k - 1] == q[k]);
        assert((q + w).drop_first() =~= q.drop_first() + w);
        lemma_trim_start_keeps_tail(q.drop_first(), w);
    }
}

/// White space around a text does not change what trimming it gives.
pub proof fn lemma_trim_ignores_outer_space(w1: Seq<char>, q: Seq<char>, w2: Seq<char>)
    requires
        forall|k: int| 0 <= k < w1.len() ==> is_white_space(#[trigger] w1[k]),
        forall|k: int| 0 <= k < w2.len() ==> is_white_space(#[trigger] w2[k]),
    ensures
        trim(w1 + q + w2) == trim(q),
{
    assert(w1 + q + w2 =~= w1 + (q + w2));
    lemma_trim_start_after_space(w1, q + w2);
    if exists|k: int| 0 <= k < q.len() && !is_white_space(#[trigger] q[k]) {
        lemma_trim_start_keeps_tail(q, w2);
        lemma_trim_end_before_space(trim_start(q), w2);
    } else {
        lemma_trim_start_after_space(q, w2);
        lemma_trim_start_after_space(q, Seq::<char>::empty());
        lemma_trim_start_after_space(w2, Seq::<char>::empty());
        assert(q + Seq::<char>::empty() =~= q);
        assert(w2 + Seq::<char>::empty() =~= w2);
    }
}

/// Collects the characters of `s` into a vector.
pub fn chars_of(s: &str) -> (v: Vec<char>)
    ensures
        v@ == s@,
{
    let mut v: Vec<char> = Vec::new();
    for c in it: s.chars()
        invariant
            v@ == it.seq().take(it.index() as int),
            it.seq() == s@,
    {
        v.push(c);
    }
    v
}

/// Builds a string from a run of characters (`FromIterator<char>` for `String`).
#[verifier::external_body]
pub fn string_from_chars(v: &[char]) -> (s: String)
    ensures
        s@ == v@,
{
    v.iter().collect()
}

/// An owned copy of `s` (`str::to_string`).
pub fn string_of(s: &str) -> (r: String)
    ensures
        r@ == s@,
{
    s.to_owned()
}

/// `String::push`.
#[verifier::external_body]
pub fn push_char(s: &mut String, c: char)
    ensures
        final(s)@ == old(s)@.push(c),
{
    s.push(c);
}

/// Whether two runs of characters are equal.
pub fn same_chars(a: &[char], b: &[char]) -> (r: bool)
    ensures
        r == (a@ == b@),
{
    if a.len() != b.len() {
        return false;
    }
    let mut i: usize = 0;
    while i < a.len()
        invariant
            i <= a@.len(),
            a@.len() == b@.len(),
            forall|k: int| 0 <= k < i ==> a@[k] == b@[k],
        decreases a.len() - i,
    {
        if a[i] != b[i] {
            return false;
        }
        i = i + 1;
    }
    assert(a@ =~= b@);
    true
}

/// Appends the characters of `s` to `v`.
pub fn extend_chars(v: &mut Vec<char>, s: &[char])
    ensures
        final(v)@ == old(v)@ + s@,
{
    let mut i: usize = 0;
    while i < s.len()
        invariant
            i <= s@.len(),
            v@ == old(v)@ + s@.take(i as int),
        decreases s.len() - i,
    {
        v.push(s[i]);
        i = i + 1;
        assert(v@ =~= old(v)@ + s@.take(i as int));
    }
    assert(s@.take(i as int) =~= s@);
}

/// Appends `cs[from..to]` to `out`.
pub fn extend_from_range(out: &mut Vec<char>, cs: &Vec<char>, from: usize, to: usize)
    requires
        from <= to <= cs@.len(),
    ensures
        final(out)@ == old(out)@ + cs@.subrange(from as int, to as int),
{
    let mut i: usize = from;
    while i < to
        invariant
            from <= i <= to <= cs@.len(),
            out@ == old(out)@ + cs@.subrange(from as int, i as int),
        decreases to - i,
    {
        out.push(cs[i]);
        i = i + 1;
        assert(out@ =~= old(out)@ + cs@.subrange(from as int, i as int));
    }
}

/// `char::len_utf8`.
pub fn char_utf8_len(c: char) -> (n: usize)
    ensures
        n == utf8_width(c),
{
    let u = c as u32;
    if u < 0x80 {
        1
    } else if u < 0x800 {
        2
    } else if u < 0x10000 {
        3
    } else {
        4
    }
}

/// `char::len_utf16`.
pub fn char_utf16_len(c: char) -> (n: usize)
    ensures
        n == utf16_width(c),
{
    if (c as u32) < 0x10000 {
        1
    } else {
        2
    }
}

/// `char::is_whitespace`.
pub fn is_whitespace(c: char) -> (b: bool)
    ensures
        b == is_white_space(c),
{
    let u = c as u32;
    (9 <= u && u <= 13) || u == 32 || u == 0x85 || u == 0xA0 || u == 0x1680 || (0x2000 <= u && u
        <= 0x200A) || u == 0x2028 || u == 0x2029 || u == 0x202F || u == 0x205F || u == 0x3000
}

/// The characters of `v` without leading and trailing white space.
pub fn trim_chars(v: &[char]) -> (r: Vec<char>)
    ensures
        r@ == trim(v@),
{
    let n = v.len();
    let mut i: usize = 0;
    while i < n && is_whitespace(v[i])
        invariant
            i <= n,
            n == v@.len(),
            forall|k: int| 0 <= k < i ==> is_white_space(#[trigger] v@[k]),
        decreases n - i,
    {
        i = i + 1;
    }
    proof {
        lemma_trim_start_skip(v@, i as int);
    }
    let ghost t = v@.subrange(i as int, n as int);
    let mut j: usize = n;
    while j > i && is_whitespace(v[j - 1])
        invariant
            i <= j <= n,
            n == v@.len(),
            t == v@.subrange(i as int, n as int),
            forall|k: int| j <= k < n ==> is_white_space(#[trigger] v@[k]),
        decreases j - i,
    {
        j = j - 1;
    }
    proof {
        assert forall|k: int| j - i <= k < t.len() implies is_white_space(#[trigger] t[k]) by {
            assert(t[k] == v@[k + i]);
        }
        lemma_trim_end_skip(t, j - i);
        assert(t.subrange(0, j - i) =~= v@.subrange(i as int, j as int));
    }
    let mut r: Vec<char> = Vec::new();
    let mut k: usize = i;
    while k < j
        invariant
            i <= k <= j <= n,
            n == v@.len(),
            r@ == v@.subrange(i as int, k as int),
        decreases j - k,
    {
        r.push(v[k]);
        k = k + 1;
        assert(r@ =~= v@.subrange(i as int, k as int));
    }
    r
}

/// `str::trim`, as an owned string.
pub fn trim_str(s: &str) -> (r: String)
    ensures
        r@ == trim(s@),
{
    let v = chars_of(s);
    let t = trim_chars(v.as_slice());
    string_from_chars(t.as_slice())
}

/// Whether `needle` occurs in `hay` (`str::contains` with a string pattern).
pub fn contains_chars(hay: &[char], needle: &[char]) -> (b: bool)
    ensures
        b == contains_seq(hay@, needle@),
{
    if needle.len() > hay.len() {
        return false;
    }
    let last = hay.len() - needle.len();
    let mut i: usize = 0;
    while i <= last
        invariant
            i <= last,
            last == hay@.len() - needle@.len(),
            forall|p: int|
                0 <= p < i ==> #[trigger] hay@.subrange(p, p + needle@.len()) != needle@,
        decreases last + 1 - i,
    {
        let mut k: usize = 0;
        let mut same = true;
        while k < needle.len()
            invariant
                i <= last,
                needle@.len() <= hay@.len(),
                last == hay@.len() - needle@.len(),
                k <= needle@.len(),
                same == (forall|q: int| 0 <= q < k ==> hay@[i + q] == needle@[q]),
            decreases needle.len() - k,
        {
            assert(i + k < hay@.len());
            assert(hay@.len() == hay.len());
            if hay[i + k] != needle[k] {
                same = false;
            }
            k = k + 1;
        }
        if same {
            assert(hay@.subrange(i as int, i + needle@.len()) =~= needle@);
            return true;
        }
        assert(hay@.subrange(i as int, i + needle@.len()) != needle@) by {
            let q = choose|q: int| 0 <= q < needle@.len() && hay@[i + q] != needle@[q];
            assert(hay@.subrange(i as int, i + needle@.len())[q] == hay@[i + q]);
        }
        if i == last {
            return false;
        }
        i = i + 1;
    }
    false
}

/// Whether `c` occurs in `v`.
pub fn contains_char(v: &[char], c: char) -> (b: bool)
    ensures
        b == v@.contains(c),
{
    let mut i: usize = 0;
    while i < v.len()
        invariant
            i <= v.len(),
            forall|k: int| 0 <= k < i ==> v@[k] != c,
        decreases v.len() - i,
    {
        if v[i] == c {
            return true;
        }
        i = i + 1;
    }
    false
}

} // verus!
