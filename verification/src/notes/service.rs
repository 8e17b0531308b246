//! Note-taking rules over a repository: text validation, creation at a
//! given time, updates that keep the creation time, and keyword search.
use vstd::prelude::*;
use crate::notes::model::Note;
use chrono::NaiveDateTime;
use crate::notes::repository::{NoteRepository, lists_by_id, every_note};
use crate::text::{
    chars_of, contains_chars, contains_seq, extend_chars, string_from_chars, trim, trim_str,
    is_blank,
};

verus! {

/// The Unicode lowercase mapping of a string, as `str::to_lowercase` gives it.
pub uninterp spec fn lowercase(s: Seq<char>) -> Seq<char>;

/// Calls `str::to_lowercase`. Its result (full Unicode case mapping) is named
/// `lowercase`, not spelled out.
#[verifier::external_body]
pub fn to_lowercase(s: &str) -> (r: String)
    ensures
        r@ == lowercase(s@),
{
    s.to_lowercase()
}

/// The decimal digit for `d < 10`.
pub open spec fn digit_char(d: nat) -> char {
    if d == 0 {
        '0'
    } else if d == 1 {
        '1'
    } else if d == 2 {
        '2'
    } else if d == 3 {
        '3'
    } else if d == 4 {
        '4'
    } else if d == 5 {
        '5'
    } else if d == 6 {
        '6'
    } else if d == 7 {
        '7'
    } else if d == 8 {
        '8'
    } else {
        '9'
    }
}

/// The decimal text of `n`, as `Display` writes an unsigned integer.
pub open spec fn decimal(n: nat) -> Seq<char>
    decreases n,
{
    if n < 10 {
        seq![digit_char(n)]
    } else {
        decimal(n / 10).push(digit_char(n % 10))
    }
}

/// The number that a run of decimal digits spells.
pub open spec fn decimal_value(s: Seq<char>) -> int
    decreases s.len(),
{
    if s.len() == 0 {
        0
    } else {
        decimal_value(s.drop_last()) * 10 + (s.last() as int - '0' as int)
    }
}

/// `decimal(n)` is the usual decimal numeral of `n`: digits only, no leading
/// zero (but for `0` itself), spelling `n`.
pub proof fn lemma_decimal_spells_the_number(n: nat)
    ensures
        decimal(n).len() > 0,
        forall|i: int| 0 <= i < decimal(n).len() ==> '0' <= #[trigger] decimal(n)[i] <= '9',
        decimal(n).len() > 1 ==> decimal(n)[0] != '0',
        n == 0 <==> decimal(n) == seq!['0'],
        decimal_value(decimal(n)) == n,
    decreases n,
{
    if n < 10 {
        assert(decimal(n).drop_last() =~= Seq::<char>::empty());
        assert(decimal(n) == seq![digit_char(n)]);
        assert(decimal_value(decimal(n).drop_last()) == 0);
        assert(digit_char(n) as int - '0' as int == n);
        if decimal(n) == seq!['0'] {
            assert(decimal(n)[0] == '0');
            assert(digit_char(n) == '0');
        }
    } else {
        let m = n / 10;
        lemma_decimal_spells_the_number(m);
        let d = decimal(n);
        assert(d.drop_last() =~= decimal(m));
        assert forall|i: int| 0 <= i < d.len() implies '0' <= #[trigger] d[i] <= '9' by {
            if i < d.len() - 1 {
                assert(d[i] == decimal(m)[i]);
            }
        }
        assert(d[0] == decimal(m)[0]);
        assert(m > 0);
        if decimal(m).len() == 1 && decimal(m)[0] == '0' {
            assert(decimal(m) =~= seq!['0']);
        }
        assert(d.len() > 1);
        assert(decimal_value(d) == decimal_value(decimal(m)) * 10 + (n % 10)) by {
            assert(digit_char(n % 10) as int - '0' as int == n % 10);
        }
        assert(m * 10 + n % 10 == n) by (nonlinear_arith)
            requires
                m == n / 10,
        ;
        assert(d != seq!['0']) by {
            if d == seq!['0'] {
                assert(d.len() == 1);
            }
        }
    }
}

fn digit_of(d: u64) -> (c: char)
    requires
        d < 10,
    ensures
        c == digit_char(d as nat),
{
    if d == 0 {
        '0'
    } else if d == 1 {
        '1'
    } else if d == 2 {
        '2'
    } else if d == 3 {
        '3'
    } else if d == 4 {
        '4'
    } else if d == 5 {
        '5'
    } else if d == 6 {
        '6'
    } else if d == 7 {
        '7'
    } else if d == 8 {
        '8'
    } else {
        '9'
    }
}

/// Appends the decimal text of `n` to `out`.
pub fn push_decimal(out: &mut Vec<char>, n: u64)
    ensures
        final(out)@ == old(out)@ + decimal(n as nat),
    decreases n,
{
    if n < 10 {
        out.push(digit_of(n));
        assert(decimal(n as nat) == seq![digit_char(n as nat)]);
        assert(final(out)@ =~= old(out)@ + decimal(n as nat)) by {
            assert(out@ =~= old(out)@ + seq![digit_char(n as nat)]);
        }
    } else {
        push_decimal(out, n / 10);
        out.push(digit_of(n % 10));
        assert(out@ =~= old(out)@ + decimal(n as nat));
    }
}

/// The message for a blank required field.
pub open spec fn blank_message(field_name: Seq<char>) -> Seq<char> {
    field_name + seq![' ', 'm', 'u', 's', 't', ' ', 'n', 'o', 't', ' ', 'b', 'e', ' ', 'b', 'l', 'a', 'n', 'k']
}

/// The message for an update of a note that does not exist.
pub open spec fn not_found_message(id: u64) -> Seq<char> {
    seq!['n', 'o', 't', 'e', ' '] + decimal(id as nat) + seq![' ', 'n', 'o', 't', ' ', 'f', 'o', 'u', 'n', 'd']
}

/// The query that a search uses: trimmed and lowercased.
pub open spec fn search_key(query: Seq<char>) -> Seq<char> {
    lowercase(trim(query))
}

/// Surrounding white space does not change a search: the key of a query
/// padded with white space is the key of the query.
pub proof fn lemma_search_key_ignores_outer_space(w1: Seq<char>, q: Seq<char>, w2: Seq<char>)
    requires
        forall|k: int| 0 <= k < w1.len() ==> crate::text::is_white_space(#[trigger] w1[k]),
        forall|k: int| 0 <= k < w2.len() ==> crate::text::is_white_space(#[trigger] w2[k]),
    ensures
        search_key(w1 + q + w2) == search_key(q),
{
    crate::text::lemma_trim_ignores_outer_space(w1, q, w2);
}

/// A note matches a (lowercased) query when its lowercased title or
/// lowercased body contains it.
pub open spec fn matches_query(q: Seq<char>) -> spec_fn(Note) -> bool {
    |n: Note| contains_seq(lowercase(n.title@), q) || contains_seq(lowercase(n.content@), q)
}

fn chars_lit(v: &[char]) -> (r: Vec<char>)
    ensures
        r@ == v@,
{
    let mut r: Vec<char> = Vec::new();
    extend_chars(&mut r, v);
    r
}

/// Rejects a value that is empty or white space only, naming the field.
pub fn validate_text(value: &str, field_name: &str) -> (r: Result<(), String>)
    ensures
        match r {
            Ok(()) => !is_blank(value@),
            Err(message) => is_blank(value@) && message@ == blank_message(field_name@),
        },
{
    let trimmed = trim_str(value);
    if trimmed.as_str().is_empty() {
        let mut msg = chars_of(field_name);
        let tail: &[char] = &[' ', 'm', 'u', 's', 't', ' ', 'n', 'o', 't', ' ', 'b', 'e', ' ', 'b', 'l', 'a', 'n', 'k'];
        assert(tail@ =~= seq![' ', 'm', 'u', 's', 't', ' ', 'n', 'o', 't', ' ', 'b', 'e', ' ', 'b', 'l', 'a', 'n', 'k']);
        extend_chars(&mut msg, tail);
        return Err(string_from_chars(msg.as_slice()));
    }
    Ok(())
}

fn not_found(id: u64) -> (message: String)
    ensures
        message@ == not_found_message(id),
{
    let head: &[char] = &['n', 'o', 't', 'e', ' '];
    assert(head@ =~= seq!['n', 'o', 't', 'e', ' ']);
    let mut msg = chars_lit(head);
    push_decimal(&mut msg, id);
    let tail: &[char] = &[' ', 'n', 'o', 't', ' ', 'f', 'o', 'u', 'n', 'd'];
    assert(tail@ =~= seq![' ', 'n', 'o', 't', ' ', 'f', 'o', 'u', 'n', 'd']);
    extend_chars(&mut msg, tail);
    string_from_chars(msg.as_slice())
}

/// The notes of `all` (listed by id) that satisfy `keep`, in the same order.
fn filter_matching(all: Vec<Note>, q: &Vec<char>, Ghost(m): Ghost<Map<u64, Note>>) -> (r: Vec<Note>)
    requires
        lists_by_id(all@, m, every_note()),
    ensures
        lists_by_id(r@, m, matches_query(q@)),
{
    let mut out: Vec<Note> = Vec::new();
    let mut i: usize = 0;
    while i < all.len()
        invariant
            i <= all@.len(),
            lists_by_id(all@, m, every_note()),
            forall|a: int, b: int| 0 <= a < b < out@.len() ==> out@[a].id < out@[b].id,
            forall|a: int|
                #![trigger out@[a]]
                0 <= a < out@.len() ==> exists|j: int| 0 <= j < i && #[trigger] all@[j] == out@[a],
            forall|a: int|
                0 <= a < out@.len() ==> #[trigger] matches_query(q@)(out@[a]),
            forall|j: int|
                0 <= j < i && #[trigger] matches_query(q@)(all@[j]) ==> exists|a: int|
                    0 <= a < out@.len() && out@[a] == all@[j],
        decreases all.len() - i,
    {
        let note = &all[i];
        let title = chars_of(to_lowercase(note.title.as_str()).as_str());
        let content = chars_of(to_lowercase(note.content.as_str()).as_str());
        let hit = contains_chars(title.as_slice(), q.as_slice()) || contains_chars(
            content.as_slice(),
            q.as_slice(),
        );
        let ghost before = out@;
        if hit {
            proof {
                assert forall|a: int| 0 <= a < before.len() implies before[a].id < all@[i as int].id by {
                    let j = choose|j: int| 0 <= j < i && #[trigger] all@[j] == before[a];
                    assert(all@[j].id < all@[i as int].id);
                }
            }
            out.push(note.clone());
            proof {
                assert(out@[before.len() as int] == all@[i as int]);
                assert forall|a: int| #![trigger out@[a]] 0 <= a < out@.len() implies exists|j: int|
                    0 <= j < i + 1 && #[trigger] all@[j] == out@[a] by {
                    if a < before.len() {
                        let j = choose|j: int| 0 <= j < i && #[trigger] all@[j] == before[a];
                        assert(all@[j] == out@[a]);
                    } else {
                        assert(all@[i as int] == out@[a]);
                    }
                }
                assert forall|j: int|
                    0 <= j < i + 1 && #[trigger] matches_query(q@)(all@[j]) implies exists|a: int|
                    0 <= a < out@.len() && out@[a] == all@[j] by {
                    if j < i {
                        let a = choose|a: int| 0 <= a < before.len() && before[a] == all@[j];
                        assert(out@[a] == all@[j]);
                    } else {
                        assert(out@[before.len() as int] == all@[j]);
                    }
                }
            }
        }
        i = i + 1;
    }
    proof {
        assert forall|a: int| 0 <= a < out@.len() implies {
            &&& m.dom().contains(#[trigger] out@[a].id)
            &&& m[out@[a].id] == out@[a]
            &&& matches_query(q@)(out@[a])
        } by {
            let j = choose|j: int| 0 <= j < all@.len() && #[trigger] all@[j] == out@[a];
            assert(m.dom().contains(all@[j].id));
        }
        assert forall|k: u64| m.dom().contains(k) && matches_query(q@)(m[k]) implies exists|a: int|
            0 <= a < out@.len() && #[trigger] out@[a].id == k by {
            assert(every_note()(m[k]));
            let j = choose|j: int| 0 <= j < all@.len() && #[trigger] all@[j].id == k;
            assert(m[all@[j].id] == all@[j]);
            assert(matches_query(q@)(all@[j]));
            let a = choose|a: int| 0 <= a < out@.len() && out@[a] == all@[j];
            assert(out@[a].id == k);
        }
    }
    out
}

/// Note operations over a repository `R`.
pub struct NoteService<R: NoteRepository> {
    note_repository: R,
}

impl<R: NoteRepository> NoteService<R> {
    /// The repository the service works on.
    pub closed spec fn repository(&self) -> R {
        self.note_repository
    }

    pub fn new(note_repository: R) -> (s: NoteService<R>)
        ensures
            s.repository() == note_repository,
    {
        NoteService { note_repository }
    }

    /// Creates a note with the trimmed title and body, created at
    /// `created_at` (the caller reads the local time); blank title or body is
    /// refused, the title first.
    pub fn create_note(&mut self, title: &str, content: &str, created_at: NaiveDateTime) -> (r: Result<Note, String>)
        requires
            !is_blank(title@) && !is_blank(content@) ==> old(self).repository().next_note_id() < u64::MAX,
        ensures
            is_blank(title@) ==> r is Err && r->Err_0@ == blank_message(seq!['t', 'i', 't', 'l', 'e']) && final(self).repository() == old(self).repository(),
            !is_blank(title@) && is_blank(content@) ==> r is Err && r->Err_0@ == blank_message(seq!['c', 'o', 'n', 't', 'e', 'n', 't']) && final(self).repository() == old(self).repository(),
            !is_blank(title@) && !is_blank(content@) ==> r is Ok && {
                let n = r->Ok_0;
                &&& n.id == old(self).repository().next_note_id()
                &&& n.title@ == trim(title@)
                &&& n.content@ == trim(content@)
                &&& n.created_at == created_at
                &&& final(self).repository().stored() == old(self).repository().stored().insert(n.id, n)
                &&& final(self).repository().next_note_id() == old(self).repository().next_note_id() + 1
            },
    {
        let title_field: &[char] = &['t', 'i', 't', 'l', 'e'];
        assert(title_field@ =~= seq!['t', 'i', 't', 'l', 'e']);
        let title_name = string_from_chars(title_field);
        match validate_text(title, title_name.as_str()) {
            Ok(()) => {},
            Err(message) => {
                return Err(message);
            },
        }
        let content_field: &[char] = &['c', 'o', 'n', 't', 'e', 'n', 't'];
        assert(content_field@ =~= seq!['c', 'o', 'n', 't', 'e', 'n', 't']);
        let content_name = string_from_chars(content_field);
        match validate_text(content, content_name.as_str()) {
            Ok(()) => {},
            Err(message) => {
                return Err(message);
            },
        }
        let t = trim_str(title);
        let c = trim_str(content);
        let note = Note::new(0, t.as_str(), c.as_str(), created_at);
        Ok(self.note_repository.save(note))
    }

    /// Replaces the title and body of the note with `id`, keeping its creation
    /// time; blank text is refused first, then a missing note.
    pub fn update_note(&mut self, id: u64, title: &str, content: &str) -> (r: Result<Note, String>)
        requires
            id == 0 && !is_blank(title@) && !is_blank(content@) && old(self).repository().stored().dom().contains(id)
                ==> old(self).repository().next_note_id() < u64::MAX,
        ensures
            is_blank(title@) ==> r is Err && r->Err_0@ == blank_message(seq!['t', 'i', 't', 'l', 'e']) && final(self).repository() == old(self).repository(),
            !is_blank(title@) && is_blank(content@) ==> r is Err && r->Err_0@ == blank_message(seq!['c', 'o', 'n', 't', 'e', 'n', 't']) && final(self).repository() == old(self).repository(),
            !is_blank(title@) && !is_blank(content@) && !old(self).repository().stored().dom().contains(id) ==> r is Err && r->Err_0@
                == not_found_message(id) && final(self).repository() == old(self).repository(),
            !is_blank(title@) && !is_blank(content@) && old(self).repository().stored().dom().contains(id) ==> r is Ok && {
                let n = r->Ok_0;
                let existing = old(self).repository().stored()[id];
                &&& n.id == (if id == 0 {
                    old(self).repository().next_note_id()
                } else {
                    id
                })
                &&& n.title@ == trim(title@)
                &&& n.content@ == trim(content@)
                &&& n.created_at == existing.created_at
                &&& final(self).repository().stored() == old(self).repository().stored().insert(n.id, n)
                &&& final(self).repository().next_note_id() == (if id == 0 {
                    old(self).repository().next_note_id() + 1
                } else {
                    old(self).repository().next_note_id() as int
                })
            },
    {
        let title_field: &[char] = &['t', 'i', 't', 'l', 'e'];
        assert(title_field@ =~= seq!['t', 'i', 't', 'l', 'e']);
        let title_name = string_from_chars(title_field);
        match validate_text(title, title_name.as_str()) {
            Ok(()) => {},
            Err(message) => {
                return Err(message);
            },
        }
        let content_field: &[char] = &['c', 'o', 'n', 't', 'e', 'n', 't'];
        assert(content_field@ =~= seq!['c', 'o', 'n', 't', 'e', 'n', 't']);
        let content_name = string_from_chars(content_field);
        match validate_text(content, content_name.as_str()) {
            Ok(()) => {},
            Err(message) => {
                return Err(message);
            },
        }
        let existing = match self.note_repository.find_by_id(id) {
            Some(note) => note,
            None => {
                return Err(not_found(id));
            },
        };
        let t = trim_str(title);
        let c = trim_str(content);
        let updated = Note::new(id, t.as_str(), c.as_str(), existing.created_at);
        Ok(self.note_repository.save(updated))
    }

    /// All notes, in increasing id order.
    pub fn get_all_notes(&self) -> (notes: Vec<Note>)
        ensures
            lists_by_id(notes@, self.repository().stored(), every_note()),
    {
        self.note_repository.find_all()
    }

    pub fn find_note_by_id(&self, id: u64) -> (found: Option<Note>)
        ensures
            found == (if self.repository().stored().dom().contains(id) {
                Some(self.repository().stored()[id])
            } else {
                None
            }),
    {
        self.note_repository.find_by_id(id)
    }

    /// The id that the next created note gets.
    pub fn next_id(&self) -> (id: u64)
        ensures
            id == self.repository().next_note_id(),
    {
        self.note_repository.next_id()
    }

    pub fn delete_note(&mut self, id: u64) -> (removed: bool)
        ensures
            removed == old(self).repository().stored().dom().contains(id),
            final(self).repository().stored() == old(self).repository().stored().remove(id),
            final(self).repository().next_note_id() == old(self).repository().next_note_id(),
    {
        self.note_repository.delete_by_id(id)
    }

    /// The notes whose title or body contains the query, ignoring case and the
    /// query's surrounding white space, in increasing id order; a blank query
    /// gives every note.
    pub fn search_notes(&self, query: &str) -> (notes: Vec<Note>)
        ensures
            search_key(query@).len() == 0 ==> lists_by_id(
                notes@,
                self.repository().stored(),
                every_note(),
            ),
            search_key(query@).len() != 0 ==> lists_by_id(
                notes@,
                self.repository().stored(),
                matches_query(search_key(query@)),
            ),
    {
        let trimmed = trim_str(query);
        let normalized = to_lowercase(trimmed.as_str());
        if normalized.as_str().is_empty() {
            return self.get_all_notes();
        }
        let q = chars_of(normalized.as_str());
        let all = self.note_repository.find_all();
        filter_matching(all, &q, Ghost(self.repository().stored()))
    }
}

} // verus!
