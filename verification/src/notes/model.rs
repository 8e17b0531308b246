//! The note record and the date-time values it carries.
use vstd::prelude::*;
use chrono::NaiveDateTime;
use std::fmt::Write;

verus! {

#[verifier::external_type_specification]
#[verifier::external_body]
pub struct ExNaiveDateTime(NaiveDateTime);

/// The text that chrono's `NaiveDateTime::format` renders for `at` with the
/// `strftime`-style pattern `pattern`.
pub uninterp spec fn date_time_text(at: NaiveDateTime, pattern: Seq<char>) -> Seq<char>;

/// The pattern of a note's creation time: `%Y-%m-%d %H:%M`.
pub open spec fn minute_pattern() -> Seq<char> {
    seq!['%', 'Y', '-', '%', 'm', '-', '%', 'd', ' ', '%', 'H', ':', '%', 'M']
}

/// A creation time to the minute, as the note list shows it.
pub open spec fn minute_stamp(at: NaiveDateTime) -> Seq<char> {
    date_time_text(at, minute_pattern())
}

/// Writes `at.format(pattern)` (chrono's `NaiveDateTime::format`) into a
/// string. chrono reports a pattern item it cannot render as a formatting
/// error, which comes back as `None`; `%Y-%m-%d %H:%M` has none such, so it
/// always renders. The rendered text is named (`date_time_text`), not spelled
/// out.
#[verifier::external_body]
fn format_date_time(at: &NaiveDateTime, pattern: &str) -> (r: Option<String>)
    ensures
        r matches Some(s) ==> s@ == date_time_text(*at, pattern@),
        pattern@ == minute_pattern() ==> r is Some,
{
    let mut text = String::new();
    match write!(text, "{}", at.format(pattern)) {
        Ok(()) => Some(text),
        Err(_) => None,
    }
}

/// A creation time to the minute, `%Y-%m-%d %H:%M`.
pub fn format_created_at(at: &NaiveDateTime) -> (s: String)
    ensures
        s@ == minute_stamp(*at),
{
    let pattern = "%Y-%m-%d %H:%M";
    proof {
        reveal_strlit("%Y-%m-%d %H:%M");
        assert(pattern@ =~= minute_pattern());
    }
    match format_date_time(at, pattern) {
        Some(text) => text,
        None => {
            assert(false);
            String::new()
        },
    }
}

/// A note: an id, a title, a body and the time it was created.
#[derive(Debug, PartialEq, Eq)]
pub struct Note {
    pub id: u64,
    pub title: String,
    pub content: String,
    pub created_at: NaiveDateTime,
}

impl Clone for Note {
    fn clone(&self) -> (r: Note)
        ensures
            r == *self,
    {
        Note {
            id: self.id,
            title: self.title.clone(),
            content: self.content.clone(),
            created_at: self.created_at,
        }
    }
}

impl Note {
    pub fn new(id: u64, title: &str, content: &str, created_at: NaiveDateTime) -> (n: Note)
        ensures
            n.id == id,
            n.title@ == title@,
            n.content@ == content@,
            n.created_at == created_at,
    {
        Note {
            id,
            title: crate::text::string_of(title),
            content: crate::text::string_of(content),
            created_at,
        }
    }

    /// The same note under another id.
    pub fn with_id(self, new_id: u64) -> (n: Note)
        ensures
            n == (Note { id: new_id, ..self }),
    {
        Note { id: new_id, ..self }
    }
}

} // verus!
