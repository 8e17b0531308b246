//! The notes screen's state and intents: the listed notes, the selection and
//! the status line, over a note service. The view shows what it holds and
//! applies the editor text that the intents hand back.
use vstd::prelude::*;
use crate::notes::model::Note;
use chrono::NaiveDateTime;
use crate::notes::repository::{NoteRepository, lists_by_id, every_note};
use crate::notes::service::{
    NoteService, blank_message, decimal, matches_query, not_found_message, push_decimal, search_key,
};
use crate::text::{extend_chars, is_blank, string_from_chars, trim};

verus! {

pub open spec fn empty_list_text() -> Seq<char> {
    seq!['N', 'o', ' ', 'n', 'o', 't', 'e', 's', ' ', 'y', 'e', 't', '.', ' ', 'C', 'r', 'e', 'a', 't', 'e', ' ', 'y', 'o', 'u', 'r', ' ', 'f', 'i', 'r', 's', 't', ' ', 'n', 'o', 't', 'e', ' ', 'o', 'n', ' ', 't', 'h', 'e', ' ', 'r', 'i', 'g', 'h', 't', '.']
}

fn empty_list_chars() -> (v: Vec<char>)
    ensures
        v@ == empty_list_text(),
{
    let lit: &[char] = &['N', 'o', ' ', 'n', 'o', 't', 'e', 's', ' ', 'y', 'e', 't', '.', ' ', 'C', 'r', 'e', 'a', 't', 'e', ' ', 'y', 'o', 'u', 'r', ' ', 'f', 'i', 'r', 's', 't', ' ', 'n', 'o', 't', 'e', ' ', 'o', 'n', ' ', 't', 'h', 'e', ' ', 'r', 'i', 'g', 'h', 't', '.'];
    assert(lit@ =~= empty_list_text());
    let mut v: Vec<char> = Vec::new();
    extend_chars(&mut v, lit);
    v
}

pub open spec fn loaded_head_text() -> Seq<char> {
    seq!['L', 'o', 'a', 'd', 'e', 'd', ' ']
}

fn loaded_head_chars() -> (v: Vec<char>)
    ensures
        v@ == loaded_head_text(),
{
    let lit: &[char] = &['L', 'o', 'a', 'd', 'e', 'd', ' '];
    assert(lit@ =~= loaded_head_text());
    let mut v: Vec<char> = Vec::new();
    extend_chars(&mut v, lit);
    v
}

pub open spec fn notes_tail_text() -> Seq<char> {
    seq![' ', 'n', 'o', 't', 'e', 's']
}

fn notes_tail_chars() -> (v: Vec<char>)
    ensures
        v@ == notes_tail_text(),
{
    let lit: &[char] = &[' ', 'n', 'o', 't', 'e', 's'];
    assert(lit@ =~= notes_tail_text());
    let mut v: Vec<char> = Vec::new();
    extend_chars(&mut v, lit);
    v
}

pub open spec fn showing_head_text() -> Seq<char> {
    seq!['S', 'h', 'o', 'w', 'i', 'n', 'g', ' ']
}

fn showing_head_chars() -> (v: Vec<char>)
    ensures
        v@ == showing_head_text(),
{
    let lit: &[char] = &['S', 'h', 'o', 'w', 'i', 'n', 'g', ' '];
    assert(lit@ =~= showing_head_text());
    let mut v: Vec<char> = Vec::new();
    extend_chars(&mut v, lit);
    v
}

pub open spec fn select_first_text() -> Seq<char> {
    seq!['S', 'e', 'l', 'e', 'c', 't', ' ', 'a', ' ', 'n', 'o', 't', 'e', ' ', 't', 'o', ' ', 'u', 'p', 'd', 'a', 't', 'e', '.']
}

fn select_first_chars() -> (v: Vec<char>)
    ensures
        v@ == select_first_text(),
{
    let lit: &[char] = &['S', 'e', 'l', 'e', 'c', 't', ' ', 'a', ' ', 'n', 'o', 't', 'e', ' ', 't', 'o', ' ', 'u', 'p', 'd', 'a', 't', 'e', '.'];
    assert(lit@ =~= select_first_text());
    let mut v: Vec<char> = Vec::new();
    extend_chars(&mut v, lit);
    v
}

/// The status after the list is reloaded with `count` notes.
pub open spec fn loaded_status(count: nat) -> Seq<char> {
    if count == 0 {
        empty_list_text()
    } else {
        loaded_head_text() + decimal(count) + notes_tail_text()
    }
}

/// The status after a search that shows `count` notes.
pub open spec fn showing_status(count: nat) -> Seq<char> {
    showing_head_text() + decimal(count) + notes_tail_text()
}

/// Text for the editor's title and body fields.
pub struct EditorText {
    pub title: String,
    pub content: String,
}

/// The state behind the notes screen.
pub struct NotesViewModel<R: NoteRepository> {
    note_service: NoteService<R>,
    notes: Vec<Note>,
    selected_id: Option<u64>,
    status: String,
}

impl<R: NoteRepository> NotesViewModel<R> {
    /// The repository behind the service.
    pub closed spec fn repository(&self) -> R {
        self.note_service.repository()
    }

    /// The notes the list shows.
    pub closed spec fn shown(&self) -> Seq<Note> {
        self.notes@
    }

    pub closed spec fn selected(&self) -> Option<u64> {
        self.selected_id
    }

    pub closed spec fn status_text(&self) -> Seq<char> {
        self.status@
    }

    /// The list shows every stored note in id order and the status counts them.
    pub open spec fn is_refreshed(&self) -> bool {
        &&& lists_by_id(self.shown(), self.repository().stored(), every_note())
        &&& self.status_text() == loaded_status(self.shown().len())
    }

    pub fn new(note_service: NoteService<R>) -> (vm: NotesViewModel<R>)
        ensures
            vm.repository() == note_service.repository(),
            vm.is_refreshed(),
            vm.selected() is None,
    {
        let mut view_model = NotesViewModel {
            note_service,
            notes: Vec::new(),
            selected_id: None,
            status: string_from_chars(&[]),
        };
        view_model.refresh_notes();
        view_model
    }

    pub fn notes(&self) -> (notes: &Vec<Note>)
        ensures
            notes@ == self.shown(),
    {
        &self.notes
    }

    pub fn selected_id(&self) -> (id: Option<u64>)
        ensures
            id == self.selected(),
    {
        self.selected_id
    }

    pub fn status(&self) -> (s: &str)
        ensures
            s@ == self.status_text(),
    {
        self.status.as_str()
    }

    /// Reloads every note and reports how many there are.
    pub fn refresh_notes(&mut self)
        ensures
            final(self).repository() == old(self).repository(),
            final(self).selected() == old(self).selected(),
            final(self).is_refreshed(),
    {
        let notes = self.note_service.get_all_notes();
        let mut status: Vec<char>;
        if notes.len() == 0 {
            status = empty_list_chars();
        } else {
            status = loaded_head_chars();
            push_decimal(&mut status, notes.len() as u64);
            let tail = notes_tail_chars();
            extend_chars(&mut status, tail.as_slice());
        }
        self.notes = notes;
        self.status = string_from_chars(status.as_slice());
    }

    /// Shows the notes that match `query` and reports how many there are.
    pub fn apply_search(&mut self, query: &str)
        ensures
            final(self).repository() == old(self).repository(),
            final(self).selected() == old(self).selected(),
            search_key(query@).len() == 0 ==> lists_by_id(
                final(self).shown(),
                final(self).repository().stored(),
                every_note(),
            ),
            search_key(query@).len() != 0 ==> lists_by_id(
                final(self).shown(),
                final(self).repository().stored(),
                matches_query(search_key(query@)),
            ),
            final(self).status_text() == showing_status(final(self).shown().len()),
    {
        let notes = self.note_service.search_notes(query);
        let mut status = showing_head_chars();
        push_decimal(&mut status, notes.len() as u64);
        let tail = notes_tail_chars();
        extend_chars(&mut status, tail.as_slice());
        self.status = string_from_chars(status.as_slice());
        self.notes = notes;
    }

    /// Creates a note from the editor text, created at `created_at`. On success the list is reloaded,
    /// the new note is selected and its text goes back to the editor; on
    /// failure the status shows why.
    pub fn add_note(&mut self, title: &str, content: &str, created_at: NaiveDateTime) -> (r: Option<EditorText>)
        requires
            !is_blank(title@) && !is_blank(content@) ==> old(self).repository().next_note_id() < u64::MAX,
        ensures
            is_blank(title@) || is_blank(content@) ==> {
                &&& r is None
                &&& final(self).repository() == old(self).repository()
                &&& final(self).shown() == old(self).shown()
                &&& final(self).selected() == old(self).selected()
                &&& final(self).status_text() == if is_blank(title@) {
                    blank_message(seq!['t', 'i', 't', 'l', 'e'])
                } else {
                    blank_message(seq!['c', 'o', 'n', 't', 'e', 'n', 't'])
                }
            },
            !is_blank(title@) && !is_blank(content@) ==> {
                let id = old(self).repository().next_note_id();
                let n = final(self).repository().stored()[id];
                &&& final(self).repository().stored() == old(self).repository().stored().insert(
                    id,
                    n,
                )
                &&& n.id == id
                &&& n.title@ == trim(title@)
                &&& n.content@ == trim(content@)
                &&& n.created_at == created_at
                &&& final(self).repository().next_note_id() == id + 1
                &&& final(self).is_refreshed()
                &&& final(self).selected() == Some(id)
                &&& r is Some && r->0.title@ == n.title@ && r->0.content@ == n.content@
            },
    {
        match self.note_service.create_note(title, content, created_at) {
            Ok(note) => {
                self.clear_editor();
                self.refresh_notes();
                self.select_note(note.id)
            },
            Err(message) => {
                self.show_error(message);
                None
            },
        }
    }

    /// Saves the editor text into the selected note. On success the list is
    /// reloaded, the note stays selected and its text goes back to the
    /// editor; without a selection, or on failure, the status shows why.
    pub fn update_selected_note(&mut self, title: &str, content: &str) -> (r: Option<EditorText>)
        requires
            old(self).selected() == Some(0u64) && !is_blank(title@) && !is_blank(content@)
                && old(self).repository().stored().dom().contains(0) ==> old(self).repository().next_note_id() < u64::MAX,
        ensures
            old(self).selected() is None ==> {
                &&& r is None
                &&& final(self).repository() == old(self).repository()
                &&& final(self).shown() == old(self).shown()
                &&& final(self).selected() == old(self).selected()
                &&& final(self).status_text() == select_first_text()
            },
            old(self).selected() is Some && (is_blank(title@) || is_blank(content@) || !old(self).repository().stored().dom().contains(old(self).selected()->0)) ==> {
                &&& r is None
                &&& final(self).repository() == old(self).repository()
                &&& final(self).shown() == old(self).shown()
                &&& final(self).selected() == old(self).selected()
                &&& final(self).status_text() == if is_blank(title@) {
                    blank_message(seq!['t', 'i', 't', 'l', 'e'])
                } else if is_blank(content@) {
                    blank_message(seq!['c', 'o', 'n', 't', 'e', 'n', 't'])
                } else {
                    not_found_message(old(self).selected()->0)
                }
            },
            old(self).selected() is Some && !is_blank(title@) && !is_blank(content@) && old(self).repository().stored().dom().contains(old(self).selected()->0) ==> {
                let id = old(self).selected()->0;
                let new_id = if id == 0 {
                    old(self).repository().next_note_id()
                } else {
                    id
                };
                let n = final(self).repository().stored()[new_id];
                &&& final(self).repository().stored() == old(self).repository().stored().insert(
                    new_id,
                    n,
                )
                &&& n.id == new_id
                &&& n.title@ == trim(title@)
                &&& n.content@ == trim(content@)
                &&& n.created_at == old(self).repository().stored()[id].created_at
                &&& final(self).is_refreshed()
                &&& final(self).selected() == Some(new_id)
                &&& r is Some && r->0.title@ == n.title@ && r->0.content@ == n.content@
            },
    {
        let id = match self.selected_id {
            Some(id) => id,
            None => {
                let message = select_first_chars();
                self.show_error(string_from_chars(message.as_slice()));
                return None;
            },
        };
        match self.note_service.update_note(id, title, content) {
            Ok(note) => {
                self.refresh_notes();
                self.select_note(note.id)
            },
            Err(message) => {
                self.show_error(message);
                None
            },
        }
    }

    /// The id that the next created note gets.
    pub fn next_id(&self) -> (id: u64)
        ensures
            id == self.repository().next_note_id(),
    {
        self.note_service.next_id()
    }

    /// Deletes the note with `id`, clears the selection and reloads the list;
    /// tells whether a note was removed.
    pub fn delete_note(&mut self, id: u64) -> (removed: bool)
        ensures
            removed == old(self).repository().stored().dom().contains(id),
            final(self).repository().stored() == old(self).repository().stored().remove(id),
            final(self).repository().next_note_id() == old(self).repository().next_note_id(),
            final(self).selected() is None,
            final(self).is_refreshed(),
    {
        let removed = self.note_service.delete_note(id);
        self.selected_id = None;
        self.refresh_notes();
        removed
    }

    /// Selects the note with `id`, handing its text to the editor; an unknown
    /// id changes nothing.
    pub fn select_note(&mut self, id: u64) -> (r: Option<EditorText>)
        ensures
            final(self).repository() == old(self).repository(),
            final(self).shown() == old(self).shown(),
            final(self).status_text() == old(self).status_text(),
            old(self).repository().stored().dom().contains(id) ==> {
                let n = old(self).repository().stored()[id];
                &&& final(self).selected() == Some(n.id)
                &&& r is Some && r->0.title@ == n.title@ && r->0.content@ == n.content@
            },
            !old(self).repository().stored().dom().contains(id) ==> r is None && final(self).selected() == old(self).selected(),
    {
        match self.note_service.find_note_by_id(id) {
            Some(note) => {
                self.selected_id = Some(note.id);
                Some(EditorText { title: note.title.clone(), content: note.content.clone() })
            },
            None => None,
        }
    }

    /// Drops the selection and empties the editor.
    pub fn clear_editor(&mut self) -> (r: EditorText)
        ensures
            final(self).repository() == old(self).repository(),
            final(self).shown() == old(self).shown(),
            final(self).status_text() == old(self).status_text(),
            final(self).selected() is None,
            r.title@.len() == 0,
            r.content@.len() == 0,
    {
        self.selected_id = None;
        EditorText { title: string_from_chars(&[]), content: string_from_chars(&[]) }
    }

    fn show_error(&mut self, message: String)
        ensures
            final(self).repository() == old(self).repository(),
            final(self).shown() == old(self).shown(),
            final(self).selected() == old(self).selected(),
            final(self).status_text() == message@,
    {
        self.status = message;
    }
}

} // verus!
