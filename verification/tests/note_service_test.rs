use chrono::NaiveDate;
use rustfw_apps::notes::model::Note;
use rustfw_apps::notes::preview::format_note_preview;
use rustfw_apps::notes::repository::{InMemoryNoteRepository, NoteRepository};
use rustfw_apps::notes::service::{validate_text, NoteService};
use rustfw_apps::notes::theme::ThemeMode;
use rustfw_apps::notes::viewmodel::NotesViewModel;

fn service() -> NoteService<InMemoryNoteRepository> {
    NoteService::new(InMemoryNoteRepository::new())
}

fn sample_time() -> chrono::NaiveDateTime {
    NaiveDate::from_ymd_opt(2026, 8, 9).unwrap().and_hms_opt(12, 0, 0).unwrap()
}

#[test]
fn creates_notes_with_generated_ids() {
    let mut service = service();
    let note = service.create_note("Shopping", "Buy milk", sample_time()).unwrap();

    assert_eq!(1, note.id);
    assert_eq!("Shopping", note.title);
    assert_eq!("Buy milk", note.content);
}

#[test]
fn searches_by_title_and_content() {
    let mut service = service();
    service.create_note("Shopping", "Buy milk", sample_time()).unwrap();
    service.create_note("Work", "Finish report", sample_time()).unwrap();

    assert_eq!(1, service.search_notes("milk").len());
    assert_eq!(1, service.search_notes("work").len());
}

#[test]
fn deletes_existing_notes() {
    let mut service = service();
    let note = service.create_note("Task", "Do it", sample_time()).unwrap();

    assert!(service.delete_note(note.id));
    assert!(!service.delete_note(note.id));
}

#[test]
fn rejects_blank_titles() {
    let mut service = service();
    assert!(service.create_note(" ", "Body", sample_time()).is_err());
}

#[test]
fn updates_existing_notes() {
    let mut service = service();
    let note = service.create_note("Task", "Do it", sample_time()).unwrap();

    let updated = service.update_note(note.id, "Task v2", "Do it now").unwrap();

    assert_eq!(note.id, updated.id);
    assert_eq!("Task v2", updated.title);
    assert_eq!("Do it now", updated.content);
    assert_eq!(note.created_at, updated.created_at);
}

#[test]
fn rejects_update_for_missing_note() {
    let mut service = service();
    assert!(service.update_note(42, "Title", "Body").is_err());
}

// ── Validation and messages ─────────────────────────────────────────────────

#[test]
fn blank_text_is_reported_by_field() {
    assert_eq!(validate_text("  \t\n", "title"), Err(String::from("title must not be blank")));
    assert_eq!(validate_text("", "content"), Err(String::from("content must not be blank")));
    assert_eq!(validate_text(" x ", "title"), Ok(()));
    // non-breaking space and ideographic space are white space too
    assert!(validate_text("\u{a0}\u{3000}", "title").is_err());
}

#[test]
fn title_is_checked_before_content() {
    let mut service = service();
    assert_eq!(service.create_note("", "", sample_time()).unwrap_err(), "title must not be blank");
    assert_eq!(service.create_note("T", " ", sample_time()).unwrap_err(), "content must not be blank");
    assert!(service.get_all_notes().is_empty());
}

#[test]
fn missing_note_message_names_the_id() {
    let mut service = service();
    assert_eq!(service.update_note(42, "Title", "Body").unwrap_err(), "note 42 not found");
    assert_eq!(service.update_note(42, " ", "Body").unwrap_err(), "title must not be blank");
}

#[test]
fn titles_and_bodies_are_trimmed() {
    let mut service = service();
    let note = service.create_note("  Groceries \n", "\teggs, bread  ", sample_time()).unwrap();
    assert_eq!(note.title, "Groceries");
    assert_eq!(note.content, "eggs, bread");
    assert_eq!(service.find_note_by_id(note.id), Some(note));
}

#[test]
fn ids_count_up_and_are_not_reused() {
    let mut service = service();
    let a = service.create_note("A", "a", sample_time()).unwrap();
    let b = service.create_note("B", "b", sample_time()).unwrap();
    assert!(service.delete_note(b.id));
    let c = service.create_note("C", "c", sample_time()).unwrap();
    assert_eq!((a.id, b.id, c.id), (1, 2, 3));
    let ids: Vec<u64> = service.get_all_notes().iter().map(|n| n.id).collect();
    assert_eq!(ids, vec![1, 3]);
}

#[test]
fn search_ignores_case_and_surrounding_space() {
    let mut service = service();
    service.create_note("Shopping", "Buy MILK", sample_time()).unwrap();
    service.create_note("Work", "Finish report", sample_time()).unwrap();
    service.create_note("Milkshake recipe", "blend", sample_time()).unwrap();
    let found: Vec<u64> = service.search_notes("  mIlK ").iter().map(|n| n.id).collect();
    assert_eq!(found, vec![1, 3]);
    assert_eq!(service.search_notes("   ").len(), 3);
    assert!(service.search_notes("zebra").is_empty());
}

#[test]
fn update_of_missing_note_leaves_notes_alone() {
    let mut service = service();
    service.create_note("Keep", "me", sample_time()).unwrap();
    assert!(service.update_note(9, "New", "Body").is_err());
    let all = service.get_all_notes();
    assert_eq!(all.len(), 1);
    assert_eq!(all[0].title, "Keep");
}

// ── Repository ──────────────────────────────────────────────────────────────

#[test]
fn loaded_notes_move_the_next_id_past_them() {
    let mut repository = InMemoryNoteRepository::new();
    repository.load_notes(vec![
        Note::new(7, "Seven", "7", sample_time()),
        Note::new(3, "Three", "3", sample_time()),
    ]);
    let all = repository.find_all();
    assert_eq!(all.iter().map(|n| n.id).collect::<Vec<_>>(), vec![3, 7]);
    let saved = repository.save(Note::new(0, "New", "n", sample_time()));
    assert_eq!(saved.id, 8);
    assert_eq!(repository.find_by_id(7).unwrap().title, "Seven");
}

#[test]
fn saving_an_existing_id_replaces_the_note() {
    let mut repository = InMemoryNoteRepository::new();
    let first = repository.save(Note::new(0, "First", "1", sample_time()));
    let replaced = repository.save(Note::new(first.id, "Again", "2", sample_time()));
    assert_eq!(replaced.id, first.id);
    assert_eq!(repository.find_all().len(), 1);
    assert_eq!(repository.find_by_id(first.id).unwrap().content, "2");
    assert_eq!(repository.find_by_id(99), None);
}

#[test]
fn with_id_changes_only_the_id() {
    let note = Note::new(0, "T", "C", sample_time());
    let moved = note.clone().with_id(5);
    assert_eq!(moved.id, 5);
    assert_eq!(moved.title, note.title);
    assert_eq!(moved.created_at, note.created_at);
}

// ── Preview ─────────────────────────────────────────────────────────────────

#[test]
fn preview_collapses_white_space_and_adds_the_date() {
    let note = Note::new(1, "T", "  Buy\n\n milk \t and   eggs ", sample_time());
    assert_eq!(format_note_preview(&note), "Buy milk and eggs • 2026-08-09 12:00");
}

#[test]
fn long_previews_are_cut_with_an_ellipsis() {
    let body = "a".repeat(100);
    let note = Note::new(1, "T", &body, sample_time());
    let expected = format!("{}\u{2026} \u{2022} 2026-08-09 12:00", "a".repeat(95));
    assert_eq!(format_note_preview(&note), expected);
    let exact = "b".repeat(96);
    let note = Note::new(1, "T", &exact, sample_time());
    assert_eq!(format_note_preview(&note), format!("{} \u{2022} 2026-08-09 12:00", exact));
}

// ── View model ──────────────────────────────────────────────────────────────

fn view_model() -> NotesViewModel<InMemoryNoteRepository> {
    NotesViewModel::new(service())
}

#[test]
fn empty_list_invites_the_first_note() {
    let vm = view_model();
    assert_eq!(vm.status(), "No notes yet. Create your first note on the right.");
    assert!(vm.notes().is_empty());
    assert_eq!(vm.selected_id(), None);
}

#[test]
fn adding_a_note_selects_it_and_reloads_the_list() {
    let mut vm = view_model();
    let editor = vm.add_note(" Plan ", "Write it down", sample_time()).unwrap();
    assert_eq!(editor.title, "Plan");
    assert_eq!(editor.content, "Write it down");
    assert_eq!(vm.selected_id(), Some(1));
    assert_eq!(vm.notes().len(), 1);
    assert_eq!(vm.status(), "Loaded 1 notes");
}

#[test]
fn failed_add_reports_the_reason() {
    let mut vm = view_model();
    assert!(vm.add_note("", "body", sample_time()).is_none());
    assert_eq!(vm.status(), "title must not be blank");
    assert!(vm.notes().is_empty());
}

#[test]
fn update_needs_a_selection() {
    let mut vm = view_model();
    vm.add_note("A", "a", sample_time()).unwrap();
    vm.clear_editor();
    assert!(vm.update_selected_note("B", "b").is_none());
    assert_eq!(vm.status(), "Select a note to update.");
    assert!(vm.select_note(1).is_some());
    let editor = vm.update_selected_note("B", "b").unwrap();
    assert_eq!(editor.title, "B");
    assert_eq!(vm.notes()[0].title, "B");
    assert_eq!(vm.selected_id(), Some(1));
}

#[test]
fn search_and_delete_update_the_status() {
    let mut vm = view_model();
    vm.add_note("Shopping", "milk", sample_time()).unwrap();
    vm.add_note("Work", "report", sample_time()).unwrap();
    vm.apply_search("MILK");
    assert_eq!(vm.status(), "Showing 1 notes");
    assert_eq!(vm.notes().len(), 1);
    assert!(vm.delete_note(1));
    assert_eq!(vm.selected_id(), None);
    assert_eq!(vm.status(), "Loaded 1 notes");
    assert!(vm.delete_note(2));
    assert!(!vm.delete_note(2));
    assert_eq!(vm.status(), "No notes yet. Create your first note on the right.");
    assert!(vm.select_note(2).is_none());
}

#[test]
fn theme_toggles_between_light_and_dark() {
    assert!(ThemeMode::Dark.is_dark());
    assert!(!ThemeMode::Light.is_dark());
    assert_eq!(ThemeMode::Light.toggled(), ThemeMode::Dark);
    assert_eq!(ThemeMode::Dark.toggled().toggled(), ThemeMode::Dark);
}

#[test]
fn next_id_counts_created_notes_and_follows_loaded_ids() {
    let mut vm = view_model();
    assert_eq!(vm.next_id(), 1);
    vm.add_note("A", "a", sample_time()).unwrap();
    assert_eq!(vm.next_id(), 2);
    assert!(vm.add_note(" ", "a", sample_time()).is_none());
    assert_eq!(vm.next_id(), 2);

    let mut repository = InMemoryNoteRepository::new();
    repository.load_notes(vec![Note::new(9, "x", "y", sample_time())]);
    assert_eq!(repository.next_id(), 10);
    let service = NoteService::new(repository);
    assert_eq!(service.next_id(), 10);
}

#[test]
fn a_saved_listing_loads_back_as_the_same_store() {
    let mut first = InMemoryNoteRepository::new();
    let created = first.save(Note::new(0, "Title", "Content", sample_time()));
    first.save(Note::new(0, "Second", "More", sample_time()));
    first.delete_by_id(created.id);
    let listing = first.find_all();

    let mut second = InMemoryNoteRepository::new();
    second.load_notes(listing.clone());

    assert_eq!(1, created.id);
    assert_eq!(listing, second.find_all());
    assert_eq!(None, second.find_by_id(created.id));
    assert_eq!("Second", second.find_by_id(2).unwrap().title);
    assert_eq!(3, second.next_id());
}

#[test]
fn a_save_replaces_only_the_note_with_its_id() {
    let mut repository = InMemoryNoteRepository::new();
    let a = repository.save(Note::new(0, "A", "a", sample_time()));
    let b = repository.save(Note::new(0, "B", "b", sample_time()));
    repository.save(Note::new(a.id, "A2", "a2", sample_time()));
    assert_eq!("A2", repository.find_by_id(a.id).unwrap().title);
    assert_eq!(Some(b.clone()), repository.find_by_id(b.id));
    assert!(repository.delete_by_id(a.id));
    assert_eq!(None, repository.find_by_id(a.id));
    assert_eq!(vec![b], repository.find_all());
}

// A file repository writes a store's full listing after each change and a new
// instance loads that listing back; these two tests hand the listing over
// directly.

#[test]
fn persists_notes_across_instances() {
    let mut first_repository = InMemoryNoteRepository::new();
    let created_note = first_repository.save(Note::new(0, "Title", "Content", sample_time()));
    let written = first_repository.find_all();

    let mut second_repository = InMemoryNoteRepository::new();
    second_repository.load_notes(written);

    assert_eq!(1, created_note.id);
    assert_eq!(1, second_repository.find_all().len());
    assert_eq!("Title", second_repository.find_by_id(created_note.id).unwrap().title);
}

#[test]
fn deletes_notes_and_persists_removal() {
    let mut repository = InMemoryNoteRepository::new();
    let created_note = repository.save(Note::new(0, "Title", "Content", sample_time()));

    assert!(repository.delete_by_id(created_note.id));
    assert!(!repository.delete_by_id(created_note.id));

    let mut reloaded_repository = InMemoryNoteRepository::new();
    reloaded_repository.load_notes(repository.find_all());
    assert!(reloaded_repository.find_all().is_empty());
}

#[test]
fn created_notes_carry_the_given_creation_time() {
    let mut service = service();
    let at = NaiveDate::from_ymd_opt(2030, 1, 2).unwrap().and_hms_opt(3, 4, 5).unwrap();
    let note = service.create_note(" T ", " C ", at).unwrap();
    assert_eq!(at, note.created_at);
    assert_eq!(Some(note.clone()), service.find_note_by_id(note.id));
    assert_eq!("2030-01-02 03:04", rustfw_apps::notes::model::format_created_at(&note.created_at));

    let mut vm = view_model();
    vm.add_note("A", "a", at).unwrap();
    assert_eq!(at, vm.notes()[0].created_at);
}
