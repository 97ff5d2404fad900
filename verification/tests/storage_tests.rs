//! Saving, reading, deleting and restoring notes.

use local_private_notes::models::{IndexFile, NoteMeta, NoteVersionContent};
use local_private_notes::storage::{
    delete_note, find_note, get_backlinks, list_notes, locate_note, read_note,
    restore_note_version, save_new_note, save_note, save_note_as, toggle_important,
    update_note_title,
};

fn note(id: &str, title: &str) -> NoteMeta {
    NoteMeta {
        id: id.to_string(),
        title: title.to_string(),
        created_at: "2024-01-01T00:00:00+00:00".to_string(),
        updated_at: "2024-01-02T00:00:00+00:00".to_string(),
        important: false,
        filename: format!("{}.txt", id),
        images: vec![],
        tags: vec!["old".to_string()],
        links_to: vec![],
        is_daily: false,
        notebook_id: Some("nb".to_string()),
    }
}

#[test]
fn the_empty_index() {
    let index = IndexFile::default();
    assert!(index.notes.is_empty());
    assert!(index.notebooks.is_empty());
    assert!(list_notes(&index).is_empty());
}

#[test]
fn saving_without_an_identifier_makes_a_note() {
    let mut index = IndexFile::default();
    let out = save_note(&mut index, None, "Project Plan", "body #x", None).unwrap();
    let meta = out.meta;
    assert!(out.snapshot.is_none());
    assert_eq!(index.notes.len(), 1);
    assert_eq!(index.notes[0].id, meta.id);
    assert_eq!(meta.id.len(), 36);
    assert_eq!(meta.title, "Project Plan");
    assert_eq!(meta.filename, format!("{}.txt", meta.id));
    assert_eq!(meta.created_at, meta.updated_at);
    assert!(!meta.important && !meta.is_daily);
    assert!(meta.images.is_empty() && meta.links_to.is_empty());
    assert_eq!(meta.notebook_id, None);
    assert_eq!(meta.tags, vec!["project-plan", "x"]);
    // A second note gets another identifier.
    let other = save_new_note(&mut index, "Project Plan", "").unwrap().meta;
    assert!(other.id != meta.id);
    assert_eq!(index.notes.len(), 2);
}

#[test]
fn saving_under_a_new_identifier_makes_a_note_with_it() {
    let mut index = IndexFile::default();
    index.notes.push(note("n1", "First"));
    let out = save_note(&mut index, Some("n2"), "Second", "[[first]]", Some("stray".to_string())).unwrap();
    assert!(out.snapshot.is_none());
    assert_eq!(out.meta.id, "n2");
    assert_eq!(out.meta.filename, "n2.txt");
    assert_eq!(out.meta.links_to, vec!["n1"]);
    assert_eq!(index.notes.len(), 2);
    assert_eq!(index.notes[1].id, "n2");
}

#[test]
fn saving_an_existing_note_updates_it_and_takes_a_snapshot() {
    let mut index = IndexFile::default();
    index.notes.push(note("n0", "Other"));
    index.notes.push(note("n1", "First"));
    index.notes[1].important = true;
    let out = save_note(&mut index, Some("n1"), "New Title", "see [[other]] and [[first]] #t", Some("old body".to_string())).unwrap();
    let s = out.snapshot.expect("a snapshot");
    assert_eq!(s.saved_at, "2024-01-02T00:00:00+00:00");
    assert_eq!(s.title, "First");
    assert_eq!(s.body, "old body");
    let meta = out.meta;
    assert_eq!(meta.id, "n1");
    assert_eq!(meta.title, "New Title");
    assert_eq!(meta.created_at, "2024-01-01T00:00:00+00:00");
    assert!(meta.updated_at != "2024-01-02T00:00:00+00:00");
    assert!(meta.important);
    assert_eq!(meta.notebook_id.as_deref(), Some("nb"));
    // Tags are replaced in full; a note never links to itself.
    assert_eq!(meta.tags, vec!["new-title", "t"]);
    assert_eq!(meta.links_to, vec!["n0"]);
    assert_eq!(index.notes.len(), 2);
    assert_eq!(index.notes[1].title, "New Title");
    assert_eq!(index.notes[0].title, "Other");
    // Without a body file there is nothing to keep.
    let out = save_note_as(&mut index, "n1", "Again", "", None).unwrap();
    assert!(out.snapshot.is_none());
}

#[test]
fn saving_refuses_bad_identifiers() {
    let mut index = IndexFile::default();
    index.notes.push(note("n1", "First"));
    assert_eq!(save_note(&mut index, Some(""), "t", "b", None).unwrap_err(), "Note id cannot be empty");
    assert_eq!(save_note(&mut index, Some("a/b"), "t", "b", None).unwrap_err(), "Invalid note id");
    assert_eq!(save_note(&mut index, Some(".."), "t", "b", None).unwrap_err(), "Invalid note id");
    assert_eq!(index.notes.len(), 1);
    assert_eq!(index.notes[0].title, "First");
}

#[test]
fn end_to_end_tags_and_links() {
    let mut index = IndexFile::default();
    let a = save_note(&mut index, None, "Project Plan", "", None).unwrap().meta;
    let b = save_note(&mut index, None, "Meeting Notes", "Agenda #work\n[[Project Plan]]", None).unwrap().meta;
    assert_eq!(b.tags, vec!["meeting-notes", "work"]);
    assert_eq!(b.links_to, vec![a.id.clone()]);
    let back = get_backlinks(&index, &a.id).unwrap();
    assert_eq!(back.len(), 1);
    assert_eq!(back[0].id, b.id);
    assert!(get_backlinks(&index, &b.id).unwrap().is_empty());
    assert_eq!(get_backlinks(&index, "").unwrap_err(), "Note id cannot be empty");
}

#[test]
fn reading_a_note() {
    let mut index = IndexFile::default();
    index.notes.push(note("n1", "First"));
    let c = read_note(&index, "n1", Some("text".to_string())).unwrap();
    assert_eq!(c.meta.title, "First");
    assert_eq!(c.body, "text");
    let c = read_note(&index, "n1", None).unwrap();
    assert_eq!(c.body, "");
    assert_eq!(read_note(&index, "n2", None).unwrap_err(), "Note not found");
    assert_eq!(read_note(&index, "a/b", None).unwrap_err(), "Invalid note id");
    assert_eq!(find_note(&index.notes, "n1"), Some(0));
    assert_eq!(find_note(&index.notes, "n2"), None);
    assert_eq!(locate_note(&index, "n1"), Ok(0));
    assert_eq!(locate_note(&index, ""), Err("Note id cannot be empty".to_string()));
}

#[test]
fn a_deleted_note_is_not_found() {
    let mut index = IndexFile::default();
    index.notes.push(note("n0", "Zero"));
    index.notes.push(note("n1", "First"));
    index.notes.push(note("n2", "Second"));
    assert_eq!(delete_note(&mut index, "n1"), Ok(()));
    let left: Vec<&str> = index.notes.iter().map(|n| n.id.as_str()).collect();
    assert_eq!(left, vec!["n0", "n2"]);
    assert_eq!(read_note(&index, "n1", None).unwrap_err(), "Note not found");
    assert_eq!(delete_note(&mut index, "n1"), Err("Note not found".to_string()));
    assert_eq!(delete_note(&mut index, "."), Err("Invalid note id".to_string()));
    assert_eq!(index.notes.len(), 2);
}

#[test]
fn restoring_is_a_save_that_can_be_undone() {
    let mut index = IndexFile::default();
    index.notes.push(note("n1", "Current"));
    let version = NoteVersionContent {
        saved_at: "2023-12-31T00:00:00+00:00".to_string(),
        title: "Earlier".to_string(),
        body: "earlier body #past".to_string(),
    };
    let out = restore_note_version(&mut index, "n1", &version, Some("current body".to_string())).unwrap();
    assert_eq!(out.meta.title, "Earlier");
    assert_eq!(out.meta.tags, vec!["earlier", "past"]);
    assert_eq!(index.notes[0].title, "Earlier");
    let s = out.snapshot.expect("a snapshot of the state before the restore");
    assert_eq!(s.saved_at, "2024-01-02T00:00:00+00:00");
    assert_eq!(s.title, "Current");
    assert_eq!(s.body, "current body");
    assert_eq!(
        restore_note_version(&mut index, "a\\b", &version, None).unwrap_err(),
        "Invalid note id"
    );
}

#[test]
fn small_edits() {
    let mut index = IndexFile::default();
    index.notes.push(note("n1", "First"));
    let meta = toggle_important(&mut index, "n1", true).unwrap();
    assert!(meta.important);
    assert!(index.notes[0].important);
    assert!(meta.updated_at != "2024-01-02T00:00:00+00:00");
    let meta = toggle_important(&mut index, "n1", false).unwrap();
    assert!(!meta.important);
    assert_eq!(toggle_important(&mut index, "nx", true).unwrap_err(), "Note not found");
    let meta = update_note_title(&mut index, "n1", "Renamed").unwrap();
    assert_eq!(meta.title, "Renamed");
    // The tags are not derived again.
    assert_eq!(meta.tags, vec!["old"]);
    assert_eq!(index.notes[0].title, "Renamed");
    assert_eq!(update_note_title(&mut index, "", "x").unwrap_err(), "Note id cannot be empty");
}

#[test]
fn fresh_identifiers_are_not_taken() {
    let mut index = IndexFile::default();
    for k in 0..50 {
        save_new_note(&mut index, &format!("Note {}", k), "").unwrap();
    }
    let mut ids: Vec<&str> = index.notes.iter().map(|n| n.id.as_str()).collect();
    ids.sort();
    ids.dedup();
    assert_eq!(ids.len(), 50);
    let id = local_private_notes::storage::fresh_note_id(&index.notes).unwrap();
    assert!(find_note(&index.notes, &id).is_none());
}

#[test]
fn an_empty_index_always_yields_a_fresh_identifier() {
    let id = local_private_notes::storage::fresh_note_id(&Vec::new()).expect("an identifier");
    assert_eq!(id.len(), 36);
    let id = local_private_notes::notebooks::fresh_notebook_id(&Vec::new()).expect("an identifier");
    assert_eq!(id.len(), 36);
}

#[test]
fn a_save_stamps_the_instant_it_is_given() {
    let mut index = IndexFile::default();
    let mut plan = note("n1", "Plan");
    plan.updated_at = "2024-01-01T00:00:00+00:00".to_string();
    index.notes.push(plan);
    let now = "2024-01-02T00:00:00+00:00";
    let out = local_private_notes::storage::save_note_at(
        &mut index,
        Some("n1"),
        "Plan v2",
        "see [[Plan]] #new",
        Some("#old".to_string()),
        now,
    )
    .unwrap();
    assert_eq!(out.meta.title, "Plan v2");
    assert_eq!(out.meta.updated_at, now);
    assert_eq!(out.meta.created_at, "2024-01-01T00:00:00+00:00");
    assert_eq!(out.meta.tags, vec!["new", "plan-v2"]);
    assert!(out.meta.links_to.is_empty());
    let s = out.snapshot.unwrap();
    assert_eq!(s.saved_at, "2024-01-01T00:00:00+00:00");
    assert_eq!(s.title, "Plan");
    assert_eq!(s.body, "#old");
    // A new note is created and last changed at that instant.
    let made = local_private_notes::storage::save_note_at(&mut index, None, "New", "", None, now)
        .unwrap();
    assert_eq!(made.meta.created_at, now);
    assert_eq!(made.meta.updated_at, now);
    let made = local_private_notes::storage::save_new_note_at(
        &mut index,
        "chosen".to_string(),
        "T",
        "",
        now,
    )
    .unwrap();
    assert_eq!(made.meta.id, "chosen");
    // An identifier that is taken is refused.
    assert_eq!(
        local_private_notes::storage::save_new_note_at(&mut index, "chosen".to_string(), "T", "", now)
            .unwrap_err(),
        "No fresh identifier could be made"
    );
    assert_eq!(
        local_private_notes::storage::save_new_note_at(&mut index, "a/b".to_string(), "T", "", now)
            .unwrap_err(),
        "Invalid note id"
    );
    assert_eq!(index.notes.len(), 3);
    let meta = local_private_notes::storage::toggle_important_at(&mut index, "n1", true, "t1").unwrap();
    assert_eq!(meta.updated_at, "t1");
    let meta = local_private_notes::storage::update_note_title_at(&mut index, "n1", "X", "t2").unwrap();
    assert_eq!(meta.updated_at, "t2");
    let version = NoteVersionContent {
        saved_at: "s".to_string(),
        title: "Old".to_string(),
        body: "b".to_string(),
    };
    let out = local_private_notes::storage::restore_note_version_at(
        &mut index,
        "n1",
        &version,
        None,
        "t3",
    )
    .unwrap();
    assert_eq!(out.meta.updated_at, "t3");
    assert_eq!(out.meta.title, "Old");
}
