//! Tags, batches, merging, notebooks and the note of the day.

use local_private_notes::batch::{batch_delete_notes, batch_toggle_important, merge_notes};
use local_private_notes::daily::{daily_note_for, get_or_create_daily_note};
use local_private_notes::models::{IndexFile, NoteMeta, Notebook};
use local_private_notes::notebooks::{
    archive_notebook, create_notebook, find_notebook, list_notebooks, move_note_to_notebook,
    update_notebook_name,
};
use local_private_notes::tagging::{
    add_tag_to_notes, add_tag_to_notes_at, list_tags, notes_by_tag, remove_tag_from_note,
    without_text,
};

fn note(id: &str, title: &str, updated_at: &str, tags: &[&str]) -> NoteMeta {
    NoteMeta {
        id: id.to_string(),
        title: title.to_string(),
        created_at: "2024-01-01T00:00:00+00:00".to_string(),
        updated_at: updated_at.to_string(),
        important: false,
        filename: format!("{}.txt", id),
        images: vec![],
        tags: tags.iter().map(|t| t.to_string()).collect(),
        links_to: vec![],
        is_daily: false,
        notebook_id: None,
    }
}

fn notebook(id: &str, name: &str, archived: bool, created_at: &str) -> Notebook {
    Notebook {
        id: id.to_string(),
        name: name.to_string(),
        archived,
        created_at: created_at.to_string(),
    }
}

fn sample() -> IndexFile {
    let mut index = IndexFile::default();
    index.notes.push(note("a", "Alpha", "2024-01-03T00:00:00+00:00", &["work", "home"]));
    index.notes.push(note("b", "Beta", "2024-01-01T00:00:00+00:00", &["Work"]));
    index.notes.push(note("c", "Gamma", "2024-01-02T00:00:00+00:00", &[]));
    index
}

fn texts(list: &[&str]) -> Vec<String> {
    list.iter().map(|s| s.to_string()).collect()
}

fn ids(notes: &[NoteMeta]) -> Vec<&str> {
    notes.iter().map(|n| n.id.as_str()).collect()
}

#[test]
fn listing_tags() {
    let index = sample();
    assert_eq!(list_tags(&index), vec!["Work", "home", "work"]);
    assert!(list_tags(&IndexFile::default()).is_empty());
    assert_eq!(ids(&notes_by_tag(&index, "work")), vec!["a"]);
    assert_eq!(ids(&notes_by_tag(&index, "Work")), vec!["b"]);
    assert!(notes_by_tag(&index, "none").is_empty());
}

#[test]
fn adding_a_tag_to_notes() {
    let mut index = sample();
    let changed = add_tag_to_notes(&mut index, &texts(&["c", "a", "zz"]), "  home ");
    // The note that carries the tag already is passed over.
    assert_eq!(ids(&changed), vec!["c"]);
    assert_eq!(changed[0].tags, vec!["home"]);
    assert!(changed[0].updated_at != "2024-01-02T00:00:00+00:00");
    assert_eq!(index.notes[0].tags, vec!["work", "home"]);
    assert_eq!(index.notes[0].updated_at, "2024-01-03T00:00:00+00:00");
    assert_eq!(index.notes[2].tags, vec!["home"]);
    // The tag goes before the first tag that comes after it.
    let changed = add_tag_to_notes(&mut index, &texts(&["a", "b"]), "new");
    assert_eq!(ids(&changed), vec!["a", "b"]);
    assert_eq!(index.notes[0].tags, vec!["new", "work", "home"]);
    assert_eq!(index.notes[1].tags, vec!["Work", "new"]);
    // Tags in ascending order stay in ascending order.
    index.notes[2].tags = texts(&["alpha", "home", "zeta"]);
    add_tag_to_notes_at(&mut index, &texts(&["c"]), "mid", "2024-06-01T00:00:00+00:00");
    assert_eq!(index.notes[2].tags, vec!["alpha", "home", "mid", "zeta"]);
    assert_eq!(index.notes[2].updated_at, "2024-06-01T00:00:00+00:00");
    // Nothing to do.
    assert!(add_tag_to_notes(&mut index, &Vec::new(), "x").is_empty());
    assert!(add_tag_to_notes(&mut index, &texts(&["a"]), "   ").is_empty());
    assert_eq!(index.notes[0].tags, vec!["new", "work", "home"]);
}

#[test]
fn removing_a_tag() {
    let mut index = sample();
    let meta = remove_tag_from_note(&mut index, "a", "work").unwrap();
    assert_eq!(meta.tags, vec!["home"]);
    assert_eq!(index.notes[0].tags, vec!["home"]);
    let meta = remove_tag_from_note(&mut index, "a", "absent").unwrap();
    assert_eq!(meta.tags, vec!["home"]);
    assert_eq!(remove_tag_from_note(&mut index, "zz", "x").unwrap_err(), "Note not found");
    assert_eq!(remove_tag_from_note(&mut index, "..", "x").unwrap_err(), "Invalid note id");
    assert_eq!(without_text(&texts(&["a", "b", "a", "c"]), "a"), vec!["b", "c"]);
}

#[test]
fn starring_in_batches() {
    let mut index = sample();
    let changed = batch_toggle_important(&mut index, &texts(&["c", "a", "zz"]), true);
    assert_eq!(ids(&changed), vec!["a", "c"]);
    assert!(changed.iter().all(|n| n.important));
    assert_eq!(changed[0].updated_at, changed[1].updated_at);
    assert!(index.notes[0].important && !index.notes[1].important && index.notes[2].important);
    assert_eq!(index.notes[1].updated_at, "2024-01-01T00:00:00+00:00");
    assert!(batch_toggle_important(&mut index, &Vec::new(), false).is_empty());
    assert!(index.notes[0].important);
}

#[test]
fn deleting_in_batches() {
    let mut index = sample();
    assert_eq!(batch_delete_notes(&mut index, &Vec::new()), Ok(()));
    assert_eq!(index.notes.len(), 3);
    assert_eq!(
        batch_delete_notes(&mut index, &texts(&["a", "x/y", ""])),
        Err("Invalid note id".to_string())
    );
    assert_eq!(
        batch_delete_notes(&mut index, &texts(&["", "x/y"])),
        Err("Note id cannot be empty".to_string())
    );
    assert_eq!(index.notes.len(), 3);
    assert_eq!(batch_delete_notes(&mut index, &texts(&["c", "a", "zz"])), Ok(()));
    assert_eq!(ids(&index.notes), vec!["b"]);
}

#[test]
fn merging_notes() {
    let mut index = sample();
    let out = merge_notes(
        &mut index,
        &texts(&["a", "b", "c"]),
        &texts(&["  body a  ", "body b"]),
    )
    .unwrap();
    // The earliest note gives the title; the sections come oldest first.
    assert_eq!(out.meta.id, "a");
    assert_eq!(out.meta.title, "Beta");
    assert_eq!(
        out.body.as_deref(),
        Some("## Beta\n\nbody b\n\n## Gamma\n\n\n\n## Alpha\n\n  body a")
    );
    assert_eq!(ids(&index.notes), vec!["a"]);
    assert_eq!(index.notes[0].title, "Beta");
    assert_eq!(index.notes[0].tags, vec!["work", "home"]);
    assert!(index.notes[0].updated_at != "2024-01-03T00:00:00+00:00");
}

#[test]
fn merging_edge_cases() {
    let mut index = sample();
    assert_eq!(merge_notes(&mut index, &Vec::new(), &Vec::new()).unwrap_err(), "No notes to merge");
    let one = merge_notes(&mut index, &texts(&["b"]), &texts(&["x"])).unwrap();
    assert_eq!(one.meta.id, "b");
    assert!(one.body.is_none());
    assert_eq!(index.notes.len(), 3);
    assert_eq!(merge_notes(&mut index, &texts(&["zz"]), &Vec::new()).unwrap_err(), "Note not found");
    assert_eq!(
        merge_notes(&mut index, &texts(&["a", "zz"]), &Vec::new()).unwrap_err(),
        "Note not found"
    );
    assert_eq!(index.notes.len(), 3);
    assert_eq!(index.notes[0].title, "Alpha");
}

#[test]
fn listing_notebooks() {
    let mut index = IndexFile::default();
    index.notebooks.push(notebook("1", "old archive", true, "2024-01-01"));
    index.notebooks.push(notebook("2", "late", false, "2024-03-01"));
    index.notebooks.push(notebook("3", "early", false, "2024-02-01"));
    index.notebooks.push(notebook("4", "new archive", true, "2023-01-01"));
    index.notebooks.push(notebook("5", "late too", false, "2024-03-01"));
    let listed: Vec<String> = list_notebooks(&index).iter().map(|n| n.id.clone()).collect();
    assert_eq!(listed, vec!["3", "2", "5", "4", "1"]);
    assert!(list_notebooks(&IndexFile::default()).is_empty());
    assert_eq!(find_notebook(&index.notebooks, "3"), Some(2));
    assert_eq!(find_notebook(&index.notebooks, "9"), None);
}

#[test]
fn making_and_changing_notebooks() {
    let mut index = sample();
    let nb = create_notebook(&mut index, "  Travel  ").unwrap();
    assert_eq!(nb.name, "Travel");
    assert!(!nb.archived);
    assert_eq!(nb.id.len(), 36);
    assert_eq!(index.notebooks.len(), 1);
    assert_eq!(index.notebooks[0].id, nb.id);
    assert_eq!(create_notebook(&mut index, "   ").unwrap_err(), "Notebook name cannot be empty");
    assert_eq!(index.notebooks.len(), 1);

    let archived = archive_notebook(&mut index, &nb.id, true).unwrap();
    assert!(archived.archived);
    assert!(index.notebooks[0].archived);
    assert_eq!(archive_notebook(&mut index, "nope", true).unwrap_err(), "Notebook not found");
    assert_eq!(archive_notebook(&mut index, "", true).unwrap_err(), "Notebook id cannot be empty");

    let renamed = update_notebook_name(&mut index, &nb.id, " Trips ").unwrap();
    assert_eq!(renamed.name, "Trips");
    assert_eq!(index.notebooks[0].name, "Trips");
    assert_eq!(
        update_notebook_name(&mut index, "a/b", "  ").unwrap_err(),
        "Notebook name cannot be empty"
    );
    assert_eq!(update_notebook_name(&mut index, "a/b", "x").unwrap_err(), "Invalid notebook id");
    assert_eq!(update_notebook_name(&mut index, "nope", "x").unwrap_err(), "Notebook not found");
}

#[test]
fn moving_a_note_between_notebooks() {
    let mut index = sample();
    index.notebooks.push(notebook("nb1", "One", false, "2024-01-01"));
    let meta = move_note_to_notebook(&mut index, "a", Some("nb1")).unwrap();
    assert_eq!(meta.notebook_id.as_deref(), Some("nb1"));
    assert_eq!(index.notes[0].notebook_id.as_deref(), Some("nb1"));
    let meta = move_note_to_notebook(&mut index, "a", None).unwrap();
    assert_eq!(meta.notebook_id, None);
    assert_eq!(move_note_to_notebook(&mut index, "", Some("..")).unwrap_err(), "Note id cannot be empty");
    assert_eq!(move_note_to_notebook(&mut index, "a", Some("..")).unwrap_err(), "Invalid notebook id");
    assert_eq!(move_note_to_notebook(&mut index, "zz", Some("nb9")).unwrap_err(), "Notebook not found");
    assert_eq!(move_note_to_notebook(&mut index, "zz", Some("nb1")).unwrap_err(), "Note not found");
    assert_eq!(move_note_to_notebook(&mut index, "zz", None).unwrap_err(), "Note not found");
}

#[test]
fn the_note_of_a_day_is_made_once() {
    let mut index = sample();
    let first = daily_note_for(&mut index, "2024-05-06").unwrap();
    assert_eq!(first.body.as_deref(), Some("# daily\n"));
    assert_eq!(first.meta.title, "2024-05-06");
    assert!(first.meta.is_daily);
    assert_eq!(first.meta.tags, vec!["daily"]);
    assert_eq!(first.meta.filename, format!("{}.txt", first.meta.id));
    assert_eq!(index.notes.len(), 4);
    let again = daily_note_for(&mut index, "2024-05-06").unwrap();
    assert!(again.body.is_none());
    assert_eq!(again.meta.id, first.meta.id);
    assert_eq!(index.notes.len(), 4);
    // A note that merely has the date as its title is not the note of the day.
    index.notes.push(note("plain", "2024-05-07", "2024-05-07T00:00:00+00:00", &[]));
    let other = daily_note_for(&mut index, "2024-05-07").unwrap();
    assert!(other.body.is_some());
    assert_eq!(index.notes.len(), 6);
    // Today's note.
    let today = get_or_create_daily_note(&mut index).unwrap();
    assert_eq!(today.meta.title.len(), 10);
    assert_eq!(index.notes.len(), 7);
    let same = get_or_create_daily_note(&mut index).unwrap();
    assert_eq!(same.meta.id, today.meta.id);
    assert_eq!(index.notes.len(), 7);
}

#[test]
fn operations_stamp_the_instant_they_are_given() {
    let mut index = sample();
    let now = "2024-07-01T00:00:00+00:00";
    let changed = local_private_notes::batch::batch_toggle_important_at(
        &mut index,
        &texts(&["a", "b"]),
        true,
        now,
    );
    assert!(changed.iter().all(|n| n.updated_at == now));
    let merged = local_private_notes::batch::merge_notes_at(
        &mut index,
        &texts(&["a", "b"]),
        &texts(&["x", "y"]),
        "m",
    )
    .unwrap();
    assert_eq!(merged.meta.updated_at, "m");
    let meta = local_private_notes::tagging::remove_tag_from_note_at(&mut index, "a", "work", "r")
        .unwrap();
    assert_eq!(meta.updated_at, "r");
    index.notebooks.push(notebook("nb1", "One", false, "2024-01-01"));
    let meta = local_private_notes::notebooks::move_note_to_notebook_at(
        &mut index,
        "a",
        Some("nb1"),
        "v",
    )
    .unwrap();
    assert_eq!(meta.updated_at, "v");
    let nb = local_private_notes::notebooks::create_notebook_at(
        &mut index,
        " Two ",
        "nb2".to_string(),
        "c",
    )
    .unwrap();
    assert_eq!(nb.id, "nb2");
    assert_eq!(nb.name, "Two");
    assert_eq!(nb.created_at, "c");
    assert_eq!(
        local_private_notes::notebooks::create_notebook_at(&mut index, "Three", "nb2".to_string(), "c")
            .unwrap_err(),
        "No fresh identifier could be made"
    );
    assert_eq!(
        local_private_notes::notebooks::create_notebook_at(&mut index, "Three", "..".to_string(), "c")
            .unwrap_err(),
        "Invalid notebook id"
    );
    let daily = local_private_notes::daily::daily_note_at(
        &mut index,
        "2024-07-01",
        "day-1".to_string(),
        now,
    )
    .unwrap();
    assert_eq!(daily.meta.id, "day-1");
    assert_eq!(daily.meta.created_at, now);
    // The note is there: the identifier does not matter.
    let again = local_private_notes::daily::daily_note_at(&mut index, "2024-07-01", "a".to_string(), "z")
        .unwrap();
    assert_eq!(again.meta.id, "day-1");
    assert_eq!(
        local_private_notes::daily::daily_note_at(&mut index, "2024-07-02", "a".to_string(), "z")
            .unwrap_err(),
        "No fresh identifier could be made"
    );
}
