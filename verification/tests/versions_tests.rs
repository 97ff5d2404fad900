//! The history of a note: snapshots, retention and listing.

use local_private_notes::models::{IndexFile, NoteMeta, VersionSnapshot};
use local_private_notes::sandbox::version_filename;
use local_private_notes::storage::save_note;
use local_private_notes::versions::{
    body_preview, get_note_version, list_note_versions, take_snapshot, version_files_of,
    version_path, versions_to_prune, MAX_VERSIONS_PER_NOTE, PREVIEW_CHARS,
};

fn note(id: &str, title: &str, updated_at: &str) -> NoteMeta {
    NoteMeta {
        id: id.to_string(),
        title: title.to_string(),
        created_at: "2024-01-01T00:00:00+00:00".to_string(),
        updated_at: updated_at.to_string(),
        important: false,
        filename: format!("{}.txt", id),
        images: vec![],
        tags: vec![],
        links_to: vec![],
        is_daily: false,
        notebook_id: None,
    }
}

fn snapshot(saved_at: &str, title: &str, body: &str) -> VersionSnapshot {
    VersionSnapshot {
        saved_at: saved_at.to_string(),
        title: title.to_string(),
        body: body.to_string(),
    }
}

fn names(list: &[&str]) -> Vec<String> {
    list.iter().map(|s| s.to_string()).collect()
}

#[test]
fn a_snapshot_keeps_the_state_before_the_save() {
    let n = note("n1", "Old title", "2024-02-03T04:05:06+00:00");
    let s = take_snapshot(&n, "old body".to_string());
    assert_eq!(s.saved_at, "2024-02-03T04:05:06+00:00");
    assert_eq!(s.title, "Old title");
    assert_eq!(s.body, "old body");
    assert_eq!(
        version_path("n:1", "2024-02-03T04:05:06+00:00"),
        "versions/n_1/2024-02-03T04-05-06+00-00.json"
    );
}

#[test]
fn only_files_ending_in_json_are_history_files() {
    let all = names(&["b.json", "a.txt", ".json", "c.json.tmp", "json", "a.json"]);
    assert_eq!(version_files_of(&all), names(&["b.json", ".json", "a.json"]));
}

#[test]
fn pruning_keeps_the_thirty_newest() {
    assert_eq!(MAX_VERSIONS_PER_NOTE, 30);
    let mut all: Vec<String> = (0..31).map(|k| format!("2024-01-01T00-00-{:02}+00-00.json", k)).collect();
    all.push("notes.txt".to_string());
    // The order in the directory does not matter.
    all.reverse();
    all.swap(3, 17);
    assert_eq!(versions_to_prune(&all), names(&["2024-01-01T00-00-00+00-00.json"]));
    let many: Vec<String> = (0..35).map(|k| format!("v{:02}.json", k)).collect();
    assert_eq!(
        versions_to_prune(&many),
        names(&["v04.json", "v03.json", "v02.json", "v01.json", "v00.json"])
    );
    let thirty: Vec<String> = (0..30).map(|k| format!("v{:02}.json", k)).collect();
    assert!(versions_to_prune(&thirty).is_empty());
    assert!(versions_to_prune(&Vec::new()).is_empty());
}

#[test]
fn thirty_one_saves_leave_thirty_snapshots() {
    let mut index = IndexFile::default();
    index.notes.push(note("n1", "Title", "2024-01-01T00:00:00+00:00"));
    let mut files: Vec<String> = Vec::new();
    let mut body = "body 0".to_string();
    for k in 0..31 {
        let prior = format!("2024-01-01T00:00:{:02}+00:00", k);
        index.notes[0].updated_at = prior.clone();
        let next = format!("body {}", k + 1);
        let out = save_note(&mut index, Some("n1"), "Title", &next, Some(body.clone())).unwrap();
        // Exactly one snapshot, named by the time of last change before the save.
        let s = out.snapshot.expect("a snapshot");
        assert_eq!(s.saved_at, prior);
        assert_eq!(s.body, body);
        assert_eq!(s.title, "Title");
        let name = version_filename(&s.saved_at);
        assert!(!files.contains(&name));
        files.push(name);
        for gone in versions_to_prune(&files) {
            files.retain(|f| *f != gone);
        }
        body = next;
    }
    assert_eq!(files.len(), 30);
    let mut expected: Vec<String> =
        (1..31).map(|k| version_filename(&format!("2024-01-01T00:00:{:02}+00:00", k))).collect();
    files.sort();
    expected.sort();
    assert_eq!(files, expected);
}

#[test]
fn previews_are_cut_at_150_characters() {
    assert_eq!(PREVIEW_CHARS, 150);
    assert_eq!(body_preview(""), "");
    assert_eq!(body_preview("short"), "short");
    let exact = "x".repeat(150);
    assert_eq!(body_preview(&exact), exact);
    let long = "x".repeat(151);
    assert_eq!(body_preview(&long), format!("{}…", "x".repeat(150)));
    // Characters are counted, not bytes, and none is cut in two.
    let accents = "é".repeat(150);
    assert_eq!(body_preview(&accents), accents);
    let more = "é".repeat(200);
    assert_eq!(body_preview(&more), format!("{}…", "é".repeat(150)));
}

#[test]
fn versions_are_listed_newest_first() {
    let snaps = vec![
        snapshot("2024-01-02T00:00:00+00:00", "second", "b"),
        snapshot("2024-01-03T00:00:00+00:00", "third", &"y".repeat(160)),
        snapshot("2024-01-01T00:00:00+00:00", "first", "a"),
        snapshot("2024-01-02T00:00:00+00:00", "second again", "c"),
    ];
    let items = list_note_versions("n1", &snaps).unwrap();
    let titles: Vec<&str> = items.iter().map(|i| i.title.as_str()).collect();
    assert_eq!(titles, vec!["third", "second", "second again", "first"]);
    assert_eq!(items[0].saved_at, "2024-01-03T00:00:00+00:00");
    assert_eq!(items[0].body_preview, format!("{}…", "y".repeat(150)));
    assert_eq!(items[3].body_preview, "a");
    assert!(list_note_versions("n1", &Vec::new()).unwrap().is_empty());
    assert_eq!(list_note_versions("a/b", &snaps).unwrap_err(), "Invalid note id");
    assert_eq!(list_note_versions("", &snaps).unwrap_err(), "Note id cannot be empty");
}

#[test]
fn a_version_is_found_or_not() {
    let found = get_note_version("n1", Some(snapshot("t", "title", "body"))).unwrap();
    assert_eq!(found.saved_at, "t");
    assert_eq!(found.title, "title");
    assert_eq!(found.body, "body");
    assert_eq!(get_note_version("n1", None).unwrap_err(), "Version not found");
    assert_eq!(get_note_version("..", None).unwrap_err(), "Invalid note id");
    assert_eq!(
        get_note_version("", Some(snapshot("t", "title", "body"))).unwrap_err(),
        "Note id cannot be empty"
    );
}
