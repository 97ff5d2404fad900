//! Tags and links derived from the text of a note.

use local_private_notes::annotate::{
    derive_tags, extract_links_from_body, extract_tags_from_body, extract_tags_from_title,
    slug_of_title,
};
use local_private_notes::models::NoteMeta;

fn note(id: &str, title: &str) -> NoteMeta {
    NoteMeta {
        id: id.to_string(),
        title: title.to_string(),
        created_at: "2024-01-01T00:00:00+00:00".to_string(),
        updated_at: "2024-01-01T00:00:00+00:00".to_string(),
        important: false,
        filename: format!("{}.txt", id),
        images: vec![],
        tags: vec![],
        links_to: vec![],
        is_daily: false,
        notebook_id: None,
    }
}

#[test]
fn tags_from_body_are_sorted_and_keep_their_case() {
    assert_eq!(extract_tags_from_body("hello #foo #Bar-2 baz"), vec!["Bar-2", "foo"]);
}

#[test]
fn tags_from_body_edge_cases() {
    assert!(extract_tags_from_body("").is_empty());
    assert!(extract_tags_from_body("# heading and a lone #").is_empty());
    assert_eq!(extract_tags_from_body("#a #a #b"), vec!["a", "b"]);
    assert_eq!(extract_tags_from_body("#a#b"), vec!["a", "b"]);
    assert_eq!(extract_tags_from_body("##x"), vec!["x"]);
    assert_eq!(extract_tags_from_body("x#y_z-1!"), vec!["y_z-1"]);
    assert_eq!(extract_tags_from_body("#été #日本語 #١٢٣"), vec!["été", "١٢٣", "日本語"]);
    assert_eq!(extract_tags_from_body("end #tag"), vec!["tag"]);
    assert_eq!(extract_tags_from_body("#-"), vec!["-"]);
}

#[test]
fn tag_from_title() {
    assert_eq!(extract_tags_from_title("Project Alpha"), vec!["project-alpha"]);
    assert!(extract_tags_from_title("!!!").is_empty());
}

#[test]
fn tag_from_title_edge_cases() {
    assert!(extract_tags_from_title("").is_empty());
    assert!(extract_tags_from_title("a").is_empty());
    assert_eq!(extract_tags_from_title("ab"), vec!["ab"]);
    // One character of two bytes makes a slug of length two.
    assert_eq!(extract_tags_from_title("é"), vec!["é"]);
    // Hyphens and underscores stay but make no tag by themselves.
    assert!(extract_tags_from_title("--").is_empty());
    assert!(extract_tags_from_title("_ -").is_empty());
    assert_eq!(extract_tags_from_title("  Meeting:  Notes!  "), vec!["meeting-notes"]);
    assert_eq!(extract_tags_from_title("A_b-C"), vec!["a_b-c"]);
    assert_eq!(extract_tags_from_title("Tab\tSeparated"), vec!["tab-separated"]);
    assert_eq!(slug_of_title("Hello, World"), "hello-world");
    assert_eq!(slug_of_title("!!!"), "");
    assert_eq!(slug_of_title("ÀÉ Î"), "àé-î");
}

#[test]
fn tags_of_a_note_are_the_union() {
    assert_eq!(
        derive_tags("Meeting Notes", "Agenda #work\n[[Project Plan]]"),
        vec!["meeting-notes", "work"]
    );
    assert_eq!(derive_tags("work", "#work"), vec!["work"]);
    assert_eq!(derive_tags("!", "no tags"), Vec::<String>::new());
}

#[test]
fn links_resolve_by_title_and_leave_out_the_excluded_note() {
    let notes = vec![note("P", "Project Plan")];
    assert_eq!(extract_links_from_body("see [[Project Plan]]", &notes, "other"), vec!["P"]);
    assert!(extract_links_from_body("see [[Project Plan]]", &notes, "P").is_empty());
}

#[test]
fn links_edge_cases() {
    let notes = vec![note("b", "Beta"), note("a", "Alpha"), note("a2", "ALPHA"), note("c", "x]y")];
    // Case is ignored, the first match wins, the result is sorted and unique.
    assert_eq!(
        extract_links_from_body("[[beta]] [[alpha]] [[ALPHA]] [[Beta]]", &notes, ""),
        vec!["a", "b"]
    );
    // With the first match excluded, the next one is taken.
    assert_eq!(extract_links_from_body("[[alpha]]", &notes, "a"), vec!["a2"]);
    // Titles are trimmed; blank and unknown titles are dropped.
    assert_eq!(extract_links_from_body("[[  Alpha  ]] [[ ]] [[]] [[Gamma]]", &notes, ""), vec!["a"]);
    // A single closing bracket belongs to the title.
    assert_eq!(extract_links_from_body("[[x]y]]", &notes, ""), vec!["c"]);
    // A link that is never closed is no link.
    assert!(extract_links_from_body("see [[Alpha", &notes, "").is_empty());
    assert!(extract_links_from_body("see [[Alpha]", &notes, "").is_empty());
    assert!(extract_links_from_body("[[", &notes, "").is_empty());
    assert!(extract_links_from_body("[[Beta]] and [[Alpha", &notes, "") == vec!["b"]);
    assert!(extract_links_from_body("[[Alpha [[Beta]]", &notes, "").is_empty());
    assert_eq!(extract_links_from_body("[[Alpha]]]", &notes, ""), vec!["a"]);
    // Three opening brackets: the third belongs to the title.
    assert!(extract_links_from_body("[[[Alpha]]", &notes, "").is_empty());
    assert_eq!(extract_links_from_body("[ [[Alpha]]", &notes, ""), vec!["a"]);
    assert!(extract_links_from_body("", &notes, "").is_empty());
    assert!(extract_links_from_body("[[Alpha]]", &Vec::new(), "").is_empty());
}
