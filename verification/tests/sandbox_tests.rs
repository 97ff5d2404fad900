//! File-name sanitizing, identifier validation and the layout of the store.

use local_private_notes::sandbox::{
    check_relative_path, images_dir, index_path, index_temp_path, meta_dir, note_path, notes_dir,
    resolve_image_path, sanitize_filename, sync_config_path, templates_path, templates_temp_path,
    validate_note_id, validate_notebook_id, version_filename, versions_dir,
};

#[test]
fn test_sanitize_filename_removes_path_separators() {
    assert_eq!(sanitize_filename("a/b"), "a_b");
    assert_eq!(sanitize_filename("a\\b"), "a_b");
    assert_eq!(sanitize_filename("a:b"), "a_b");
}

#[test]
fn test_sanitize_filename_removes_dangerous_chars() {
    assert_eq!(sanitize_filename("a*b?c"), "a_b_c");
    assert_eq!(sanitize_filename("a\"b<c>d|e"), "a_b_c_d_e");
}

#[test]
fn test_sanitize_filename_trims() {
    assert_eq!(sanitize_filename("  foo  "), "foo");
}

#[test]
fn test_sanitize_filename_empty_after_trim() {
    let s = sanitize_filename("  ...  ");
    assert!(s.len() <= 200);
}

#[test]
fn test_validate_note_id_empty() {
    assert!(validate_note_id("").is_err());
}

#[test]
fn test_validate_note_id_no_slash() {
    assert!(validate_note_id("valid-id").is_ok());
    assert!(validate_note_id("uuid-like-123").is_ok());
}

#[test]
fn test_validate_note_id_rejects_traversal() {
    assert!(validate_note_id("..").is_err());
    assert!(validate_note_id(".").is_err());
    assert!(validate_note_id("a/b").is_err());
    assert!(validate_note_id("a\\b").is_err());
}

#[test]
fn sanitize_replaces_control_characters_and_nul() {
    assert_eq!(sanitize_filename("a\0b"), "a_b");
    assert_eq!(sanitize_filename("a\u{7f}b\u{9f}c"), "a_b_c");
    // A tab is a control character: it is replaced before trimming.
    assert_eq!(sanitize_filename("\tfoo\n"), "_foo_");
    assert_eq!(sanitize_filename("  ...  "), "...");
    assert_eq!(sanitize_filename(""), "");
}

#[test]
fn sanitize_keeps_at_most_200_characters() {
    let long = "é".repeat(250);
    let s = sanitize_filename(&long);
    assert_eq!(s.chars().count(), 200);
    assert_eq!(s, "é".repeat(200));
    let exact = "x".repeat(200);
    assert_eq!(sanitize_filename(&exact), exact);
}

#[test]
fn sanitize_output_has_no_forbidden_character() {
    let all: String = (0u32..0x3000).filter_map(char::from_u32).collect();
    let s = sanitize_filename(&all);
    assert!(s.chars().count() <= 200);
    for c in s.chars() {
        assert!(!"/\\:*?\"<>|".contains(c));
        assert!(!c.is_control());
    }
}

#[test]
fn sanitize_twice_equals_once() {
    for name in ["a/b", "  foo  ", "note: 1?", "x\ty", "", "  ...  ", "plain"] {
        let once = sanitize_filename(name);
        assert_eq!(sanitize_filename(&once), once);
    }
}

#[test]
fn sanitize_twice_differs_where_the_cut_leaves_a_space() {
    // The 200th character is a space that stood inside the longer name.
    let name = format!("{} b", "a".repeat(199));
    let once = sanitize_filename(&name);
    assert_eq!(once, format!("{} ", "a".repeat(199)));
    assert_eq!(sanitize_filename(&once), "a".repeat(199));
}

#[test]
fn validate_note_id_messages() {
    assert_eq!(validate_note_id(""), Err("Note id cannot be empty".to_string()));
    assert_eq!(validate_note_id("."), Err("Invalid note id".to_string()));
    assert_eq!(validate_note_id(".."), Err("Invalid note id".to_string()));
    assert_eq!(validate_note_id("a/b"), Err("Invalid note id".to_string()));
    assert_eq!(validate_note_id("a\\b"), Err("Invalid note id".to_string()));
    assert_eq!(validate_note_id("a\nb"), Err("Invalid note id".to_string()));
    assert_eq!(validate_note_id("a\u{85}b"), Err("Invalid note id".to_string()));
    assert_eq!(validate_note_id("note-123"), Ok(()));
    assert_eq!(validate_note_id("..."), Ok(()));
    assert_eq!(validate_note_id("a:b"), Ok(()));
}

#[test]
fn validate_notebook_id_messages() {
    assert_eq!(validate_notebook_id(""), Err("Notebook id cannot be empty".to_string()));
    assert_eq!(validate_notebook_id(".."), Err("Invalid notebook id".to_string()));
    assert_eq!(validate_notebook_id("x/y"), Err("Invalid notebook id".to_string()));
    assert_eq!(validate_notebook_id("nb-1"), Ok(()));
}

#[test]
fn relative_paths_must_stay_below_the_root() {
    assert!(check_relative_path("images/n1/a.png"));
    assert!(check_relative_path(""));
    assert!(!check_relative_path("../x"));
    assert!(!check_relative_path("images/../x"));
    assert!(!check_relative_path("a..b"));
    assert!(!check_relative_path("/etc/passwd"));
    assert_eq!(resolve_image_path("images/n1/a.png"), Ok("images/n1/a.png".to_string()));
    assert_eq!(resolve_image_path("/abs"), Err("Invalid path".to_string()));
    assert_eq!(resolve_image_path("x/../y"), Err("Invalid path".to_string()));
}

#[test]
fn layout_of_the_store() {
    assert_eq!(notes_dir(), "notes");
    assert_eq!(meta_dir(), "meta");
    assert_eq!(index_path(), "meta/index.json");
    assert_eq!(index_temp_path(), "meta/index.json.tmp");
    assert_eq!(templates_path(), "meta/templates.json");
    assert_eq!(templates_temp_path(), "meta/templates.json.tmp");
    assert_eq!(sync_config_path(), "meta/sync_config.json");
    assert_eq!(images_dir("n:1"), "images/n_1");
    assert_eq!(versions_dir(" n1 "), "versions/n1");
    assert_eq!(note_path("a?b"), "notes/a_b.txt");
}

#[test]
fn version_file_names() {
    assert_eq!(
        version_filename("2024-01-01T10:00:00+00:00"),
        "2024-01-01T10-00-00+00-00.json"
    );
    assert_eq!(version_filename(""), ".json");
}
