//! Attachments, templates, exports, the clock and fresh identifiers.

use local_private_notes::attachments::{
    accept_image_data, adopt_images, attach_images, decode_clipboard_image, duplicate_note,
    file_name, image_location_of, new_pasted_name, new_stored_name, pasted_name_at,
    remove_attachment, rename_attachment, stored_name_at, StoredFile,
};
use local_private_notes::clock::{day_bounds_at, day_bounds_now, today};
use local_private_notes::export::{export_note, export_note_as_markdown};
use local_private_notes::ident::new_id;
use local_private_notes::models::{ImageRef, IndexFile, NoteContent, NoteMeta, NoteTemplate};
use local_private_notes::sandbox::validate_note_id;
use local_private_notes::templates::{
    apply_template_placeholders, builtin_templates, create_note_from_template,
    delete_custom_template, list_templates, note_from_template, save_custom_template,
};

fn note(id: &str, title: &str) -> NoteMeta {
    NoteMeta {
        id: id.to_string(),
        title: title.to_string(),
        created_at: "2024-01-01T00:00:00+00:00".to_string(),
        updated_at: "2024-01-01T00:00:00+00:00".to_string(),
        important: false,
        filename: format!("{}.txt", id),
        images: vec![],
        tags: vec![],
        links_to: vec![],
        is_daily: false,
        notebook_id: None,
    }
}

fn image(name: &str, path: &str) -> ImageRef {
    ImageRef {
        name: name.to_string(),
        path: path.to_string(),
        added_at: "2024-01-01T00:00:00+00:00".to_string(),
        size: Some(7),
    }
}

fn index_with(notes: Vec<NoteMeta>) -> IndexFile {
    let mut index = IndexFile::default();
    index.notes = notes;
    index
}

#[test]
fn names_of_stored_files() {
    assert_eq!(stored_name_at(1700000000000, "my photo", "png"), "1700000000000-my photo.png");
    assert_eq!(stored_name_at(12, " a/b ", ""), "12-a_b");
    assert_eq!(stored_name_at(-5, "", "JPG"), "-5-.JPG");
    assert_eq!(pasted_name_at(1700000000000, "paste", Some("PNG")), "1700000000000-paste.png");
    assert_eq!(pasted_name_at(3, "a:b", None), "3-a_b.png");
    assert_eq!(pasted_name_at(3, "x", Some("")), "3-x.png");
    assert_eq!(image_location_of("n1", "3-x.png"), "images/n1/3-x.png");
    let now = new_stored_name("shot", "gif");
    assert!(now.ends_with("-shot.gif"));
    assert!(now[..now.len() - "-shot.gif".len()].parse::<i64>().unwrap() > 1_600_000_000_000);
    assert!(new_pasted_name("p", Some("Jpeg")).ends_with("-p.jpeg"));
}

#[test]
fn decoding_a_pasted_image() {
    assert_eq!(decode_clipboard_image("n1", "  aGVsbG8=\n").unwrap(), b"hello".to_vec());
    assert_eq!(decode_clipboard_image("n1", "   ").unwrap_err(), "Image data is empty");
    let e = decode_clipboard_image("n1", "not base64!").unwrap_err();
    assert!(e.starts_with("Invalid base64 image: "));
    assert!(e.len() > "Invalid base64 image: ".len());
    assert_eq!(decode_clipboard_image("a/b", "aGVsbG8=").unwrap_err(), "Invalid note id");
    assert_eq!(decode_clipboard_image("", "!!").unwrap_err(), "Note id cannot be empty");
    assert_eq!(accept_image_data(Ok(vec![1, 2])), Ok(vec![1, 2]));
    assert_eq!(accept_image_data(Ok(vec![])), Err("Image data is empty".to_string()));
    assert_eq!(
        accept_image_data(Err("why".to_string())),
        Err("Invalid base64 image: why".to_string())
    );
}

#[test]
fn recording_attachments() {
    let mut with_image = note("n1", "First");
    with_image.images.push(image("old.png", "images/n1/1-old.png"));
    let mut index = index_with(vec![note("n0", "Zero"), with_image]);
    let files = vec![
        StoredFile { name: "a.png".to_string(), stored_name: "2-a.png".to_string(), size: Some(10) },
        StoredFile { name: "b".to_string(), stored_name: "3-b".to_string(), size: None },
    ];
    let meta = attach_images(&mut index, "n1", &files).unwrap();
    assert_eq!(meta.images.len(), 3);
    assert_eq!(meta.images[0].path, "images/n1/1-old.png");
    assert_eq!(meta.images[1].name, "a.png");
    assert_eq!(meta.images[1].path, "images/n1/2-a.png");
    assert_eq!(meta.images[1].size, Some(10));
    assert_eq!(meta.images[2].path, "images/n1/3-b");
    assert_eq!(meta.images[2].size, None);
    assert_eq!(meta.images[1].added_at, meta.images[2].added_at);
    assert!(meta.updated_at != "2024-01-01T00:00:00+00:00");
    assert_eq!(index.notes[1].images.len(), 3);
    assert!(index.notes[0].images.is_empty());
    let meta = attach_images(&mut index, "n1", &Vec::new()).unwrap();
    assert_eq!(meta.images.len(), 3);
    assert_eq!(attach_images(&mut index, "zz", &files).unwrap_err(), "Note not found");
    assert_eq!(attach_images(&mut index, "..", &files).unwrap_err(), "Invalid note id");
}

#[test]
fn removing_and_renaming_attachments() {
    let mut n = note("n1", "First");
    n.images.push(image("a.png", "images/n1/1-a.png"));
    n.images.push(image("b.png", "images/n1/2-b.png"));
    n.images.push(image("a2.png", "images/n1/1-a.png"));
    let mut index = index_with(vec![n]);
    let meta = rename_attachment(&mut index, "n1", "images/n1/1-a.png", "  new:name  ").unwrap();
    assert_eq!(meta.images[0].name, "new_name");
    assert_eq!(meta.images[2].name, "a2.png");
    assert_eq!(index.notes[0].images[0].name, "new_name");
    assert_eq!(rename_attachment(&mut index, "", "../x", " ").unwrap_err(), "Note id cannot be empty");
    assert_eq!(rename_attachment(&mut index, "n1", "../x", " ").unwrap_err(), "Invalid path");
    assert_eq!(rename_attachment(&mut index, "zz", "x", "  ").unwrap_err(), "Name cannot be empty");
    assert_eq!(rename_attachment(&mut index, "zz", "x", "n").unwrap_err(), "Note not found");
    assert_eq!(rename_attachment(&mut index, "n1", "x", "n").unwrap_err(), "Attachment not found");

    let meta = remove_attachment(&mut index, "n1", "images/n1/1-a.png").unwrap();
    assert_eq!(meta.images.len(), 1);
    assert_eq!(meta.images[0].path, "images/n1/2-b.png");
    assert_eq!(index.notes[0].images.len(), 1);
    let meta = remove_attachment(&mut index, "n1", "images/n1/none.png").unwrap();
    assert_eq!(meta.images.len(), 1);
    assert_eq!(remove_attachment(&mut index, "n1", "/abs").unwrap_err(), "Invalid path");
    assert_eq!(remove_attachment(&mut index, "n1", "a/../b").unwrap_err(), "Invalid path");
    assert_eq!(remove_attachment(&mut index, "a/b", "/abs").unwrap_err(), "Invalid note id");
    assert_eq!(remove_attachment(&mut index, "zz", "x").unwrap_err(), "Note not found");
}

#[test]
fn duplicating_a_note() {
    let mut source = note("n1", "  Plan  ");
    source.images.push(image("a.png", "images/n1/1-a.png"));
    source.images.push(image("odd", "images/n1/"));
    let mut index = index_with(vec![source]);
    let out = duplicate_note(&mut index, "n1", Some("body #t".to_string())).unwrap();
    assert_eq!(out.source.meta.id, "n1");
    assert_eq!(out.source.body, "body #t");
    assert_eq!(out.copy.title, "Plan (copy)");
    assert_eq!(out.copy.tags, vec!["plan-copy", "t"]);
    assert!(out.copy.images.is_empty());
    assert!(out.copy.id != "n1");
    assert_eq!(index.notes.len(), 2);
    let meta = adopt_images(&mut index, &out.copy.id, &out.source.meta.images).unwrap();
    assert_eq!(meta.images.len(), 2);
    assert_eq!(meta.images[0].name, "a.png");
    assert_eq!(meta.images[0].path, format!("images/{}/1-a.png", out.copy.id));
    assert_eq!(meta.images[0].size, Some(7));
    assert_eq!(meta.images[1].path, format!("images/{}/image", out.copy.id));
    assert_eq!(adopt_images(&mut index, "zz", &Vec::new()).unwrap_err(), "Note not found");
    assert_eq!(duplicate_note(&mut index, "zz", None).unwrap_err(), "Note not found");
    assert_eq!(duplicate_note(&mut index, ".", None).unwrap_err(), "Invalid note id");
    assert_eq!(file_name("images/n1/1-a.png"), "1-a.png");
    assert_eq!(file_name("plain"), "plain");
    assert_eq!(file_name("dir/"), "image");
    assert_eq!(file_name(""), "image");
    assert_eq!(file_name("images/x/.."), "image");
    assert_eq!(file_name("images/x/."), "image");
    assert_eq!(file_name(".."), "image");
    assert_eq!(file_name("a/..b"), "..b");
}

#[test]
fn built_in_templates() {
    let all = builtin_templates();
    let ids: Vec<&str> = all.iter().map(|t| t.id.as_str()).collect();
    assert_eq!(ids, vec!["daily-journal", "meeting-notes", "project-planning"]);
    assert!(all.iter().all(|t| !t.is_custom));
    assert_eq!(all[0].name, "Daily journal");
    assert_eq!(
        all[0].body,
        "# Daily Journal — {{date}}\n\n## What happened today\n- \n\n## Thoughts & reflections\n- \n\n## Tomorrow\n- \n"
    );
    assert_eq!(all[0].default_title_pattern.as_deref(), Some("Journal {{date}}"));
    assert_eq!(
        all[1].body,
        "# Meeting: {{title}}\n\n**Date:** {{date}}\n**Attendees:** \n**Agenda:**\n- \n\n**Notes:**\n- \n\n**Action items:**\n- [ ] \n- [ ] \n"
    );
    assert_eq!(all[1].default_title_pattern.as_deref(), Some("Meeting {{date}}"));
    assert_eq!(
        all[2].body,
        "# Project: {{title}}\n\n## Overview\n- **Goal:** \n- **Timeline:** \n\n## Tasks\n- [ ] \n- [ ] \n\n## Notes\n- \n"
    );
    assert_eq!(all[2].default_title_pattern.as_deref(), Some("Project"));
}

#[test]
fn templates_of_users() {
    let mut custom: Vec<NoteTemplate> = Vec::new();
    let t = save_custom_template(&mut custom, "Weekly", "# {{title}} {{date}}");
    assert!(t.id.starts_with("custom-"));
    assert_eq!(t.id.len(), "custom-".len() + 36);
    assert_eq!(t.name, "Weekly");
    assert_eq!(t.body, "# {{title}} {{date}}");
    assert_eq!(t.default_title_pattern.as_deref(), Some("Weekly"));
    assert!(t.is_custom);
    assert_eq!(custom.len(), 1);
    let u = save_custom_template(&mut custom, "Other", "");
    assert!(u.id != t.id);
    let all = list_templates(&custom);
    assert_eq!(all.len(), 5);
    assert_eq!(all[3].id, t.id);
    assert_eq!(all[4].id, u.id);
    assert_eq!(
        delete_custom_template(&mut custom, "daily-journal"),
        Err("Can only delete custom templates".to_string())
    );
    assert_eq!(
        delete_custom_template(&mut custom, "custom-none"),
        Err("Template not found".to_string())
    );
    assert_eq!(custom.len(), 2);
    assert_eq!(delete_custom_template(&mut custom, &t.id), Ok(()));
    assert_eq!(custom.len(), 1);
    assert_eq!(custom[0].id, u.id);
}

#[test]
fn notes_from_templates() {
    assert_eq!(
        apply_template_placeholders("{{title}} on {{date}}", "T {{date}}", "2024-05-06"),
        ("T {{date}} on 2024-05-06".to_string(), "T 2024-05-06".to_string())
    );
    let mut index = IndexFile::default();
    let custom = vec![NoteTemplate {
        id: "custom-1".to_string(),
        name: "Bare".to_string(),
        body: "b {{title}}".to_string(),
        default_title_pattern: None,
        is_custom: true,
    }];
    let made = note_from_template(&mut index, &custom, "meeting-notes", None, "2024-05-06").unwrap();
    assert_eq!(made.meta.title, "Meeting 2024-05-06");
    // The title goes into the body as it was asked for, after the date was filled in.
    assert!(made.body.starts_with("# Meeting: Meeting {{date}}\n\n**Date:** 2024-05-06\n"));
    assert_eq!(made.meta.tags, vec!["meeting-2024-05-06"]);
    assert_eq!(index.notes.len(), 1);
    let made = note_from_template(&mut index, &custom, "project-planning", Some("  Roof  "), "2024-05-06").unwrap();
    assert_eq!(made.meta.title, "Roof");
    assert!(made.body.starts_with("# Project: Roof\n"));
    let made = note_from_template(&mut index, &custom, "custom-1", Some("   "), "2024-05-06").unwrap();
    assert_eq!(made.meta.title, "Untitled");
    assert_eq!(made.body, "b Untitled");
    let made = note_from_template(&mut index, &custom, "custom-1", None, "2024-05-06").unwrap();
    assert_eq!(made.meta.title, "Untitled");
    assert_eq!(
        note_from_template(&mut index, &custom, "nope", None, "2024-05-06").unwrap_err(),
        "Template not found"
    );
    assert_eq!(index.notes.len(), 4);
    let made = create_note_from_template(&mut index, &custom, "daily-journal", None).unwrap();
    assert!(made.meta.title.starts_with("Journal 20"));
    assert_eq!(made.meta.title.len(), "Journal ".len() + 10);
    assert_eq!(
        create_note_from_template(&mut index, &custom, "nope", None).unwrap_err(),
        "Template not found"
    );
}

#[test]
fn exporting_a_note() {
    let mut meta = note("n1", "Title");
    let plain = NoteContent { meta: meta.clone(), body: "line".to_string() };
    assert_eq!(export_note(&plain), "Title\n\nline\n");
    assert_eq!(export_note_as_markdown(&plain), "# Title\n\nline\n");
    let closed = NoteContent { meta: meta.clone(), body: "line\n".to_string() };
    assert_eq!(export_note_as_markdown(&closed), "# Title\n\nline\n");
    let empty = NoteContent { meta: meta.clone(), body: String::new() };
    assert_eq!(export_note_as_markdown(&empty), "# Title\n\n\n");
    meta.updated_at = "2024-02-02T00:00:00+00:00".to_string();
    let changed = NoteContent { meta: meta.clone(), body: "b".to_string() };
    assert_eq!(
        export_note_as_markdown(&changed),
        "---\ncreated: 2024-01-01T00:00:00+00:00\nupdated: 2024-02-02T00:00:00+00:00\n---\n\n# Title\n\nb\n"
    );
    meta.tags = vec!["a".to_string(), "b-c".to_string()];
    meta.updated_at = meta.created_at.clone();
    let tagged = NoteContent { meta, body: "b".to_string() };
    assert_eq!(
        export_note_as_markdown(&tagged),
        "---\ntags:\n  - a\n  - b-c\ncreated: 2024-01-01T00:00:00+00:00\nupdated: 2024-01-01T00:00:00+00:00\n---\n\n# Title\n\nb\n"
    );
}

#[test]
fn the_clock_and_its_dates() {
    let b = day_bounds_at(1_700_000_000_000).unwrap();
    assert_eq!(b.today, "2023-11-14");
    assert_eq!(b.week_start, "2023-11-07");
    assert_eq!(b.month_start, "2023-10-15");
    let b = day_bounds_at(0).unwrap();
    assert_eq!(b.today, "1970-01-01");
    assert_eq!(b.week_start, "1969-12-25");
    assert_eq!(b.month_start, "1969-12-02");
    let b = day_bounds_at(86_399_999).unwrap();
    assert_eq!(b.today, "1970-01-01");
    let b = day_bounds_at(86_400_000).unwrap();
    assert_eq!(b.today, "1970-01-02");
    assert!(day_bounds_at(i64::MIN).is_none());
    assert!(day_bounds_at(i64::MAX).is_none());
    let now = day_bounds_now().unwrap();
    assert_eq!(Some(now.today.clone()), today());
    assert!(now.week_start < now.today && now.month_start < now.week_start);
    // A note made now is stamped with the present instant, in UTC.
    let mut index = IndexFile::default();
    let stamp = local_private_notes::storage::save_new_note(&mut index, "t", "").unwrap().meta.updated_at;
    assert!(stamp.starts_with(&now.today) || stamp[..4] == now.today[..4]);
    assert_eq!(&stamp[10..11], "T");
    assert!(stamp.ends_with("+00:00"));
}

#[test]
fn fresh_identifiers() {
    let a = new_id();
    let b = new_id();
    assert!(a != b);
    for id in [&a, &b] {
        assert_eq!(id.len(), 36);
        assert!(id.chars().all(|c| c == '-' || c.is_ascii_digit() || ('a'..='f').contains(&c)));
        assert_eq!(id.chars().filter(|c| *c == '-').count(), 4);
        assert_eq!(validate_note_id(id), Ok(()));
    }
}

#[test]
fn attachments_and_copies_stamp_the_instant_they_are_given() {
    let mut n = note("n1", "First");
    n.images.push(image("a.png", "images/n1/1-a.png"));
    let mut index = index_with(vec![n]);
    let files = vec![StoredFile { name: "b".to_string(), stored_name: "2-b".to_string(), size: None }];
    let meta = local_private_notes::attachments::attach_images_at(&mut index, "n1", &files, "t1").unwrap();
    assert_eq!(meta.updated_at, "t1");
    assert_eq!(meta.images[1].added_at, "t1");
    let meta = local_private_notes::attachments::rename_attachment_at(&mut index, "n1", "images/n1/2-b", "c", "t2").unwrap();
    assert_eq!(meta.updated_at, "t2");
    let meta = local_private_notes::attachments::remove_attachment_at(&mut index, "n1", "images/n1/2-b", "t3").unwrap();
    assert_eq!(meta.updated_at, "t3");
    let out = local_private_notes::attachments::duplicate_note_at(&mut index, "n1", None, "t4").unwrap();
    assert_eq!(out.copy.created_at, "t4");
    assert_eq!(out.copy.updated_at, "t4");
    let meta = local_private_notes::attachments::adopt_images_at(&mut index, &out.copy.id, &out.source.meta.images, "t5").unwrap();
    assert_eq!(meta.updated_at, "t5");
    assert_eq!(meta.images[0].added_at, "t5");
    let custom: Vec<NoteTemplate> = Vec::new();
    let made = local_private_notes::templates::note_from_template_at(
        &mut index,
        &custom,
        "project-planning",
        Some("Roof"),
        "2024-05-06",
        "roof-1".to_string(),
        "t6",
    )
    .unwrap();
    assert_eq!(made.meta.id, "roof-1");
    assert_eq!(made.meta.created_at, "t6");
    assert_eq!(
        local_private_notes::templates::note_from_template_at(
            &mut index, &custom, "project-planning", None, "2024-05-06", "roof-1".to_string(), "t6",
        )
        .unwrap_err(),
        "No fresh identifier could be made"
    );
    assert_eq!(
        local_private_notes::templates::note_from_template_at(
            &mut index, &custom, "nope", None, "2024-05-06", "roof-1".to_string(), "t6",
        )
        .unwrap_err(),
        "Template not found"
    );
}
