//! The search language.

use local_private_notes::clock::DayBounds;
use local_private_notes::models::{ImageRef, NoteContent, NoteMeta};
use local_private_notes::query::{
    body_has_task_lines, filter_notes, note_matches_body, note_matches_meta, parse_query,
    query_is_blank, search_notes, search_notes_at, sort_latest_first, DateFilter,
};

fn note(id: &str, title: &str, updated_at: &str, tags: &[&str], important: bool) -> NoteMeta {
    NoteMeta {
        id: id.to_string(),
        title: title.to_string(),
        created_at: "2024-01-01T00:00:00+00:00".to_string(),
        updated_at: updated_at.to_string(),
        important,
        filename: format!("{}.txt", id),
        images: vec![],
        tags: tags.iter().map(|t| t.to_string()).collect(),
        links_to: vec![],
        is_daily: false,
        notebook_id: None,
    }
}

fn with_body(meta: NoteMeta, body: &str) -> NoteContent {
    NoteContent { meta, body: body.to_string() }
}

fn bounds() -> DayBounds {
    DayBounds {
        today: "2024-03-31".to_string(),
        week_start: "2024-03-24".to_string(),
        month_start: "2024-03-01".to_string(),
    }
}

fn ids(found: &[NoteMeta]) -> Vec<&str> {
    found.iter().map(|n| n.id.as_str()).collect()
}

fn sample() -> Vec<NoteContent> {
    vec![
        with_body(note("a", "Alpha plan", "2024-03-31T10:00:00+00:00", &["Work"], true), "- [ ] buy milk"),
        with_body(note("b", "Beta", "2024-03-25T10:00:00+00:00", &["work", "home"], false), "Plan B\n  * [x] done"),
        with_body(note("c", "Gamma", "2024-03-02T10:00:00+00:00", &["WORK"], true), "nothing here"),
        with_body(note("d", "Delta", "2024-01-15T10:00:00+00:00", &["home"], true), "- [X] a\n- [ ] b"),
    ]
}

#[test]
fn reading_a_query() {
    let q = parse_query("  TAG:Work is:STARRED date:Week has:attachments has:tasks is:completed Hello wörld  ");
    assert_eq!(q.tags, vec!["work"]);
    assert!(q.starred_only);
    assert_eq!(q.dates, vec![DateFilter::Week]);
    assert!(q.has_attachments);
    assert!(q.has_tasks);
    assert!(q.checked && !q.unchecked);
    assert_eq!(q.terms, vec!["hello", "wörld"]);
    assert!(q.needs_body());

    // Filters of one kind are kept side by side.
    let q = parse_query("tag: tag:a tag:B is:uncompleted is:completed date:today date:month");
    assert_eq!(q.tags, vec!["a", "b"]);
    assert!(q.checked && q.unchecked);
    assert_eq!(q.dates, vec![DateFilter::Today, DateFilter::Month]);
    assert!(q.terms.is_empty());

    let q = parse_query("date:today");
    assert_eq!(q.dates, vec![DateFilter::Today]);
    assert!(!q.needs_body());

    // An operator without a value is passed over; unknown operators are terms.
    let q = parse_query("tag: is:open date:");
    assert!(q.tags.is_empty());
    assert_eq!(q.terms, vec!["is:open", "date:"]);

    let q = parse_query("");
    assert!(q.tags.is_empty() && !q.starred_only && q.dates.is_empty() && q.terms.is_empty());
    assert!(!q.has_attachments && !q.has_tasks && !q.checked && !q.unchecked);
}

#[test]
fn filters_of_one_kind_hold_together() {
    let notes = sample();
    // Two tags: the note must carry both.
    assert_eq!(ids(&search_notes(&notes, "tag:work tag:home").unwrap()), vec!["b"]);
    assert_eq!(ids(&search_notes(&notes, "tag:home tag:WORK").unwrap()), vec!["b"]);
    assert!(search_notes(&notes, "tag:work tag:none").unwrap().is_empty());
    // Checked and unchecked: the body must hold a task of each kind.
    assert_eq!(ids(&search_notes(&notes, "is:completed is:uncompleted").unwrap()), vec!["d"]);
    // Two dates: the note must be recent enough for both.
    let b = bounds();
    assert_eq!(ids(&search_notes_at(&notes, "date:month date:week", &b)), vec!["a", "b"]);
    assert_eq!(ids(&search_notes_at(&notes, "date:today date:month", &b)), vec!["a"]);
}

#[test]
fn blank_queries() {
    assert!(query_is_blank(""));
    assert!(query_is_blank("  \t\n "));
    assert!(!query_is_blank(" x "));
}

#[test]
fn a_blank_query_returns_all_notes_in_order() {
    let notes = sample();
    assert_eq!(ids(&search_notes(&notes, "").unwrap()), vec!["a", "b", "c", "d"]);
    assert_eq!(ids(&search_notes(&notes, "   ").unwrap()), vec!["a", "b", "c", "d"]);
    assert_eq!(ids(&search_notes_at(&notes, "\n", &bounds())), vec!["a", "b", "c", "d"]);
    assert!(search_notes(&Vec::new(), "").unwrap().is_empty());
}

#[test]
fn tag_and_starred_keep_exactly_the_starred_notes_with_the_tag() {
    let notes = sample();
    let found = search_notes(&notes, "tag:work is:starred").unwrap();
    assert_eq!(ids(&found), vec!["a", "c"]);
    let found = search_notes(&notes, "is:starred TAG:WORK").unwrap();
    assert_eq!(ids(&found), vec!["a", "c"]);
    assert_eq!(ids(&search_notes(&notes, "tag:work").unwrap()), vec!["a", "b", "c"]);
    assert_eq!(ids(&search_notes(&notes, "is:starred").unwrap()), vec!["a", "c", "d"]);
    assert!(search_notes(&notes, "tag:none").unwrap().is_empty());
}

#[test]
fn results_come_latest_first() {
    let mut notes = sample();
    notes.reverse();
    assert_eq!(ids(&search_notes(&notes, "is:starred").unwrap()), vec!["a", "c", "d"]);
    // Notes changed at the same time keep their order.
    let same = vec![
        note("x", "1", "2024-01-01T00:00:00+00:00", &[], false),
        note("y", "2", "2024-01-02T00:00:00+00:00", &[], false),
        note("z", "3", "2024-01-01T00:00:00+00:00", &[], false),
    ];
    assert_eq!(ids(&sort_latest_first(&same)), vec!["y", "x", "z"]);
    assert!(sort_latest_first(&Vec::new()).is_empty());
}

#[test]
fn date_filters_compare_days() {
    let notes = sample();
    let b = bounds();
    assert_eq!(ids(&search_notes_at(&notes, "date:today", &b)), vec!["a"]);
    assert_eq!(ids(&search_notes_at(&notes, "date:week", &b)), vec!["a", "b"]);
    assert_eq!(ids(&search_notes_at(&notes, "date:month", &b)), vec!["a", "b", "c"]);
    // The first day of the range counts.
    let edge = vec![with_body(note("e", "Edge", "2024-03-24", &[], false), "")];
    assert_eq!(ids(&search_notes_at(&edge, "date:week", &b)), vec!["e"]);
    let before = vec![with_body(note("e", "Edge", "2024-03-23T23:59:59+00:00", &[], false), "")];
    assert!(search_notes_at(&before, "date:week", &b).is_empty());
    // A note changed after today is not older than today.
    let later = vec![with_body(note("f", "Future", "2024-04-01T00:00:00+00:00", &[], false), "")];
    assert_eq!(ids(&search_notes_at(&later, "date:today", &b)), vec!["f"]);
    // With the real clock, notes of long ago are not of this week.
    assert!(search_notes(&notes, "date:week").unwrap().is_empty());
}

#[test]
fn attachments_and_tasks() {
    let mut notes = sample();
    notes[1].meta.images.push(ImageRef {
        name: "a.png".to_string(),
        path: "images/b/1-a.png".to_string(),
        added_at: "2024-03-25T10:00:00+00:00".to_string(),
        size: Some(3),
    });
    assert_eq!(ids(&search_notes(&notes, "has:attachments").unwrap()), vec!["b"]);
    assert_eq!(ids(&search_notes(&notes, "has:tasks").unwrap()), vec!["a", "b", "d"]);
    assert_eq!(ids(&search_notes(&notes, "is:completed").unwrap()), vec!["b", "d"]);
    assert_eq!(ids(&search_notes(&notes, "is:uncompleted").unwrap()), vec!["a", "d"]);
    assert_eq!(ids(&search_notes(&notes, "has:tasks is:completed has:attachments").unwrap()), vec!["b"]);
}

#[test]
fn task_lines() {
    assert_eq!(body_has_task_lines(""), (false, false));
    assert_eq!(body_has_task_lines("- [ ] a"), (true, false));
    assert_eq!(body_has_task_lines("* [ ] a"), (true, false));
    assert_eq!(body_has_task_lines("- [x] a"), (false, true));
    assert_eq!(body_has_task_lines("- [X]"), (false, true));
    assert_eq!(body_has_task_lines("* [x] a\r\n\t- [ ] b\r\n"), (true, true));
    assert_eq!(body_has_task_lines("text - [ ] a"), (false, false));
    assert_eq!(body_has_task_lines("-[ ] a\n- [] b\n- [y] c\n+ [ ] d"), (false, false));
    assert_eq!(body_has_task_lines("line\n   - [ ] indented"), (true, false));
}

#[test]
fn terms_must_all_stand_in_title_or_body() {
    let notes = sample();
    assert_eq!(ids(&search_notes(&notes, "plan").unwrap()), vec!["a", "b"]);
    assert_eq!(ids(&search_notes(&notes, "PLAN b").unwrap()), vec!["a", "b"]);
    assert_eq!(ids(&search_notes(&notes, "plan milk").unwrap()), vec!["a"]);
    assert_eq!(ids(&search_notes(&notes, "plan tag:work is:starred").unwrap()), vec!["a"]);
    assert!(search_notes(&notes, "plan missing").unwrap().is_empty());
    assert_eq!(ids(&search_notes(&notes, "NOTHING").unwrap()), vec!["c"]);
}

#[test]
fn the_two_halves_of_a_match() {
    let b = bounds();
    let q = parse_query("tag:home is:starred date:month word");
    let old = note("d", "Delta", "2024-01-15T10:00:00+00:00", &["home"], true);
    let new = note("e", "Echo", "2024-03-15T10:00:00+00:00", &["Home"], true);
    assert!(!note_matches_meta(&q, &old, &b));
    assert!(note_matches_meta(&q, &new, &b));
    assert!(note_matches_body(&q, "Title", "a WORD here"));
    assert!(note_matches_body(&q, "Word", ""));
    assert!(!note_matches_body(&q, "Title", "body"));
    let kept = filter_notes(&vec![with_body(old, "word"), with_body(new, "word")], &q, &b);
    assert_eq!(ids(&kept), vec!["e"]);
}
