//! Templates: the patterns that are built in, the ones that users make,
//! and how a note is made from one.

use crate::clock::{now_rfc3339, today, utc_date};
use crate::ident::{is_uuid_text, new_id};
use crate::models::{
    IndexFile, IndexFileView, NoteMeta, NoteMetaView, NoteTemplate, NoteTemplateView,
};
use crate::storage::{
    adds_note, all_taken, fresh_note_id, has_uuid_id, is_new_note, new_note_error, no_fresh_id,
    save_new_note_at,
};
use crate::text::{
    append_str, from_chars, has_prefix, replace_all, replaced_all, same_text, starts_with,
    to_chars, trim, trim_chars,
};
use vstd::prelude::*;

verus! {

/// The template for a journal of the day.
pub open spec fn daily_journal() -> NoteTemplateView {
    NoteTemplateView {
        id: "daily-journal"@,
        name: "Daily journal"@,
        body: "# Daily Journal \u{2014} {{date}}\n\n## What happened today\n- \n\n## Thoughts & reflections\n- \n\n## Tomorrow\n- \n"@,
        default_title_pattern: Some("Journal {{date}}"@),
        is_custom: false,
    }
}

/// The template for the notes of a meeting.
pub open spec fn meeting_notes() -> NoteTemplateView {
    NoteTemplateView {
        id: "meeting-notes"@,
        name: "Meeting notes"@,
        body: "# Meeting: {{title}}\n\n**Date:** {{date}}\n**Attendees:** \n**Agenda:**\n- \n\n**Notes:**\n- \n\n**Action items:**\n- [ ] \n- [ ] \n"@,
        default_title_pattern: Some("Meeting {{date}}"@),
        is_custom: false,
    }
}

/// The template for the plan of a project.
pub open spec fn project_planning() -> NoteTemplateView {
    NoteTemplateView {
        id: "project-planning"@,
        name: "Project planning"@,
        body: "# Project: {{title}}\n\n## Overview\n- **Goal:** \n- **Timeline:** \n\n## Tasks\n- [ ] \n- [ ] \n\n## Notes\n- \n"@,
        default_title_pattern: Some("Project"@),
        is_custom: false,
    }
}

/// The templates that are built in, in their order.
pub open spec fn builtin() -> Seq<NoteTemplateView> {
    seq![daily_journal(), meeting_notes(), project_planning()]
}

/// The templates that are built in.
pub fn builtin_templates() -> (r: Vec<NoteTemplate>)
    ensures
        r.deep_view() == builtin(),
{
    let mut out: Vec<NoteTemplate> = Vec::new();
    out.push(
        NoteTemplate {
            id: "daily-journal".to_string(),
            name: "Daily journal".to_string(),
            body: "# Daily Journal \u{2014} {{date}}\n\n## What happened today\n- \n\n## Thoughts & reflections\n- \n\n## Tomorrow\n- \n".to_string(),
            default_title_pattern: Some("Journal {{date}}".to_string()),
            is_custom: false,
        },
    );
    out.push(
        NoteTemplate {
            id: "meeting-notes".to_string(),
            name: "Meeting notes".to_string(),
            body: "# Meeting: {{title}}\n\n**Date:** {{date}}\n**Attendees:** \n**Agenda:**\n- \n\n**Notes:**\n- \n\n**Action items:**\n- [ ] \n- [ ] \n".to_string(),
            default_title_pattern: Some("Meeting {{date}}".to_string()),
            is_custom: false,
        },
    );
    out.push(
        NoteTemplate {
            id: "project-planning".to_string(),
            name: "Project planning".to_string(),
            body: "# Project: {{title}}\n\n## Overview\n- **Goal:** \n- **Timeline:** \n\n## Tasks\n- [ ] \n- [ ] \n\n## Notes\n- \n".to_string(),
            default_title_pattern: Some("Project".to_string()),
            is_custom: false,
        },
    );
    proof {
        assert(out.deep_view() =~~= builtin());
    }
    out
}

/// All templates: the built-in ones, then those that users made.
pub fn list_templates(custom: &Vec<NoteTemplate>) -> (r: Vec<NoteTemplate>)
    ensures
        r.deep_view() == builtin() + custom.deep_view(),
{
    let mut out = builtin_templates();
    let ghost lead = out.deep_view();
    let mut i: usize = 0;
    proof {
        assert(custom.deep_view().take(0) =~= Seq::<NoteTemplateView>::empty());
        assert(out.deep_view() =~= lead + custom.deep_view().take(0));
    }
    while i < custom.len()
        invariant
            i <= custom.len(),
            lead == builtin(),
            out.deep_view() == lead + custom.deep_view().take(i as int),
        decreases custom.len() - i,
    {
        let ghost prior = out.deep_view();
        out.push(custom[i].clone());
        proof {
            assert(custom.deep_view()[i as int] == custom[i as int]@);
            assert(out.deep_view() =~~= prior.push(custom[i as int]@));
            assert(lead + custom.deep_view().take(i + 1) =~~= prior.push(custom[i as int]@));
        }
        i += 1;
    }
    proof {
        assert(custom.deep_view().take(custom.len() as int) == custom.deep_view());
    }
    out
}

/// `text` with the date and the title filled in: `{{date}}` gives way to
/// `date`, then `{{title}}` to `title`.
pub open spec fn filled(text: Seq<char>, date: Seq<char>, title: Seq<char>) -> Seq<char> {
    replaced_all(replaced_all(text, "{{date}}"@, date), "{{title}}"@, title)
}

fn fill(text: &str, date: &str, title: &str) -> (r: String)
    ensures
        r@ == filled(text@, date@, title@),
{
    let with_date = replace_all(&to_chars(text), &to_chars("{{date}}"), &to_chars(date));
    from_chars(&replace_all(&with_date, &to_chars("{{title}}"), &to_chars(title)))
}

/// The body and the title of a note made from a template, for the day
/// `date`: each with the date and the title filled in.
pub fn apply_template_placeholders(body: &str, title: &str, date: &str) -> (r: (String, String))
    ensures
        r.0@ == filled(body@, date@, title@),
        r.1@ == filled(title@, date@, title@),
{
    (fill(body, date, title), fill(title, date, title))
}

/// The first of `templates` with the identifier `id`.
pub open spec fn template_with_id(templates: Seq<NoteTemplateView>, id: Seq<char>) -> Option<
    NoteTemplateView,
>
    decreases templates.len(),
{
    if templates.len() == 0 {
        None
    } else if templates[0].id == id {
        Some(templates[0])
    } else {
        template_with_id(templates.drop_first(), id)
    }
}

/// The title from which a note of the template `t` starts: the one asked
/// for or, without one, the template's own; white space around it removed;
/// `Untitled` where nothing is left, or where the template has no title.
pub open spec fn starting_title(t: NoteTemplateView, asked: Option<Seq<char>>) -> Seq<char> {
    let given = match asked {
        Some(a) => a,
        None => match t.default_title_pattern {
            Some(p) => p,
            None => "Untitled"@,
        },
    };
    if trim(given).len() == 0 {
        "Untitled"@
    } else {
        trim(given)
    }
}

fn find_template(templates: &Vec<NoteTemplate>, id: &str) -> (r: Option<usize>)
    ensures
        match r {
            Some(i) => i < templates.len() && template_with_id(templates.deep_view(), id@) == Some(
                templates[i as int]@,
            ),
            None => template_with_id(templates.deep_view(), id@) is None,
        },
{
    let ghost all = templates.deep_view();
    let mut i: usize = 0;
    proof {
        assert(all.skip(0) == all);
    }
    while i < templates.len()
        invariant
            i <= templates.len(),
            all == templates.deep_view(),
            template_with_id(all, id@) == template_with_id(all.skip(i as int), id@),
        decreases templates.len() - i,
    {
        proof {
            assert(all.skip(i as int)[0] == templates[i as int]@);
            assert(all.skip(i as int).drop_first() == all.skip(i + 1));
        }
        if same_text(templates[i].id.as_str(), id) {
            return Some(i);
        }
        i += 1;
    }
    None
}

/// A note made from a template.
#[derive(Debug)]
pub struct TemplateNote {
    /// The note as the index now records it.
    pub meta: NoteMeta,
    /// The body to write for the note.
    pub body: String,
}

/// What making a note from the template `template_id` for the day `date`
/// does, where the template is found among `all`: the note starts from the
/// title asked for or from the template's own; date and title are filled
/// into the template's body and into the title; the note is new in the
/// index.
pub open spec fn is_template_outcome(
    before: IndexFileView,
    after: IndexFileView,
    meta: NoteMetaView,
    body: Seq<char>,
    all: Seq<NoteTemplateView>,
    template_id: Seq<char>,
    asked: Option<Seq<char>>,
    date: Seq<char>,
) -> bool {
    let t = template_with_id(all, template_id)->0;
    let start = starting_title(t, asked);
    &&& template_with_id(all, template_id) is Some
    &&& body == filled(t.body, date, start)
    &&& adds_note(before, after, meta)
    &&& is_new_note(meta, meta.id, filled(start, date, start), body, before.notes, Seq::empty())
}

/// Why no note can be made from the template `template_id` under the
/// identifier `id`, if none can: the template is not found, or the
/// identifier is not valid, or a note has it.
pub open spec fn template_note_error(
    notes: Seq<NoteMetaView>,
    all: Seq<NoteTemplateView>,
    template_id: Seq<char>,
    id: Seq<char>,
) -> Option<Seq<char>> {
    if template_with_id(all, template_id) is None {
        Some("Template not found"@)
    } else {
        new_note_error(notes, id)
    }
}

/// Makes a note from the template `template_id` for the day `date`, at the
/// instant `now`, under the identifier `id` drawn for it. The template is
/// looked for among the built-in ones first, then among `custom`. The note
/// starts from the title asked for or from the template's own; date and
/// title are filled into the template's body and into the title, and the
/// note is saved as a new note, created at `now`. Where the template is not
/// found, or the identifier is not valid or is taken, nothing changes.
pub fn note_from_template_at(
    index: &mut IndexFile,
    custom: &Vec<NoteTemplate>,
    template_id: &str,
    title_override: Option<&str>,
    date: &str,
    id: String,
    now: &str,
) -> (r: Result<TemplateNote, String>)
    ensures
        r is Ok <==> template_note_error(
            old(index)@.notes,
            builtin() + custom.deep_view(),
            template_id@,
            id@,
        ) is None,
        r matches Err(e) ==> final(index)@ == old(index)@ && Some(e@) == template_note_error(
            old(index)@.notes,
            builtin() + custom.deep_view(),
            template_id@,
            id@,
        ),
        r matches Ok(note) ==> is_template_outcome(
            old(index)@,
            final(index)@,
            note.meta@,
            note.body@,
            builtin() + custom.deep_view(),
            template_id@,
            title_override.deep_view(),
            date@,
        ) && note.meta@.id == id@ && note.meta@.created_at == now@ && note.meta@.updated_at
            == now@,
{
    let all = list_templates(custom);
    let t = match find_template(&all, template_id) {
        None => {
            return Err("Template not found".to_string());
        },
        Some(i) => &all[i],
    };
    let given = match title_override {
        Some(a) => a.to_string(),
        None => match &t.default_title_pattern {
            Some(p) => p.clone(),
            None => "Untitled".to_string(),
        },
    };
    let trimmed = trim_chars(&to_chars(given.as_str()));
    let start = if trimmed.len() == 0 {
        "Untitled".to_string()
    } else {
        from_chars(&trimmed)
    };
    let filled = apply_template_placeholders(t.body.as_str(), start.as_str(), date);
    match save_new_note_at(index, id, filled.1.as_str(), filled.0.as_str(), now) {
        Err(e) => Err(e),
        Ok(saved) => Ok(TemplateNote { meta: saved.meta, body: filled.0 }),
    }
}

/// Makes a note from the template `template_id` for the day `date`, now,
/// under a fresh identifier. Where the template is not found, nothing
/// changes. Else the making fails only where every identifier that was
/// drawn is taken, and nothing changes then; it succeeds where no note has
/// a written UUID as its identifier.
pub fn note_from_template(
    index: &mut IndexFile,
    custom: &Vec<NoteTemplate>,
    template_id: &str,
    title_override: Option<&str>,
    date: &str,
) -> (r: Result<TemplateNote, String>)
    ensures
        r is Ok ==> template_with_id(builtin() + custom.deep_view(), template_id@) is Some,
        template_with_id(builtin() + custom.deep_view(), template_id@) is Some && !has_uuid_id(
            old(index)@.notes,
        ) ==> r is Ok,
        r matches Err(e) ==> final(index)@ == old(index)@ && (if template_with_id(
            builtin() + custom.deep_view(),
            template_id@,
        ) is None {
            e@ == "Template not found"@
        } else {
            e@ == no_fresh_id() && exists|drawn: Seq<Seq<char>>| #[trigger]
                all_taken(old(index)@.notes, drawn)
        }),
        r matches Ok(note) ==> is_template_outcome(
            old(index)@,
            final(index)@,
            note.meta@,
            note.body@,
            builtin() + custom.deep_view(),
            template_id@,
            title_override.deep_view(),
            date@,
        ),
{
    if find_template(&list_templates(custom), template_id).is_none() {
        return Err("Template not found".to_string());
    }
    match fresh_note_id(&index.notes) {
        None => Err("No fresh identifier could be made".to_string()),
        Some(id) => {
            let now = now_rfc3339();
            note_from_template_at(
                index,
                custom,
                template_id,
                title_override,
                date,
                id,
                now.as_str(),
            )
        },
    }
}

/// Makes a note from the template `template_id` for today. Which day that
/// is comes from the clock: the outcome is that for the date of some
/// instant. It fails where the clock shows no date, where the template is
/// not found, or where every identifier that was drawn is taken; nothing
/// changes then.
pub fn create_note_from_template(
    index: &mut IndexFile,
    custom: &Vec<NoteTemplate>,
    template_id: &str,
    title_override: Option<&str>,
) -> (r: Result<TemplateNote, String>)
    ensures
        r is Ok ==> template_with_id(builtin() + custom.deep_view(), template_id@) is Some,
        r matches Err(e) ==> final(index)@ == old(index)@ && {
            ||| e@ == "The clock shows no date"@ && exists|now: int|
                (#[trigger] utc_date(now)) is None
            ||| e@ == "Template not found"@ && template_with_id(
                builtin() + custom.deep_view(),
                template_id@,
            ) is None
            ||| e@ == no_fresh_id() && exists|drawn: Seq<Seq<char>>| #[trigger]
                all_taken(old(index)@.notes, drawn)
        },
        r matches Ok(note) ==> exists|now: int|
            (#[trigger] utc_date(now)) is Some && is_template_outcome(
                old(index)@,
                final(index)@,
                note.meta@,
                note.body@,
                builtin() + custom.deep_view(),
                template_id@,
                title_override.deep_view(),
                utc_date(now)->0,
            ),
{
    match today() {
        None => Err("The clock shows no date".to_string()),
        Some(date) => {
            let r = note_from_template(index, custom, template_id, title_override, date.as_str());
            proof {
                if r is Ok {
                    let now = choose|now: int| utc_date(now) == Some(date@);
                    assert(utc_date(now) is Some && is_template_outcome(
                        old(index)@,
                        index@,
                        r->Ok_0.meta@,
                        r->Ok_0.body@,
                        builtin() + custom.deep_view(),
                        template_id@,
                        title_override.deep_view(),
                        utc_date(now)->0,
                    ));
                }
            }
            r
        },
    }
}

/// A template that a user made: its identifier is `custom-` and a UUID,
/// and its name is the title of the notes made from it.
pub open spec fn is_custom_template(t: NoteTemplateView, name: Seq<char>, body: Seq<char>) -> bool {
    &&& has_prefix(t.id, "custom-"@)
    &&& is_uuid_text(t.id.skip("custom-"@.len() as int))
    &&& t.name == name
    &&& t.body == body
    &&& t.default_title_pattern == Some(name)
    &&& t.is_custom
}

/// Makes a template with the given name and body and adds it behind the
/// templates that users made.
pub fn save_custom_template(custom: &mut Vec<NoteTemplate>, name: &str, body: &str) -> (r:
    NoteTemplate)
    ensures
        is_custom_template(r@, name@, body@),
        final(custom).deep_view() == old(custom).deep_view().push(r@),
{
    let uuid = new_id();
    let mut id = to_chars("custom-");
    append_str(&mut id, uuid.as_str());
    proof {
        let lead = "custom-"@;
        assert(id@.take(lead.len() as int) =~= lead);
        assert(id@.skip(lead.len() as int) =~= uuid@);
    }
    let t = NoteTemplate {
        id: from_chars(&id),
        name: name.to_string(),
        body: body.to_string(),
        default_title_pattern: Some(name.to_string()),
        is_custom: true,
    };
    let ghost before = custom.deep_view();
    custom.push(t.clone());
    proof {
        assert(custom.deep_view() =~~= before.push(t@));
    }
    t
}

/// One of `templates` has the identifier `id`.
pub open spec fn has_template(templates: Seq<NoteTemplateView>, id: Seq<char>) -> bool {
    exists|i: int| 0 <= i < templates.len() && (#[trigger] templates[i]).id == id
}

/// The test for templates with an identifier other than `id`, as a
/// function.
pub open spec fn other_template_test(id: Seq<char>) -> spec_fn(NoteTemplateView) -> bool {
    |t: NoteTemplateView| t.id != id
}

/// Why the template `id` cannot be deleted, if it cannot: it is no
/// template of a user, or there is no such template.
pub open spec fn delete_template_error(
    custom: Seq<NoteTemplateView>,
    id: Seq<char>,
) -> Option<Seq<char>> {
    if !has_prefix(id, "custom-"@) {
        Some("Can only delete custom templates"@)
    } else if !has_template(custom, id) {
        Some("Template not found"@)
    } else {
        None
    }
}

/// Deletes the template `template_id` from the templates that users made:
/// every template with that identifier goes, the others stay in their
/// order.
pub fn delete_custom_template(custom: &mut Vec<NoteTemplate>, template_id: &str) -> (r: Result<
    (),
    String,
>)
    ensures
        r is Ok <==> delete_template_error(old(custom).deep_view(), template_id@) is None,
        r matches Err(e) ==> delete_template_error(old(custom).deep_view(), template_id@) == Some(
            e@,
        ) && final(custom).deep_view() == old(custom).deep_view(),
        r is Ok ==> final(custom).deep_view() == old(custom).deep_view().filter(
            other_template_test(template_id@),
        ),
{
    if !starts_with(&to_chars(template_id), &to_chars("custom-")) {
        return Err("Can only delete custom templates".to_string());
    }
    let ghost all = custom.deep_view();
    let ghost test = other_template_test(template_id@);
    let mut kept: Vec<NoteTemplate> = Vec::new();
    let mut found: bool = false;
    let mut i: usize = 0;
    proof {
        reveal(Seq::filter);
        assert(all.take(0) =~= Seq::<NoteTemplateView>::empty());
        assert(kept.deep_view() =~= all.take(0).filter(test));
    }
    while i < custom.len()
        invariant
            i <= custom.len(),
            *custom == *old(custom),
            all == custom.deep_view(),
            test == other_template_test(template_id@),
            kept.deep_view() == all.take(i as int).filter(test),
            found == has_template(all.take(i as int), template_id@),
        decreases custom.len() - i,
    {
        let ghost prior = kept.deep_view();
        let ghost head = all.take(i as int);
        let ghost next = all.take(i + 1);
        proof {
            assert(all[i as int] == custom[i as int]@);
            assert(next == head.push(custom[i as int]@));
            head.lemma_filter_push(custom[i as int]@, test);
        }
        if same_text(custom[i].id.as_str(), template_id) {
            found = true;
            proof {
                assert(next[i as int].id == template_id@);
            }
        } else {
            kept.push(custom[i].clone());
            proof {
                assert(kept.deep_view() =~~= prior.push(custom[i as int]@));
                if has_template(next, template_id@) {
                    let k = choose|k: int| 0 <= k < next.len() && (#[trigger] next[k]).id
                        == template_id@;
                    assert(head[k].id == template_id@);
                }
                if has_template(head, template_id@) {
                    let k = choose|k: int| 0 <= k < head.len() && (#[trigger] head[k]).id
                        == template_id@;
                    assert(next[k].id == template_id@);
                }
            }
        }
        i += 1;
    }
    proof {
        assert(all.take(custom.len() as int) == all);
    }
    if !found {
        return Err("Template not found".to_string());
    }
    *custom = kept;
    Ok(())
}

} // verus!
