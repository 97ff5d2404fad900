//! The note of the day: one note for each date, made when it is first
//! asked for.

use crate::clock::{now_rfc3339, today, utc_date};
use crate::models::{IndexFile, IndexFileView, NoteMeta, NoteMetaView};
use crate::sandbox::{is_valid_id, note_id_error, validate_note_id};
use crate::storage::{
    adds_note, all_taken, find_note, fresh_note_id, has_note, has_uuid_id, no_fresh_id,
};
use crate::text::{append_str, from_chars, same_text, to_chars};
use vstd::prelude::*;

verus! {

/// The note is the note of the day `date`.
pub open spec fn is_daily_for(n: NoteMetaView, date: Seq<char>) -> bool {
    n.is_daily && n.title == date
}

/// One of `notes` is the note of the day `date`.
pub open spec fn has_daily(notes: Seq<NoteMetaView>, date: Seq<char>) -> bool {
    exists|i: int| 0 <= i < notes.len() && is_daily_for(#[trigger] notes[i], date)
}

/// The note at position `i` is the first note of the day `date`.
pub open spec fn is_first_daily(notes: Seq<NoteMetaView>, date: Seq<char>, i: int) -> bool {
    &&& 0 <= i < notes.len()
    &&& is_daily_for(notes[i], date)
    &&& forall|j: int| 0 <= j < i ==> !is_daily_for(#[trigger] notes[j], date)
}

/// A note of the day `date`, newly made: titled by the date, tagged
/// `daily`, created and last changed at the same time, not starred, without
/// attachments and links, in no notebook.
pub open spec fn is_new_daily(meta: NoteMetaView, date: Seq<char>) -> bool {
    &&& meta.title == date
    &&& meta.is_daily
    &&& meta.tags == seq!["daily"@]
    &&& meta.links_to.len() == 0
    &&& meta.images.len() == 0
    &&& !meta.important
    &&& meta.notebook_id is None
    &&& meta.created_at == meta.updated_at
    &&& meta.filename == meta.id + ".txt"@
    &&& is_valid_id(meta.id)
}

/// The note of a day, as handed back.
#[derive(Debug)]
pub struct DailyNote {
    /// The note as the index records it.
    pub meta: NoteMeta,
    /// The body to write for the note where it was newly made; `None`
    /// where the note was there.
    pub body: Option<String>,
}

/// What asking for the note of the day `date` does: where the index holds
/// a note of that day, the first such is handed back and nothing changes;
/// else a note is newly made for the day and added at the end, and the body
/// to write for it is handed back.
pub open spec fn is_daily_outcome(
    before: IndexFileView,
    after: IndexFileView,
    meta: NoteMetaView,
    body: Option<Seq<char>>,
    date: Seq<char>,
) -> bool {
    if has_daily(before.notes, date) {
        &&& after == before
        &&& body is None
        &&& exists|i: int| is_first_daily(before.notes, date, i) && meta == #[trigger] before.notes[i]
    } else {
        &&& adds_note(before, after, meta)
        &&& !has_note(before.notes, meta.id)
        &&& is_new_daily(meta, date)
        &&& body == Some("# daily\n"@)
    }
}

/// The position of the first note of the day `date`.
pub fn find_daily(notes: &Vec<NoteMeta>, date: &str) -> (r: Option<usize>)
    ensures
        r is Some <==> has_daily(notes.deep_view(), date@),
        r matches Some(i) ==> is_first_daily(notes.deep_view(), date@, i as int),
{
    let mut i: usize = 0;
    while i < notes.len()
        invariant
            i <= notes.len(),
            forall|j: int| 0 <= j < i ==> !is_daily_for(#[trigger] notes.deep_view()[j], date@),
        decreases notes.len() - i,
    {
        proof {
            assert(notes.deep_view()[i as int] == notes[i as int]@);
        }
        if notes[i].is_daily && same_text(notes[i].title.as_str(), date) {
            return Some(i);
        }
        i += 1;
    }
    None
}

/// Why no note of the day can be made under the identifier `id`, if none
/// can: the identifier is not valid, or a note has it.
pub open spec fn new_daily_error(notes: Seq<NoteMetaView>, id: Seq<char>) -> Option<Seq<char>> {
    if !is_valid_id(id) {
        Some(note_id_error(id))
    } else if has_note(notes, id) {
        Some(no_fresh_id())
    } else {
        None
    }
}

/// The note of the day `date`, asked for at the instant `now`, with the
/// identifier `id` drawn for it: the first note of that day in the index if
/// there is one; else a note newly made for the day under the identifier,
/// created at `now` and added at the end, with the body that is to be
/// written for it. Where a note is to be made and the identifier is not
/// valid or is taken, nothing changes.
pub fn daily_note_at(index: &mut IndexFile, date: &str, id: String, now: &str) -> (r: Result<
    DailyNote,
    String,
>)
    ensures
        r is Ok <==> has_daily(old(index)@.notes, date@) || new_daily_error(
            old(index)@.notes,
            id@,
        ) is None,
        r matches Err(e) ==> final(index)@ == old(index)@ && Some(e@) == new_daily_error(
            old(index)@.notes,
            id@,
        ),
        r matches Ok(note) ==> is_daily_outcome(
            old(index)@,
            final(index)@,
            note.meta@,
            note.body.deep_view(),
            date@,
        ) && (!has_daily(old(index)@.notes, date@) ==> note.meta@.id == id@ && note.meta@.created_at
            == now@ && note.meta@.updated_at == now@),
{
    match find_daily(&index.notes, date) {
        Some(i) => {
            proof {
                assert(index@.notes[i as int] == index.notes[i as int]@);
            }
            return Ok(DailyNote { meta: index.notes[i].clone(), body: None });
        },
        None => {},
    }
    match validate_note_id(id.as_str()) {
        Err(e) => {
            return Err(e);
        },
        Ok(_) => {},
    }
    if find_note(&index.notes, id.as_str()).is_some() {
        return Err("No fresh identifier could be made".to_string());
    }
    let mut filename = to_chars(id.as_str());
    append_str(&mut filename, ".txt");
    let mut tags: Vec<String> = Vec::new();
    tags.push("daily".to_string());
    let meta = NoteMeta {
        id,
        title: date.to_string(),
        created_at: now.to_string(),
        updated_at: now.to_string(),
        important: false,
        filename: from_chars(&filename),
        images: Vec::new(),
        tags,
        links_to: Vec::new(),
        is_daily: true,
        notebook_id: None,
    };
    let ghost before = index.notes.deep_view();
    index.notes.push(meta.clone());
    proof {
        assert(meta@.tags =~~= seq!["daily"@]);
        assert(index.notes.deep_view() =~= before.push(meta@));
    }
    Ok(DailyNote { meta, body: Some("# daily\n".to_string()) })
}

/// The note of the day `date`, asked for now: the first note of that day in
/// the index if there is one; else a note newly made for the day under a
/// fresh identifier. A note that is there is always handed back. Making one
/// fails only where every identifier that was drawn is taken, and nothing
/// changes then; it succeeds where no note has a written UUID as its
/// identifier.
pub fn daily_note_for(index: &mut IndexFile, date: &str) -> (r: Result<DailyNote, String>)
    ensures
        has_daily(old(index)@.notes, date@) || !has_uuid_id(old(index)@.notes) ==> r is Ok,
        r matches Err(e) ==> e@ == no_fresh_id() && final(index)@ == old(index)@ && !has_daily(
            old(index)@.notes,
            date@,
        ) && exists|drawn: Seq<Seq<char>>| #[trigger] all_taken(old(index)@.notes, drawn),
        r matches Ok(note) ==> is_daily_outcome(
            old(index)@,
            final(index)@,
            note.meta@,
            note.body.deep_view(),
            date@,
        ),
{
    match find_daily(&index.notes, date) {
        Some(i) => {
            // The note is there: no identifier is drawn.
            proof {
                assert(index@.notes[i as int] == index.notes[i as int]@);
            }
            return Ok(DailyNote { meta: index.notes[i].clone(), body: None });
        },
        None => {},
    }
    match fresh_note_id(&index.notes) {
        None => Err("No fresh identifier could be made".to_string()),
        Some(id) => {
            let now = now_rfc3339();
            daily_note_at(index, date, id, now.as_str())
        },
    }
}

/// The note of today. Which day that is comes from the clock: the outcome
/// is that for the date of some instant. It fails where the clock shows no
/// date, or where a note is to be made and every identifier that was drawn
/// is taken; nothing changes then.
pub fn get_or_create_daily_note(index: &mut IndexFile) -> (r: Result<DailyNote, String>)
    ensures
        r matches Err(e) ==> final(index)@ == old(index)@ && ((e@ == "The clock shows no date"@
            && exists|now: int| (#[trigger] utc_date(now)) is None) || (e@ == no_fresh_id()
            && exists|drawn: Seq<Seq<char>>| #[trigger] all_taken(old(index)@.notes, drawn))),
        r matches Ok(note) ==> exists|now: int|
            (#[trigger] utc_date(now)) is Some && is_daily_outcome(
                old(index)@,
                final(index)@,
                note.meta@,
                note.body.deep_view(),
                utc_date(now)->0,
            ),
{
    match today() {
        None => Err("The clock shows no date".to_string()),
        Some(date) => {
            let r = daily_note_for(index, date.as_str());
            proof {
                if r is Ok {
                    let now = choose|now: int| utc_date(now) == Some(date@);
                    assert(utc_date(now) is Some && is_daily_outcome(
                        old(index)@,
                        index@,
                        r->Ok_0.meta@,
                        r->Ok_0.body.deep_view(),
                        utc_date(now)->0,
                    ));
                }
            }
            r
        },
    }
}

} // verus!
