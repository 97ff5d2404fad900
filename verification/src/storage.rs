//! The operations of the store on single notes: reading, saving, deleting,
//! restoring an earlier version, and the small edits of the index.
//!
//! Each operation works on the index in memory. What the caller has read
//! from the file system comes in as an argument, and what is to be written
//! goes out in the result.

use crate::annotate::{
    body_links, derive_tags, extract_links_from_body, lemma_links_are_notes, note_tags,
};
use crate::clock::now_rfc3339;
use crate::ident::{is_uuid_text, new_id};
use crate::models::{
    clone_notes, IndexFile, IndexFileView, NoteContent, NoteMeta, NoteMetaView,
    NoteVersionContent, VersionSnapshot, VersionSnapshotView,
};
use crate::order::strictly_ascending;
use crate::sandbox::{is_valid_id, note_id_error, validate_note_id};
use crate::text::{append_str, from_chars, same_text, to_chars};
use crate::versions::take_snapshot;
use vstd::prelude::*;

verus! {

/// One of `notes` has the identifier `id`.
pub open spec fn has_note(notes: Seq<NoteMetaView>, id: Seq<char>) -> bool {
    exists|i: int| 0 <= i < notes.len() && (#[trigger] notes[i]).id == id
}

/// The note at position `i` is the first of `notes` with the identifier
/// `id`.
pub open spec fn is_first_with_id(notes: Seq<NoteMetaView>, id: Seq<char>, i: int) -> bool {
    &&& 0 <= i < notes.len()
    &&& notes[i].id == id
    &&& forall|j: int| 0 <= j < i ==> (#[trigger] notes[j]).id != id
}

/// The position of the first of `notes` with the identifier `id`.
pub open spec fn position_of(notes: Seq<NoteMetaView>, id: Seq<char>) -> int {
    choose|i: int| is_first_with_id(notes, id, i)
}

/// The first of `notes` with the identifier `id`.
pub open spec fn note_with_id(notes: Seq<NoteMetaView>, id: Seq<char>) -> NoteMetaView {
    notes[position_of(notes, id)]
}

/// No two of `notes` have the same identifier.
pub open spec fn unique_note_ids(notes: Seq<NoteMetaView>) -> bool {
    forall|i: int, j: int|
        0 <= i < j < notes.len() ==> (#[trigger] notes[i]).id != (#[trigger] notes[j]).id
}

/// There is only one first note with a given identifier.
pub proof fn lemma_first_is_position(notes: Seq<NoteMetaView>, id: Seq<char>, i: int)
    requires
        is_first_with_id(notes, id, i),
    ensures
        position_of(notes, id) == i,
        note_with_id(notes, id) == notes[i],
        has_note(notes, id),
{
    let k = position_of(notes, id);
    assert(is_first_with_id(notes, id, k));
    if k < i {
        assert(notes[k].id != id);
    }
    if i < k {
        assert(notes[i].id != id);
    }
}

/// Where a note has the identifier, a first note has it.
pub proof fn lemma_first_exists(notes: Seq<NoteMetaView>, id: Seq<char>)
    requires
        has_note(notes, id),
    ensures
        is_first_with_id(notes, id, position_of(notes, id)),
{
    let k = choose|k: int| 0 <= k < notes.len() && (#[trigger] notes[k]).id == id;
    lemma_first_before(notes, id, k);
}

proof fn lemma_first_before(notes: Seq<NoteMetaView>, id: Seq<char>, k: int)
    requires
        0 <= k < notes.len(),
        notes[k].id == id,
    ensures
        exists|i: int| is_first_with_id(notes, id, i),
    decreases k,
{
    if exists|j: int| 0 <= j < k && (#[trigger] notes[j]).id == id {
        let j = choose|j: int| 0 <= j < k && (#[trigger] notes[j]).id == id;
        lemma_first_before(notes, id, j);
    } else {
        assert(is_first_with_id(notes, id, k));
    }
}

/// The position of the first of `notes` with the identifier `id`.
pub fn find_note(notes: &Vec<NoteMeta>, id: &str) -> (r: Option<usize>)
    ensures
        r is Some <==> has_note(notes.deep_view(), id@),
        r matches Some(i) ==> is_first_with_id(notes.deep_view(), id@, i as int) && i
            == position_of(notes.deep_view(), id@),
{
    let mut i: usize = 0;
    while i < notes.len()
        invariant
            i <= notes.len(),
            forall|j: int| 0 <= j < i ==> (#[trigger] notes.deep_view()[j]).id != id@,
        decreases notes.len() - i,
    {
        proof {
            assert(notes.deep_view()[i as int] == notes[i as int]@);
        }
        if same_text(notes[i].id.as_str(), id) {
            proof {
                lemma_first_is_position(notes.deep_view(), id@, i as int);
            }
            return Some(i);
        }
        i += 1;
    }
    None
}

/// Why the note `id` cannot be looked up in `notes`, if it cannot: the
/// identifier is not valid, or no note has it.
pub open spec fn lookup_error(notes: Seq<NoteMetaView>, id: Seq<char>) -> Option<Seq<char>> {
    if !is_valid_id(id) {
        Some(note_id_error(id))
    } else if !has_note(notes, id) {
        Some("Note not found"@)
    } else {
        None
    }
}

/// The position of the note `note_id` in the index, if the identifier is
/// valid and a note has it.
pub fn locate_note(index: &IndexFile, note_id: &str) -> (r: Result<usize, String>)
    ensures
        r is Ok <==> lookup_error(index@.notes, note_id@) is None,
        r matches Ok(i) ==> is_first_with_id(index@.notes, note_id@, i as int) && i == position_of(
            index@.notes,
            note_id@,
        ),
        r matches Err(e) ==> lookup_error(index@.notes, note_id@) == Some(e@),
{
    match validate_note_id(note_id) {
        Err(e) => {
            return Err(e);
        },
        Ok(_) => {},
    }
    match find_note(&index.notes, note_id) {
        Some(i) => Ok(i),
        None => Err("Note not found".to_string()),
    }
}

/// `after` is `before` with the first note of the identifier `id` replaced
/// by `meta`; everything else is as it was.
pub open spec fn replaces_note(
    before: IndexFileView,
    after: IndexFileView,
    id: Seq<char>,
    meta: NoteMetaView,
) -> bool {
    &&& has_note(before.notes, id)
    &&& after.notes == before.notes.update(position_of(before.notes, id), meta)
    &&& after.notebooks == before.notebooks
}

/// `after` is `before` with the note `meta` added at the end.
pub open spec fn adds_note(before: IndexFileView, after: IndexFileView, meta: NoteMetaView) -> bool {
    after.notes == before.notes.push(meta) && after.notebooks == before.notebooks
}

/// All notes, in the order of the index.
pub fn list_notes(index: &IndexFile) -> (r: Vec<NoteMeta>)
    ensures
        r.deep_view() == index@.notes,
{
    clone_notes(&index.notes)
}

/// The note `note_id` with its body, given what the note's body file holds
/// (`None` where there is no such file: the body is then empty).
pub fn read_note(index: &IndexFile, note_id: &str, stored_body: Option<String>) -> (r: Result<
    NoteContent,
    String,
>)
    ensures
        r is Ok <==> lookup_error(index@.notes, note_id@) is None,
        r matches Ok(c) ==> c@.meta == note_with_id(index@.notes, note_id@) && c@.body == (
        match stored_body {
            Some(b) => b@,
            None => Seq::empty(),
        }),
        r matches Err(e) ==> lookup_error(index@.notes, note_id@) == Some(e@),
{
    match locate_note(index, note_id) {
        Err(e) => Err(e),
        Ok(i) => {
            let meta = index.notes[i].clone();
            let body = match stored_body {
                Some(b) => b,
                None => String::new(),
            };
            proof {
                assert(index@.notes[i as int] == index.notes[i as int]@);
            }
            Ok(NoteContent { meta, body })
        },
    }
}

/// What saving sets of a note from its title and body: the title, the tags
/// that title and body give, and the links of the body, resolved among
/// `notes` with `exclude` left out. Tags and links are sets in ascending
/// order.
pub open spec fn has_saved_text(
    meta: NoteMetaView,
    title: Seq<char>,
    body: Seq<char>,
    notes: Seq<NoteMetaView>,
    exclude: Seq<char>,
) -> bool {
    &&& meta.title == title
    &&& strictly_ascending(meta.tags)
    &&& meta.tags.to_set() == note_tags(title, body)
    &&& strictly_ascending(meta.links_to)
    &&& meta.links_to.to_set() == body_links(body, notes, exclude)
}

/// `meta` is the note `before` after a save with the given title and body:
/// title, tags, links and the time of last change are new, the rest stays.
pub open spec fn is_saved_over(
    meta: NoteMetaView,
    before: NoteMetaView,
    title: Seq<char>,
    body: Seq<char>,
    notes: Seq<NoteMetaView>,
) -> bool {
    &&& meta == (NoteMetaView {
        title: meta.title,
        updated_at: meta.updated_at,
        tags: meta.tags,
        links_to: meta.links_to,
        ..before
    })
    &&& has_saved_text(meta, title, body, notes, before.id)
}

/// `meta` is a note newly made with the identifier `id`, which none of
/// `notes` has, and with the given title and body: created and last changed
/// at the same time, not starred, no attachments, not a note of a day, in no
/// notebook, its body file named by the identifier.
pub open spec fn is_new_note(
    meta: NoteMetaView,
    id: Seq<char>,
    title: Seq<char>,
    body: Seq<char>,
    notes: Seq<NoteMetaView>,
    exclude: Seq<char>,
) -> bool {
    &&& meta.id == id
    &&& !has_note(notes, id)
    &&& meta.created_at == meta.updated_at
    &&& !meta.important
    &&& meta.filename == id + ".txt"@
    &&& meta.images.len() == 0
    &&& !meta.is_daily
    &&& meta.notebook_id is None
    &&& has_saved_text(meta, title, body, notes, exclude)
}

/// What a save hands back.
#[derive(Debug)]
pub struct SaveOutcome {
    /// The note as the index now records it.
    pub meta: NoteMeta,
    /// What is to be kept of the note's state before the save, if anything:
    /// to be written to the note's history before the new body is written.
    pub snapshot: Option<VersionSnapshot>,
}

/// The snapshot that a save of the note `before` takes, given what the
/// note's body file holds: none where there is no body file.
pub open spec fn snapshot_before(before: NoteMetaView, stored_body: Option<Seq<char>>) -> Option<
    VersionSnapshotView,
> {
    match stored_body {
        Some(b) => Some(
            VersionSnapshotView { saved_at: before.updated_at, title: before.title, body: b },
        ),
        None => None,
    }
}

fn body_file_name(id: &str) -> (r: String)
    ensures
        r@ == id@ + ".txt"@,
{
    let mut v = to_chars(id);
    append_str(&mut v, ".txt");
    from_chars(&v)
}

fn new_note(id: String, title: &str, tags: Vec<String>, links_to: Vec<String>, now: &str) -> (r:
    NoteMeta)
    ensures
        r@.id == id@,
        r@.title == title@,
        r@.created_at == now@,
        r@.updated_at == now@,
        !r@.important,
        r@.filename == id@ + ".txt"@,
        r@.images.len() == 0,
        r@.tags == tags.deep_view(),
        r@.links_to == links_to.deep_view(),
        !r@.is_daily,
        r@.notebook_id is None,
{
    let filename = body_file_name(id.as_str());
    NoteMeta {
        id,
        title: title.to_string(),
        created_at: now.to_string(),
        updated_at: now.to_string(),
        important: false,
        filename,
        images: Vec::new(),
        tags,
        links_to,
        is_daily: false,
        notebook_id: None,
    }
}

fn push_note(index: &mut IndexFile, meta: &NoteMeta)
    ensures
        adds_note(old(index)@, final(index)@, meta@),
{
    let ghost before = index.notes.deep_view();
    index.notes.push(meta.clone());
    proof {
        assert(index.notes.deep_view() =~= before.push(meta@));
    }
}

/// What a save under the identifier `id` does to the index, and what it
/// hands back. Where a note has the identifier, that note gets the new
/// title, the tags and links that title and body give, and a new time of
/// last change; what it held before is the snapshot, if it had a body file.
/// Where no note has the identifier, a note is made with it and added at the
/// end, and there is no snapshot.
pub open spec fn is_save_outcome(
    before: IndexFileView,
    after: IndexFileView,
    id: Seq<char>,
    title: Seq<char>,
    body: Seq<char>,
    stored_body: Option<Seq<char>>,
    meta: NoteMetaView,
    snapshot: Option<VersionSnapshotView>,
) -> bool {
    if has_note(before.notes, id) {
        &&& replaces_note(before, after, id, meta)
        &&& is_saved_over(meta, note_with_id(before.notes, id), title, body, before.notes)
        &&& snapshot == snapshot_before(note_with_id(before.notes, id), stored_body)
    } else {
        &&& adds_note(before, after, meta)
        &&& is_new_note(meta, id, title, body, before.notes, id)
        &&& snapshot is None
    }
}

/// What the save of a new note does: the note is made under an identifier
/// that no note has and added at the end; its links are resolved among the
/// notes that were there; there is no snapshot.
pub open spec fn is_new_save_outcome(
    before: IndexFileView,
    after: IndexFileView,
    title: Seq<char>,
    body: Seq<char>,
    meta: NoteMetaView,
    snapshot: Option<VersionSnapshotView>,
) -> bool {
    &&& adds_note(before, after, meta)
    &&& is_new_note(meta, meta.id, title, body, before.notes, Seq::empty())
    &&& !meta.links_to.contains(meta.id)
    &&& snapshot is None
}

/// Saves a note under a given identifier at the instant `now`. `stored_body`
/// is what the note's body file holds, `None` where there is no such file.
///
/// An identifier that is not valid is refused and nothing changes. Where a
/// note has the identifier, that note gets the new title, the tags and links
/// that title and body give, and `now` as its time of last change; what it
/// held before is handed back as a snapshot, if it had a body file. Where no
/// note has the identifier, a note is made with it, created at `now`, and
/// added at the end.
pub fn save_note_as_at(
    index: &mut IndexFile,
    note_id: &str,
    title: &str,
    body: &str,
    stored_body: Option<String>,
    now: &str,
) -> (r: Result<SaveOutcome, String>)
    ensures
        r is Ok <==> is_valid_id(note_id@),
        r matches Err(e) ==> e@ == note_id_error(note_id@) && final(index)@ == old(index)@,
        r matches Ok(out) ==> {
            &&& is_save_outcome(
                old(index)@,
                final(index)@,
                note_id@,
                title@,
                body@,
                stored_body.deep_view(),
                out.meta@,
                out.snapshot.deep_view(),
            )
            &&& out.meta@.updated_at == now@
            &&& out.meta@.id == note_id@
            &&& !out.meta@.links_to.contains(out.meta@.id)
        },
{
    let tags = derive_tags(title, body);
    let links_to = extract_links_from_body(body, &index.notes, note_id);
    match validate_note_id(note_id) {
        Err(e) => {
            return Err(e);
        },
        Ok(_) => {},
    }
    match find_note(&index.notes, note_id) {
        Some(i) => {
            let ghost before = index.notes.deep_view();
            proof {
                assert(before[i as int] == index.notes[i as int]@);
            }
            let snapshot = match stored_body {
                Some(b) => Some(take_snapshot(&index.notes[i], b)),
                None => None,
            };
            index.notes[i].title = title.to_string();
            index.notes[i].updated_at = now.to_string();
            index.notes[i].tags = tags;
            index.notes[i].links_to = links_to;
            let meta = index.notes[i].clone();
            proof {
                assert(index.notes.deep_view() =~= before.update(i as int, meta@));
            }
            Ok(SaveOutcome { meta, snapshot })
        },
        None => {
            let meta = new_note(note_id.to_string(), title, tags, links_to, now);
            push_note(index, &meta);
            Ok(SaveOutcome { meta, snapshot: None })
        },
    }
}

/// Saves a note under a given identifier, now: as `save_note_as_at` does at
/// the present instant.
pub fn save_note_as(
    index: &mut IndexFile,
    note_id: &str,
    title: &str,
    body: &str,
    stored_body: Option<String>,
) -> (r: Result<SaveOutcome, String>)
    ensures
        r is Ok <==> is_valid_id(note_id@),
        r matches Err(e) ==> e@ == note_id_error(note_id@) && final(index)@ == old(index)@,
        r matches Ok(out) ==> {
            &&& is_save_outcome(
                old(index)@,
                final(index)@,
                note_id@,
                title@,
                body@,
                stored_body.deep_view(),
                out.meta@,
                out.snapshot.deep_view(),
            )
            &&& out.meta@.id == note_id@
            &&& !out.meta@.links_to.contains(out.meta@.id)
        },
{
    let now = now_rfc3339();
    save_note_as_at(index, note_id, title, body, stored_body, now.as_str())
}

/// How often a fresh identifier is drawn before the store gives up.
pub const ID_ATTEMPTS: usize = 8;

/// What the store answers when every identifier it drew was taken.
pub open spec fn no_fresh_id() -> Seq<char> {
    "No fresh identifier could be made"@
}

/// Every identifier that was drawn is taken: `drawn` holds `ID_ATTEMPTS`
/// written UUIDs, and each of them is the identifier of one of `notes`.
pub open spec fn all_taken(notes: Seq<NoteMetaView>, drawn: Seq<Seq<char>>) -> bool {
    &&& drawn.len() == ID_ATTEMPTS
    &&& forall|k: int|
        0 <= k < drawn.len() ==> is_uuid_text(#[trigger] drawn[k]) && has_note(notes, drawn[k])
}

/// One of `notes` has a written UUID as its identifier. Where none has, no
/// UUID that is drawn can be taken.
pub open spec fn has_uuid_id(notes: Seq<NoteMetaView>) -> bool {
    exists|i: int| 0 <= i < notes.len() && is_uuid_text((#[trigger] notes[i]).id)
}

/// Where every drawn identifier was taken, a note has a written UUID as its
/// identifier.
pub proof fn lemma_all_taken_needs_uuid(notes: Seq<NoteMetaView>, drawn: Seq<Seq<char>>)
    requires
        all_taken(notes, drawn),
    ensures
        has_uuid_id(notes),
{
    assert(is_uuid_text(drawn[0]) && has_note(notes, drawn[0]));
    let i = choose|i: int| 0 <= i < notes.len() && (#[trigger] notes[i]).id == drawn[0];
    assert(is_uuid_text(notes[i].id));
}

/// The drawn identifier `id`, if none of `notes` has it.
pub fn untaken(notes: &Vec<NoteMeta>, id: String) -> (r: Option<String>)
    ensures
        r is Some <==> !has_note(notes.deep_view(), id@),
        r matches Some(kept) ==> kept@ == id@,
{
    if find_note(notes, id.as_str()).is_none() {
        Some(id)
    } else {
        None
    }
}

/// An identifier that none of `notes` has: a random UUID, drawn again where
/// one is taken, up to `ID_ATTEMPTS` times. Which identifiers are drawn,
/// nothing says: `None` comes back only where as many were drawn and every
/// one of them was taken. Where no note has a written UUID as its
/// identifier, as in an index without notes, none is taken, so an
/// identifier comes back.
pub fn fresh_note_id(notes: &Vec<NoteMeta>) -> (r: Option<String>)
    ensures
        r matches Some(id) ==> is_uuid_text(id@) && is_valid_id(id@) && !has_note(
            notes.deep_view(),
            id@,
        ),
        r is None ==> exists|drawn: Seq<Seq<char>>| #[trigger] all_taken(notes.deep_view(), drawn),
        !has_uuid_id(notes.deep_view()) ==> r is Some,
        notes.len() == 0 ==> r is Some,
{
    let ghost mut drawn: Seq<Seq<char>> = Seq::empty();
    let mut attempt: usize = 0;
    while attempt < ID_ATTEMPTS
        invariant
            attempt <= ID_ATTEMPTS,
            drawn.len() == attempt,
            forall|k: int|
                0 <= k < drawn.len() ==> is_uuid_text(#[trigger] drawn[k]) && has_note(
                    notes.deep_view(),
                    drawn[k],
                ),
        decreases ID_ATTEMPTS - attempt,
    {
        let id = new_id();
        let ghost text = id@;
        match untaken(notes, id) {
            Some(kept) => {
                return Some(kept);
            },
            None => {},
        }
        proof {
            drawn = drawn.push(text);
        }
        attempt += 1;
    }
    proof {
        assert(all_taken(notes.deep_view(), drawn));
        lemma_all_taken_needs_uuid(notes.deep_view(), drawn);
    }
    None
}

/// Why a new note cannot be saved under the identifier `id`, if it cannot:
/// the identifier is not valid, or a note has it.
pub open spec fn new_note_error(notes: Seq<NoteMetaView>, id: Seq<char>) -> Option<Seq<char>> {
    if !is_valid_id(id) {
        Some(note_id_error(id))
    } else if has_note(notes, id) {
        Some(no_fresh_id())
    } else {
        None
    }
}

/// Saves a new note under the identifier `id`, which was drawn for it, at
/// the instant `now`: the note is made, created at `now`, and added at the
/// end of the index. Links are resolved among the notes that were there. An
/// identifier that is not valid, or that a note has, is refused, and nothing
/// changes.
pub fn save_new_note_at(index: &mut IndexFile, id: String, title: &str, body: &str, now: &str) -> (r:
    Result<SaveOutcome, String>)
    ensures
        r is Ok <==> new_note_error(old(index)@.notes, id@) is None,
        r matches Err(e) ==> Some(e@) == new_note_error(old(index)@.notes, id@) && final(index)@
            == old(index)@,
        r matches Ok(out) ==> {
            &&& is_new_save_outcome(
                old(index)@,
                final(index)@,
                title@,
                body@,
                out.meta@,
                out.snapshot.deep_view(),
            )
            &&& out.meta@.id == id@
            &&& out.meta@.created_at == now@
            &&& out.meta@.updated_at == now@
        },
{
    match validate_note_id(id.as_str()) {
        Err(e) => {
            return Err(e);
        },
        Ok(_) => {},
    }
    if find_note(&index.notes, id.as_str()).is_some() {
        return Err("No fresh identifier could be made".to_string());
    }
    let tags = derive_tags(title, body);
    let links_to = extract_links_from_body(body, &index.notes, "");
    proof {
        reveal_strlit("");
        assert(""@ =~= Seq::<char>::empty());
        // Links lead to notes of the index, and none of them has the new
        // identifier.
        lemma_links_are_notes(body@, index@.notes, ""@);
        if links_to.deep_view().contains(id@) {
            assert(links_to.deep_view().to_set().contains(id@));
            assert(has_note(index@.notes, id@));
        }
    }
    let meta = new_note(id, title, tags, links_to, now);
    push_note(index, &meta);
    Ok(SaveOutcome { meta, snapshot: None })
}

/// Saves a new note under a fresh identifier at the instant `now`. It fails
/// only where every identifier that was drawn is taken; nothing changes
/// then. Where no note has a written UUID as its identifier it succeeds.
pub fn save_fresh_note_at(index: &mut IndexFile, title: &str, body: &str, now: &str) -> (r: Result<
    SaveOutcome,
    String,
>)
    ensures
        !has_uuid_id(old(index)@.notes) ==> r is Ok,
        r matches Err(e) ==> e@ == no_fresh_id() && final(index)@ == old(index)@ && exists|
            drawn: Seq<Seq<char>>,
        | #[trigger] all_taken(old(index)@.notes, drawn),
        r matches Ok(out) ==> {
            &&& is_new_save_outcome(
                old(index)@,
                final(index)@,
                title@,
                body@,
                out.meta@,
                out.snapshot.deep_view(),
            )
            &&& is_uuid_text(out.meta@.id)
            &&& is_valid_id(out.meta@.id)
            &&& out.meta@.created_at == now@
            &&& out.meta@.updated_at == now@
        },
{
    match fresh_note_id(&index.notes) {
        None => Err("No fresh identifier could be made".to_string()),
        Some(id) => save_new_note_at(index, id, title, body, now),
    }
}

/// Saves a new note under a fresh identifier, now: as `save_fresh_note_at`
/// does at the present instant.
pub fn save_new_note(index: &mut IndexFile, title: &str, body: &str) -> (r: Result<
    SaveOutcome,
    String,
>)
    ensures
        !has_uuid_id(old(index)@.notes) ==> r is Ok,
        r matches Err(e) ==> e@ == no_fresh_id() && final(index)@ == old(index)@ && exists|
            drawn: Seq<Seq<char>>,
        | #[trigger] all_taken(old(index)@.notes, drawn),
        r matches Ok(out) ==> {
            &&& is_new_save_outcome(
                old(index)@,
                final(index)@,
                title@,
                body@,
                out.meta@,
                out.snapshot.deep_view(),
            )
            &&& is_uuid_text(out.meta@.id)
            &&& is_valid_id(out.meta@.id)
        },
{
    let now = now_rfc3339();
    save_fresh_note_at(index, title, body, now.as_str())
}

/// Creates or updates a note at the instant `now`: with an identifier as
/// `save_note_as_at` does, without one as `save_fresh_note_at` does.
pub fn save_note_at(
    index: &mut IndexFile,
    note_id: Option<&str>,
    title: &str,
    body: &str,
    stored_body: Option<String>,
    now: &str,
) -> (r: Result<SaveOutcome, String>)
    ensures
        note_id matches Some(id) ==> (r is Ok <==> is_valid_id(id@)),
        note_id is None && !has_uuid_id(old(index)@.notes) ==> r is Ok,
        r matches Err(e) ==> final(index)@ == old(index)@ && (match note_id {
            Some(id) => e@ == note_id_error(id@),
            None => e@ == no_fresh_id() && exists|drawn: Seq<Seq<char>>| #[trigger]
                all_taken(old(index)@.notes, drawn),
        }),
        r matches Ok(out) ==> {
            &&& out.meta@.updated_at == now@
            &&& !out.meta@.links_to.contains(out.meta@.id)
            &&& match note_id {
                Some(id) => is_save_outcome(
                    old(index)@,
                    final(index)@,
                    id@,
                    title@,
                    body@,
                    stored_body.deep_view(),
                    out.meta@,
                    out.snapshot.deep_view(),
                ),
                None => is_new_save_outcome(
                    old(index)@,
                    final(index)@,
                    title@,
                    body@,
                    out.meta@,
                    out.snapshot.deep_view(),
                ) && is_uuid_text(out.meta@.id) && out.meta@.created_at == now@,
            }
        },
{
    match note_id {
        Some(id) => save_note_as_at(index, id, title, body, stored_body, now),
        None => save_fresh_note_at(index, title, body, now),
    }
}

/// Creates or updates a note, now: as `save_note_at` does at the present
/// instant.
pub fn save_note(
    index: &mut IndexFile,
    note_id: Option<&str>,
    title: &str,
    body: &str,
    stored_body: Option<String>,
) -> (r: Result<SaveOutcome, String>)
    ensures
        note_id matches Some(id) ==> (r is Ok <==> is_valid_id(id@)),
        note_id is None && !has_uuid_id(old(index)@.notes) ==> r is Ok,
        r matches Err(e) ==> final(index)@ == old(index)@ && (match note_id {
            Some(id) => e@ == note_id_error(id@),
            None => e@ == no_fresh_id() && exists|drawn: Seq<Seq<char>>| #[trigger]
                all_taken(old(index)@.notes, drawn),
        }),
        r matches Ok(out) ==> {
            &&& !out.meta@.links_to.contains(out.meta@.id)
            &&& match note_id {
                Some(id) => is_save_outcome(
                    old(index)@,
                    final(index)@,
                    id@,
                    title@,
                    body@,
                    stored_body.deep_view(),
                    out.meta@,
                    out.snapshot.deep_view(),
                ),
                None => is_new_save_outcome(
                    old(index)@,
                    final(index)@,
                    title@,
                    body@,
                    out.meta@,
                    out.snapshot.deep_view(),
                ) && is_uuid_text(out.meta@.id),
            }
        },
{
    let now = now_rfc3339();
    save_note_at(index, note_id, title, body, stored_body, now.as_str())
}

/// Puts the note `note_id` back to an earlier version at the instant `now`:
/// a save of the note with the version's title and body. The state that the
/// note had before is itself handed back as a snapshot, so that restoring
/// can be undone.
pub fn restore_note_version_at(
    index: &mut IndexFile,
    note_id: &str,
    version: &NoteVersionContent,
    stored_body: Option<String>,
    now: &str,
) -> (r: Result<SaveOutcome, String>)
    ensures
        r is Ok <==> is_valid_id(note_id@),
        r matches Err(e) ==> e@ == note_id_error(note_id@) && final(index)@ == old(index)@,
        r matches Ok(out) ==> {
            &&& is_save_outcome(
                old(index)@,
                final(index)@,
                note_id@,
                version@.title,
                version@.body,
                stored_body.deep_view(),
                out.meta@,
                out.snapshot.deep_view(),
            )
            &&& out.meta@.updated_at == now@
        },
{
    save_note_as_at(
        index,
        note_id,
        version.title.as_str(),
        version.body.as_str(),
        stored_body,
        now,
    )
}

/// Puts the note `note_id` back to an earlier version, now: as
/// `restore_note_version_at` does at the present instant.
pub fn restore_note_version(
    index: &mut IndexFile,
    note_id: &str,
    version: &NoteVersionContent,
    stored_body: Option<String>,
) -> (r: Result<SaveOutcome, String>)
    ensures
        r is Ok <==> is_valid_id(note_id@),
        r matches Err(e) ==> e@ == note_id_error(note_id@) && final(index)@ == old(index)@,
        r matches Ok(out) ==> is_save_outcome(
            old(index)@,
            final(index)@,
            note_id@,
            version@.title,
            version@.body,
            stored_body.deep_view(),
            out.meta@,
            out.snapshot.deep_view(),
        ),
{
    let now = now_rfc3339();
    restore_note_version_at(index, note_id, version, stored_body, now.as_str())
}

/// Adding a note whose identifier no note has keeps the identifiers unique.
pub proof fn lemma_adding_keeps_ids_unique(
    before: IndexFileView,
    after: IndexFileView,
    meta: NoteMetaView,
)
    requires
        unique_note_ids(before.notes),
        adds_note(before, after, meta),
        !has_note(before.notes, meta.id),
    ensures
        unique_note_ids(after.notes),
{
    assert forall|i: int, j: int| 0 <= i < j < after.notes.len() implies (
    #[trigger] after.notes[i]).id != (#[trigger] after.notes[j]).id by {
        if j < before.notes.len() {
            assert(before.notes[i].id != before.notes[j].id);
        } else {
            assert(before.notes[i].id != meta.id);
        }
    }
}

/// Replacing a note by one of the same identifier keeps the identifiers
/// unique.
pub proof fn lemma_replacing_keeps_ids_unique(
    before: IndexFileView,
    after: IndexFileView,
    id: Seq<char>,
    meta: NoteMetaView,
)
    requires
        unique_note_ids(before.notes),
        replaces_note(before, after, id, meta),
        meta.id == id,
    ensures
        unique_note_ids(after.notes),
{
    lemma_first_exists(before.notes, id);
    let p = position_of(before.notes, id);
    assert forall|i: int, j: int| 0 <= i < j < after.notes.len() implies (
    #[trigger] after.notes[i]).id != (#[trigger] after.notes[j]).id by {
        assert(before.notes[i].id != before.notes[j].id);
    }
}

/// Notes that keep their identifiers keep them unique.
pub proof fn lemma_same_ids_stay_unique(before: Seq<NoteMetaView>, after: Seq<NoteMetaView>)
    requires
        unique_note_ids(before),
        after.len() == before.len(),
        forall|i: int| 0 <= i < before.len() ==> (#[trigger] after[i]).id == before[i].id,
    ensures
        unique_note_ids(after),
{
    assert forall|i: int, j: int| 0 <= i < j < after.len() implies (#[trigger] after[i]).id != (
    #[trigger] after[j]).id by {
        assert(before[i].id != before[j].id);
    }
}

/// Taking notes away keeps the identifiers of the others unique.
pub proof fn lemma_filter_keeps_ids_unique(
    notes: Seq<NoteMetaView>,
    test: spec_fn(NoteMetaView) -> bool,
)
    requires
        unique_note_ids(notes),
    ensures
        unique_note_ids(notes.filter(test)),
        forall|id: Seq<char>| has_note(notes.filter(test), id) ==> has_note(notes, id),
    decreases notes.len(),
{
    reveal(Seq::filter);
    if notes.len() > 0 {
        let head = notes.drop_last();
        assert forall|i: int, j: int| 0 <= i < j < head.len() implies (#[trigger] head[i]).id != (
        #[trigger] head[j]).id by {
            assert(notes[i].id != notes[j].id);
        }
        lemma_filter_keeps_ids_unique(head, test);
        let kept = head.filter(test);
        let all = notes.filter(test);
        assert forall|id: Seq<char>| has_note(all, id) implies has_note(notes, id) by {
            let k = choose|k: int| 0 <= k < all.len() && (#[trigger] all[k]).id == id;
            if k < kept.len() {
                assert(kept[k].id == id);
                assert(has_note(kept, id));
                assert(has_note(head, id));
                let m = choose|m: int| 0 <= m < head.len() && (#[trigger] head[m]).id == id;
                assert(notes[m].id == id);
            } else {
                assert(notes[notes.len() - 1].id == id);
            }
        }
        assert forall|i: int, j: int| 0 <= i < j < all.len() implies (#[trigger] all[i]).id != (
        #[trigger] all[j]).id by {
            if j < kept.len() {
                assert(kept[i].id != kept[j].id);
            } else {
                // The last note was kept; an earlier one with its identifier
                // would stand in the index twice.
                assert(kept[i].id == all[i].id);
                assert(has_note(kept, kept[i].id));
                assert(has_note(head, kept[i].id));
                let m = choose|m: int| 0 <= m < head.len() && (#[trigger] head[m]).id
                    == kept[i].id;
                assert(notes[m].id != notes[notes.len() - 1].id);
            }
        }
    }
}

/// `meta` is `before` but for the time of last change.
pub open spec fn is_touched(meta: NoteMetaView, before: NoteMetaView) -> bool {
    meta == (NoteMetaView { updated_at: meta.updated_at, ..before })
}

/// Sets whether the note `note_id` is starred, at the instant `now`, which
/// becomes the note's time of last change.
pub fn toggle_important_at(index: &mut IndexFile, note_id: &str, important: bool, now: &str) -> (r:
    Result<NoteMeta, String>)
    ensures
        r is Ok <==> lookup_error(old(index)@.notes, note_id@) is None,
        r matches Err(e) ==> lookup_error(old(index)@.notes, note_id@) == Some(e@) && final(index)@
            == old(index)@,
        r matches Ok(meta) ==> replaces_note(old(index)@, final(index)@, note_id@, meta@) && meta@
            == (NoteMetaView {
            important,
            updated_at: now@,
            ..note_with_id(old(index)@.notes, note_id@)
        }),
{
    match locate_note(index, note_id) {
        Err(e) => Err(e),
        Ok(i) => {
            let ghost before = index.notes.deep_view();
            proof {
                assert(before[i as int] == index.notes[i as int]@);
            }
            index.notes[i].important = important;
            index.notes[i].updated_at = now.to_string();
            let meta = index.notes[i].clone();
            proof {
                assert(index.notes.deep_view() =~= before.update(i as int, meta@));
            }
            Ok(meta)
        },
    }
}

/// Sets whether the note `note_id` is starred, now.
pub fn toggle_important(index: &mut IndexFile, note_id: &str, important: bool) -> (r: Result<
    NoteMeta,
    String,
>)
    ensures
        r is Ok <==> lookup_error(old(index)@.notes, note_id@) is None,
        r matches Err(e) ==> lookup_error(old(index)@.notes, note_id@) == Some(e@) && final(index)@
            == old(index)@,
        r matches Ok(meta) ==> replaces_note(old(index)@, final(index)@, note_id@, meta@)
            && is_touched(
            meta@,
            NoteMetaView { important, ..note_with_id(old(index)@.notes, note_id@) },
        ),
{
    let now = now_rfc3339();
    toggle_important_at(index, note_id, important, now.as_str())
}

/// Gives the note `note_id` a new title at the instant `now`, which becomes
/// the note's time of last change. Tags and links stay as they are.
pub fn update_note_title_at(index: &mut IndexFile, note_id: &str, new_title: &str, now: &str) -> (r:
    Result<NoteMeta, String>)
    ensures
        r is Ok <==> lookup_error(old(index)@.notes, note_id@) is None,
        r matches Err(e) ==> lookup_error(old(index)@.notes, note_id@) == Some(e@) && final(index)@
            == old(index)@,
        r matches Ok(meta) ==> replaces_note(old(index)@, final(index)@, note_id@, meta@) && meta@
            == (NoteMetaView {
            title: new_title@,
            updated_at: now@,
            ..note_with_id(old(index)@.notes, note_id@)
        }),
{
    match locate_note(index, note_id) {
        Err(e) => Err(e),
        Ok(i) => {
            let ghost before = index.notes.deep_view();
            proof {
                assert(before[i as int] == index.notes[i as int]@);
            }
            index.notes[i].title = new_title.to_string();
            index.notes[i].updated_at = now.to_string();
            let meta = index.notes[i].clone();
            proof {
                assert(index.notes.deep_view() =~= before.update(i as int, meta@));
            }
            Ok(meta)
        },
    }
}

/// Gives the note `note_id` a new title, now. Tags and links stay as they
/// are.
pub fn update_note_title(index: &mut IndexFile, note_id: &str, new_title: &str) -> (r: Result<
    NoteMeta,
    String,
>)
    ensures
        r is Ok <==> lookup_error(old(index)@.notes, note_id@) is None,
        r matches Err(e) ==> lookup_error(old(index)@.notes, note_id@) == Some(e@) && final(index)@
            == old(index)@,
        r matches Ok(meta) ==> replaces_note(old(index)@, final(index)@, note_id@, meta@)
            && is_touched(
            meta@,
            NoteMetaView { title: new_title@, ..note_with_id(old(index)@.notes, note_id@) },
        ),
{
    let now = now_rfc3339();
    update_note_title_at(index, note_id, new_title, now.as_str())
}

/// Takes the note `note_id` out of the index: the first note with that
/// identifier goes, the others stay in their order. Where identifiers are
/// unique, no note has the identifier afterwards. The caller removes the
/// note's body file, its attachments and its history.
pub fn delete_note(index: &mut IndexFile, note_id: &str) -> (r: Result<(), String>)
    ensures
        r is Ok <==> lookup_error(old(index)@.notes, note_id@) is None,
        r matches Err(e) ==> lookup_error(old(index)@.notes, note_id@) == Some(e@) && final(index)@
            == old(index)@,
        r is Ok ==> final(index)@.notes == old(index)@.notes.remove(
            position_of(old(index)@.notes, note_id@),
        ) && final(index)@.notebooks == old(index)@.notebooks,
        r is Ok && unique_note_ids(old(index)@.notes) ==> !has_note(final(index)@.notes, note_id@),
{
    match locate_note(index, note_id) {
        Err(e) => Err(e),
        Ok(i) => {
            let ghost before = index.notes.deep_view();
            index.notes.remove(i);
            proof {
                let after = index.notes.deep_view();
                assert(after =~= before.remove(i as int));
                if unique_note_ids(before) && has_note(after, note_id@) {
                    let k = choose|k: int| 0 <= k < after.len() && (#[trigger] after[k]).id
                        == note_id@;
                    if k < i {
                        assert(before[k].id == note_id@);
                    } else {
                        assert(before[k + 1].id == note_id@);
                        assert(before[i as int].id != before[k + 1].id);
                    }
                }
            }
            Ok(())
        },
    }
}

/// Once a note is deleted from an index with unique identifiers, reading it
/// fails: the note is not found.
pub proof fn lemma_deleted_note_is_not_found(
    before: IndexFileView,
    after: IndexFileView,
    id: Seq<char>,
)
    requires
        unique_note_ids(before.notes),
        lookup_error(before.notes, id) is None,
        after.notes == before.notes.remove(position_of(before.notes, id)),
    ensures
        lookup_error(after.notes, id) == Some("Note not found"@),
{
    let i = position_of(before.notes, id);
    lemma_first_exists(before.notes, id);
    if has_note(after.notes, id) {
        let k = choose|k: int| 0 <= k < after.notes.len() && (#[trigger] after.notes[k]).id == id;
        if k < i {
            assert(before.notes[k].id == id);
        } else {
            assert(before.notes[k + 1].id == id);
            assert(before.notes[i].id != before.notes[k + 1].id);
        }
    }
}

/// The note links to the note `id`.
pub open spec fn links_to_note(n: NoteMetaView, id: Seq<char>) -> bool {
    n.links_to.contains(id)
}

/// The test for notes that link to `id`, as a function.
pub open spec fn links_to_test(id: Seq<char>) -> spec_fn(NoteMetaView) -> bool {
    |n: NoteMetaView| links_to_note(n, id)
}

/// Whether `list` holds the text `wanted`.
pub fn holds_text(list: &Vec<String>, wanted: &str) -> (r: bool)
    ensures
        r == list.deep_view().contains(wanted@),
{
    let mut i: usize = 0;
    while i < list.len()
        invariant
            i <= list.len(),
            forall|k: int| 0 <= k < i ==> #[trigger] list.deep_view()[k] != wanted@,
        decreases list.len() - i,
    {
        proof {
            assert(list.deep_view()[i as int] == list[i as int]@);
        }
        if same_text(list[i].as_str(), wanted) {
            return true;
        }
        i += 1;
    }
    false
}

/// The notes that link to the note `note_id`, in the order of the index.
pub fn get_backlinks(index: &IndexFile, note_id: &str) -> (r: Result<Vec<NoteMeta>, String>)
    ensures
        r is Ok <==> is_valid_id(note_id@),
        r matches Err(e) ==> e@ == note_id_error(note_id@),
        r matches Ok(found) ==> found.deep_view() == index@.notes.filter(links_to_test(note_id@)),
{
    match validate_note_id(note_id) {
        Err(e) => {
            return Err(e);
        },
        Ok(_) => {},
    }
    let ghost all = index.notes.deep_view();
    let ghost test = links_to_test(note_id@);
    let mut out: Vec<NoteMeta> = Vec::new();
    let mut i: usize = 0;
    proof {
        reveal(Seq::filter);
        assert(all.take(0) =~= Seq::<NoteMetaView>::empty());
        assert(out.deep_view() =~= all.take(0).filter(test));
    }
    while i < index.notes.len()
        invariant
            i <= index.notes.len(),
            all == index.notes.deep_view(),
            test == links_to_test(note_id@),
            out.deep_view() == all.take(i as int).filter(test),
        decreases index.notes.len() - i,
    {
        let n = &index.notes[i];
        let ghost prior = out.deep_view();
        proof {
            assert(all[i as int] == n@);
            assert(all.take(i + 1) == all.take(i as int).push(n@));
            all.take(i as int).lemma_filter_push(n@, test);
        }
        if holds_text(&n.links_to, note_id) {
            out.push(n.clone());
            proof {
                assert(out.deep_view() =~~= prior.push(n@));
            }
        }
        i += 1;
    }
    proof {
        assert(all.take(index.notes.len() as int) == all);
    }
    Ok(out)
}

} // verus!
