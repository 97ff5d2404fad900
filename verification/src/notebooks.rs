//! Notebooks: listing them, making one, renaming and archiving it, and
//! putting a note into one.

use crate::clock::now_rfc3339;
use crate::ident::{is_uuid_text, new_id};
use crate::models::{IndexFile, IndexFileView, NoteMeta, NoteMetaView, Notebook, NotebookView};
use crate::order::{arranged, ascending, lemma_arranged_keys_sorted, stable_order, stable_order_of};
use crate::sandbox::{
    is_valid_id, note_id_error, notebook_id_error, validate_note_id, validate_notebook_id,
};
use crate::storage::{
    find_note, has_note, is_touched, no_fresh_id, note_with_id, replaces_note, ID_ATTEMPTS,
};
use crate::text::{from_chars, same_text, to_chars, trim, trim_chars};
use vstd::prelude::*;

verus! {

/// The test for notebooks that are archived, or for those that are not, as
/// a function.
pub open spec fn archived_test(archived: bool) -> spec_fn(NotebookView) -> bool {
    |n: NotebookView| n.archived == archived
}

/// The times of creation of the given notebooks, in their order.
pub open spec fn created_times(notebooks: Seq<NotebookView>) -> Seq<Seq<char>> {
    Seq::new(notebooks.len(), |i: int| notebooks[i].created_at)
}

/// The given notebooks, the one created first first; notebooks created at
/// the same time keep their order.
pub open spec fn oldest_first(notebooks: Seq<NotebookView>) -> Seq<NotebookView> {
    arranged(notebooks, stable_order_of(created_times(notebooks), false))
}

/// The notebooks as they are listed: those in use before the archived
/// ones, each group from the oldest to the newest.
pub open spec fn listed_notebooks(notebooks: Seq<NotebookView>) -> Seq<NotebookView> {
    oldest_first(notebooks.filter(archived_test(false))) + oldest_first(
        notebooks.filter(archived_test(true)),
    )
}

fn notebooks_where(notebooks: &Vec<Notebook>, archived: bool) -> (r: Vec<Notebook>)
    ensures
        r.deep_view() == notebooks.deep_view().filter(archived_test(archived)),
{
    let ghost all = notebooks.deep_view();
    let ghost test = archived_test(archived);
    let mut out: Vec<Notebook> = Vec::new();
    let mut i: usize = 0;
    proof {
        reveal(Seq::filter);
        assert(all.take(0) =~= Seq::<NotebookView>::empty());
        assert(out.deep_view() =~= all.take(0).filter(test));
    }
    while i < notebooks.len()
        invariant
            i <= notebooks.len(),
            all == notebooks.deep_view(),
            test == archived_test(archived),
            out.deep_view() == all.take(i as int).filter(test),
        decreases notebooks.len() - i,
    {
        let n = &notebooks[i];
        let ghost prior = out.deep_view();
        proof {
            assert(all[i as int] == n@);
            assert(all.take(i + 1) == all.take(i as int).push(n@));
            all.take(i as int).lemma_filter_push(n@, test);
        }
        if n.archived == archived {
            out.push(n.clone());
            proof {
                assert(out.deep_view() =~~= prior.push(n@));
            }
        }
        i += 1;
    }
    proof {
        assert(all.take(notebooks.len() as int) == all);
    }
    out
}

fn sort_oldest_first(notebooks: &Vec<Notebook>) -> (r: Vec<Notebook>)
    ensures
        r.deep_view() == oldest_first(notebooks.deep_view()),
        ascending(created_times(r.deep_view())),
{
    let ghost all = notebooks.deep_view();
    let mut keys: Vec<String> = Vec::new();
    let mut i: usize = 0;
    proof {
        assert(keys.deep_view() =~= created_times(all).take(0));
    }
    while i < notebooks.len()
        invariant
            i <= notebooks.len(),
            all == notebooks.deep_view(),
            keys.deep_view() == created_times(all).take(i as int),
        decreases notebooks.len() - i,
    {
        let ghost prior = keys.deep_view();
        keys.push(notebooks[i].created_at.clone());
        proof {
            assert(all[i as int] == notebooks[i as int]@);
            assert(keys.deep_view() =~~= prior.push(all[i as int].created_at));
            assert(created_times(all).take(i + 1) =~~= prior.push(all[i as int].created_at));
        }
        i += 1;
    }
    proof {
        assert(created_times(all).take(notebooks.len() as int) =~= created_times(all));
    }
    let perm = stable_order(&keys, false);
    let ghost target = arranged(all, perm@);
    let mut out: Vec<Notebook> = Vec::new();
    let mut k: usize = 0;
    proof {
        assert(out.deep_view() =~= target.take(0));
    }
    while k < perm.len()
        invariant
            k <= perm.len(),
            perm.len() == notebooks.len(),
            forall|t: int| 0 <= t < perm.len() ==> (#[trigger] perm[t]) < notebooks.len(),
            all == notebooks.deep_view(),
            target == arranged(all, perm@),
            out.deep_view() == target.take(k as int),
        decreases perm.len() - k,
    {
        let ghost prior = out.deep_view();
        out.push(notebooks[perm[k]].clone());
        proof {
            assert(all[perm[k as int] as int] == notebooks[perm[k as int] as int]@);
            assert(out.deep_view() =~~= prior.push(target[k as int]));
            assert(target.take(k + 1) =~~= prior.push(target[k as int]));
        }
        k += 1;
    }
    proof {
        assert(target.take(perm.len() as int) =~= target);
        lemma_arranged_keys_sorted(created_times(all), perm@, false);
        assert(created_times(target) =~= arranged(created_times(all), perm@));
    }
    out
}

/// All notebooks: those in use before the archived ones, each group from
/// the oldest to the newest.
pub fn list_notebooks(index: &IndexFile) -> (r: Vec<Notebook>)
    ensures
        r.deep_view() == listed_notebooks(index@.notebooks),
{
    let mut out = sort_oldest_first(&notebooks_where(&index.notebooks, false));
    let mut rest = sort_oldest_first(&notebooks_where(&index.notebooks, true));
    let ghost a = out.deep_view();
    let ghost b = rest.deep_view();
    out.append(&mut rest);
    proof {
        assert(out.deep_view() =~~= a + b);
    }
    out
}

/// One of `notebooks` has the identifier `id`.
pub open spec fn has_notebook(notebooks: Seq<NotebookView>, id: Seq<char>) -> bool {
    exists|i: int| 0 <= i < notebooks.len() && (#[trigger] notebooks[i]).id == id
}

/// The notebook at position `i` is the first of `notebooks` with the
/// identifier `id`.
pub open spec fn is_first_notebook(notebooks: Seq<NotebookView>, id: Seq<char>, i: int) -> bool {
    &&& 0 <= i < notebooks.len()
    &&& notebooks[i].id == id
    &&& forall|j: int| 0 <= j < i ==> (#[trigger] notebooks[j]).id != id
}

/// The position of the first of `notebooks` with the identifier `id`.
pub fn find_notebook(notebooks: &Vec<Notebook>, id: &str) -> (r: Option<usize>)
    ensures
        r is Some <==> has_notebook(notebooks.deep_view(), id@),
        r matches Some(i) ==> is_first_notebook(notebooks.deep_view(), id@, i as int),
{
    let mut i: usize = 0;
    while i < notebooks.len()
        invariant
            i <= notebooks.len(),
            forall|j: int| 0 <= j < i ==> (#[trigger] notebooks.deep_view()[j]).id != id@,
        decreases notebooks.len() - i,
    {
        proof {
            assert(notebooks.deep_view()[i as int] == notebooks[i as int]@);
        }
        if same_text(notebooks[i].id.as_str(), id) {
            return Some(i);
        }
        i += 1;
    }
    None
}

/// Every identifier that was drawn is taken: `drawn` holds `ID_ATTEMPTS`
/// written UUIDs, and each of them is the identifier of one of
/// `notebooks`.
pub open spec fn all_taken_by_notebooks(notebooks: Seq<NotebookView>, drawn: Seq<Seq<char>>) -> bool {
    &&& drawn.len() == ID_ATTEMPTS
    &&& forall|k: int|
        0 <= k < drawn.len() ==> is_uuid_text(#[trigger] drawn[k]) && has_notebook(
            notebooks,
            drawn[k],
        )
}

/// One of `notebooks` has a written UUID as its identifier. Where none
/// has, no UUID that is drawn can be taken.
pub open spec fn has_uuid_notebook(notebooks: Seq<NotebookView>) -> bool {
    exists|i: int| 0 <= i < notebooks.len() && is_uuid_text((#[trigger] notebooks[i]).id)
}

/// Where every drawn identifier was taken, a notebook has a written UUID as
/// its identifier.
pub proof fn lemma_all_taken_needs_uuid_notebook(
    notebooks: Seq<NotebookView>,
    drawn: Seq<Seq<char>>,
)
    requires
        all_taken_by_notebooks(notebooks, drawn),
    ensures
        has_uuid_notebook(notebooks),
{
    assert(is_uuid_text(drawn[0]) && has_notebook(notebooks, drawn[0]));
    let i = choose|i: int| 0 <= i < notebooks.len() && (#[trigger] notebooks[i]).id == drawn[0];
    assert(is_uuid_text(notebooks[i].id));
}

/// The drawn identifier `id`, if none of `notebooks` has it.
pub fn untaken_by_notebooks(notebooks: &Vec<Notebook>, id: String) -> (r: Option<String>)
    ensures
        r is Some <==> !has_notebook(notebooks.deep_view(), id@),
        r matches Some(kept) ==> kept@ == id@,
{
    if find_notebook(notebooks, id.as_str()).is_none() {
        Some(id)
    } else {
        None
    }
}

/// An identifier that none of `notebooks` has: a random UUID, drawn again
/// where one is taken, up to `ID_ATTEMPTS` times. `None` comes back only
/// where as many were drawn and every one of them was taken. Where no
/// notebook has a written UUID as its identifier, as where there is no
/// notebook, none is taken, so an identifier comes back.
pub fn fresh_notebook_id(notebooks: &Vec<Notebook>) -> (r: Option<String>)
    ensures
        r matches Some(id) ==> is_uuid_text(id@) && is_valid_id(id@) && !has_notebook(
            notebooks.deep_view(),
            id@,
        ),
        r is None ==> exists|drawn: Seq<Seq<char>>| #[trigger]
            all_taken_by_notebooks(notebooks.deep_view(), drawn),
        !has_uuid_notebook(notebooks.deep_view()) ==> r is Some,
        notebooks.len() == 0 ==> r is Some,
{
    let ghost mut drawn: Seq<Seq<char>> = Seq::empty();
    let mut attempt: usize = 0;
    while attempt < ID_ATTEMPTS
        invariant
            attempt <= ID_ATTEMPTS,
            drawn.len() == attempt,
            forall|k: int|
                0 <= k < drawn.len() ==> is_uuid_text(#[trigger] drawn[k]) && has_notebook(
                    notebooks.deep_view(),
                    drawn[k],
                ),
        decreases ID_ATTEMPTS - attempt,
    {
        let id = new_id();
        let ghost text = id@;
        match untaken_by_notebooks(notebooks, id) {
            Some(kept) => {
                return Some(kept);
            },
            None => {},
        }
        proof {
            drawn = drawn.push(text);
        }
        attempt += 1;
    }
    proof {
        assert(all_taken_by_notebooks(notebooks.deep_view(), drawn));
        lemma_all_taken_needs_uuid_notebook(notebooks.deep_view(), drawn);
    }
    None
}

/// No two of `notebooks` have the same identifier.
pub open spec fn unique_notebook_ids(notebooks: Seq<NotebookView>) -> bool {
    forall|i: int, j: int|
        0 <= i < j < notebooks.len() ==> (#[trigger] notebooks[i]).id != (
        #[trigger] notebooks[j]).id
}

/// Why no notebook `name` can be made under the identifier `id`, if none
/// can: the name is blank, or the identifier is not valid, or a notebook
/// has it.
pub open spec fn new_notebook_error(
    notebooks: Seq<NotebookView>,
    id: Seq<char>,
    name: Seq<char>,
) -> Option<Seq<char>> {
    if trim(name).len() == 0 {
        Some("Notebook name cannot be empty"@)
    } else if !is_valid_id(id) {
        Some(notebook_id_error(id))
    } else if has_notebook(notebooks, id) {
        Some(no_fresh_id())
    } else {
        None
    }
}

/// `notebook` is the notebook made with the name `name` at the instant
/// `now`, and `after` is `before` with it added at the end of the
/// notebooks, under an identifier that no notebook had.
pub open spec fn is_new_notebook(
    before: IndexFileView,
    after: IndexFileView,
    notebook: NotebookView,
    name: Seq<char>,
) -> bool {
    &&& is_valid_id(notebook.id)
    &&& !has_notebook(before.notebooks, notebook.id)
    &&& notebook.name == trim(name)
    &&& !notebook.archived
    &&& after.notebooks == before.notebooks.push(notebook)
    &&& after.notes == before.notes
    &&& unique_notebook_ids(before.notebooks) ==> unique_notebook_ids(after.notebooks)
}

/// Makes a notebook with the name `name`, white space around it removed,
/// under the identifier `id`, which was drawn for it, at the instant `now`,
/// and adds it at the end of the notebooks. A blank name is refused, and so
/// is an identifier that is not valid or that a notebook has; nothing
/// changes then.
pub fn create_notebook_at(index: &mut IndexFile, name: &str, id: String, now: &str) -> (r: Result<
    Notebook,
    String,
>)
    ensures
        r is Ok <==> new_notebook_error(old(index)@.notebooks, id@, name@) is None,
        r matches Err(e) ==> final(index)@ == old(index)@ && Some(e@) == new_notebook_error(
            old(index)@.notebooks,
            id@,
            name@,
        ),
        r matches Ok(notebook) ==> is_new_notebook(old(index)@, final(index)@, notebook@, name@)
            && notebook@.id == id@ && notebook@.created_at == now@,
{
    let trimmed = trim_chars(&to_chars(name));
    if trimmed.len() == 0 {
        return Err("Notebook name cannot be empty".to_string());
    }
    match validate_notebook_id(id.as_str()) {
        Err(e) => {
            return Err(e);
        },
        Ok(_) => {},
    }
    if find_notebook(&index.notebooks, id.as_str()).is_some() {
        return Err("No fresh identifier could be made".to_string());
    }
    let notebook = Notebook {
        id,
        name: from_chars(&trimmed),
        archived: false,
        created_at: now.to_string(),
    };
    let ghost before = index.notebooks.deep_view();
    index.notebooks.push(notebook.clone());
    proof {
        let after = index.notebooks.deep_view();
        assert(after =~= before.push(notebook@));
        if unique_notebook_ids(before) {
            assert forall|i: int, j: int| 0 <= i < j < after.len() implies (#[trigger] after[i]).id
                != (#[trigger] after[j]).id by {
                if j < before.len() {
                    assert(before[i].id != before[j].id);
                } else {
                    assert(before[i].id != notebook@.id);
                }
            }
        }
    }
    Ok(notebook)
}

/// Makes a notebook with the name `name`, white space around it removed,
/// now, under a fresh identifier, and adds it at the end of the notebooks:
/// the identifiers stay unique. A blank name is refused. Else the making
/// fails only where every identifier that was drawn is taken; it succeeds
/// where no notebook has a written UUID as its identifier. Where it fails,
/// nothing changes.
pub fn create_notebook(index: &mut IndexFile, name: &str) -> (r: Result<Notebook, String>)
    ensures
        r is Ok ==> trim(name@).len() > 0,
        trim(name@).len() > 0 && !has_uuid_notebook(old(index)@.notebooks) ==> r is Ok,
        r matches Err(e) ==> final(index)@ == old(index)@ && (if trim(name@).len() == 0 {
            e@ == "Notebook name cannot be empty"@
        } else {
            e@ == no_fresh_id() && exists|drawn: Seq<Seq<char>>| #[trigger]
                all_taken_by_notebooks(old(index)@.notebooks, drawn)
        }),
        r matches Ok(notebook) ==> is_new_notebook(old(index)@, final(index)@, notebook@, name@)
            && is_uuid_text(notebook@.id),
{
    if trim_chars(&to_chars(name)).len() == 0 {
        return Err("Notebook name cannot be empty".to_string());
    }
    match fresh_notebook_id(&index.notebooks) {
        None => Err("No fresh identifier could be made".to_string()),
        Some(id) => {
            let now = now_rfc3339();
            create_notebook_at(index, name, id, now.as_str())
        },
    }
}

/// Why the note `note_id` cannot be moved to `notebook_id`, if it cannot:
/// one of the identifiers is not valid, or no notebook or no note has it.
pub open spec fn move_error(
    index: IndexFileView,
    note_id: Seq<char>,
    notebook_id: Option<Seq<char>>,
) -> Option<Seq<char>> {
    if !is_valid_id(note_id) {
        Some(note_id_error(note_id))
    } else if notebook_id is Some && !is_valid_id(notebook_id->0) {
        Some(notebook_id_error(notebook_id->0))
    } else if notebook_id is Some && !has_notebook(index.notebooks, notebook_id->0) {
        Some("Notebook not found"@)
    } else if !has_note(index.notes, note_id) {
        Some("Note not found"@)
    } else {
        None
    }
}

/// Puts the note `note_id` into the notebook `notebook_id`, or into none.
/// The note gets a new time of last change.
/// All this at the instant `now`, which becomes the time of last change.
pub fn move_note_to_notebook_at(index: &mut IndexFile, note_id: &str, notebook_id: Option<&str>, now: &str) -> (r:
    Result<NoteMeta, String>)
    ensures
        r is Ok <==> move_error(old(index)@, note_id@, notebook_id.deep_view()) is None,
        r matches Err(e) ==> move_error(old(index)@, note_id@, notebook_id.deep_view()) == Some(e@)
            && final(index)@ == old(index)@,
        r matches Ok(meta) ==> replaces_note(old(index)@, final(index)@, note_id@, meta@)
            && is_touched(
            meta@,
            NoteMetaView {
                notebook_id: notebook_id.deep_view(),
                ..note_with_id(old(index)@.notes, note_id@)
            },
        ),
        r matches Ok(meta) ==> meta@.updated_at == now@,
{
    match validate_note_id(note_id) {
        Err(e) => {
            return Err(e);
        },
        Ok(_) => {},
    }
    match notebook_id {
        Some(nid) => {
            match validate_notebook_id(nid) {
                Err(e) => {
                    return Err(e);
                },
                Ok(_) => {},
            }
            if find_notebook(&index.notebooks, nid).is_none() {
                return Err("Notebook not found".to_string());
            }
        },
        None => {},
    }
    match find_note(&index.notes, note_id) {
        None => Err("Note not found".to_string()),
        Some(i) => {
            let ghost before = index.notes.deep_view();
            proof {
                assert(before[i as int] == index.notes[i as int]@);
            }
            index.notes[i].notebook_id = match notebook_id {
                Some(nid) => Some(nid.to_string()),
                None => None,
            };
            index.notes[i].updated_at = now.to_string();
            let meta = index.notes[i].clone();
            proof {
                assert(index.notes.deep_view() =~= before.update(i as int, meta@));
            }
            Ok(meta)
        },
    }
}

/// Puts the note `note_id` into the notebook `notebook_id`, or into none.
/// The note gets a new time of last change.
pub fn move_note_to_notebook(index: &mut IndexFile, note_id: &str, notebook_id: Option<&str>) -> (r:
    Result<NoteMeta, String>)
    ensures
        r is Ok <==> move_error(old(index)@, note_id@, notebook_id.deep_view()) is None,
        r matches Err(e) ==> move_error(old(index)@, note_id@, notebook_id.deep_view()) == Some(e@)
            && final(index)@ == old(index)@,
        r matches Ok(meta) ==> replaces_note(old(index)@, final(index)@, note_id@, meta@)
            && is_touched(
            meta@,
            NoteMetaView {
                notebook_id: notebook_id.deep_view(),
                ..note_with_id(old(index)@.notes, note_id@)
            },
        ),
{
    let now = now_rfc3339();
    move_note_to_notebook_at(index, note_id, notebook_id, now.as_str())
}

/// Why the notebook `id` cannot be looked up, if it cannot.
pub open spec fn notebook_error(notebooks: Seq<NotebookView>, id: Seq<char>) -> Option<Seq<char>> {
    if !is_valid_id(id) {
        Some(notebook_id_error(id))
    } else if !has_notebook(notebooks, id) {
        Some("Notebook not found"@)
    } else {
        None
    }
}

/// Archives the notebook `notebook_id`, or takes it back into use.
pub fn archive_notebook(index: &mut IndexFile, notebook_id: &str, archived: bool) -> (r: Result<
    Notebook,
    String,
>)
    ensures
        r is Ok <==> notebook_error(old(index)@.notebooks, notebook_id@) is None,
        r matches Err(e) ==> notebook_error(old(index)@.notebooks, notebook_id@) == Some(e@)
            && final(index)@ == old(index)@,
        r matches Ok(notebook) ==> final(index)@.notes == old(index)@.notes && exists|i: int|
            {
                &&& is_first_notebook(old(index)@.notebooks, notebook_id@, i)
                &&& notebook@ == (NotebookView { archived, ..(#[trigger] old(index)@.notebooks[i]) })
                &&& final(index)@.notebooks == old(index)@.notebooks.update(i, notebook@)
            },
{
    match validate_notebook_id(notebook_id) {
        Err(e) => {
            return Err(e);
        },
        Ok(_) => {},
    }
    match find_notebook(&index.notebooks, notebook_id) {
        None => Err("Notebook not found".to_string()),
        Some(i) => {
            let ghost before = index.notebooks.deep_view();
            proof {
                assert(before[i as int] == index.notebooks[i as int]@);
            }
            index.notebooks[i].archived = archived;
            let notebook = index.notebooks[i].clone();
            proof {
                assert(index.notebooks.deep_view() =~= before.update(i as int, notebook@));
            }
            Ok(notebook)
        },
    }
}

/// Why the notebook `id` cannot get the name `name`, if it cannot: the name
/// is blank, or the notebook cannot be looked up.
pub open spec fn notebook_rename_error(
    notebooks: Seq<NotebookView>,
    id: Seq<char>,
    name: Seq<char>,
) -> Option<Seq<char>> {
    if trim(name).len() == 0 {
        Some("Notebook name cannot be empty"@)
    } else {
        notebook_error(notebooks, id)
    }
}

/// Gives the notebook `notebook_id` the name `new_name`, white space around
/// it removed.
pub fn update_notebook_name(index: &mut IndexFile, notebook_id: &str, new_name: &str) -> (r: Result<
    Notebook,
    String,
>)
    ensures
        r is Ok <==> notebook_rename_error(old(index)@.notebooks, notebook_id@, new_name@) is None,
        r matches Err(e) ==> notebook_rename_error(old(index)@.notebooks, notebook_id@, new_name@)
            == Some(e@) && final(index)@ == old(index)@,
        r matches Ok(notebook) ==> final(index)@.notes == old(index)@.notes && exists|i: int|
            {
                &&& is_first_notebook(old(index)@.notebooks, notebook_id@, i)
                &&& notebook@ == (NotebookView {
                    name: trim(new_name@),
                    ..(#[trigger] old(index)@.notebooks[i])
                })
                &&& final(index)@.notebooks == old(index)@.notebooks.update(i, notebook@)
            },
{
    let trimmed = trim_chars(&to_chars(new_name));
    if trimmed.len() == 0 {
        return Err("Notebook name cannot be empty".to_string());
    }
    match validate_notebook_id(notebook_id) {
        Err(e) => {
            return Err(e);
        },
        Ok(_) => {},
    }
    match find_notebook(&index.notebooks, notebook_id) {
        None => Err("Notebook not found".to_string()),
        Some(i) => {
            let ghost before = index.notebooks.deep_view();
            proof {
                assert(before[i as int] == index.notebooks[i as int]@);
            }
            index.notebooks[i].name = from_chars(&trimmed);
            let notebook = index.notebooks[i].clone();
            proof {
                assert(index.notebooks.deep_view() =~= before.update(i as int, notebook@));
            }
            Ok(notebook)
        },
    }
}

} // verus!
