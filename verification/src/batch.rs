//! Operations on several notes at once: starring, deleting, and merging
//! notes into one.

use crate::clock::now_rfc3339;
use crate::models::{IndexFile, NoteMeta, NoteMetaView};
use crate::order::{arranged, stable_order, stable_order_of};
use crate::sandbox::{is_valid_id, note_id_error, validate_note_id};
use crate::storage::{find_note, has_note, holds_text, note_with_id, position_of};
use crate::text::{append_str, from_chars, trim, trim_chars};
use vstd::prelude::*;

verus! {

/// Those of `after`, in order, that stand where a note of `before` has one
/// of the identifiers `ids`.
pub open spec fn chosen_notes(
    before: Seq<NoteMetaView>,
    after: Seq<NoteMetaView>,
    ids: Seq<Seq<char>>,
) -> Seq<NoteMetaView>
    decreases before.len(),
{
    if before.len() == 0 || after.len() != before.len() {
        Seq::empty()
    } else if ids.contains(before.last().id) {
        chosen_notes(before.drop_last(), after.drop_last(), ids).push(after.last())
    } else {
        chosen_notes(before.drop_last(), after.drop_last(), ids)
    }
}

/// Sets whether the notes `note_ids` are starred. Each of them gets the
/// flag and a new time of last change, the same for all. The notes that
/// were changed are handed back, in the order of the index. Identifiers
/// that no note has are passed over.
/// All this at the instant `now`, which becomes the time of last change of
/// each of them.
pub fn batch_toggle_important_at(index: &mut IndexFile, note_ids: &Vec<String>, important: bool, now: &str) -> (r:
    Vec<NoteMeta>)
    ensures
        final(index)@.notebooks == old(index)@.notebooks,
        final(index)@.notes.len() == old(index)@.notes.len(),
        forall|i: int|
            0 <= i < old(index)@.notes.len() ==> #[trigger] final(index)@.notes[i] == if note_ids.deep_view().contains(
                old(index)@.notes[i].id,
            ) {
                NoteMetaView {
                    important,
                    updated_at: final(index)@.notes[i].updated_at,
                    ..old(index)@.notes[i]
                }
            } else {
                old(index)@.notes[i]
            },
        forall|i: int, j: int|
            0 <= i < r.len() && 0 <= j < r.len() ==> (#[trigger] r.deep_view()[i]).updated_at == (
            #[trigger] r.deep_view()[j]).updated_at,
        r.deep_view() == chosen_notes(
            old(index)@.notes,
            final(index)@.notes,
            note_ids.deep_view(),
        ),
        forall|i: int| 0 <= i < r.len() ==> (#[trigger] r.deep_view()[i]).updated_at == now@,
{
    let mut updated: Vec<NoteMeta> = Vec::new();
    let ghost before = index.notes.deep_view();
    let ghost ids = note_ids.deep_view();
    let n: usize = index.notes.len();
    proof {
        assert(updated.deep_view() =~= chosen_notes(before.take(0), before.take(0), ids));
    }
    if note_ids.len() == 0 {
        proof {
            lemma_none_chosen(before, before, ids);
        }
        return updated;
    }
    let now = now.to_string();
    let mut i: usize = 0;
    while i < n
        invariant
            i <= n,
            n == index.notes.len(),
            before.len() == n,
            before == old(index).notes.deep_view(),
            ids == note_ids.deep_view(),
            index.notebooks == old(index).notebooks,
            forall|k: int| i <= k < n ==> #[trigger] index.notes.deep_view()[k] == before[k],
            forall|k: int|
                0 <= k < i ==> #[trigger] index.notes.deep_view()[k] == if ids.contains(
                    before[k].id,
                ) {
                    NoteMetaView {
                        important,
                        updated_at: index.notes.deep_view()[k].updated_at,
                        ..before[k]
                    }
                } else {
                    before[k]
                },
            forall|k: int|
                0 <= k < updated.len() ==> (#[trigger] updated.deep_view()[k]).updated_at == now@,
            updated.deep_view() == chosen_notes(
                before.take(i as int),
                index.notes.deep_view().take(i as int),
                ids,
            ),
        decreases n - i,
    {
        let ghost here = index.notes.deep_view();
        let ghost prior = updated.deep_view();
        proof {
            assert(here[i as int] == index.notes[i as int]@);
            assert(before.take(i + 1).drop_last() == before.take(i as int));
            assert(before.take(i + 1).last() == before[i as int]);
        }
        if holds_text(note_ids, index.notes[i].id.as_str()) {
            index.notes[i].important = important;
            index.notes[i].updated_at = now.clone();
            let meta = index.notes[i].clone();
            updated.push(meta);
            proof {
                let later = index.notes.deep_view();
                assert(later[i as int] == index.notes[i as int]@);
                assert forall|k: int| 0 <= k < n && k != i implies #[trigger] later[k] == here[k] by {}
                assert(later.take(i + 1).drop_last() =~= here.take(i as int));
                assert(later.take(i + 1).last() == later[i as int]);
                assert(updated.deep_view() =~~= prior.push(later[i as int]));
            }
        } else {
            proof {
                assert(here.take(i + 1).drop_last() =~= here.take(i as int));
            }
        }
        i += 1;
    }
    proof {
        assert(before.take(n as int) == before);
        assert(index.notes.deep_view().take(n as int) == index.notes.deep_view());
    }
    updated
}

/// Sets whether the notes `note_ids` are starred. Each of them gets the
/// flag and a new time of last change, the same for all. The notes that
/// were changed are handed back, in the order of the index. Identifiers
/// that no note has are passed over.
pub fn batch_toggle_important(index: &mut IndexFile, note_ids: &Vec<String>, important: bool) -> (r:
    Vec<NoteMeta>)
    ensures
        final(index)@.notebooks == old(index)@.notebooks,
        final(index)@.notes.len() == old(index)@.notes.len(),
        forall|i: int|
            0 <= i < old(index)@.notes.len() ==> #[trigger] final(index)@.notes[i] == if note_ids.deep_view().contains(
                old(index)@.notes[i].id,
            ) {
                NoteMetaView {
                    important,
                    updated_at: final(index)@.notes[i].updated_at,
                    ..old(index)@.notes[i]
                }
            } else {
                old(index)@.notes[i]
            },
        forall|i: int, j: int|
            0 <= i < r.len() && 0 <= j < r.len() ==> (#[trigger] r.deep_view()[i]).updated_at == (
            #[trigger] r.deep_view()[j]).updated_at,
        r.deep_view() == chosen_notes(
            old(index)@.notes,
            final(index)@.notes,
            note_ids.deep_view(),
        ),
{
    let now = now_rfc3339();
    batch_toggle_important_at(index, note_ids, important, now.as_str())
}

proof fn lemma_none_chosen(before: Seq<NoteMetaView>, after: Seq<NoteMetaView>, ids: Seq<Seq<char>>)
    requires
        ids.len() == 0,
    ensures
        chosen_notes(before, after, ids) == Seq::<NoteMetaView>::empty(),
    decreases before.len(),
{
    if before.len() > 0 && after.len() == before.len() {
        lemma_none_chosen(before.drop_last(), after.drop_last(), ids);
    }
}

/// The position of the first of `ids` that is not a valid identifier.
pub open spec fn is_first_invalid(ids: Seq<Seq<char>>, k: int) -> bool {
    &&& 0 <= k < ids.len()
    &&& !is_valid_id(ids[k])
    &&& forall|j: int| 0 <= j < k ==> is_valid_id(#[trigger] ids[j])
}

/// All of `ids` are valid identifiers.
pub open spec fn all_valid(ids: Seq<Seq<char>>) -> bool {
    forall|j: int| 0 <= j < ids.len() ==> is_valid_id(#[trigger] ids[j])
}

/// The test for notes whose identifier is not among `ids`, as a function.
pub open spec fn stays_test(ids: Seq<Seq<char>>) -> spec_fn(NoteMetaView) -> bool {
    |n: NoteMetaView| !ids.contains(n.id)
}

/// Takes the notes `note_ids` out of the index. If one of the identifiers
/// is not valid, the first such is reported and nothing changes. Else every
/// note with one of the identifiers goes and the others stay in their
/// order. The caller removes the files of the notes.
pub fn batch_delete_notes(index: &mut IndexFile, note_ids: &Vec<String>) -> (r: Result<(), String>)
    ensures
        r is Ok <==> all_valid(note_ids.deep_view()),
        r matches Err(e) ==> final(index)@ == old(index)@ && exists|k: int|
            is_first_invalid(note_ids.deep_view(), k) && e@ == note_id_error(
                #[trigger] note_ids.deep_view()[k],
            ),
        r is Ok ==> final(index)@.notebooks == old(index)@.notebooks && final(index)@.notes == old(
            index,
        )@.notes.filter(stays_test(note_ids.deep_view())),
{
    let ghost ids = note_ids.deep_view();
    let ghost before = index.notes.deep_view();
    let ghost test = stays_test(ids);
    let mut k: usize = 0;
    while k < note_ids.len()
        invariant
            k <= note_ids.len(),
            ids == note_ids.deep_view(),
            forall|j: int| 0 <= j < k ==> is_valid_id(#[trigger] ids[j]),
        decreases note_ids.len() - k,
    {
        proof {
            assert(ids[k as int] == note_ids[k as int]@);
        }
        match validate_note_id(note_ids[k].as_str()) {
            Err(e) => {
                proof {
                    assert(is_first_invalid(ids, k as int));
                }
                return Err(e);
            },
            Ok(_) => {},
        }
        k += 1;
    }
    let mut kept: Vec<NoteMeta> = Vec::new();
    let mut i: usize = 0;
    proof {
        reveal(Seq::filter);
        assert(before.take(0) =~= Seq::<NoteMetaView>::empty());
        assert(kept.deep_view() =~= before.take(0).filter(test));
    }
    while i < index.notes.len()
        invariant
            i <= index.notes.len(),
            *index == *old(index),
            before == index.notes.deep_view(),
            ids == note_ids.deep_view(),
            test == stays_test(ids),
            kept.deep_view() == before.take(i as int).filter(test),
        decreases index.notes.len() - i,
    {
        let ghost prior = kept.deep_view();
        proof {
            assert(before[i as int] == index.notes[i as int]@);
            assert(before.take(i + 1) == before.take(i as int).push(before[i as int]));
            before.take(i as int).lemma_filter_push(before[i as int], test);
        }
        if !holds_text(note_ids, index.notes[i].id.as_str()) {
            kept.push(index.notes[i].clone());
            proof {
                assert(kept.deep_view() =~~= prior.push(before[i as int]));
            }
        }
        i += 1;
    }
    proof {
        assert(before.take(index.notes.len() as int) == before);
    }
    index.notes = kept;
    Ok(())
}

/// One part of a merged body: a heading with the note's title, then the
/// note's body, each followed by an empty line.
pub open spec fn section(title: Seq<char>, body: Seq<char>) -> Seq<char> {
    "## "@ + title + "\n\n"@ + body + "\n\n"@
}

/// The sections of the given titles and bodies, one after the other.
pub open spec fn sections(titles: Seq<Seq<char>>, bodies: Seq<Seq<char>>) -> Seq<char>
    decreases titles.len(),
{
    if titles.len() == 0 || bodies.len() != titles.len() {
        Seq::empty()
    } else {
        sections(titles.drop_last(), bodies.drop_last()) + section(titles.last(), bodies.last())
    }
}

/// The body that stands for the identifier at position `k`: the body given
/// at that position, or the empty body where none is given.
pub open spec fn body_at(bodies: Seq<Seq<char>>, k: int) -> Seq<char> {
    if 0 <= k < bodies.len() {
        bodies[k]
    } else {
        Seq::empty()
    }
}

/// The notes that the identifiers `ids` name, in the order of `ids`.
pub open spec fn named_notes(notes: Seq<NoteMetaView>, ids: Seq<Seq<char>>) -> Seq<NoteMetaView> {
    Seq::new(ids.len(), |k: int| note_with_id(notes, ids[k]))
}

/// The titles of the given notes.
pub open spec fn titles_of(notes: Seq<NoteMetaView>) -> Seq<Seq<char>> {
    Seq::new(notes.len(), |k: int| notes[k].title)
}

/// The times of last change of the given notes.
pub open spec fn times_of(notes: Seq<NoteMetaView>) -> Seq<Seq<char>> {
    Seq::new(notes.len(), |k: int| notes[k].updated_at)
}

/// The bodies that stand for `count` identifiers.
pub open spec fn bodies_for(bodies: Seq<Seq<char>>, count: nat) -> Seq<Seq<char>> {
    Seq::new(count, |k: int| body_at(bodies, k))
}

/// The order in which the notes `ids` are merged: the one changed first
/// comes first; notes changed at the same time keep the order of `ids`.
pub open spec fn merge_order(notes: Seq<NoteMetaView>, ids: Seq<Seq<char>>) -> Seq<usize> {
    stable_order_of(times_of(named_notes(notes, ids)), false)
}

/// The title of the merged note: that of the note changed first.
pub open spec fn merged_title(notes: Seq<NoteMetaView>, ids: Seq<Seq<char>>) -> Seq<char> {
    arranged(titles_of(named_notes(notes, ids)), merge_order(notes, ids))[0]
}

/// The body of the merged note: the sections of the notes in merge order,
/// white space around the whole removed.
pub open spec fn merged_body(
    notes: Seq<NoteMetaView>,
    ids: Seq<Seq<char>>,
    bodies: Seq<Seq<char>>,
) -> Seq<char> {
    trim(
        sections(
            arranged(titles_of(named_notes(notes, ids)), merge_order(notes, ids)),
            arranged(bodies_for(bodies, ids.len()), merge_order(notes, ids)),
        ),
    )
}

/// Every one of `ids` names a note.
pub open spec fn all_found(notes: Seq<NoteMetaView>, ids: Seq<Seq<char>>) -> bool {
    forall|k: int| 0 <= k < ids.len() ==> has_note(notes, #[trigger] ids[k])
}

/// What a merge hands back.
#[derive(Debug)]
pub struct MergeOutcome {
    /// The merged note as the index now records it.
    pub meta: NoteMeta,
    /// The body to write for the merged note; `None` where a single note
    /// was named and nothing is written.
    pub body: Option<String>,
}

/// Merges the notes `note_ids` into the first of them. `bodies` holds the
/// body of each, in the same order; a body that is missing counts as empty.
///
/// Without identifiers the merge is refused; with one, the note is handed
/// back as it is. Else each identifier must name a note. The notes are put
/// in the order of their times of last change, the earliest first; the
/// merged note gets the title of the earliest and, as its body, a section
/// for each note. It takes the place of the first identifier's note, with a
/// new time of last change; the notes of all further identifiers leave the
/// index. The caller writes the body and removes the files of the others.
/// All this at the instant `now`, which becomes the merged note's time of
/// last change.
pub fn merge_notes_at(index: &mut IndexFile, note_ids: &Vec<String>, bodies: &Vec<String>, now: &str) -> (r:
    Result<MergeOutcome, String>)
    ensures
        r is Ok <==> note_ids.len() > 0 && all_found(old(index)@.notes, note_ids.deep_view()),
        r matches Err(e) ==> final(index)@ == old(index)@ && e@ == if note_ids.len() == 0 {
            "No notes to merge"@
        } else {
            "Note not found"@
        },
        r is Ok && note_ids.len() == 1 ==> final(index)@ == old(index)@ && r->Ok_0.body is None
            && r->Ok_0.meta@ == note_with_id(old(index)@.notes, note_ids.deep_view()[0]),
        r is Ok && note_ids.len() > 1 ==> {
            let before = old(index)@.notes;
            let ids = note_ids.deep_view();
            let meta = r->Ok_0.meta@;
            &&& final(index)@.notebooks == old(index)@.notebooks
            &&& meta == (NoteMetaView {
                title: merged_title(before, ids),
                updated_at: meta.updated_at,
                ..note_with_id(before, ids[0])
            })
            &&& r->Ok_0.body.deep_view() == Some(merged_body(before, ids, bodies.deep_view()))
            &&& final(index)@.notes == before.update(position_of(before, ids[0]), meta).filter(
                stays_test(ids.skip(1)),
            )
        },
        r is Ok && note_ids.len() > 1 ==> r->Ok_0.meta@.updated_at == now@,
{
    if note_ids.len() == 0 {
        return Err("No notes to merge".to_string());
    }
    let ghost before = index.notes.deep_view();
    let ghost ids = note_ids.deep_view();
    // Where each identifier's note stands, and what is merged of it.
    let mut times: Vec<String> = Vec::new();
    let mut titles: Vec<String> = Vec::new();
    let mut texts: Vec<String> = Vec::new();
    let mut k: usize = 0;
    let mut first: usize = 0;
    proof {
        assert(times.deep_view() =~= times_of(named_notes(before, ids)).take(0));
        assert(titles.deep_view() =~= titles_of(named_notes(before, ids)).take(0));
        assert(texts.deep_view() =~= bodies_for(bodies.deep_view(), ids.len()).take(0));
    }
    while k < note_ids.len()
        invariant
            k <= note_ids.len(),
            *index == *old(index),
            before == index.notes.deep_view(),
            ids == note_ids.deep_view(),
            forall|j: int| 0 <= j < k ==> has_note(before, #[trigger] ids[j]),
            k > 0 ==> first < index.notes.len() && first == position_of(before, ids[0]),
            times.deep_view() == times_of(named_notes(before, ids)).take(k as int),
            titles.deep_view() == titles_of(named_notes(before, ids)).take(k as int),
            texts.deep_view() == bodies_for(bodies.deep_view(), ids.len()).take(k as int),
        decreases note_ids.len() - k,
    {
        proof {
            assert(ids[k as int] == note_ids[k as int]@);
        }
        match find_note(&index.notes, note_ids[k].as_str()) {
            None => {
                return Err("Note not found".to_string());
            },
            Some(p) => {
                if k == 0 {
                    first = p;
                }
                let ghost t0 = times.deep_view();
                let ghost t1 = titles.deep_view();
                let ghost t2 = texts.deep_view();
                let n = &index.notes[p];
                proof {
                    assert(before[p as int] == n@);
                    assert(note_with_id(before, ids[k as int]) == n@);
                }
                times.push(n.updated_at.clone());
                titles.push(n.title.clone());
                let body = if k < bodies.len() {
                    proof {
                        assert(bodies.deep_view()[k as int] == bodies[k as int]@);
                    }
                    bodies[k].clone()
                } else {
                    String::new()
                };
                texts.push(body);
                proof {
                    assert(times.deep_view() =~~= t0.push(n@.updated_at));
                    assert(times_of(named_notes(before, ids)).take(k + 1) =~~= t0.push(
                        n@.updated_at,
                    ));
                    assert(titles.deep_view() =~~= t1.push(n@.title));
                    assert(titles_of(named_notes(before, ids)).take(k + 1) =~~= t1.push(n@.title));
                    assert(texts.deep_view() =~~= t2.push(body_at(bodies.deep_view(), k as int)));
                    assert(bodies_for(bodies.deep_view(), ids.len()).take(k + 1) =~~= t2.push(
                        body_at(bodies.deep_view(), k as int),
                    ));
                }
            },
        }
        k += 1;
    }
    proof {
        let m = note_ids.len() as int;
        assert(times_of(named_notes(before, ids)).take(m) =~= times_of(named_notes(before, ids)));
        assert(titles_of(named_notes(before, ids)).take(m) =~= titles_of(named_notes(before, ids)));
        assert(bodies_for(bodies.deep_view(), ids.len()).take(m) =~= bodies_for(
            bodies.deep_view(),
            ids.len(),
        ));
    }
    if note_ids.len() == 1 {
        let meta = index.notes[first].clone();
        proof {
            assert(before[first as int] == index.notes[first as int]@);
        }
        return Ok(MergeOutcome { meta, body: None });
    }
    let perm = stable_order(&times, false);
    let ghost sorted_titles = arranged(titles.deep_view(), perm@);
    let ghost sorted_bodies = arranged(texts.deep_view(), perm@);
    let mut merged: Vec<char> = Vec::new();
    let mut j: usize = 0;
    proof {
        assert(sorted_titles.take(0) =~= Seq::<Seq<char>>::empty());
        assert(sorted_bodies.take(0) =~= Seq::<Seq<char>>::empty());
        assert(merged@ =~= sections(sorted_titles.take(0), sorted_bodies.take(0)));
    }
    while j < perm.len()
        invariant
            j <= perm.len(),
            perm.len() == titles.len(),
            perm.len() == texts.len(),
            forall|t: int| 0 <= t < perm.len() ==> (#[trigger] perm[t]) < titles.len(),
            sorted_titles == arranged(titles.deep_view(), perm@),
            sorted_bodies == arranged(texts.deep_view(), perm@),
            merged@ == sections(sorted_titles.take(j as int), sorted_bodies.take(j as int)),
        decreases perm.len() - j,
    {
        let p = perm[j];
        let ghost prior = merged@;
        proof {
            assert(titles.deep_view()[p as int] == titles[p as int]@);
            assert(texts.deep_view()[p as int] == texts[p as int]@);
            assert(sorted_titles.take(j + 1).drop_last() == sorted_titles.take(j as int));
            assert(sorted_bodies.take(j + 1).drop_last() == sorted_bodies.take(j as int));
            assert(sorted_titles.take(j + 1).last() == titles[p as int]@);
            assert(sorted_bodies.take(j + 1).last() == texts[p as int]@);
        }
        append_str(&mut merged, "## ");
        append_str(&mut merged, titles[p].as_str());
        append_str(&mut merged, "\n\n");
        append_str(&mut merged, texts[p].as_str());
        append_str(&mut merged, "\n\n");
        proof {
            assert(merged@ =~= prior + section(titles[p as int]@, texts[p as int]@));
        }
        j += 1;
    }
    proof {
        assert(sorted_titles.take(perm.len() as int) == sorted_titles);
        assert(sorted_bodies.take(perm.len() as int) == sorted_bodies);
    }
    let body = from_chars(&trim_chars(&merged));
    index.notes[first].title = titles[perm[0]].clone();
    index.notes[first].updated_at = now.to_string();
    let meta = index.notes[first].clone();
    let ghost changed = index.notes.deep_view();
    proof {
        assert(titles.deep_view()[perm[0] as int] == titles[perm[0] as int]@);
        assert(changed =~= before.update(first as int, meta@));
    }
    // The notes of all further identifiers leave the index.
    let ghost rest = ids.skip(1);
    let ghost test = stays_test(rest);
    let mut kept: Vec<NoteMeta> = Vec::new();
    let mut i: usize = 0;
    proof {
        reveal(Seq::filter);
        assert(changed.take(0) =~= Seq::<NoteMetaView>::empty());
        assert(kept.deep_view() =~= changed.take(0).filter(test));
    }
    while i < index.notes.len()
        invariant
            i <= index.notes.len(),
            index.notebooks == old(index).notebooks,
            changed == index.notes.deep_view(),
            ids == note_ids.deep_view(),
            note_ids.len() > 1,
            rest == ids.skip(1),
            test == stays_test(rest),
            kept.deep_view() == changed.take(i as int).filter(test),
        decreases index.notes.len() - i,
    {
        let ghost prior = kept.deep_view();
        proof {
            assert(changed[i as int] == index.notes[i as int]@);
            assert(changed.take(i + 1) == changed.take(i as int).push(changed[i as int]));
            changed.take(i as int).lemma_filter_push(changed[i as int], test);
        }
        if !holds_text_from(note_ids, 1, index.notes[i].id.as_str()) {
            kept.push(index.notes[i].clone());
            proof {
                assert(kept.deep_view() =~~= prior.push(changed[i as int]));
            }
        }
        i += 1;
    }
    proof {
        assert(changed.take(index.notes.len() as int) == changed);
    }
    index.notes = kept;
    Ok(MergeOutcome { meta, body: Some(body) })
}

/// Merges the notes `note_ids` into the first of them. `bodies` holds the
/// body of each, in the same order; a body that is missing counts as empty.
///
/// Without identifiers the merge is refused; with one, the note is handed
/// back as it is. Else each identifier must name a note. The notes are put
/// in the order of their times of last change, the earliest first; the
/// merged note gets the title of the earliest and, as its body, a section
/// for each note. It takes the place of the first identifier's note, with a
/// new time of last change; the notes of all further identifiers leave the
/// index. The caller writes the body and removes the files of the others.
pub fn merge_notes(index: &mut IndexFile, note_ids: &Vec<String>, bodies: &Vec<String>) -> (r:
    Result<MergeOutcome, String>)
    ensures
        r is Ok <==> note_ids.len() > 0 && all_found(old(index)@.notes, note_ids.deep_view()),
        r matches Err(e) ==> final(index)@ == old(index)@ && e@ == if note_ids.len() == 0 {
            "No notes to merge"@
        } else {
            "Note not found"@
        },
        r is Ok && note_ids.len() == 1 ==> final(index)@ == old(index)@ && r->Ok_0.body is None
            && r->Ok_0.meta@ == note_with_id(old(index)@.notes, note_ids.deep_view()[0]),
        r is Ok && note_ids.len() > 1 ==> {
            let before = old(index)@.notes;
            let ids = note_ids.deep_view();
            let meta = r->Ok_0.meta@;
            &&& final(index)@.notebooks == old(index)@.notebooks
            &&& meta == (NoteMetaView {
                title: merged_title(before, ids),
                updated_at: meta.updated_at,
                ..note_with_id(before, ids[0])
            })
            &&& r->Ok_0.body.deep_view() == Some(merged_body(before, ids, bodies.deep_view()))
            &&& final(index)@.notes == before.update(position_of(before, ids[0]), meta).filter(
                stays_test(ids.skip(1)),
            )
        },
{
    let now = now_rfc3339();
    merge_notes_at(index, note_ids, bodies, now.as_str())
}

/// Whether `list` holds the text `wanted` at position `from` or behind it.
fn holds_text_from(list: &Vec<String>, from: usize, wanted: &str) -> (r: bool)
    requires
        from <= list.len(),
    ensures
        r == list.deep_view().skip(from as int).contains(wanted@),
{
    let ghost tail = list.deep_view().skip(from as int);
    let mut i: usize = from;
    while i < list.len()
        invariant
            from <= i <= list.len(),
            tail == list.deep_view().skip(from as int),
            forall|k: int| 0 <= k < i - from ==> #[trigger] tail[k] != wanted@,
        decreases list.len() - i,
    {
        proof {
            assert(tail[i - from] == list[i as int]@);
        }
        if crate::text::same_text(list[i].as_str(), wanted) {
            return true;
        }
        i += 1;
    }
    false
}

} // verus!
