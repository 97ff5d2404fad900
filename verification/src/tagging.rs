//! Tags across the index: listing them, finding the notes that carry one,
//! and putting a tag on notes or taking it off.

use crate::clock::now_rfc3339;
use crate::models::{IndexFile, NoteMeta, NoteMetaView};
use crate::order::{insert_sorted, insert_unique, strictly_ascending, with_text};
use crate::storage::{
    holds_text, is_touched, locate_note, lookup_error, note_with_id, replaces_note,
};
use crate::text::{from_chars, same_text, to_chars, trim, trim_chars};
use vstd::prelude::*;

verus! {

/// The tags that the given notes carry.
pub open spec fn all_tags(notes: Seq<NoteMetaView>) -> Set<Seq<char>> {
    Set::new(
        |t: Seq<char>| exists|i: int| 0 <= i < notes.len() && (#[trigger] notes[i]).tags.contains(t),
    )
}

/// All tags of all notes: each once, in ascending order.
pub fn list_tags(index: &IndexFile) -> (r: Vec<String>)
    ensures
        strictly_ascending(r.deep_view()),
        r.deep_view().to_set() == all_tags(index@.notes),
{
    let ghost all = index.notes.deep_view();
    let mut out: Vec<String> = Vec::new();
    let mut i: usize = 0;
    proof {
        assert(out.deep_view().to_set() =~= all_tags(all.take(0)));
    }
    while i < index.notes.len()
        invariant
            i <= index.notes.len(),
            all == index.notes.deep_view(),
            strictly_ascending(out.deep_view()),
            out.deep_view().to_set() == all_tags(all.take(i as int)),
        decreases index.notes.len() - i,
    {
        let tags = &index.notes[i].tags;
        let ghost mine = tags.deep_view();
        let ghost done = all_tags(all.take(i as int));
        let mut j: usize = 0;
        proof {
            assert(all[i as int] == index.notes[i as int]@);
            assert(mine.take(0).to_set() =~= Set::<Seq<char>>::empty());
            assert(done.union(mine.take(0).to_set()) =~= done);
        }
        while j < tags.len()
            invariant
                j <= tags.len(),
                mine == tags.deep_view(),
                strictly_ascending(out.deep_view()),
                out.deep_view().to_set() == done.union(mine.take(j as int).to_set()),
            decreases tags.len() - j,
        {
            proof {
                assert(mine[j as int] == tags[j as int]@);
                assert(mine.take(j + 1) == mine.take(j as int).push(mine[j as int]));
                mine.take(j as int).lemma_push_to_set_commute(mine[j as int]);
                assert(done.union(mine.take(j as int).to_set()).insert(mine[j as int])
                    =~= done.union(mine.take(j + 1).to_set()));
            }
            insert_unique(&mut out, tags[j].clone());
            j += 1;
        }
        proof {
            assert(mine.take(tags.len() as int) == mine);
            let next = all.take(i + 1);
            assert forall|t: Seq<char>| all_tags(next).contains(t) <==> done.union(
                mine.to_set(),
            ).contains(t) by {
                if all_tags(next).contains(t) {
                    let k = choose|k: int|
                        0 <= k < next.len() && (#[trigger] next[k]).tags.contains(t);
                    if k < i {
                        assert(all.take(i as int)[k].tags.contains(t));
                    }
                }
                if done.contains(t) {
                    let k = choose|k: int|
                        0 <= k < all.take(i as int).len() && (#[trigger] all.take(
                            i as int,
                        )[k]).tags.contains(t);
                    assert(next[k].tags.contains(t));
                }
                if mine.to_set().contains(t) {
                    assert(next[i as int].tags.contains(t));
                }
            }
            assert(all_tags(next) =~= done.union(mine.to_set()));
        }
        i += 1;
    }
    proof {
        assert(all.take(index.notes.len() as int) == all);
    }
    out
}

/// The test for notes that carry the tag `tag`, as a function.
pub open spec fn carries_tag_test(tag: Seq<char>) -> spec_fn(NoteMetaView) -> bool {
    |n: NoteMetaView| n.tags.contains(tag)
}

/// The notes that carry the tag `tag` as written, in the order of the index.
pub fn notes_by_tag(index: &IndexFile, tag: &str) -> (r: Vec<NoteMeta>)
    ensures
        r.deep_view() == index@.notes.filter(carries_tag_test(tag@)),
{
    let ghost all = index.notes.deep_view();
    let ghost test = carries_tag_test(tag@);
    let mut out: Vec<NoteMeta> = Vec::new();
    let mut i: usize = 0;
    proof {
        reveal(Seq::filter);
        assert(all.take(0) =~= Seq::<NoteMetaView>::empty());
        assert(out.deep_view() =~= all.take(0).filter(test));
    }
    while i < index.notes.len()
        invariant
            i <= index.notes.len(),
            all == index.notes.deep_view(),
            test == carries_tag_test(tag@),
            out.deep_view() == all.take(i as int).filter(test),
        decreases index.notes.len() - i,
    {
        let n = &index.notes[i];
        let ghost prior = out.deep_view();
        proof {
            assert(all[i as int] == n@);
            assert(all.take(i + 1) == all.take(i as int).push(n@));
            all.take(i as int).lemma_filter_push(n@, test);
        }
        if holds_text(&n.tags, tag) {
            out.push(n.clone());
            proof {
                assert(out.deep_view() =~~= prior.push(n@));
            }
        }
        i += 1;
    }
    proof {
        assert(all.take(index.notes.len() as int) == all);
    }
    out
}

/// The note is among `ids` and does not yet carry `tag`.
pub open spec fn gets_tag(n: NoteMetaView, ids: Seq<Seq<char>>, tag: Seq<char>) -> bool {
    ids.contains(n.id) && !n.tags.contains(tag)
}

/// Those of `after`, in order, that stand where a note of `before` gets the
/// tag.
pub open spec fn tagged_notes(
    before: Seq<NoteMetaView>,
    after: Seq<NoteMetaView>,
    ids: Seq<Seq<char>>,
    tag: Seq<char>,
) -> Seq<NoteMetaView>
    decreases before.len(),
{
    if before.len() == 0 || after.len() != before.len() {
        Seq::empty()
    } else if gets_tag(before.last(), ids, tag) {
        tagged_notes(before.drop_last(), after.drop_last(), ids, tag).push(after.last())
    } else {
        tagged_notes(before.drop_last(), after.drop_last(), ids, tag)
    }
}

/// Puts the tag `tag`, white space around it removed, on each of the notes
/// `note_ids` that does not carry it yet: the tag is put in at its place
/// among the note's tags, so that tags in ascending order stay so, and the
/// note gets a new time of last change. The notes that were
/// changed are handed back, in the order of the index. Without identifiers,
/// or with a blank tag, nothing changes.
/// All this at the instant `now`, which becomes the time of last change of
/// each of them.
pub fn add_tag_to_notes_at(index: &mut IndexFile, note_ids: &Vec<String>, tag: &str, now: &str) -> (r: Vec<
    NoteMeta,
>)
    ensures
        final(index)@.notebooks == old(index)@.notebooks,
        final(index)@.notes.len() == old(index)@.notes.len(),
        note_ids.len() == 0 || trim(tag@).len() == 0 ==> final(index)@ == old(index)@ && r.len()
            == 0,
        note_ids.len() > 0 && trim(tag@).len() > 0 ==> {
            &&& forall|i: int|
                0 <= i < old(index)@.notes.len() ==> #[trigger] final(index)@.notes[i] == if gets_tag(
                    old(index)@.notes[i],
                    note_ids.deep_view(),
                    trim(tag@),
                ) {
                    NoteMetaView {
                        tags: with_text(old(index)@.notes[i].tags, trim(tag@)),
                        updated_at: now@,
                        ..old(index)@.notes[i]
                    }
                } else {
                    old(index)@.notes[i]
                }
            &&& r.deep_view() == tagged_notes(
                old(index)@.notes,
                final(index)@.notes,
                note_ids.deep_view(),
                trim(tag@),
            )
        },
        forall|i: int| 0 <= i < r.len() ==> (#[trigger] r.deep_view()[i]).updated_at == now@,
{
    let mut updated: Vec<NoteMeta> = Vec::new();
    let trimmed = trim_chars(&to_chars(tag));
    if note_ids.len() == 0 || trimmed.len() == 0 {
        return updated;
    }
    let tag = from_chars(&trimmed);
    let ghost before = index.notes.deep_view();
    let ghost ids = note_ids.deep_view();
    let n: usize = index.notes.len();
    let mut i: usize = 0;
    proof {
        assert(updated.deep_view() =~= tagged_notes(before.take(0), before.take(0), ids, tag@));
    }
    while i < n
        invariant
            i <= n,
            n == index.notes.len(),
            before.len() == n,
            before == old(index).notes.deep_view(),
            ids == note_ids.deep_view(),
            index.notebooks == old(index).notebooks,
            forall|k: int| i <= k < n ==> #[trigger] index.notes.deep_view()[k] == before[k],
            forall|k: int|
                0 <= k < i ==> #[trigger] index.notes.deep_view()[k] == if gets_tag(
                    before[k],
                    ids,
                    tag@,
                ) {
                    NoteMetaView {
                        tags: with_text(before[k].tags, tag@),
                        updated_at: now@,
                        ..before[k]
                    }
                } else {
                    before[k]
                },
            updated.deep_view() == tagged_notes(
                before.take(i as int),
                index.notes.deep_view().take(i as int),
                ids,
                tag@,
            ),
            forall|k: int|
                0 <= k < updated.len() ==> (#[trigger] updated.deep_view()[k]).updated_at == now@,
        decreases n - i,
    {
        let ghost current = index.notes.deep_view();
        let ghost prior = updated.deep_view();
        proof {
            assert(current[i as int] == index.notes[i as int]@);
            assert(before.take(i + 1).drop_last() == before.take(i as int));
            assert(before.take(i + 1).last() == before[i as int]);
        }
        if holds_text(note_ids, index.notes[i].id.as_str()) && !holds_text(
            &index.notes[i].tags,
            tag.as_str(),
        ) {
            let ghost tags_before = index.notes[i as int].tags.deep_view();
            insert_sorted(&mut index.notes[i].tags, tag.clone());
            index.notes[i].updated_at = now.to_string();
            let meta = index.notes[i].clone();
            updated.push(meta);
            proof {
                let later = index.notes.deep_view();
                assert(index.notes[i as int].tags.deep_view() == with_text(tags_before, tag@));
                assert(later[i as int] == index.notes[i as int]@);
                assert forall|k: int| 0 <= k < n && k != i implies #[trigger] later[k] == current[k] by {}
                assert(later.take(i + 1).drop_last() =~= current.take(i as int));
                assert(later.take(i + 1).last() == later[i as int]);
                assert(updated.deep_view() =~~= prior.push(later[i as int]));
            }
        } else {
            proof {
                assert(current.take(i + 1).drop_last() =~= current.take(i as int));
            }
        }
        i += 1;
    }
    proof {
        assert(before.take(n as int) == before);
        assert(index.notes.deep_view().take(n as int) == index.notes.deep_view());
    }
    updated
}

/// Puts the tag `tag`, white space around it removed, on each of the notes
/// `note_ids` that does not carry it yet: the tag is put in at its place
/// among the note's tags, so that tags in ascending order stay so, and the
/// note gets a new time of last change. The notes that were
/// changed are handed back, in the order of the index. Without identifiers,
/// or with a blank tag, nothing changes.
pub fn add_tag_to_notes(index: &mut IndexFile, note_ids: &Vec<String>, tag: &str) -> (r: Vec<
    NoteMeta,
>)
    ensures
        final(index)@.notebooks == old(index)@.notebooks,
        final(index)@.notes.len() == old(index)@.notes.len(),
        note_ids.len() == 0 || trim(tag@).len() == 0 ==> final(index)@ == old(index)@ && r.len()
            == 0,
        note_ids.len() > 0 && trim(tag@).len() > 0 ==> {
            &&& forall|i: int|
                0 <= i < old(index)@.notes.len() ==> #[trigger] final(index)@.notes[i] == if gets_tag(
                    old(index)@.notes[i],
                    note_ids.deep_view(),
                    trim(tag@),
                ) {
                    NoteMetaView {
                        tags: with_text(old(index)@.notes[i].tags, trim(tag@)),
                        updated_at: final(index)@.notes[i].updated_at,
                        ..old(index)@.notes[i]
                    }
                } else {
                    old(index)@.notes[i]
                }
            &&& r.deep_view() == tagged_notes(
                old(index)@.notes,
                final(index)@.notes,
                note_ids.deep_view(),
                trim(tag@),
            )
        },
{
    let now = now_rfc3339();
    add_tag_to_notes_at(index, note_ids, tag, now.as_str())
}

/// The test for tags other than `tag`, as a function.
pub open spec fn other_tag_test(tag: Seq<char>) -> spec_fn(Seq<char>) -> bool {
    |t: Seq<char>| t != tag
}

/// Takes the tag `tag` off the note `note_id`: the note keeps its other
/// tags in their order and gets a new time of last change.
/// All this at the instant `now`, which becomes the time of last change.
pub fn remove_tag_from_note_at(index: &mut IndexFile, note_id: &str, tag: &str, now: &str) -> (r: Result<
    NoteMeta,
    String,
>)
    ensures
        r is Ok <==> lookup_error(old(index)@.notes, note_id@) is None,
        r matches Err(e) ==> lookup_error(old(index)@.notes, note_id@) == Some(e@) && final(index)@
            == old(index)@,
        r matches Ok(meta) ==> replaces_note(old(index)@, final(index)@, note_id@, meta@)
            && is_touched(
            meta@,
            NoteMetaView {
                tags: note_with_id(old(index)@.notes, note_id@).tags.filter(other_tag_test(tag@)),
                ..note_with_id(old(index)@.notes, note_id@)
            },
        ),
        r matches Ok(meta) ==> meta@.updated_at == now@,
{
    match locate_note(index, note_id) {
        Err(e) => Err(e),
        Ok(i) => {
            let ghost before = index.notes.deep_view();
            proof {
                assert(before[i as int] == index.notes[i as int]@);
            }
            let kept = without_text(&index.notes[i].tags, tag);
            index.notes[i].tags = kept;
            index.notes[i].updated_at = now.to_string();
            let meta = index.notes[i].clone();
            proof {
                assert(index.notes.deep_view() =~= before.update(i as int, meta@));
            }
            Ok(meta)
        },
    }
}

/// Takes the tag `tag` off the note `note_id`: the note keeps its other
/// tags in their order and gets a new time of last change.
pub fn remove_tag_from_note(index: &mut IndexFile, note_id: &str, tag: &str) -> (r: Result<
    NoteMeta,
    String,
>)
    ensures
        r is Ok <==> lookup_error(old(index)@.notes, note_id@) is None,
        r matches Err(e) ==> lookup_error(old(index)@.notes, note_id@) == Some(e@) && final(index)@
            == old(index)@,
        r matches Ok(meta) ==> replaces_note(old(index)@, final(index)@, note_id@, meta@)
            && is_touched(
            meta@,
            NoteMetaView {
                tags: note_with_id(old(index)@.notes, note_id@).tags.filter(other_tag_test(tag@)),
                ..note_with_id(old(index)@.notes, note_id@)
            },
        ),
{
    let now = now_rfc3339();
    remove_tag_from_note_at(index, note_id, tag, now.as_str())
}

/// The texts of `list` other than `unwanted`, in their order.
pub fn without_text(list: &Vec<String>, unwanted: &str) -> (r: Vec<String>)
    ensures
        r.deep_view() == list.deep_view().filter(other_tag_test(unwanted@)),
{
    let ghost all = list.deep_view();
    let ghost test = other_tag_test(unwanted@);
    let mut out: Vec<String> = Vec::new();
    let mut i: usize = 0;
    proof {
        reveal(Seq::filter);
        assert(all.take(0) =~= Seq::<Seq<char>>::empty());
        assert(out.deep_view() =~= all.take(0).filter(test));
    }
    while i < list.len()
        invariant
            i <= list.len(),
            all == list.deep_view(),
            test == other_tag_test(unwanted@),
            out.deep_view() == all.take(i as int).filter(test),
        decreases list.len() - i,
    {
        let ghost prior = out.deep_view();
        proof {
            assert(all[i as int] == list[i as int]@);
            assert(all.take(i + 1) == all.take(i as int).push(list[i as int]@));
            all.take(i as int).lemma_filter_push(list[i as int]@, test);
        }
        if !same_text(list[i].as_str(), unwanted) {
            out.push(list[i].clone());
            proof {
                assert(out.deep_view() =~~= prior.push(list[i as int]@));
            }
        }
        i += 1;
    }
    proof {
        assert(all.take(list.len() as int) == all);
    }
    out
}

} // verus!
