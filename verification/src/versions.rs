//! The history of a note: what is kept of a note before it is overwritten,
//! how many such snapshots stay, and how they are listed.
//!
//! A snapshot is named by the time at which the note was last changed before
//! the overwrite. The names of the history files sort as those times do, so
//! the newest snapshots are the files with the greatest names.

use crate::models::{
    NoteMeta, NoteVersionContent, NoteVersionItem, NoteVersionItemView, VersionSnapshot,
    VersionSnapshotView,
};
use crate::order::{
    arrange_strings, arranged, descending, is_stable_order, key_before, lemma_arranged_keys_sorted,
    lemma_arranged_members, lemma_lex_irreflexive, lemma_stable_order_unique, lex_lt, lists,
    same_members, stable_order, stable_order_of,
};
use crate::sandbox::{
    is_valid_id, note_id_error, sanitized, validate_note_id, version_filename, versions_dir,
    without_colons,
};
use crate::text::{append_str, ends_with, from_chars, has_suffix, to_chars};
use vstd::prelude::*;

verus! {

/// The greatest number of snapshots kept of one note.
pub const MAX_VERSIONS_PER_NOTE: usize = 30;

/// The greatest number of characters of a body shown in a list of versions.
pub const PREVIEW_CHARS: usize = 150;

/// What is kept of `note` when its body `current_body` is about to be
/// overwritten: the note's time of last change, its title, and that body.
pub fn take_snapshot(note: &NoteMeta, current_body: String) -> (r: VersionSnapshot)
    ensures
        r@ == (VersionSnapshotView {
            saved_at: note@.updated_at,
            title: note@.title,
            body: current_body@,
        }),
{
    VersionSnapshot {
        saved_at: note.updated_at.clone(),
        title: note.title.clone(),
        body: current_body,
    }
}

/// Where the snapshot of the note `note_id` saved at `saved_at` lies,
/// relative to the storage root.
pub fn version_path(note_id: &str, saved_at: &str) -> (r: String)
    ensures
        r@ == "versions/"@ + sanitized(note_id@) + "/"@ + (without_colons(saved_at@) + ".json"@),
{
    let mut v = to_chars(versions_dir(note_id).as_str());
    append_str(&mut v, "/");
    append_str(&mut v, version_filename(saved_at).as_str());
    from_chars(&v)
}

/// A file of a note's history: its name ends in `.json`.
pub open spec fn is_version_file(name: Seq<char>) -> bool {
    has_suffix(name, ".json"@)
}

/// Those of `names` that are history files, in their order.
pub open spec fn version_files(names: Seq<Seq<char>>) -> Seq<Seq<char>> {
    names.filter(version_file_test())
}

/// The test for history files, as a function.
pub open spec fn version_file_test() -> spec_fn(Seq<char>) -> bool {
    |n: Seq<char>| is_version_file(n)
}

/// `names` from the greatest to the least; equal names keep their order.
pub open spec fn newest_first(names: Seq<Seq<char>>) -> Seq<Seq<char>> {
    arranged(names, stable_order_of(names, true))
}

/// The history files among `names` that stay: the `MAX_VERSIONS_PER_NOTE`
/// with the greatest names, or all if there are no more.
pub open spec fn retained_versions(names: Seq<Seq<char>>) -> Seq<Seq<char>> {
    let sorted = newest_first(version_files(names));
    if sorted.len() <= MAX_VERSIONS_PER_NOTE {
        sorted
    } else {
        sorted.take(MAX_VERSIONS_PER_NOTE as int)
    }
}

/// The history files among `names` that go: all but the
/// `MAX_VERSIONS_PER_NOTE` with the greatest names, from the greatest down.
pub open spec fn surplus_versions(names: Seq<Seq<char>>) -> Seq<Seq<char>> {
    let sorted = newest_first(version_files(names));
    if sorted.len() <= MAX_VERSIONS_PER_NOTE {
        Seq::empty()
    } else {
        sorted.skip(MAX_VERSIONS_PER_NOTE as int)
    }
}

/// A history as it lies on disk: at most `MAX_VERSIONS_PER_NOTE` history
/// files, the newest first, no name twice.
pub open spec fn is_history(h: Seq<Seq<char>>) -> bool {
    &&& h.len() <= MAX_VERSIONS_PER_NOTE
    &&& forall|i: int| 0 <= i < h.len() ==> is_version_file(#[trigger] h[i])
    &&& forall|i: int, j: int| 0 <= i < j < h.len() ==> lex_lt(#[trigger] h[j], #[trigger] h[i])
}

/// Filtering keeps a list whose items all pass the test.
proof fn lemma_filter_keeps_all(s: Seq<Seq<char>>, test: spec_fn(Seq<char>) -> bool)
    requires
        forall|i: int| 0 <= i < s.len() ==> test(#[trigger] s[i]),
    ensures
        s.filter(test) == s,
    decreases s.len(),
{
    reveal(Seq::filter);
    if s.len() > 0 {
        let head = s.drop_last();
        assert forall|i: int| 0 <= i < head.len() implies test(#[trigger] head[i]) by {
            assert(head[i] == s[i]);
        }
        lemma_filter_keeps_all(head, test);
        assert(head.push(s.last()) =~= s);
    }
}

/// One save more: where a history takes the snapshot `x`, newer than all it
/// holds, and is pruned, `x` stands first, the others follow in their
/// order, and the oldest goes if the history was full. What is left is a
/// history again: at no time does it hold more than
/// `MAX_VERSIONS_PER_NOTE` snapshots, and after any run of saves it holds
/// the newest of them.
pub proof fn lemma_history_after_save(h: Seq<Seq<char>>, x: Seq<char>)
    requires
        is_history(h),
        is_version_file(x),
        forall|i: int| 0 <= i < h.len() ==> lex_lt(#[trigger] h[i], x),
    ensures
        retained_versions(h.push(x)) == seq![x] + (if h.len() < MAX_VERSIONS_PER_NOTE {
            h
        } else {
            h.drop_last()
        }),
        surplus_versions(h.push(x)) == (if h.len() < MAX_VERSIONS_PER_NOTE {
            Seq::<Seq<char>>::empty()
        } else {
            seq![h.last()]
        }),
        is_history(retained_versions(h.push(x))),
{
    let n = h.len() as int;
    let all = h.push(x);
    assert forall|i: int| 0 <= i < all.len() implies version_file_test()(#[trigger] all[i]) by {
        if i < n {
            assert(all[i] == h[i]);
        }
    }
    lemma_filter_keeps_all(all, version_file_test());
    assert(version_files(all) == all);
    // The newest first: the new snapshot, then the others as they stood.
    let perm = Seq::new(
        (n + 1) as nat,
        |i: int|
            if i == 0 {
                n as usize
            } else {
                (i - 1) as usize
            },
    );
    assert forall|k: int| 0 <= k < all.len() implies #[trigger] lists(perm, k) by {
        if k == n {
            assert(perm[0] == k);
        } else {
            assert(perm[k + 1] == k);
        }
    }
    assert forall|i: int, j: int| 0 <= i < j < perm.len() implies key_before(
        all,
        #[trigger] perm[i] as int,
        #[trigger] perm[j] as int,
        true,
    ) by {
        lemma_lex_irreflexive(x);
        if i == 0 {
            assert(all[n] == x);
            assert(all[j - 1] == h[j - 1]);
            assert(lex_lt(h[j - 1], x));
        } else {
            assert(all[i - 1] == h[i - 1]);
            assert(all[j - 1] == h[j - 1]);
            assert(lex_lt(h[j - 1], h[i - 1]));
            lemma_lex_irreflexive(h[i - 1]);
        }
    }
    assert(is_stable_order(all, perm, true));
    lemma_stable_order_unique(all, perm, stable_order_of(all, true), true);
    let sorted = newest_first(all);
    assert(sorted =~= seq![x] + h);
    if n < MAX_VERSIONS_PER_NOTE {
        assert(retained_versions(all) == sorted);
    } else {
        assert(sorted.take(MAX_VERSIONS_PER_NOTE as int) =~= seq![x] + h.drop_last());
        assert(sorted.skip(MAX_VERSIONS_PER_NOTE as int) =~= seq![h.last()]);
    }
    let kept = retained_versions(all);
    assert forall|i: int, j: int| 0 <= i < j < kept.len() implies lex_lt(
        #[trigger] kept[j],
        #[trigger] kept[i],
    ) by {
        if i == 0 {
            assert(kept[j] == h[j - 1]);
        } else {
            assert(kept[i] == h[i - 1]);
            assert(kept[j] == h[j - 1]);
        }
    }
    assert forall|i: int| 0 <= i < kept.len() implies is_version_file(#[trigger] kept[i]) by {
        if i > 0 {
            assert(kept[i] == h[i - 1]);
        }
    }
}

/// The history after a run of saves: each snapshot of `run`, in turn, is
/// added to the history and the history is pruned.
pub open spec fn history_after_run(h: Seq<Seq<char>>, run: Seq<Seq<char>>) -> Seq<Seq<char>>
    decreases run.len(),
{
    if run.len() == 0 {
        h
    } else {
        retained_versions(history_after_run(h, run.drop_last()).push(run.last()))
    }
}

/// A run of saves on a note without history, each snapshot newer than the
/// one before: the history holds the newest `MAX_VERSIONS_PER_NOTE` of
/// them, or all if there are fewer, the newest first. After thirty-one
/// saves thirty snapshots are left, and the first one is gone.
pub proof fn lemma_history_after_run(run: Seq<Seq<char>>)
    requires
        forall|i: int| 0 <= i < run.len() ==> is_version_file(#[trigger] run[i]),
        forall|i: int, j: int| 0 <= i < j < run.len() ==> lex_lt(#[trigger] run[i], #[trigger] run[j]),
    ensures
        is_history(history_after_run(Seq::empty(), run)),
        history_after_run(Seq::empty(), run).len() == if run.len() <= MAX_VERSIONS_PER_NOTE {
            run.len()
        } else {
            MAX_VERSIONS_PER_NOTE as nat
        },
        forall|k: int|
            0 <= k < history_after_run(Seq::empty(), run).len() ==> #[trigger] history_after_run(
                Seq::empty(),
                run,
            )[k] == run[run.len() - 1 - k],
    decreases run.len(),
{
    if run.len() > 0 {
        let n = run.len() as int;
        let earlier = run.drop_last();
        assert forall|i: int| 0 <= i < earlier.len() implies is_version_file(
            #[trigger] earlier[i],
        ) by {
            assert(earlier[i] == run[i]);
        }
        assert forall|i: int, j: int| 0 <= i < j < earlier.len() implies lex_lt(
            #[trigger] earlier[i],
            #[trigger] earlier[j],
        ) by {
            assert(lex_lt(run[i], run[j]));
        }
        lemma_history_after_run(earlier);
        let prev = history_after_run(Seq::empty(), earlier);
        let x = run.last();
        assert forall|i: int| 0 <= i < prev.len() implies lex_lt(#[trigger] prev[i], x) by {
            assert(prev[i] == earlier[earlier.len() - 1 - i]);
            assert(earlier[earlier.len() - 1 - i] == run[n - 2 - i]);
            assert(lex_lt(run[n - 2 - i], run[n - 1]));
        }
        lemma_history_after_save(prev, x);
        let now = history_after_run(Seq::empty(), run);
        assert forall|k: int| 0 <= k < now.len() implies #[trigger] now[k] == run[n - 1 - k] by {
            if k > 0 {
                assert(now[k] == prev[k - 1]);
                assert(prev[k - 1] == earlier[earlier.len() - 1 - (k - 1)]);
                assert(earlier[n - 1 - k] == run[n - 1 - k]);
            }
        }
    }
}

/// Those of `names` that are history files, in their order.
pub fn version_files_of(names: &Vec<String>) -> (r: Vec<String>)
    ensures
        r.deep_view() == version_files(names.deep_view()),
{
    let suffix = to_chars(".json");
    let ghost all = names.deep_view();
    let mut out: Vec<String> = Vec::new();
    let mut i: usize = 0;
    proof {
        reveal(Seq::filter);
        assert(all.take(0) =~= Seq::<Seq<char>>::empty());
        assert(out.deep_view() =~= version_files(all.take(0)));
    }
    while i < names.len()
        invariant
            i <= names.len(),
            all == names.deep_view(),
            suffix@ == ".json"@,
            out.deep_view() == version_files(all.take(i as int)),
        decreases names.len() - i,
    {
        let name = to_chars(names[i].as_str());
        let ghost prior = out.deep_view();
        proof {
            assert(all.take(i + 1) == all.take(i as int).push(names[i as int]@));
            all.take(i as int).lemma_filter_push(names[i as int]@, version_file_test());
        }
        if ends_with(&name, &suffix) {
            out.push(names[i].clone());
            proof {
                assert(out.deep_view() =~~= prior.push(names[i as int]@));
            }
        }
        i += 1;
    }
    proof {
        assert(all.take(names.len() as int) == all);
    }
    out
}

/// Which files of a note's history are to be deleted, given the names of
/// all files in its history directory: the files whose names end in `.json`
/// are sorted from the greatest name down, and all behind the first
/// `MAX_VERSIONS_PER_NOTE` are handed back. What stays and what goes are
/// together the history files that were there, and nothing that goes has a
/// greater name than anything that stays.
pub fn versions_to_prune(names: &Vec<String>) -> (r: Vec<String>)
    ensures
        r.deep_view() == surplus_versions(names.deep_view()),
        retained_versions(names.deep_view()) + surplus_versions(names.deep_view()) == newest_first(
            version_files(names.deep_view()),
        ),
        retained_versions(names.deep_view()).len() == if version_files(names.deep_view()).len()
            <= MAX_VERSIONS_PER_NOTE {
            version_files(names.deep_view()).len()
        } else {
            MAX_VERSIONS_PER_NOTE as nat
        },
        descending(newest_first(version_files(names.deep_view()))),
        same_members(
            newest_first(version_files(names.deep_view())),
            version_files(names.deep_view()),
        ),
{
    let files = version_files_of(names);
    let perm = stable_order(&files, true);
    let sorted = arrange_strings(&files, &perm);
    let ghost all = sorted.deep_view();
    proof {
        lemma_arranged_keys_sorted(files.deep_view(), perm@, true);
        lemma_arranged_members(files.deep_view(), files.deep_view(), perm@, true);
        assert(all == newest_first(version_files(names.deep_view())));
        if all.len() > MAX_VERSIONS_PER_NOTE {
            assert(all.take(MAX_VERSIONS_PER_NOTE as int) + all.skip(MAX_VERSIONS_PER_NOTE as int)
                =~= all);
        } else {
            assert(all + Seq::<Seq<char>>::empty() =~= all);
        }
    }
    let mut out: Vec<String> = Vec::new();
    if sorted.len() <= MAX_VERSIONS_PER_NOTE {
        proof {
            assert(out.deep_view() =~= Seq::<Seq<char>>::empty());
        }
        return out;
    }
    let mut i: usize = MAX_VERSIONS_PER_NOTE;
    proof {
        assert(out.deep_view() =~= all.subrange(MAX_VERSIONS_PER_NOTE as int, i as int));
    }
    while i < sorted.len()
        invariant
            MAX_VERSIONS_PER_NOTE <= i <= sorted.len(),
            all == sorted.deep_view(),
            out.deep_view() == all.subrange(MAX_VERSIONS_PER_NOTE as int, i as int),
        decreases sorted.len() - i,
    {
        let ghost prior = out.deep_view();
        out.push(sorted[i].clone());
        proof {
            assert(out.deep_view() =~~= prior.push(sorted[i as int]@));
            assert(all.subrange(MAX_VERSIONS_PER_NOTE as int, i + 1) =~~= prior.push(
                sorted[i as int]@,
            ));
        }
        i += 1;
    }
    proof {
        assert(all.subrange(MAX_VERSIONS_PER_NOTE as int, sorted.len() as int) =~= all.skip(
            MAX_VERSIONS_PER_NOTE as int,
        ));
    }
    out
}

/// The preview of a body: the body itself if it has at most `PREVIEW_CHARS`
/// characters; else its first `PREVIEW_CHARS` characters and an ellipsis.
pub open spec fn preview(body: Seq<char>) -> Seq<char> {
    if body.len() <= PREVIEW_CHARS {
        body
    } else {
        body.take(PREVIEW_CHARS as int).push('\u{2026}')
    }
}

/// The preview of `body`.
pub fn body_preview(body: &str) -> (r: String)
    ensures
        r@ == preview(body@),
{
    let mut v = to_chars(body);
    if v.len() > PREVIEW_CHARS {
        v.truncate(PREVIEW_CHARS);
        v.push('\u{2026}');
        proof {
            assert(v@ =~= body@.take(PREVIEW_CHARS as int).push('\u{2026}'));
        }
    }
    from_chars(&v)
}

/// The entry that stands for a snapshot in a list of versions.
pub open spec fn version_item(s: VersionSnapshotView) -> NoteVersionItemView {
    NoteVersionItemView { saved_at: s.saved_at, title: s.title, body_preview: preview(s.body) }
}

/// The entries of the given snapshots, in their order.
pub open spec fn version_items(s: Seq<VersionSnapshotView>) -> Seq<NoteVersionItemView> {
    Seq::new(s.len(), |i: int| version_item(s[i]))
}

/// The times of the given entries, in their order.
pub open spec fn saved_times(items: Seq<NoteVersionItemView>) -> Seq<Seq<char>> {
    Seq::new(items.len(), |i: int| items[i].saved_at)
}

/// The list of versions made of the given snapshots: their entries, the
/// newest first; entries of the same time keep their order.
pub open spec fn version_list(s: Seq<VersionSnapshotView>) -> Seq<NoteVersionItemView> {
    arranged(version_items(s), stable_order_of(saved_times(version_items(s)), true))
}

/// The history of the note `note_id` as a list, given the snapshots found in
/// its history directory: one entry for each, the newest first, each body
/// cut to a preview. An identifier that is not valid is refused.
pub fn list_note_versions(note_id: &str, snapshots: &Vec<VersionSnapshot>) -> (r: Result<
    Vec<NoteVersionItem>,
    String,
>)
    ensures
        r is Ok <==> is_valid_id(note_id@),
        r matches Err(e) ==> e@ == note_id_error(note_id@),
        r matches Ok(items) ==> {
            &&& items.deep_view() == version_list(snapshots.deep_view())
            &&& descending(saved_times(items.deep_view()))
            &&& same_members(items.deep_view(), version_items(snapshots.deep_view()))
        },
{
    match validate_note_id(note_id) {
        Err(e) => {
            return Err(e);
        },
        Ok(_) => {},
    }
    let ghost snaps = snapshots.deep_view();
    let ghost entries = version_items(snaps);
    let mut items: Vec<NoteVersionItem> = Vec::new();
    let mut keys: Vec<String> = Vec::new();
    let mut i: usize = 0;
    proof {
        assert(items.deep_view() =~= entries.take(0));
        assert(keys.deep_view() =~= saved_times(entries).take(0));
    }
    while i < snapshots.len()
        invariant
            i <= snapshots.len(),
            snaps == snapshots.deep_view(),
            entries == version_items(snaps),
            items.deep_view() == entries.take(i as int),
            keys.deep_view() == saved_times(entries).take(i as int),
        decreases snapshots.len() - i,
    {
        let s = &snapshots[i];
        let item = NoteVersionItem {
            saved_at: s.saved_at.clone(),
            title: s.title.clone(),
            body_preview: body_preview(s.body.as_str()),
        };
        let ghost prior = items.deep_view();
        let ghost prior_keys = keys.deep_view();
        proof {
            assert(snaps[i as int] == s@);
            assert(item@ == entries[i as int]);
        }
        keys.push(s.saved_at.clone());
        items.push(item);
        proof {
            assert(items.deep_view() =~~= prior.push(entries[i as int]));
            assert(entries.take(i + 1) =~~= prior.push(entries[i as int]));
            assert(keys.deep_view() =~~= prior_keys.push(entries[i as int].saved_at));
            assert(saved_times(entries).take(i + 1) =~~= prior_keys.push(
                entries[i as int].saved_at,
            ));
        }
        i += 1;
    }
    proof {
        assert(entries.take(snapshots.len() as int) =~= entries);
        assert(saved_times(entries).take(snapshots.len() as int) =~= saved_times(entries));
    }
    let perm = stable_order(&keys, true);
    let mut out: Vec<NoteVersionItem> = Vec::new();
    let mut k: usize = 0;
    let ghost target = arranged(entries, perm@);
    proof {
        assert(out.deep_view() =~= target.take(0));
    }
    while k < perm.len()
        invariant
            k <= perm.len(),
            perm.len() == items.len(),
            forall|t: int| 0 <= t < perm.len() ==> (#[trigger] perm[t]) < items.len(),
            items.deep_view() == entries,
            target == arranged(entries, perm@),
            out.deep_view() == target.take(k as int),
        decreases perm.len() - k,
    {
        let ghost prior = out.deep_view();
        out.push(items[perm[k]].clone());
        proof {
            assert(items.deep_view()[perm[k as int] as int] == items[perm[k as int] as int]@);
            assert(out.deep_view() =~~= prior.push(target[k as int]));
            assert(target.take(k + 1) =~~= prior.push(target[k as int]));
        }
        k += 1;
    }
    proof {
        assert(target.take(perm.len() as int) =~= target);
        lemma_arranged_members(entries, saved_times(entries), perm@, true);
        lemma_arranged_keys_sorted(saved_times(entries), perm@, true);
        assert(saved_times(target) =~= arranged(saved_times(entries), perm@));
    }
    Ok(out)
}

/// One version of the note `note_id` in full, given what was found under the
/// version's name in the note's history directory. An identifier that is
/// not valid is refused; a version that was not found is reported as such.
pub fn get_note_version(note_id: &str, stored: Option<VersionSnapshot>) -> (r: Result<
    NoteVersionContent,
    String,
>)
    ensures
        r is Ok <==> is_valid_id(note_id@) && stored is Some,
        r matches Ok(c) ==> c@.saved_at == stored->0@.saved_at && c@.title == stored->0@.title
            && c@.body == stored->0@.body,
        r matches Err(e) ==> e@ == if !is_valid_id(note_id@) {
            note_id_error(note_id@)
        } else {
            "Version not found"@
        },
{
    match validate_note_id(note_id) {
        Err(e) => {
            return Err(e);
        },
        Ok(_) => {},
    }
    match stored {
        None => Err("Version not found".to_string()),
        Some(s) => Ok(NoteVersionContent { saved_at: s.saved_at, title: s.title, body: s.body }),
    }
}

} // verus!
