//! What a note's text says about the note: the tags written in its body, the
//! tag derived from its title, and the notes that its body links to.
//!
//! Each result is a set, handed out as a strictly ascending list.

use crate::models::{NoteMeta, NoteMetaView};
use crate::order::{insert_unique, strictly_ascending};
use crate::text::{
    alphanumeric, append_chars, from_chars, is_alphanumeric, join, lemma_run_len, lowercase,
    run_len, same_text, slice_chars, split_words, to_chars, to_lowercase, trim, trim_chars, words,
};
use vstd::prelude::*;

verus! {

/// A character of a tag: a letter, a digit, `_` or `-`.
pub open spec fn is_tag_char(c: char) -> bool {
    alphanumeric(c) || c == '_' || c == '-'
}

/// Whether `c` may stand in a tag.
pub fn is_tag_character(c: char) -> (r: bool)
    ensures
        r == is_tag_char(c),
{
    is_alphanumeric(c) || c == '_' || c == '-'
}

/// The tags written in `body`, in the order in which a reader meets them:
/// after each `#`, the run of tag characters that follows it, if there is
/// any. Reading goes on behind the run.
pub open spec fn body_tag_list(body: Seq<char>) -> Seq<Seq<char>>
    decreases body.len(),
{
    if body.len() == 0 {
        Seq::empty()
    } else if body[0] != '#' {
        body_tag_list(body.drop_first())
    } else {
        let rest = body.drop_first();
        let n = run_len(rest, |c: char| is_tag_char(c)) as int;
        if n == 0 {
            body_tag_list(rest)
        } else if n <= rest.len() {
            seq![rest.take(n)] + body_tag_list(rest.skip(n))
        } else {
            Seq::empty()
        }
    }
}

/// The set of the tags written in `body`.
pub open spec fn body_tags(body: Seq<char>) -> Set<Seq<char>> {
    body_tag_list(body).to_set()
}

/// The tags written in `body` as `#tag`: each once, case kept, in ascending
/// order.
pub fn extract_tags_from_body(body: &str) -> (r: Vec<String>)
    ensures
        strictly_ascending(r.deep_view()),
        r.deep_view().to_set() == body_tags(body@),
{
    let v = to_chars(body);
    let n: usize = v.len();
    let mut out: Vec<String> = Vec::new();
    let ghost mut seen: Seq<Seq<char>> = Seq::empty();
    let mut i: usize = 0;
    proof {
        assert(v@.skip(0) == v@);
        assert(seen + body_tag_list(v@) == body_tag_list(v@));
        assert(out.deep_view().to_set() =~= seen.to_set());
    }
    while i < n
        invariant
            i <= n,
            n == v.len(),
            v@ == body@,
            body_tag_list(v@) == seen + body_tag_list(v@.skip(i as int)),
            strictly_ascending(out.deep_view()),
            out.deep_view().to_set() == seen.to_set(),
        decreases n - i,
    {
        let ghost here = v@.skip(i as int);
        if v[i] == '#' {
            let start: usize = i + 1;
            let mut j: usize = start;
            while j < n && is_tag_character(v[j])
                invariant
                    start <= j <= n,
                    n == v.len(),
                    forall|k: int| start <= k < j ==> is_tag_char(#[trigger] v@[k]),
                decreases n - j,
            {
                j += 1;
            }
            let ghost rest = v@.skip(start as int);
            proof {
                let p = |c: char| is_tag_char(c);
                assert(here.drop_first() == rest);
                assert forall|k: int| 0 <= k < j - start implies p(#[trigger] rest[k]) by {
                    assert(rest[k] == v@[start + k]);
                }
                lemma_run_len(rest, p, j - start);
                assert(rest.skip(j - start) == v@.skip(j as int));
            }
            if j > start {
                let tag = from_chars(&slice_chars(&v, start, j));
                proof {
                    assert(rest.take(j - start) == tag@);
                    assert(seen.push(tag@) + body_tag_list(v@.skip(j as int)) == seen + (seq![
                        tag@,
                    ] + body_tag_list(v@.skip(j as int))));
                    seen.lemma_push_to_set_commute(tag@);
                    seen = seen.push(tag@);
                }
                insert_unique(&mut out, tag);
            }
            i = j;
        } else {
            proof {
                assert(here.drop_first() == v@.skip(i + 1));
            }
            i += 1;
        }
    }
    proof {
        assert(seen + body_tag_list(v@.skip(n as int)) == seen);
    }
    out
}

/// A character of a title as the slug keeps it: letters, digits, spaces,
/// `-` and `_` stay, every other character becomes a space.
pub open spec fn slug_char(c: char) -> char {
    if alphanumeric(c) || c == ' ' || c == '-' || c == '_' {
        c
    } else {
        ' '
    }
}

/// `title` with each character as the slug keeps it.
pub open spec fn slug_source(title: Seq<char>) -> Seq<char> {
    Seq::new(title.len(), |i: int| slug_char(title[i]))
}

/// Each of `parts` in lower case.
pub open spec fn lowercased(parts: Seq<Seq<char>>) -> Seq<Seq<char>> {
    Seq::new(parts.len(), |i: int| lowercase(parts[i]))
}

/// The slug of `title`: its words, in lower case, joined by `-`.
pub open spec fn title_slug(title: Seq<char>) -> Seq<char> {
    join(lowercased(words(slug_source(title))), seq!['-'])
}

/// `s` takes at least two bytes in UTF-8: it has two characters or more, or
/// one character outside ASCII.
pub open spec fn takes_two_bytes(s: Seq<char>) -> bool {
    s.len() >= 2 || (s.len() == 1 && s[0] as u32 >= 0x80)
}

/// `s` holds a letter or a digit.
pub open spec fn has_alphanumeric(s: Seq<char>) -> bool {
    exists|i: int| 0 <= i < s.len() && alphanumeric(#[trigger] s[i])
}

/// A slug makes a tag when it takes at least two bytes and holds a letter or
/// a digit.
pub open spec fn slug_is_tag(slug: Seq<char>) -> bool {
    takes_two_bytes(slug) && has_alphanumeric(slug)
}

/// The tags derived from `title`: its slug if that makes a tag, else none.
pub open spec fn title_tags(title: Seq<char>) -> Seq<Seq<char>> {
    if slug_is_tag(title_slug(title)) {
        seq![title_slug(title)]
    } else {
        Seq::empty()
    }
}

proof fn lemma_join_step(parts: Seq<Seq<char>>, sep: Seq<char>, i: int)
    requires
        0 <= i < parts.len(),
    ensures
        join(parts.take(i + 1), sep) == if i == 0 {
            parts[0]
        } else {
            join(parts.take(i), sep) + sep + parts[i]
        },
{
    let p = parts.take(i + 1);
    assert(p.last() == parts[i]);
    assert(p.drop_last() == parts.take(i));
    assert(p[0] == parts[0]);
}

/// The slug of `title`.
pub fn slug_of_title(title: &str) -> (r: String)
    ensures
        r@ == title_slug(title@),
{
    let t = to_chars(title);
    let mut mapped: Vec<char> = Vec::new();
    let mut i: usize = 0;
    while i < t.len()
        invariant
            i <= t.len(),
            mapped@ == slug_source(t@).take(i as int),
        decreases t.len() - i,
    {
        let c = t[i];
        mapped.push(
            if is_alphanumeric(c) || c == ' ' || c == '-' || c == '_' {
                c
            } else {
                ' '
            },
        );
        proof {
            assert(mapped@ =~= slug_source(t@).take(i + 1));
        }
        i += 1;
    }
    proof {
        assert(slug_source(t@).take(t.len() as int) =~= slug_source(t@));
    }
    let pieces = split_words(&mapped);
    let ghost parts = lowercased(words(slug_source(title@)));
    let mut slug: Vec<char> = Vec::new();
    let mut k: usize = 0;
    proof {
        assert(pieces.deep_view().len() == pieces.len());
        assert(join(parts.take(0), seq!['-']) == Seq::<char>::empty());
    }
    while k < pieces.len()
        invariant
            k <= pieces.len(),
            pieces.deep_view() == words(slug_source(title@)),
            parts == lowercased(words(slug_source(title@))),
            slug@ == join(parts.take(k as int), seq!['-']),
        decreases pieces.len() - k,
    {
        let word = from_chars(&pieces[k]);
        let lower = to_lowercase(word.as_str());
        proof {
            assert(pieces.deep_view()[k as int] == pieces[k as int]@);
            assert(lower@ == parts[k as int]);
            lemma_join_step(parts, seq!['-'], k as int);
        }
        if k > 0 {
            slug.push('-');
            proof {
                assert(slug@ == join(parts.take(k as int), seq!['-']) + seq!['-']);
            }
        } else {
            proof {
                assert(slug@ + lower@ == lower@);
            }
        }
        let lower_chars = to_chars(lower.as_str());
        append_chars(&mut slug, &lower_chars);
        k += 1;
    }
    proof {
        assert(parts.take(pieces.len() as int) == parts);
    }
    from_chars(&slug)
}

/// Whether `slug` makes a tag.
pub fn slug_makes_tag(slug: &str) -> (r: bool)
    ensures
        r == slug_is_tag(slug@),
{
    let v = to_chars(slug);
    if v.len() == 0 || (v.len() == 1 && (v[0] as u32) < 0x80) {
        return false;
    }
    let mut i: usize = 0;
    while i < v.len()
        invariant
            i <= v.len(),
            v@ == slug@,
            takes_two_bytes(slug@),
            forall|k: int| 0 <= k < i ==> !alphanumeric(#[trigger] v@[k]),
        decreases v.len() - i,
    {
        if is_alphanumeric(v[i]) {
            assert(alphanumeric(slug@[i as int]));
            return true;
        }
        i += 1;
    }
    false
}

/// The tag derived from `title`: the title's words in lower case, joined by
/// `-`, if that slug takes at least two bytes and holds a letter or a digit;
/// else nothing.
pub fn extract_tags_from_title(title: &str) -> (r: Vec<String>)
    ensures
        r.deep_view() == title_tags(title@),
{
    let slug = slug_of_title(title);
    let mut out: Vec<String> = Vec::new();
    if slug_makes_tag(slug.as_str()) {
        out.push(slug);
        proof {
            assert(out.deep_view() =~~= seq![title_slug(title@)]);
        }
    } else {
        proof {
            assert(out.deep_view() =~~= Seq::<Seq<char>>::empty());
        }
    }
    out
}

/// The tags of a note with the given title and body: those written in the
/// body and the one derived from the title.
pub open spec fn note_tags(title: Seq<char>, body: Seq<char>) -> Set<Seq<char>> {
    body_tags(body).union(title_tags(title).to_set())
}

/// The tags of a note with the given title and body, each once, in
/// ascending order.
pub fn derive_tags(title: &str, body: &str) -> (r: Vec<String>)
    ensures
        strictly_ascending(r.deep_view()),
        r.deep_view().to_set() == note_tags(title@, body@),
{
    let mut tags = extract_tags_from_body(body);
    let slug = slug_of_title(title);
    if slug_makes_tag(slug.as_str()) {
        proof {
            assert(title_tags(title@).to_set() =~= Set::<Seq<char>>::empty().insert(slug@)) by {
                assert(title_tags(title@)[0] == slug@);
            }
            assert(body_tags(body@).insert(slug@) =~= note_tags(title@, body@));
        }
        insert_unique(&mut tags, slug);
    } else {
        proof {
            assert(title_tags(title@).to_set() =~= Set::<Seq<char>>::empty());
            assert(body_tags(body@) =~= note_tags(title@, body@));
        }
    }
    tags
}

/// A link is closed: in `s`, the text behind its opening `[[`, a closing
/// `]]` follows. A `]` that no second `]` follows does not close the link:
/// it is passed over, and so is the character behind it.
pub open spec fn is_closed(s: Seq<char>) -> bool
    decreases s.len(),
{
    if s.len() == 0 {
        false
    } else if s[0] != ']' {
        is_closed(s.drop_first())
    } else if s.len() == 1 {
        false
    } else if s[1] == ']' {
        true
    } else {
        is_closed(s.skip(2))
    }
}

/// The title that a closed link holds, when `s` is the text behind its
/// opening `[[`: everything up to the closing `]]`. A `]` that no second
/// `]` follows belongs to the title, and so does the character behind it.
pub open spec fn link_title(s: Seq<char>) -> Seq<char>
    decreases s.len(),
{
    if s.len() == 0 {
        Seq::empty()
    } else if s[0] != ']' {
        seq![s[0]] + link_title(s.drop_first())
    } else if s.len() >= 2 && s[1] != ']' {
        seq![']', s[1]] + link_title(s.skip(2))
    } else {
        Seq::empty()
    }
}

/// The number of characters of `s` that a closed link takes, its closing
/// `]]` included, when `s` is the text behind its opening `[[`.
pub open spec fn link_span(s: Seq<char>) -> nat
    decreases s.len(),
{
    if s.len() == 0 {
        0
    } else if s[0] != ']' {
        1 + link_span(s.drop_first())
    } else if s.len() >= 2 && s[1] != ']' {
        2 + link_span(s.skip(2))
    } else if s.len() >= 2 {
        2
    } else {
        1
    }
}

/// The titles of the links written in `body` as `[[title]]`, as written, in
/// the order in which a reader meets them. Only a link that is closed is a
/// link; reading goes on behind it. A `[[` that nothing closes is text.
pub open spec fn link_titles(body: Seq<char>) -> Seq<Seq<char>>
    decreases body.len(),
{
    if body.len() == 0 {
        Seq::empty()
    } else if body.len() >= 2 && body[0] == '[' && body[1] == '[' && is_closed(body.skip(2))
        && link_span(body.skip(2)) <= body.skip(2).len() {
        seq![link_title(body.skip(2))] + link_titles(
            body.skip(2).skip(link_span(body.skip(2)) as int),
        )
    } else {
        link_titles(body.drop_first())
    }
}

/// What is not closed is not closed further on.
pub proof fn lemma_unclosed_stays(s: Seq<char>)
    requires
        !is_closed(s),
        s.len() > 0,
    ensures
        !is_closed(s.drop_first()),
{
    if s[0] == ']' && s.len() >= 2 && s[1] != ']' {
        let t = s.drop_first();
        assert(t[0] == s[1]);
        assert(t.drop_first() == s.skip(2));
    }
}

/// A text in which nothing closes a link holds no link.
pub proof fn lemma_unclosed_has_no_links(s: Seq<char>)
    requires
        !is_closed(s),
    ensures
        link_titles(s) == Seq::<Seq<char>>::empty(),
    decreases s.len(),
{
    if s.len() > 0 {
        lemma_unclosed_stays(s);
        let t = s.drop_first();
        if s.len() >= 2 && s[0] == '[' && s[1] == '[' {
            lemma_unclosed_stays(t);
            assert(t.drop_first() == s.skip(2));
        }
        lemma_unclosed_has_no_links(t);
    }
}

/// The id of the first of `notes` whose id is not `exclude` and whose title
/// is `wanted` in lower case.
pub open spec fn resolve_title(
    wanted: Seq<char>,
    notes: Seq<NoteMetaView>,
    exclude: Seq<char>,
) -> Option<Seq<char>>
    decreases notes.len(),
{
    if notes.len() == 0 {
        None
    } else if notes[0].id != exclude && lowercase(notes[0].title) == wanted {
        Some(notes[0].id)
    } else {
        resolve_title(wanted, notes.drop_first(), exclude)
    }
}

/// The note that a link with the title `raw`, as written, points to: none if
/// the title is blank; else the first note, `exclude` left out, whose title
/// equals the trimmed title, case ignored.
pub open spec fn link_target(
    raw: Seq<char>,
    notes: Seq<NoteMetaView>,
    exclude: Seq<char>,
) -> Option<Seq<char>> {
    if trim(raw).len() == 0 {
        None
    } else {
        resolve_title(lowercase(trim(raw)), notes, exclude)
    }
}

/// The targets of the given links, as far as they have one.
pub open spec fn targets_of(
    titles: Seq<Seq<char>>,
    notes: Seq<NoteMetaView>,
    exclude: Seq<char>,
) -> Set<Seq<char>> {
    Set::new(
        |id: Seq<char>|
            exists|i: int|
                0 <= i < titles.len() && #[trigger] link_target(titles[i], notes, exclude) == Some(
                    id,
                ),
    )
}

/// The ids of the notes that `body` links to.
pub open spec fn body_links(
    body: Seq<char>,
    notes: Seq<NoteMetaView>,
    exclude: Seq<char>,
) -> Set<Seq<char>> {
    targets_of(link_titles(body), notes, exclude)
}

/// A resolved title is the id of one of the notes, and never the excluded id.
pub proof fn lemma_resolve_title(wanted: Seq<char>, notes: Seq<NoteMetaView>, exclude: Seq<char>)
    ensures
        resolve_title(wanted, notes, exclude) matches Some(id) ==> id != exclude && exists|k: int|
            0 <= k < notes.len() && (#[trigger] notes[k]).id == id && lowercase(notes[k].title)
                == wanted,
    decreases notes.len(),
{
    if notes.len() > 0 {
        if notes[0].id != exclude && lowercase(notes[0].title) == wanted {
        } else {
            let rest = notes.drop_first();
            lemma_resolve_title(wanted, rest, exclude);
            if let Some(id) = resolve_title(wanted, rest, exclude) {
                let k = choose|k: int|
                    0 <= k < rest.len() && (#[trigger] rest[k]).id == id && lowercase(
                        rest[k].title,
                    ) == wanted;
                assert(notes[k + 1] == rest[k]);
            }
        }
    }
}

/// A body links only to notes of the list, and never to the excluded id.
pub proof fn lemma_links_are_notes(body: Seq<char>, notes: Seq<NoteMetaView>, exclude: Seq<char>)
    ensures
        !body_links(body, notes, exclude).contains(exclude),
        forall|id: Seq<char>| #[trigger]
            body_links(body, notes, exclude).contains(id) ==> exists|k: int|
                0 <= k < notes.len() && (#[trigger] notes[k]).id == id,
{
    let titles = link_titles(body);
    assert forall|id: Seq<char>| #[trigger]
        body_links(body, notes, exclude).contains(id) implies id != exclude && exists|k: int|
        0 <= k < notes.len() && (#[trigger] notes[k]).id == id by {
        let i = choose|i: int|
            0 <= i < titles.len() && #[trigger] link_target(titles[i], notes, exclude) == Some(id);
        lemma_resolve_title(lowercase(trim(titles[i])), notes, exclude);
    }
}

/// The id of the note that a link with the title `raw` points to.
pub fn resolve_link(raw: &Vec<char>, notes: &Vec<NoteMeta>, exclude_id: &str) -> (r: Option<String>)
    ensures
        r.deep_view() == link_target(raw@, notes.deep_view(), exclude_id@),
{
    let trimmed = trim_chars(raw);
    if trimmed.len() == 0 {
        return None;
    }
    let wanted = to_lowercase(from_chars(&trimmed).as_str());
    let ghost all = notes.deep_view();
    let mut k: usize = 0;
    proof {
        assert(all.skip(0) == all);
    }
    while k < notes.len()
        invariant
            k <= notes.len(),
            all == notes.deep_view(),
            wanted@ == lowercase(trim(raw@)),
            trim(raw@).len() > 0,
            resolve_title(wanted@, all, exclude_id@) == resolve_title(
                wanted@,
                all.skip(k as int),
                exclude_id@,
            ),
        decreases notes.len() - k,
    {
        let n = &notes[k];
        proof {
            assert(all.skip(k as int)[0] == n@);
            assert(all.skip(k as int).drop_first() == all.skip(k + 1));
        }
        if !same_text(n.id.as_str(), exclude_id) {
            let lower = to_lowercase(n.title.as_str());
            if same_text(lower.as_str(), wanted.as_str()) {
                let id = n.id.clone();
                proof {
                    let here = all.skip(k as int);
                    assert(here[0].id == id@);
                    assert(lowercase(here[0].title) == wanted@);
                    assert(resolve_title(wanted@, here, exclude_id@) == Some(id@));
                    assert(Some(id).deep_view() == Some(id@));
                }
                return Some(id);
            }
        }
        k += 1;
    }
    None
}

/// The ids of the notes that `body` links to by `[[title]]`: for each link
/// the first of `notes`, the note `exclude_id` left out, whose title equals
/// the link's trimmed title, case ignored. Links that match no note are
/// dropped, and a `[[` that no `]]` closes is no link. Each id comes once,
/// in ascending order.
pub fn extract_links_from_body(body: &str, notes: &Vec<NoteMeta>, exclude_id: &str) -> (r: Vec<
    String,
>)
    ensures
        strictly_ascending(r.deep_view()),
        r.deep_view().to_set() == body_links(body@, notes.deep_view(), exclude_id@),
        !r.deep_view().contains(exclude_id@),
{
    let v = to_chars(body);
    let n: usize = v.len();
    let ghost all = notes.deep_view();
    let ghost ex = exclude_id@;
    let mut out: Vec<String> = Vec::new();
    let ghost mut seen: Seq<Seq<char>> = Seq::empty();
    let mut i: usize = 0;
    proof {
        assert(v@.skip(0) == v@);
        assert(seen + link_titles(v@) == link_titles(v@));
        assert(out.deep_view().to_set() =~= targets_of(seen, all, ex));
    }
    while i < n
        invariant
            i <= n,
            n == v.len(),
            v@ == body@,
            all == notes.deep_view(),
            ex == exclude_id@,
            link_titles(v@) == seen + link_titles(v@.skip(i as int)),
            strictly_ascending(out.deep_view()),
            out.deep_view().to_set() == targets_of(seen, all, ex),
        decreases n - i,
    {
        let ghost here = v@.skip(i as int);
        if v[i] == '[' && i + 1 < n && v[i + 1] == '[' {
            let start: usize = i + 2;
            let ghost rest = v@.skip(start as int);
            let mut title: Vec<char> = Vec::new();
            let mut j: usize = start;
            let mut open: bool = true;
            proof {
                assert(here[0] == v@[i as int]);
                assert(here[1] == v@[i + 1]);
                assert(here.skip(2) == rest);
                assert(rest.skip(0) == rest);
                assert(title@ + link_title(rest) == link_title(rest));
            }
            while open && j < n
                invariant
                    start <= j <= n,
                    n == v.len(),
                    rest == v@.skip(start as int),
                    open ==> link_title(rest) == title@ + link_title(v@.skip(j as int)),
                    open ==> link_span(rest) == (j - start) + link_span(v@.skip(j as int)),
                    open ==> is_closed(rest) == is_closed(v@.skip(j as int)),
                    !open ==> is_closed(rest) && link_title(rest) == title@ && link_span(rest) == j
                        - start,
                decreases n - j, (if open { 1int } else { 0int }),
            {
                let ghost tail = v@.skip(j as int);
                let ghost prior = title@;
                proof {
                    assert(tail[0] == v@[j as int]);
                }
                if v[j] != ']' {
                    title.push(v[j]);
                    proof {
                        assert(tail.drop_first() == v@.skip(j + 1));
                        assert(prior.push(v@[j as int]) + link_title(v@.skip(j + 1)) == prior + (
                        seq![tail[0]] + link_title(tail.drop_first())));
                    }
                    j += 1;
                } else if j + 1 >= n {
                    proof {
                        assert(tail.len() == 1);
                        assert(v@.skip(j + 1).len() == 0);
                        assert(prior + link_title(v@.skip(j + 1)) == prior + Seq::<char>::empty());
                    }
                    j += 1;
                } else if v[j + 1] == ']' {
                    proof {
                        assert(tail[1] == v@[j + 1]);
                        assert(prior + Seq::<char>::empty() == prior);
                    }
                    j += 2;
                    open = false;
                } else {
                    title.push(']');
                    title.push(v[j + 1]);
                    proof {
                        assert(tail[1] == v@[j + 1]);
                        assert(tail.skip(2) == v@.skip(j + 2));
                        assert(prior.push(']').push(v@[j + 1]) + link_title(v@.skip(j + 2))
                            == prior + (seq![']', tail[1]] + link_title(tail.skip(2))));
                    }
                    j += 2;
                }
            }
            if open {
                // Nothing closes this link, so it is none, and none follows.
                proof {
                    assert(v@.skip(j as int).len() == 0);
                    assert(!is_closed(rest));
                    let next = here.drop_first();
                    assert(next[0] == v@[i + 1]);
                    assert(next.drop_first() == rest);
                    assert(!is_closed(next));
                    lemma_unclosed_has_no_links(next);
                    assert(link_titles(here) == link_titles(next));
                    assert(link_titles(v@.skip(n as int)) == Seq::<Seq<char>>::empty());
                }
                i = n;
            } else {
                proof {
                    assert(link_title(rest) == title@);
                    assert(link_span(rest) == j - start);
                    assert(rest.skip(j - start) == v@.skip(j as int));
                    assert(seen.push(title@) + link_titles(v@.skip(j as int)) == seen + (seq![
                        title@,
                    ] + link_titles(v@.skip(j as int))));
                }
                let target = resolve_link(&title, notes, exclude_id);
                proof {
                    lemma_targets_push(seen, title@, all, ex);
                    seen = seen.push(title@);
                }
                match target {
                    Some(id) => {
                        insert_unique(&mut out, id);
                    },
                    None => {},
                }
                i = j;
            }
        } else {
            proof {
                if here.len() >= 2 {
                    assert(here[0] == v@[i as int]);
                    assert(here[1] == v@[i + 1]);
                }
                assert(here.drop_first() == v@.skip(i + 1));
            }
            i += 1;
        }
    }
    proof {
        assert(seen + link_titles(v@.skip(n as int)) == seen);
        lemma_links_are_notes(body@, all, ex);
    }
    out
}

proof fn lemma_targets_push(
    seen: Seq<Seq<char>>,
    title: Seq<char>,
    notes: Seq<NoteMetaView>,
    exclude: Seq<char>,
)
    ensures
        targets_of(seen.push(title), notes, exclude) == match link_target(title, notes, exclude) {
            Some(id) => targets_of(seen, notes, exclude).insert(id),
            None => targets_of(seen, notes, exclude),
        },
{
    let more = seen.push(title);
    let old_set = targets_of(seen, notes, exclude);
    let new_set = targets_of(more, notes, exclude);
    let expected = match link_target(title, notes, exclude) {
        Some(id) => old_set.insert(id),
        None => old_set,
    };
    assert forall|id: Seq<char>| new_set.contains(id) <==> expected.contains(id) by {
        if new_set.contains(id) {
            let i = choose|i: int|
                0 <= i < more.len() && #[trigger] link_target(more[i], notes, exclude) == Some(id);
            if i < seen.len() {
                assert(more[i] == seen[i]);
                assert(link_target(seen[i], notes, exclude) == Some(id));
            }
        }
        if old_set.contains(id) {
            let i = choose|i: int|
                0 <= i < seen.len() && #[trigger] link_target(seen[i], notes, exclude) == Some(id);
            assert(more[i] == seen[i]);
            assert(link_target(more[i], notes, exclude) == Some(id));
        }
        if link_target(title, notes, exclude) == Some(id) {
            assert(more[seen.len() as int] == title);
            assert(link_target(more[seen.len() as int], notes, exclude) == Some(id));
        }
    }
    assert(new_set =~= expected);
}

} // verus!
