//! The search language: how a query is read, which notes it keeps, and in
//! what order they are handed out.
//!
//! A query is a list of words. A word that names an operator sets a filter;
//! every other word is a term that must stand in the note's title or body.
//! All filters and all terms must hold of a note for the note to be kept.

use crate::clock::{day_bounds_now, day_bounds_of, DayBounds, DayBoundsView};
use crate::models::{NoteContent, NoteContentView, NoteMeta, NoteMetaView};
use crate::order::{
    arranged, compare, descending, lemma_arranged_keys_sorted, lemma_arranged_members, lex_le,
    same_members, stable_order, stable_order_of, Order,
};
use crate::sandbox::truncated;
use crate::text::{
    contains_chars, from_chars, has_prefix, has_substring, lines, lowercase, same_text,
    slice_chars, split_lines, split_words, starts_with, to_chars, to_lowercase, trim, trim_chars,
    words,
};
use vstd::prelude::*;

verus! {

/// How far back a note may have been changed to be kept.
#[derive(Clone, Copy, Debug, PartialEq, Eq)]
pub enum DateFilter {
    /// Changed today or later.
    Today,
    /// Changed within the last seven days.
    Week,
    /// Changed within the last thirty days.
    Month,
}

/// A query as read: the filters that it sets and the terms that it holds.
#[derive(Debug)]
pub struct Query {
    /// Keep notes that carry every one of these tags, case ignored. In
    /// lower case, in the order in which they were asked for.
    pub tags: Vec<String>,
    /// Keep starred notes only.
    pub starred_only: bool,
    /// Keep notes changed since each of the given days, in the order in
    /// which they were asked for.
    pub dates: Vec<DateFilter>,
    /// Keep notes with attachments only.
    pub has_attachments: bool,
    /// Keep notes whose body holds a task.
    pub has_tasks: bool,
    /// Keep notes whose body holds a checked task.
    pub checked: bool,
    /// Keep notes whose body holds an unchecked task.
    pub unchecked: bool,
    /// The terms, in lower case.
    pub terms: Vec<String>,
}

/// The view of a `Query`.
pub struct QueryView {
    pub tags: Seq<Seq<char>>,
    pub starred_only: bool,
    pub dates: Seq<DateFilter>,
    pub has_attachments: bool,
    pub has_tasks: bool,
    pub checked: bool,
    pub unchecked: bool,
    pub terms: Seq<Seq<char>>,
}

impl View for Query {
    type V = QueryView;

    open spec fn view(&self) -> QueryView {
        QueryView {
            tags: self.tags.deep_view(),
            starred_only: self.starred_only,
            dates: self.dates@,
            has_attachments: self.has_attachments,
            has_tasks: self.has_tasks,
            checked: self.checked,
            unchecked: self.unchecked,
            terms: self.terms.deep_view(),
        }
    }
}

/// The query that sets no filter and holds no term.
pub open spec fn empty_query() -> QueryView {
    QueryView {
        tags: Seq::empty(),
        starred_only: false,
        dates: Seq::empty(),
        has_attachments: false,
        has_tasks: false,
        checked: false,
        unchecked: false,
        terms: Seq::empty(),
    }
}

/// The query `q` after one more word, `t`, given in lower case. An operator
/// adds its filter to those that are set: every tag asked for, every date
/// and both kinds of task are kept side by side. `tag:` without a value
/// changes nothing; any other word is one more term.
pub open spec fn apply_token(q: QueryView, t: Seq<char>) -> QueryView {
    if has_prefix(t, "tag:"@) {
        if trim(t.skip(4)).len() > 0 {
            QueryView { tags: q.tags.push(trim(t.skip(4))), ..q }
        } else {
            q
        }
    } else if t == "is:starred"@ {
        QueryView { starred_only: true, ..q }
    } else if t == "date:today"@ {
        QueryView { dates: q.dates.push(DateFilter::Today), ..q }
    } else if t == "date:week"@ {
        QueryView { dates: q.dates.push(DateFilter::Week), ..q }
    } else if t == "date:month"@ {
        QueryView { dates: q.dates.push(DateFilter::Month), ..q }
    } else if t == "has:attachments"@ {
        QueryView { has_attachments: true, ..q }
    } else if t == "has:tasks"@ {
        QueryView { has_tasks: true, ..q }
    } else if t == "is:completed"@ {
        QueryView { checked: true, ..q }
    } else if t == "is:uncompleted"@ {
        QueryView { unchecked: true, ..q }
    } else {
        QueryView { terms: q.terms.push(t), ..q }
    }
}

/// The query that the given words make, each read in lower case, in order.
pub open spec fn parse_tokens(tokens: Seq<Seq<char>>) -> QueryView
    decreases tokens.len(),
{
    if tokens.len() == 0 {
        empty_query()
    } else {
        apply_token(parse_tokens(tokens.drop_last()), lowercase(tokens.last()))
    }
}

/// The query that `text` stands for: the query made by its words.
pub open spec fn parsed(text: Seq<char>) -> QueryView {
    parse_tokens(words(trim(text)))
}

/// A query is blank when it holds nothing but white space. A blank query
/// keeps every note.
pub open spec fn is_blank(text: Seq<char>) -> bool {
    trim(text).len() == 0
}

/// Whether `text` is a blank query.
pub fn query_is_blank(text: &str) -> (r: bool)
    ensures
        r == is_blank(text@),
{
    let v = to_chars(text);
    trim_chars(&v).len() == 0
}

/// Reads a query: splits `text` into words and lets each word, in lower
/// case, set its filter or add its term.
pub fn parse_query(text: &str) -> (q: Query)
    ensures
        q@ == parsed(text@),
{
    let v = to_chars(text);
    let tokens = split_words(&trim_chars(&v));
    let ghost all = tokens.deep_view();
    let prefix = to_chars("tag:");
    let mut q = Query {
        tags: Vec::new(),
        starred_only: false,
        dates: Vec::new(),
        has_attachments: false,
        has_tasks: false,
        checked: false,
        unchecked: false,
        terms: Vec::new(),
    };
    let mut i: usize = 0;
    proof {
        reveal_strlit("tag:");
        assert(all.take(0) =~= Seq::<Seq<char>>::empty());
        assert(q.terms.deep_view() =~= Seq::<Seq<char>>::empty());
        assert(q.tags.deep_view() =~= Seq::<Seq<char>>::empty());
    }
    while i < tokens.len()
        invariant
            i <= tokens.len(),
            all == tokens.deep_view(),
            all == words(trim(text@)),
            prefix@ == "tag:"@,
            "tag:"@.len() == 4,
            q@ == parse_tokens(all.take(i as int)),
        decreases tokens.len() - i,
    {
        let ghost before = q@;
        let word = from_chars(&tokens[i]);
        let lower = to_lowercase(word.as_str());
        let t = lower.as_str();
        let tv = to_chars(t);
        proof {
            assert(all.take(i + 1).drop_last() == all.take(i as int));
            assert(all.take(i + 1).last() == tokens[i as int]@);
            assert(tv@ == lowercase(all[i as int]));
        }
        if starts_with(&tv, &prefix) {
            let value = trim_chars(&slice_chars(&tv, 4, tv.len()));
            proof {
                assert(tv@.subrange(4, tv@.len() as int) == tv@.skip(4));
            }
            if value.len() > 0 {
                let ghost prior = q.tags.deep_view();
                q.tags.push(from_chars(&value));
                proof {
                    assert(q.tags.deep_view() =~~= prior.push(value@));
                }
            }
        } else if same_text(t, "is:starred") {
            q.starred_only = true;
        } else if same_text(t, "date:today") {
            q.dates.push(DateFilter::Today);
        } else if same_text(t, "date:week") {
            q.dates.push(DateFilter::Week);
        } else if same_text(t, "date:month") {
            q.dates.push(DateFilter::Month);
        } else if same_text(t, "has:attachments") {
            q.has_attachments = true;
        } else if same_text(t, "has:tasks") {
            q.has_tasks = true;
        } else if same_text(t, "is:completed") {
            q.checked = true;
        } else if same_text(t, "is:uncompleted") {
            q.unchecked = true;
        } else {
            let ghost prior = q.terms.deep_view();
            q.terms.push(lower);
            proof {
                assert(q.terms.deep_view() =~~= prior.push(tv@));
            }
        }
        proof {
            assert(q@ == apply_token(before, tv@));
        }
        i += 1;
    }
    proof {
        assert(all.take(tokens.len() as int) == all);
    }
    q
}

/// A line that opens an unchecked task: `- [ ]` or `* [ ]`.
pub open spec fn is_unchecked_task(line: Seq<char>) -> bool {
    &&& line.len() >= 5
    &&& (line[0] == '-' || line[0] == '*')
    &&& line[1] == ' '
    &&& line[2] == '['
    &&& line[3] == ' '
    &&& line[4] == ']'
}

/// A line that opens a checked task: `- [x]`, `- [X]`, `* [x]` or `* [X]`.
pub open spec fn is_checked_task(line: Seq<char>) -> bool {
    &&& line.len() >= 5
    &&& (line[0] == '-' || line[0] == '*')
    &&& line[1] == ' '
    &&& line[2] == '['
    &&& (line[3] == 'x' || line[3] == 'X')
    &&& line[4] == ']'
}

/// `body` holds an unchecked task: one of its lines, white space around
/// it removed, opens one.
pub open spec fn has_unchecked_task(body: Seq<char>) -> bool {
    exists|i: int| 0 <= i < lines(body).len() && is_unchecked_task(trim(#[trigger] lines(body)[i]))
}

/// `body` holds a checked task: one of its lines, white space around it
/// removed, opens one.
pub open spec fn has_checked_task(body: Seq<char>) -> bool {
    exists|i: int| 0 <= i < lines(body).len() && is_checked_task(trim(#[trigger] lines(body)[i]))
}

fn opens_task(line: &Vec<char>) -> (r: (bool, bool))
    ensures
        r.0 == is_unchecked_task(line@),
        r.1 == is_checked_task(line@),
{
    if line.len() < 5 {
        return (false, false);
    }
    let bullet = (line[0] == '-' || line[0] == '*') && line[1] == ' ' && line[2] == '[' && line[4]
        == ']';
    (bullet && line[3] == ' ', bullet && (line[3] == 'x' || line[3] == 'X'))
}

/// Whether `body` holds an unchecked task, and whether it holds a checked
/// one.
pub fn body_has_task_lines(body: &str) -> (r: (bool, bool))
    ensures
        r.0 == has_unchecked_task(body@),
        r.1 == has_checked_task(body@),
{
    let v = to_chars(body);
    let all = split_lines(&v);
    let ghost ls = lines(body@);
    let mut unchecked: bool = false;
    let mut checked: bool = false;
    let mut i: usize = 0;
    while i < all.len()
        invariant
            i <= all.len(),
            all.deep_view() == ls,
            ls == lines(body@),
            unchecked == exists|k: int| 0 <= k < i && is_unchecked_task(trim(#[trigger] ls[k])),
            checked == exists|k: int| 0 <= k < i && is_checked_task(trim(#[trigger] ls[k])),
        decreases all.len() - i,
    {
        let t = trim_chars(&all[i]);
        let marks = opens_task(&t);
        proof {
            assert(all.deep_view()[i as int] == all[i as int]@);
            assert(t@ == trim(ls[i as int]));
        }
        if marks.0 {
            unchecked = true;
        }
        if marks.1 {
            checked = true;
        }
        i += 1;
    }
    (unchecked, checked)
}

/// The day of a timestamp: its first ten characters.
pub open spec fn day_of(timestamp: Seq<char>) -> Seq<char> {
    truncated(timestamp, 10)
}

/// The day from which on `filter` keeps a note.
pub open spec fn first_day(filter: DateFilter, bounds: DayBoundsView) -> Seq<char> {
    match filter {
        DateFilter::Today => bounds.today,
        DateFilter::Week => bounds.week_start,
        DateFilter::Month => bounds.month_start,
    }
}

/// A note changed at `updated_at` is recent enough for `filter`: its day is
/// the first day of the filter or a later one.
pub open spec fn is_recent(updated_at: Seq<char>, filter: DateFilter, bounds: DayBoundsView) -> bool {
    lex_le(first_day(filter, bounds), day_of(updated_at))
}

/// One of `tags` is `wanted` when read in lower case.
pub open spec fn has_tag(tags: Seq<Seq<char>>, wanted: Seq<char>) -> bool {
    exists|i: int| 0 <= i < tags.len() && lowercase(#[trigger] tags[i]) == wanted
}

/// Each of `terms` stands in the title or in the body, both read in lower
/// case.
pub open spec fn has_terms(terms: Seq<Seq<char>>, title: Seq<char>, body: Seq<char>) -> bool {
    forall|i: int|
        0 <= i < terms.len() ==> has_substring(lowercase(title), #[trigger] terms[i])
            || has_substring(lowercase(body), terms[i])
}

/// What the query asks of a note without reading its body.
pub open spec fn matches_meta(q: QueryView, n: NoteMetaView, bounds: DayBoundsView) -> bool {
    &&& forall|i: int| 0 <= i < q.tags.len() ==> has_tag(n.tags, #[trigger] q.tags[i])
    &&& q.starred_only ==> n.important
    &&& forall|i: int|
        0 <= i < q.dates.len() ==> is_recent(n.updated_at, #[trigger] q.dates[i], bounds)
    &&& q.has_attachments ==> n.images.len() > 0
}

/// What the query asks of a note's body, and of its title where a term may
/// stand in either.
pub open spec fn matches_body(q: QueryView, title: Seq<char>, body: Seq<char>) -> bool {
    &&& q.has_tasks ==> has_unchecked_task(body) || has_checked_task(body)
    &&& q.checked ==> has_checked_task(body)
    &&& q.unchecked ==> has_unchecked_task(body)
    &&& has_terms(q.terms, title, body)
}

/// The query keeps the note: every filter and every term holds of it.
pub open spec fn matches(q: QueryView, n: NoteContentView, bounds: DayBoundsView) -> bool {
    matches_meta(q, n.meta, bounds) && matches_body(q, n.meta.title, n.body)
}

/// The query asks something of the bodies of the notes. A query that does
/// not is answered from the index alone.
pub open spec fn needs_body(q: QueryView) -> bool {
    q.has_tasks || q.checked || q.unchecked || q.terms.len() > 0
}

/// A query that does not need the bodies keeps the same notes whatever the
/// bodies hold.
pub proof fn lemma_body_not_read(
    q: QueryView,
    n: NoteMetaView,
    body: Seq<char>,
    other: Seq<char>,
    bounds: DayBoundsView,
)
    requires
        !needs_body(q),
    ensures
        matches(q, NoteContentView { meta: n, body }, bounds) == matches(
            q,
            NoteContentView { meta: n, body: other },
            bounds,
        ),
{
}

/// A query that sets no date filter keeps the same notes on every day.
pub proof fn lemma_clock_not_read(
    q: QueryView,
    n: NoteContentView,
    bounds: DayBoundsView,
    other: DayBoundsView,
)
    requires
        q.dates.len() == 0,
    ensures
        matches(q, n, bounds) == matches(q, n, other),
{
}

/// A query that asks for a tag and for starred notes, and for nothing else,
/// keeps exactly the starred notes that carry the tag, case ignored.
pub proof fn lemma_tag_and_starred(
    q: QueryView,
    tag: Seq<char>,
    n: NoteContentView,
    bounds: DayBoundsView,
)
    requires
        q == (QueryView { tags: seq![tag], starred_only: true, ..empty_query() }),
    ensures
        matches(q, n, bounds) <==> has_tag(n.meta.tags, tag) && n.meta.important,
{
    assert(q.tags[0] == tag);
}

/// Two words that read, in lower case, `tag:` with a value and
/// `is:starred` make the query for that tag and for starred notes, and for
/// nothing else.
pub proof fn lemma_tag_and_starred_words(tokens: Seq<Seq<char>>, tag: Seq<char>)
    requires
        tokens.len() == 2,
        lowercase(tokens[0]) == "tag:"@ + tag,
        trim(tag).len() > 0,
        lowercase(tokens[1]) == "is:starred"@,
    ensures
        parse_tokens(tokens) == (QueryView {
            tags: seq![trim(tag)],
            starred_only: true,
            ..empty_query()
        }),
{
    reveal_strlit("tag:");
    reveal_strlit("is:starred");
    let first = tokens.drop_last();
    assert(first.len() == 1);
    assert(first.last() == tokens[0]);
    assert(first.drop_last().len() == 0);
    assert(tokens.last() == tokens[1]);
    let t = "tag:"@ + tag;
    assert(t.take(4) =~= "tag:"@);
    assert(t.skip(4) =~= tag);
    assert(parse_tokens(first.drop_last()) == empty_query());
    let one = parse_tokens(first);
    assert(one == apply_token(empty_query(), t));
    assert(one.tags =~= seq![trim(tag)]);
    let star = "is:starred"@;
    assert(star.take(4) != "tag:"@) by {
        assert(star.take(4)[0] == 'i');
        assert("tag:"@[0] == 't');
    }
    assert(parse_tokens(tokens) == apply_token(one, star));
}

/// A query that asks for two tags keeps exactly the notes that carry both,
/// case ignored: filters of one kind hold together, as all filters do.
pub proof fn lemma_two_tags(
    q: QueryView,
    first: Seq<char>,
    second: Seq<char>,
    n: NoteContentView,
    bounds: DayBoundsView,
)
    requires
        q == (QueryView { tags: seq![first, second], ..empty_query() }),
    ensures
        matches(q, n, bounds) <==> has_tag(n.meta.tags, first) && has_tag(n.meta.tags, second),
{
    assert(q.tags[0] == first);
    assert(q.tags[1] == second);
}

impl Query {
    /// Whether the query asks something of the bodies of the notes.
    pub fn needs_body(&self) -> (r: bool)
        ensures
            r == needs_body(self@),
    {
        proof {
            assert(self.terms.deep_view().len() == self.terms.len());
        }
        self.has_tasks || self.checked || self.unchecked || self.terms.len() > 0
    }
}

fn carries_tag(tags: &Vec<String>, wanted: &str) -> (r: bool)
    ensures
        r == has_tag(tags.deep_view(), wanted@),
{
    let mut i: usize = 0;
    while i < tags.len()
        invariant
            i <= tags.len(),
            forall|k: int| 0 <= k < i ==> lowercase(#[trigger] tags.deep_view()[k]) != wanted@,
        decreases tags.len() - i,
    {
        let lower = to_lowercase(tags[i].as_str());
        proof {
            assert(tags.deep_view()[i as int] == tags[i as int]@);
        }
        if same_text(lower.as_str(), wanted) {
            return true;
        }
        i += 1;
    }
    false
}

fn changed_since(updated_at: &str, filter: DateFilter, bounds: &DayBounds) -> (r: bool)
    ensures
        r == is_recent(updated_at@, filter, bounds@),
{
    let mut day = to_chars(updated_at);
    if day.len() > 10 {
        day.truncate(10);
        proof {
            assert(day@ =~= updated_at@.take(10));
        }
    }
    let day = from_chars(&day);
    let first = match filter {
        DateFilter::Today => bounds.today.as_str(),
        DateFilter::Week => bounds.week_start.as_str(),
        DateFilter::Month => bounds.month_start.as_str(),
    };
    match compare(first, day.as_str()) {
        Order::Greater => false,
        _ => true,
    }
}

/// Whether the query keeps a note as far as the index tells.
pub fn note_matches_meta(q: &Query, n: &NoteMeta, bounds: &DayBounds) -> (r: bool)
    ensures
        r == matches_meta(q@, n@, bounds@),
{
    let mut i: usize = 0;
    while i < q.tags.len()
        invariant
            i <= q.tags.len(),
            forall|k: int| 0 <= k < i ==> has_tag(n@.tags, #[trigger] q@.tags[k]),
        decreases q.tags.len() - i,
    {
        proof {
            assert(q@.tags[i as int] == q.tags[i as int]@);
        }
        if !carries_tag(&n.tags, q.tags[i].as_str()) {
            return false;
        }
        i += 1;
    }
    if q.starred_only && !n.important {
        return false;
    }
    proof {
        assert(q@.tags.len() == q.tags.len());
    }
    let mut j: usize = 0;
    while j < q.dates.len()
        invariant
            j <= q.dates.len(),
            forall|k: int| 0 <= k < q@.tags.len() ==> has_tag(n@.tags, #[trigger] q@.tags[k]),
            q.starred_only ==> n.important,
            forall|k: int|
                0 <= k < j ==> is_recent(n@.updated_at, #[trigger] q@.dates[k], bounds@),
        decreases q.dates.len() - j,
    {
        if !changed_since(n.updated_at.as_str(), q.dates[j], bounds) {
            proof {
                assert(!is_recent(n@.updated_at, q@.dates[j as int], bounds@));
            }
            return false;
        }
        j += 1;
    }
    proof {
        assert(n.images.deep_view().len() == n.images.len());
        assert(q@.tags.len() == q.tags.len());
    }
    if q.has_attachments && n.images.len() == 0 {
        return false;
    }
    true
}

/// Whether the query keeps a note as far as its body and title tell.
pub fn note_matches_body(q: &Query, title: &str, body: &str) -> (r: bool)
    ensures
        r == matches_body(q@, title@, body@),
{
    if q.has_tasks || q.checked || q.unchecked {
        let marks = body_has_task_lines(body);
        if q.has_tasks && !marks.0 && !marks.1 {
            return false;
        }
        if q.checked && !marks.1 {
            return false;
        }
        if q.unchecked && !marks.0 {
            return false;
        }
    }
    if q.terms.len() == 0 {
        proof {
            assert(q@.terms.len() == 0);
        }
        return true;
    }
    let title_lower = to_chars(to_lowercase(title).as_str());
    let body_lower = to_chars(to_lowercase(body).as_str());
    let mut i: usize = 0;
    while i < q.terms.len()
        invariant
            i <= q.terms.len(),
            title_lower@ == lowercase(title@),
            body_lower@ == lowercase(body@),
            forall|k: int|
                0 <= k < i ==> has_substring(lowercase(title@), #[trigger] q@.terms[k])
                    || has_substring(lowercase(body@), q@.terms[k]),
        decreases q.terms.len() - i,
    {
        let term = to_chars(q.terms[i].as_str());
        proof {
            assert(q@.terms[i as int] == q.terms[i as int]@);
        }
        if !contains_chars(&title_lower, &term) && !contains_chars(&body_lower, &term) {
            return false;
        }
        i += 1;
    }
    proof {
        assert(q@.terms.len() == q.terms.len());
    }
    true
}

/// The test that the query makes of a note, as a function.
pub open spec fn keeps(q: QueryView, bounds: DayBoundsView) -> spec_fn(NoteContentView) -> bool {
    |n: NoteContentView| matches(q, n, bounds)
}

/// What the index records of each of the given notes, in their order.
pub open spec fn metas(notes: Seq<NoteContentView>) -> Seq<NoteMetaView> {
    Seq::new(notes.len(), |i: int| notes[i].meta)
}

/// The times of last change of the given notes, in their order.
pub open spec fn updated_times(notes: Seq<NoteMetaView>) -> Seq<Seq<char>> {
    Seq::new(notes.len(), |i: int| notes[i].updated_at)
}

/// The given notes, the one changed last first; notes changed at the same
/// time keep their order.
pub open spec fn latest_first(notes: Seq<NoteMetaView>) -> Seq<NoteMetaView> {
    arranged(notes, stable_order_of(updated_times(notes), true))
}

/// The notes that the query keeps, in their order.
pub open spec fn hits(
    notes: Seq<NoteContentView>,
    q: QueryView,
    bounds: DayBoundsView,
) -> Seq<NoteMetaView> {
    metas(notes.filter(keeps(q, bounds)))
}

/// The answer to the query `text`: all notes in their order if the query is
/// blank; else the notes that the query keeps, the one changed last first.
pub open spec fn search_result(
    notes: Seq<NoteContentView>,
    text: Seq<char>,
    bounds: DayBoundsView,
) -> Seq<NoteMetaView> {
    if is_blank(text) {
        metas(notes)
    } else {
        latest_first(hits(notes, parsed(text), bounds))
    }
}

/// The given notes, the one changed last first; notes changed at the same
/// time keep their order.
pub fn sort_latest_first(notes: &Vec<NoteMeta>) -> (r: Vec<NoteMeta>)
    ensures
        r.deep_view() == latest_first(notes.deep_view()),
        descending(updated_times(r.deep_view())),
        same_members(r.deep_view(), notes.deep_view()),
{
    let ghost all = notes.deep_view();
    let mut keys: Vec<String> = Vec::new();
    let mut i: usize = 0;
    proof {
        assert(keys.deep_view() =~= updated_times(all).take(0));
    }
    while i < notes.len()
        invariant
            i <= notes.len(),
            all == notes.deep_view(),
            keys.deep_view() == updated_times(all).take(i as int),
        decreases notes.len() - i,
    {
        let ghost prior = keys.deep_view();
        keys.push(notes[i].updated_at.clone());
        proof {
            assert(all[i as int] == notes[i as int]@);
            assert(keys.deep_view() =~~= prior.push(all[i as int].updated_at));
            assert(updated_times(all).take(i + 1) =~~= prior.push(all[i as int].updated_at));
        }
        i += 1;
    }
    proof {
        assert(updated_times(all).take(notes.len() as int) =~= updated_times(all));
    }
    let perm = stable_order(&keys, true);
    let ghost target = arranged(all, perm@);
    let mut out: Vec<NoteMeta> = Vec::new();
    let mut k: usize = 0;
    proof {
        assert(out.deep_view() =~= target.take(0));
    }
    while k < perm.len()
        invariant
            k <= perm.len(),
            perm.len() == notes.len(),
            forall|t: int| 0 <= t < perm.len() ==> (#[trigger] perm[t]) < notes.len(),
            all == notes.deep_view(),
            target == arranged(all, perm@),
            out.deep_view() == target.take(k as int),
        decreases perm.len() - k,
    {
        let ghost prior = out.deep_view();
        out.push(notes[perm[k]].clone());
        proof {
            assert(all[perm[k as int] as int] == notes[perm[k as int] as int]@);
            assert(out.deep_view() =~~= prior.push(target[k as int]));
            assert(target.take(k + 1) =~~= prior.push(target[k as int]));
        }
        k += 1;
    }
    proof {
        assert(target.take(perm.len() as int) =~= target);
        lemma_arranged_members(all, updated_times(all), perm@, true);
        lemma_arranged_keys_sorted(updated_times(all), perm@, true);
        assert(updated_times(target) =~= arranged(updated_times(all), perm@));
    }
    out
}

/// The notes among `notes` that the query keeps, in their order.
pub fn filter_notes(notes: &Vec<NoteContent>, q: &Query, bounds: &DayBounds) -> (r: Vec<NoteMeta>)
    ensures
        r.deep_view() == hits(notes.deep_view(), q@, bounds@),
{
    let ghost all = notes.deep_view();
    let ghost test = keeps(q@, bounds@);
    let mut out: Vec<NoteMeta> = Vec::new();
    let mut i: usize = 0;
    proof {
        reveal(Seq::filter);
        assert(all.take(0) =~= Seq::<NoteContentView>::empty());
        assert(out.deep_view() =~= metas(all.take(0).filter(test)));
    }
    while i < notes.len()
        invariant
            i <= notes.len(),
            all == notes.deep_view(),
            test == keeps(q@, bounds@),
            out.deep_view() == metas(all.take(i as int).filter(test)),
        decreases notes.len() - i,
    {
        let n = &notes[i];
        let ghost prior = out.deep_view();
        let ghost kept = all.take(i as int).filter(test);
        proof {
            assert(all[i as int] == n@);
            assert(all.take(i + 1) == all.take(i as int).push(n@));
            all.take(i as int).lemma_filter_push(n@, test);
        }
        if note_matches_meta(q, &n.meta, bounds) && note_matches_body(
            q,
            n.meta.title.as_str(),
            n.body.as_str(),
        ) {
            out.push(n.meta.clone());
            proof {
                assert(out.deep_view() =~~= prior.push(n@.meta));
                assert(metas(kept.push(n@)) =~~= prior.push(n@.meta));
            }
        }
        i += 1;
    }
    proof {
        assert(all.take(notes.len() as int) == all);
    }
    out
}

/// What the index records of each of `notes`, in their order.
pub fn metas_of(notes: &Vec<NoteContent>) -> (r: Vec<NoteMeta>)
    ensures
        r.deep_view() == metas(notes.deep_view()),
{
    let ghost all = notes.deep_view();
    let mut out: Vec<NoteMeta> = Vec::new();
    let mut i: usize = 0;
    proof {
        assert(out.deep_view() =~= metas(all).take(0));
    }
    while i < notes.len()
        invariant
            i <= notes.len(),
            all == notes.deep_view(),
            out.deep_view() == metas(all).take(i as int),
        decreases notes.len() - i,
    {
        let ghost prior = out.deep_view();
        out.push(notes[i].meta.clone());
        proof {
            assert(all[i as int] == notes[i as int]@);
            assert(out.deep_view() =~~= prior.push(all[i as int].meta));
            assert(metas(all).take(i + 1) =~~= prior.push(all[i as int].meta));
        }
        i += 1;
    }
    proof {
        assert(metas(all).take(notes.len() as int) =~= metas(all));
    }
    out
}

/// Answers the query `text` on the given notes, for the given day bounds:
/// a blank query yields all notes in their order; any other query yields
/// the notes that it keeps, the one changed last first. The body of a note
/// is looked at only where the query needs it.
pub fn search_notes_at(notes: &Vec<NoteContent>, text: &str, bounds: &DayBounds) -> (r: Vec<
    NoteMeta,
>)
    ensures
        r.deep_view() == search_result(notes.deep_view(), text@, bounds@),
        !is_blank(text@) ==> descending(updated_times(r.deep_view())) && same_members(
            r.deep_view(),
            hits(notes.deep_view(), parsed(text@), bounds@),
        ),
{
    if query_is_blank(text) {
        return metas_of(notes);
    }
    let q = parse_query(text);
    let kept = filter_notes(notes, &q, bounds);
    sort_latest_first(&kept)
}

/// The bounds that stand in for the clock where the query sets no date
/// filter: three empty dates.
fn no_bounds() -> (r: DayBounds)
    ensures
        r@ == no_bounds_view(),
{
    DayBounds { today: String::new(), week_start: String::new(), month_start: String::new() }
}

/// Answers the query `text` on the given notes, as of now. A query without a
/// date filter does not depend on the clock and always has an answer. One
/// with a date filter is answered for the day bounds of the present instant;
/// it fails only where that instant has no date.
pub fn search_notes(notes: &Vec<NoteContent>, text: &str) -> (r: Result<Vec<NoteMeta>, String>)
    ensures
        is_blank(text@) || parsed(text@).dates.len() == 0 ==> r is Ok,
        r matches Ok(found) ==> {
            &&& is_blank(text@) ==> found.deep_view() == metas(notes.deep_view())
            &&& exists|bounds: DayBoundsView|
                found.deep_view() == search_result(notes.deep_view(), text@, bounds)
            &&& !is_blank(text@) && parsed(text@).dates.len() == 0 ==> forall|bounds: DayBoundsView|
                found.deep_view() == #[trigger] search_result(notes.deep_view(), text@, bounds)
            &&& !is_blank(text@) && parsed(text@).dates.len() > 0 ==> exists|now: int|
                (#[trigger] day_bounds_of(now)) is Some && found.deep_view() == search_result(
                    notes.deep_view(),
                    text@,
                    day_bounds_of(now)->0,
                )
        },
        r matches Err(e) ==> e@ == "The clock shows no date"@ && exists|now: int|
            (#[trigger] day_bounds_of(now)) is None,
{
    if query_is_blank(text) {
        let found = metas_of(notes);
        proof {
            let b = no_bounds_view();
            assert(found.deep_view() == search_result(notes.deep_view(), text@, b));
        }
        return Ok(found);
    }
    let q = parse_query(text);
    if q.dates.len() == 0 {
        let b = no_bounds();
        let found = search_notes_at(notes, text, &b);
        proof {
            assert forall|bounds: DayBoundsView|
                found.deep_view() == #[trigger] search_result(
                    notes.deep_view(),
                    text@,
                    bounds,
                ) by {
                lemma_bounds_unused(notes.deep_view(), q@, b@, bounds);
            }
        }
        return Ok(found);
    }
    match day_bounds_now() {
        Some(b) => {
            let found = search_notes_at(notes, text, &b);
            proof {
                let now = choose|now: int| day_bounds_of(now) == Some(b@);
                assert(day_bounds_of(now) is Some && found.deep_view() == search_result(
                    notes.deep_view(),
                    text@,
                    day_bounds_of(now)->0,
                ));
            }
            Ok(found)
        },
        None => Err("The clock shows no date".to_string()),
    }
}

/// The day bounds of three empty dates.
pub open spec fn no_bounds_view() -> DayBoundsView {
    DayBoundsView { today: Seq::empty(), week_start: Seq::empty(), month_start: Seq::empty() }
}

/// A query without a date filter keeps the same notes whatever the day
/// bounds are.
pub proof fn lemma_bounds_unused(
    notes: Seq<NoteContentView>,
    q: QueryView,
    bounds: DayBoundsView,
    other: DayBoundsView,
)
    requires
        q.dates.len() == 0,
    ensures
        hits(notes, q, bounds) == hits(notes, q, other),
{
    assert forall|n: NoteContentView| #[trigger] matches(q, n, bounds) == matches(q, n, other) by {
        lemma_clock_not_read(q, n, bounds, other);
    }
    assert(keeps(q, bounds) =~= keeps(q, other));
}

} // verus!
