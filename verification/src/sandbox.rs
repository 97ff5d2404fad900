//! Names that are safe on a file system: which identifiers and relative
//! paths the store accepts, how a free-form name is made safe, and where
//! under the storage root each kind of file lies.
//!
//! Every path here is relative to the storage root and uses `/` between its
//! parts; resolving it against the root is left to the caller.

use crate::text::{
    append_chars, append_str, contains_chars, from_chars, has_substring, is_control,
    is_control_char, is_whitespace, lemma_run_len_bound, lemma_trim_end_shape,
    lemma_trim_start_shape, occurs_at, run_len, to_chars, trim, trim_chars, trim_end, trim_start,
};
use vstd::prelude::*;

verus! {

/// The greatest number of characters of a sanitized name.
pub const MAX_NAME_CHARS: usize = 200;

/// A character that must not stand in a file name: a path separator, a
/// drive separator, a quoting or globbing character, or a control character
/// (NUL among them).
pub open spec fn is_forbidden(c: char) -> bool {
    ||| c == '/'
    ||| c == '\\'
    ||| c == ':'
    ||| c == '*'
    ||| c == '?'
    ||| c == '"'
    ||| c == '<'
    ||| c == '>'
    ||| c == '|'
    ||| is_control(c)
}

/// `c`, or `_` in place of a forbidden character.
pub open spec fn safe_char(c: char) -> char {
    if is_forbidden(c) {
        '_'
    } else {
        c
    }
}

/// `name` with every forbidden character replaced.
pub open spec fn replaced(name: Seq<char>) -> Seq<char> {
    Seq::new(name.len(), |i: int| safe_char(name[i]))
}

/// The first `n` characters of `s`, or all of `s` if it has fewer.
pub open spec fn truncated(s: Seq<char>, n: int) -> Seq<char> {
    if s.len() <= n {
        s
    } else {
        s.take(n)
    }
}

/// The safe form of `name`: forbidden characters replaced by `_`, white
/// space around the result removed, and what is left cut to
/// `MAX_NAME_CHARS` characters.
pub open spec fn sanitized(name: Seq<char>) -> Seq<char> {
    truncated(trim(replaced(name)), MAX_NAME_CHARS as int)
}

/// A text without forbidden characters.
pub open spec fn is_safe_name(s: Seq<char>) -> bool {
    forall|i: int| 0 <= i < s.len() ==> !is_forbidden(#[trigger] s[i])
}

/// A sanitized name holds no forbidden character, has at most
/// `MAX_NAME_CHARS` characters and does not begin with white space.
pub proof fn lemma_sanitized_is_safe(name: Seq<char>)
    ensures
        is_safe_name(sanitized(name)),
        sanitized(name).len() <= MAX_NAME_CHARS,
        sanitized(name).len() > 0 ==> !is_whitespace(sanitized(name)[0]),
{
    let m = replaced(name);
    let a = trim_start(m);
    let t = trim(m);
    lemma_trim_start_shape(m);
    lemma_trim_end_shape(a);
    let k = m.len() - a.len();
    assert forall|i: int| 0 <= i < t.len() implies !is_forbidden(#[trigger] t[i]) by {
        assert(t[i] == a[i]);
        assert(a[i] == m[i + k]);
    }
    if t.len() > 0 {
        assert(t[0] == a[0]);
    }
}

/// Sanitizing a sanitized name changes nothing, provided that the name does
/// not end with white space. (A name cut at `MAX_NAME_CHARS` characters may
/// end with a space that stood inside the longer text; sanitizing it once
/// more removes that space.)
pub proof fn lemma_sanitize_idempotent(name: Seq<char>)
    requires
        sanitized(name).len() > 0 ==> !is_whitespace(sanitized(name).last()),
    ensures
        sanitized(sanitized(name)) == sanitized(name),
{
    let r = sanitized(name);
    lemma_sanitized_is_safe(name);
    assert(replaced(r) =~= r);
    assert(trim_start(r) == r);
    assert(trim_end(r) == r);
}

/// Sanitizing a name that is already safe, trimmed and short enough changes
/// nothing.
pub proof fn lemma_sanitize_safe_name(name: Seq<char>)
    requires
        is_safe_name(name),
        name.len() <= MAX_NAME_CHARS,
        name.len() > 0 ==> !is_whitespace(name[0]) && !is_whitespace(name.last()),
    ensures
        sanitized(name) == name,
{
    assert(replaced(name) =~= name);
    assert(trim_start(name) == name);
    assert(trim_end(name) == name);
}

/// Whether `c` must not stand in a file name.
pub fn is_forbidden_char(c: char) -> (r: bool)
    ensures
        r == is_forbidden(c),
{
    c == '/' || c == '\\' || c == ':' || c == '*' || c == '?' || c == '"' || c == '<' || c == '>'
        || c == '|' || is_control_char(c)
}

fn sanitize_chars(name: &Vec<char>) -> (r: Vec<char>)
    ensures
        r@ == sanitized(name@),
{
    let mut mapped: Vec<char> = Vec::new();
    let mut i: usize = 0;
    while i < name.len()
        invariant
            i <= name.len(),
            mapped@ == replaced(name@).take(i as int),
        decreases name.len() - i,
    {
        let c = name[i];
        mapped.push(
            if is_forbidden_char(c) {
                '_'
            } else {
                c
            },
        );
        proof {
            assert(mapped@ =~= replaced(name@).take(i + 1));
        }
        i += 1;
    }
    proof {
        assert(replaced(name@).take(name.len() as int) =~= replaced(name@));
    }
    let mut t = trim_chars(&mapped);
    if t.len() > MAX_NAME_CHARS {
        t.truncate(MAX_NAME_CHARS);
        proof {
            assert(t@ =~= trim(mapped@).take(MAX_NAME_CHARS as int));
        }
    }
    t
}

/// Makes `name` safe for use as a file name: replaces every forbidden
/// character by `_`, removes white space at both ends, and keeps at most
/// `MAX_NAME_CHARS` characters.
pub fn sanitize_filename(name: &str) -> (r: String)
    ensures
        r@ == sanitized(name@),
        is_safe_name(r@),
        r@.len() <= MAX_NAME_CHARS,
{
    let chars = to_chars(name);
    let safe = sanitize_chars(&chars);
    proof {
        lemma_sanitized_is_safe(name@);
    }
    from_chars(&safe)
}

/// An identifier that names a single path component: not empty, not `.` or
/// `..`, without a path separator and without a control character.
pub open spec fn is_valid_id(id: Seq<char>) -> bool {
    &&& id.len() > 0
    &&& id != seq!['.']
    &&& id != seq!['.', '.']
    &&& forall|i: int| 0 <= i < id.len() ==> !is_id_breaker(#[trigger] id[i])
}

/// A character that no identifier may hold.
pub open spec fn is_id_breaker(c: char) -> bool {
    c == '/' || c == '\\' || is_control(c)
}

fn check_id(id: &str) -> (r: Option<bool>)
    ensures
        r is None <==> is_valid_id(id@),
        r == Some(true) <==> id@.len() == 0,
{
    let v = to_chars(id);
    if v.len() == 0 {
        return Some(true);
    }
    if v.len() == 1 && v[0] == '.' {
        assert(v@ =~= seq!['.']);
        return Some(false);
    }
    if v.len() == 2 && v[0] == '.' && v[1] == '.' {
        assert(v@ =~= seq!['.', '.']);
        return Some(false);
    }
    let mut i: usize = 0;
    while i < v.len()
        invariant
            i <= v.len(),
            v@ == id@,
            v.len() > 0,
            forall|k: int| 0 <= k < i ==> !is_id_breaker(#[trigger] v@[k]),
        decreases v.len() - i,
    {
        let c = v[i];
        if c == '/' || c == '\\' || is_control_char(c) {
            assert(is_id_breaker(id@[i as int]));
            return Some(false);
        }
        i += 1;
    }
    proof {
        assert(seq!['.'].len() == 1);
        assert(seq!['.', '.'].len() == 2);
        if v@ == seq!['.'] {
            assert(v@[0] == seq!['.'][0]);
        }
        if v@ == seq!['.', '.'] {
            assert(v@[0] == seq!['.', '.'][0]);
            assert(v@[1] == seq!['.', '.'][1]);
        }
    }
    None
}

/// What `validate_note_id` answers to an identifier that is not valid.
pub open spec fn note_id_error(id: Seq<char>) -> Seq<char> {
    if id.len() == 0 {
        "Note id cannot be empty"@
    } else {
        "Invalid note id"@
    }
}

/// What `validate_notebook_id` answers to an identifier that is not valid.
pub open spec fn notebook_id_error(id: Seq<char>) -> Seq<char> {
    if id.len() == 0 {
        "Notebook id cannot be empty"@
    } else {
        "Invalid notebook id"@
    }
}

/// Accepts `id` as the identifier of a note exactly when it is valid.
pub fn validate_note_id(id: &str) -> (r: Result<(), String>)
    ensures
        r is Ok <==> is_valid_id(id@),
        r matches Err(e) ==> e@ == note_id_error(id@),
{
    match check_id(id) {
        None => Ok(()),
        Some(true) => Err("Note id cannot be empty".to_string()),
        Some(false) => Err("Invalid note id".to_string()),
    }
}

/// Accepts `id` as the identifier of a notebook exactly when it is valid.
pub fn validate_notebook_id(id: &str) -> (r: Result<(), String>)
    ensures
        r is Ok <==> is_valid_id(id@),
        r matches Err(e) ==> e@ == notebook_id_error(id@),
{
    match check_id(id) {
        None => Ok(()),
        Some(true) => Err("Notebook id cannot be empty".to_string()),
        Some(false) => Err("Invalid notebook id".to_string()),
    }
}

/// A path that stays below the directory it is resolved against: it names
/// no parent directory (it does not even hold two dots in a row) and does
/// not start at the root of the file system.
pub open spec fn is_safe_relative_path(p: Seq<char>) -> bool {
    !has_substring(p, seq!['.', '.']) && !(p.len() > 0 && p[0] == '/')
}

/// The parts of a path: what stands between its `/`.
pub open spec fn path_parts(p: Seq<char>) -> Seq<Seq<char>>
    decreases p.len(),
{
    let n = run_len(p, |c: char| c != '/') as int;
    if n < p.len() {
        seq![p.take(n)] + path_parts(p.skip(n + 1))
    } else {
        seq![p]
    }
}

/// Every part of a path stands in the path.
pub proof fn lemma_part_occurs(p: Seq<char>, i: int)
    requires
        0 <= i < path_parts(p).len(),
    ensures
        has_substring(p, path_parts(p)[i]),
    decreases p.len(),
{
    let n = run_len(p, |c: char| c != '/') as int;
    lemma_run_len_bound(p, |c: char| c != '/');
    if n < p.len() {
        if i == 0 {
            assert(p.subrange(0, n) == p.take(n));
            assert(occurs_at(p, p.take(n), 0));
        } else {
            let rest = p.skip(n + 1);
            assert(path_parts(p)[i] == path_parts(rest)[i - 1]);
            lemma_part_occurs(rest, i - 1);
            let part = path_parts(rest)[i - 1];
            let k = choose|k: int| occurs_at(rest, part, k);
            assert(p.subrange(k + n + 1, k + n + 1 + part.len()) == rest.subrange(
                k,
                k + part.len(),
            ));
            assert(occurs_at(p, part, k + n + 1));
        }
    } else {
        assert(p.subrange(0, p.len() as int) == p);
        assert(occurs_at(p, p, 0));
    }
}

/// A safe relative path stays below the directory it is resolved against:
/// none of its parts names the parent directory, and it does not start at
/// the root of the file system.
pub proof fn lemma_safe_path_stays_below(p: Seq<char>)
    requires
        is_safe_relative_path(p),
    ensures
        forall|i: int| 0 <= i < path_parts(p).len() ==> #[trigger] path_parts(p)[i] != seq!['.', '.'],
        p.len() > 0 ==> p[0] != '/',
{
    assert forall|i: int| 0 <= i < path_parts(p).len() implies #[trigger] path_parts(p)[i] != seq![
        '.',
        '.',
    ] by {
        lemma_part_occurs(p, i);
    }
}

/// Whether `relative_path` stays below the directory it is resolved against.
pub fn check_relative_path(relative_path: &str) -> (r: bool)
    ensures
        r == is_safe_relative_path(relative_path@),
{
    let v = to_chars(relative_path);
    let mut dots: Vec<char> = Vec::new();
    dots.push('.');
    dots.push('.');
    proof {
        assert(dots@ =~= seq!['.', '.']);
    }
    if contains_chars(&v, &dots) {
        return false;
    }
    !(v.len() > 0 && v[0] == '/')
}

/// Accepts the path of an attachment, relative to the storage root, exactly
/// when it stays below the root; the accepted path is handed back.
pub fn resolve_image_path(relative_path: &str) -> (r: Result<String, String>)
    ensures
        r is Ok <==> is_safe_relative_path(relative_path@),
        r matches Ok(p) ==> p@ == relative_path@,
        r matches Err(e) ==> e@ == "Invalid path"@,
{
    if check_relative_path(relative_path) {
        Ok(relative_path.to_string())
    } else {
        Err("Invalid path".to_string())
    }
}

/// The directory of the note bodies.
pub fn notes_dir() -> (r: String)
    ensures
        r@ == "notes"@,
{
    "notes".to_string()
}

/// The directory of the index and the other metadata files.
pub fn meta_dir() -> (r: String)
    ensures
        r@ == "meta"@,
{
    "meta".to_string()
}

/// The index file.
pub fn index_path() -> (r: String)
    ensures
        r@ == "meta/index.json"@,
{
    "meta/index.json".to_string()
}

/// The file to which a new index is written before it takes the place of
/// the index file.
pub fn index_temp_path() -> (r: String)
    ensures
        r@ == "meta/index.json.tmp"@,
{
    "meta/index.json.tmp".to_string()
}

/// The file to which the templates are written before the file takes the
/// place of the templates file.
pub fn templates_temp_path() -> (r: String)
    ensures
        r@ == "meta/templates.json.tmp"@,
{
    "meta/templates.json.tmp".to_string()
}

/// The file of the templates that users made.
pub fn templates_path() -> (r: String)
    ensures
        r@ == "meta/templates.json"@,
{
    "meta/templates.json".to_string()
}

/// The file of the synchronisation settings.
pub fn sync_config_path() -> (r: String)
    ensures
        r@ == "meta/sync_config.json"@,
{
    "meta/sync_config.json".to_string()
}

/// The directory of the attachments of the note `note_id`.
pub fn images_dir(note_id: &str) -> (r: String)
    ensures
        r@ == "images/"@ + sanitized(note_id@),
{
    let mut v: Vec<char> = Vec::new();
    append_str(&mut v, "images/");
    let name = sanitize_chars(&to_chars(note_id));
    append_chars(&mut v, &name);
    proof {
        assert(Seq::<char>::empty() + "images/"@ =~= "images/"@);
    }
    from_chars(&v)
}

/// The directory of the history of the note `note_id`.
pub fn versions_dir(note_id: &str) -> (r: String)
    ensures
        r@ == "versions/"@ + sanitized(note_id@),
{
    let mut v: Vec<char> = Vec::new();
    append_str(&mut v, "versions/");
    let name = sanitize_chars(&to_chars(note_id));
    append_chars(&mut v, &name);
    proof {
        assert(Seq::<char>::empty() + "versions/"@ =~= "versions/"@);
    }
    from_chars(&v)
}

/// The body file of the note `note_id`.
pub fn note_path(note_id: &str) -> (r: String)
    ensures
        r@ == "notes/"@ + sanitized(note_id@) + ".txt"@,
{
    let mut v: Vec<char> = Vec::new();
    append_str(&mut v, "notes/");
    let name = sanitize_chars(&to_chars(note_id));
    append_chars(&mut v, &name);
    append_str(&mut v, ".txt");
    proof {
        assert(Seq::<char>::empty() + "notes/"@ =~= "notes/"@);
    }
    from_chars(&v)
}

/// `saved_at` with every `:` replaced by `-`.
pub open spec fn without_colons(saved_at: Seq<char>) -> Seq<char> {
    Seq::new(
        saved_at.len(),
        |i: int|
            if saved_at[i] == ':' {
                '-'
            } else {
                saved_at[i]
            },
    )
}

/// The name of the history file of the version saved at `saved_at`: the
/// timestamp with `-` for each `:`, and the suffix `.json`. The names sort
/// as the timestamps do.
pub fn version_filename(saved_at: &str) -> (r: String)
    ensures
        r@ == without_colons(saved_at@) + ".json"@,
{
    let s = to_chars(saved_at);
    let mut v: Vec<char> = Vec::new();
    let mut i: usize = 0;
    while i < s.len()
        invariant
            i <= s.len(),
            v@ == without_colons(s@).take(i as int),
        decreases s.len() - i,
    {
        let c = s[i];
        v.push(
            if c == ':' {
                '-'
            } else {
                c
            },
        );
        proof {
            assert(v@ =~= without_colons(s@).take(i + 1));
        }
        i += 1;
    }
    proof {
        assert(without_colons(s@).take(s.len() as int) =~= without_colons(s@));
    }
    append_str(&mut v, ".json");
    from_chars(&v)
}

} // verus!
