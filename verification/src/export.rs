//! A note written out as one text: plainly, or as Markdown with a header
//! for what the index records of it.

use crate::models::{NoteContent, NoteContentView, NoteMetaView};
use crate::text::{append_str, from_chars, to_chars};
use vstd::prelude::*;

verus! {

/// A note as plain text: the title, an empty line, the body, and a line
/// feed.
pub open spec fn plain_text(note: NoteContentView) -> Seq<char> {
    note.meta.title + "\n\n"@ + note.body + "\n"@
}

/// The note as plain text.
pub fn export_note(note: &NoteContent) -> (r: String)
    ensures
        r@ == plain_text(note@),
{
    let mut v = to_chars(note.meta.title.as_str());
    append_str(&mut v, "\n\n");
    append_str(&mut v, note.body.as_str());
    append_str(&mut v, "\n");
    from_chars(&v)
}

/// The lines that list the given tags in a header, one tag to a line.
pub open spec fn tag_lines(tags: Seq<Seq<char>>) -> Seq<char>
    decreases tags.len(),
{
    if tags.len() == 0 {
        Seq::empty()
    } else {
        tag_lines(tags.drop_last()) + "  - "@ + tags.last() + "\n"@
    }
}

/// A note gets a header when it carries tags or was changed after it was
/// created.
pub open spec fn needs_header(meta: NoteMetaView) -> bool {
    meta.tags.len() > 0 || meta.created_at != meta.updated_at
}

/// The header of a note: between two lines of three hyphens, the tags, if
/// any, and the times of creation and of last change; then an empty line.
/// A note that needs no header gets none.
pub open spec fn header(meta: NoteMetaView) -> Seq<char> {
    if !needs_header(meta) {
        Seq::empty()
    } else if meta.tags.len() > 0 {
        "---\n"@ + "tags:\n"@ + tag_lines(meta.tags) + "created: "@ + meta.created_at + "\n"@
            + "updated: "@ + meta.updated_at + "\n"@ + "---\n\n"@
    } else {
        "---\n"@ + "created: "@ + meta.created_at + "\n"@ + "updated: "@ + meta.updated_at + "\n"@
            + "---\n\n"@
    }
}

/// The line feed that closes a body which does not end with one.
pub open spec fn closing(body: Seq<char>) -> Seq<char> {
    if body.len() > 0 && body.last() == '\n' {
        Seq::empty()
    } else {
        seq!['\n']
    }
}

/// A note as Markdown: the header, the title as a heading, an empty line,
/// and the body, closed by a line feed. Links in the body stay as written.
pub open spec fn markdown(note: NoteContentView) -> Seq<char> {
    header(note.meta) + "# "@ + note.meta.title + "\n\n"@ + note.body + closing(note.body)
}

/// The note as Markdown.
pub fn export_note_as_markdown(note: &NoteContent) -> (r: String)
    ensures
        r@ == markdown(note@),
{
    let meta = &note.meta;
    let mut v: Vec<char> = Vec::new();
    proof {
        assert(meta@.tags.len() == meta.tags.len());
    }
    if meta.tags.len() > 0 || !crate::text::same_text(
        meta.created_at.as_str(),
        meta.updated_at.as_str(),
    ) {
        append_str(&mut v, "---\n");
        if meta.tags.len() > 0 {
            append_str(&mut v, "tags:\n");
            let ghost lead = v@;
            let mut i: usize = 0;
            proof {
                assert(meta@.tags.take(0) =~= Seq::<Seq<char>>::empty());
                assert(v@ =~= lead + tag_lines(meta@.tags.take(0)));
            }
            while i < meta.tags.len()
                invariant
                    i <= meta.tags.len(),
                    v@ == lead + tag_lines(meta@.tags.take(i as int)),
                decreases meta.tags.len() - i,
            {
                let ghost prior = v@;
                proof {
                    assert(meta@.tags[i as int] == meta.tags[i as int]@);
                    assert(meta@.tags.take(i + 1).drop_last() == meta@.tags.take(i as int));
                    assert(meta@.tags.take(i + 1).last() == meta.tags[i as int]@);
                }
                append_str(&mut v, "  - ");
                append_str(&mut v, meta.tags[i].as_str());
                append_str(&mut v, "\n");
                proof {
                    assert(v@ =~= lead + (tag_lines(meta@.tags.take(i as int)) + "  - "@
                        + meta.tags[i as int]@ + "\n"@));
                }
                i += 1;
            }
            proof {
                assert(meta@.tags.take(meta.tags.len() as int) == meta@.tags);
            }
        }
        append_str(&mut v, "created: ");
        append_str(&mut v, meta.created_at.as_str());
        append_str(&mut v, "\n");
        append_str(&mut v, "updated: ");
        append_str(&mut v, meta.updated_at.as_str());
        append_str(&mut v, "\n");
        append_str(&mut v, "---\n\n");
        proof {
            assert(v@ =~= header(meta@));
        }
    } else {
        proof {
            assert(v@ =~= header(meta@));
        }
    }
    let body = to_chars(note.body.as_str());
    append_str(&mut v, "# ");
    append_str(&mut v, meta.title.as_str());
    append_str(&mut v, "\n\n");
    crate::text::append_chars(&mut v, &body);
    if !(body.len() > 0 && body[body.len() - 1] == '\n') {
        v.push('\n');
    }
    proof {
        assert(v@ =~= markdown(note@));
    }
    from_chars(&v)
}

} // verus!
