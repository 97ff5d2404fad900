//! The files attached to notes: how a stored file is named, how an image
//! that comes as text is decoded, and how the index records attachments.
//!
//! The files themselves are copied, written and removed by the caller.

use crate::clock::{now_millis, now_rfc3339};
use crate::models::{
    ImageRef, ImageRefView, IndexFile, IndexFileView, NoteContent, NoteContentView, NoteMeta,
    NoteMetaView,
};
use crate::sandbox::{
    check_relative_path, is_safe_relative_path, is_valid_id, note_id_error, sanitize_filename,
    sanitized, validate_note_id,
};
use crate::storage::{
    all_taken, find_note, has_note, has_uuid_id, is_first_with_id, is_new_save_outcome,
    is_touched, locate_note, lookup_error, no_fresh_id, note_with_id, position_of, read_note,
    replaces_note, save_fresh_note_at,
};
use crate::text::{
    append_chars, append_decimal, append_str, decimal, from_chars, has_prefix, lowercase,
    same_text, slice_chars, to_chars, to_lowercase, trim, trim_chars,
};
use vstd::prelude::*;

verus! {

/// The name under which an attached file is stored: the time of attaching
/// in milliseconds, a hyphen, the sanitized stem of the file's name and,
/// where the file has an extension, a dot and the extension.
pub open spec fn stored_name(millis: int, stem: Seq<char>, extension: Seq<char>) -> Seq<char> {
    if extension.len() == 0 {
        decimal(millis) + seq!['-'] + sanitized(stem)
    } else {
        decimal(millis) + seq!['-'] + sanitized(stem) + seq!['.'] + extension
    }
}

/// The name under which a file attached at the instant `millis` is stored.
pub fn stored_name_at(millis: i64, stem: &str, extension: &str) -> (r: String)
    ensures
        r@ == stored_name(millis as int, stem@, extension@),
{
    let mut v: Vec<char> = Vec::new();
    append_decimal(&mut v, millis);
    v.push('-');
    append_str(&mut v, sanitize_filename(stem).as_str());
    let ext = to_chars(extension);
    if ext.len() > 0 {
        v.push('.');
        append_chars(&mut v, &ext);
    }
    proof {
        assert(v@ =~= stored_name(millis as int, stem@, extension@));
    }
    from_chars(&v)
}

/// The name under which a file attached now is stored. The instant comes
/// from the clock: the name is that of some instant.
pub fn new_stored_name(stem: &str, extension: &str) -> (r: String)
    ensures
        exists|millis: int| r@ == stored_name(millis, stem@, extension@),
{
    let millis = now_millis();
    let r = stored_name_at(millis, stem, extension);
    proof {
        assert(r@ == stored_name(millis as int, stem@, extension@));
    }
    r
}

/// The extension under which a pasted image is stored: the one of the
/// suggested name, in lower case, or `png` where it has none.
pub open spec fn pasted_extension(extension: Option<Seq<char>>) -> Seq<char> {
    match extension {
        Some(e) => if e.len() > 0 {
            lowercase(e)
        } else {
            lowercase("png"@)
        },
        None => lowercase("png"@),
    }
}

/// The name under which an image pasted at the instant `millis` is stored.
pub fn pasted_name_at(millis: i64, stem: &str, extension: Option<&str>) -> (r: String)
    ensures
        r@ == decimal(millis as int) + seq!['-'] + sanitized(stem@) + seq!['.'] + pasted_extension(
            extension.deep_view(),
        ),
{
    let ext = match extension {
        Some(e) => {
            if to_chars(e).len() > 0 {
                to_lowercase(e)
            } else {
                to_lowercase("png")
            }
        },
        None => to_lowercase("png"),
    };
    let mut v: Vec<char> = Vec::new();
    append_decimal(&mut v, millis);
    v.push('-');
    append_str(&mut v, sanitize_filename(stem).as_str());
    v.push('.');
    append_str(&mut v, ext.as_str());
    proof {
        assert(v@ =~= decimal(millis as int) + seq!['-'] + sanitized(stem@) + seq!['.']
            + pasted_extension(extension.deep_view()));
    }
    from_chars(&v)
}

/// The name under which an image pasted now is stored.
pub fn new_pasted_name(stem: &str, extension: Option<&str>) -> (r: String)
    ensures
        exists|millis: int|
            r@ == decimal(millis) + seq!['-'] + sanitized(stem@) + seq!['.'] + pasted_extension(
                extension.deep_view(),
            ),
{
    let millis = now_millis();
    let r = pasted_name_at(millis, stem, extension);
    proof {
        assert(r@ == decimal(millis as int) + seq!['-'] + sanitized(stem@) + seq!['.']
            + pasted_extension(extension.deep_view()));
    }
    r
}

/// Where the file `stored` of the note `note_id` lies, relative to the
/// storage root, as the index records it.
pub open spec fn image_location(note_id: Seq<char>, stored: Seq<char>) -> Seq<char> {
    "images/"@ + note_id + "/"@ + stored
}

/// Where the file `stored` of the note `note_id` lies.
pub fn image_location_of(note_id: &str, stored: &str) -> (r: String)
    ensures
        r@ == image_location(note_id@, stored@),
{
    let mut v: Vec<char> = Vec::new();
    append_str(&mut v, "images/");
    append_str(&mut v, note_id);
    append_str(&mut v, "/");
    append_str(&mut v, stored);
    proof {
        assert(v@ =~= image_location(note_id@, stored@));
    }
    from_chars(&v)
}

/// The bytes that a text stands for in base64 with the standard alphabet
/// and padding; `None` if the text is no such encoding.
pub uninterp spec fn base64_decoded(text: Seq<char>) -> Option<Seq<u8>>;

/// The error of the base64 crate's decoder.
#[verifier::external_type_specification]
#[verifier::external_body]
pub struct ExDecodeError(base64::DecodeError);

/// `Engine::decode` of the base64 crate, on its `STANDARD` engine. The
/// encoding is not restated: the bytes are `base64_decoded` of the text by
/// name, and the decoder fails exactly where that is `None`.
#[verifier::external_body]
fn decode_base64(text: &str) -> (r: Result<Vec<u8>, base64::DecodeError>)
    ensures
        match r {
            Ok(bytes) => base64_decoded(text@) == Some(bytes@),
            Err(_) => base64_decoded(text@) is None,
        },
{
    base64::Engine::decode(&base64::engine::general_purpose::STANDARD, text)
}

/// The text of a decoder error, as its `Display` writes it. Nothing is
/// claimed of the text.
#[verifier::external_body]
fn decode_error_text(error: &base64::DecodeError) -> (r: String) {
    error.to_string()
}

/// What is made of a decoded image: the bytes, if there are any. An image
/// without bytes is refused, and a text that did not decode is reported with
/// the decoder's reason.
pub fn accept_image_data(decoded: Result<Vec<u8>, String>) -> (r: Result<Vec<u8>, String>)
    ensures
        r is Ok <==> decoded is Ok && decoded->Ok_0.len() > 0,
        r matches Ok(bytes) ==> bytes@ == decoded->Ok_0@,
        r matches Err(e) ==> e@ == match decoded {
            Ok(_) => "Image data is empty"@,
            Err(reason) => "Invalid base64 image: "@ + reason@,
        },
{
    match decoded {
        Ok(bytes) => {
            if bytes.len() == 0 {
                Err("Image data is empty".to_string())
            } else {
                Ok(bytes)
            }
        },
        Err(reason) => {
            let mut v = to_chars("Invalid base64 image: ");
            append_str(&mut v, reason.as_str());
            Err(from_chars(&v))
        },
    }
}

/// The bytes of an image pasted for the note `note_id` as base64 text,
/// white space around the text ignored. An identifier that is not valid is
/// refused first; then a text that does not decode; then an image without
/// bytes.
pub fn decode_clipboard_image(note_id: &str, base64_data: &str) -> (r: Result<Vec<u8>, String>)
    ensures
        r is Ok <==> is_valid_id(note_id@) && base64_decoded(trim(base64_data@)) is Some
            && base64_decoded(trim(base64_data@))->0.len() > 0,
        r matches Ok(bytes) ==> Some(bytes@) == base64_decoded(trim(base64_data@)),
        r matches Err(e) ==> if !is_valid_id(note_id@) {
            e@ == note_id_error(note_id@)
        } else if base64_decoded(trim(base64_data@)) is None {
            has_prefix(e@, "Invalid base64 image: "@)
        } else {
            e@ == "Image data is empty"@
        },
{
    match validate_note_id(note_id) {
        Err(e) => {
            return Err(e);
        },
        Ok(_) => {},
    }
    let text = from_chars(&trim_chars(&to_chars(base64_data)));
    let decoded = match decode_base64(text.as_str()) {
        Ok(bytes) => Ok(bytes),
        Err(e) => Err(decode_error_text(&e)),
    };
    let r = accept_image_data(decoded);
    proof {
        if r is Err && base64_decoded(trim(base64_data@)) is None {
            let lead = "Invalid base64 image: "@;
            assert(r->Err_0@.take(lead.len() as int) =~= lead);
        }
    }
    r
}

/// A file that was stored for a note.
#[derive(Debug)]
pub struct StoredFile {
    /// The name shown to the user.
    pub name: String,
    /// The name under which the file was stored.
    pub stored_name: String,
    /// The size of the file in bytes, if known.
    pub size: Option<u64>,
}

/// The view of a `StoredFile`.
pub struct StoredFileView {
    pub name: Seq<char>,
    pub stored_name: Seq<char>,
    pub size: Option<u64>,
}

impl View for StoredFile {
    type V = StoredFileView;

    open spec fn view(&self) -> StoredFileView {
        StoredFileView { name: self.name@, stored_name: self.stored_name@, size: self.size }
    }
}

impl DeepView for StoredFile {
    type V = StoredFileView;

    open spec fn deep_view(&self) -> StoredFileView {
        self@
    }
}

/// What the index records of the file `f` of the note `note_id`, attached
/// at `added_at`.
pub open spec fn image_ref_of(note_id: Seq<char>, f: StoredFileView, added_at: Seq<char>) -> ImageRefView {
    ImageRefView {
        name: f.name,
        path: image_location(note_id, f.stored_name),
        added_at,
        size: f.size,
    }
}

/// What the index records of the files `files` of the note `note_id`, all
/// attached at `added_at`.
pub open spec fn image_refs_of(
    note_id: Seq<char>,
    files: Seq<StoredFileView>,
    added_at: Seq<char>,
) -> Seq<ImageRefView> {
    Seq::new(files.len(), |k: int| image_ref_of(note_id, files[k], added_at))
}

/// The time of attaching of the last of `images`; the empty text where
/// there is none.
pub open spec fn last_added_at(images: Seq<ImageRefView>) -> Seq<char> {
    if images.len() > 0 {
        images.last().added_at
    } else {
        Seq::empty()
    }
}

/// Records the files that were stored for the note `note_id`: they are
/// added behind the note's attachments, in their order, all with the same
/// time of attaching, and the note gets a new time of last change.
/// All this at the instant `now`, which becomes the time of attaching and
/// the time of last change.
pub fn attach_images_at(index: &mut IndexFile, note_id: &str, files: &Vec<StoredFile>, now: &str) -> (r: Result<
    NoteMeta,
    String,
>)
    ensures
        r is Ok <==> lookup_error(old(index)@.notes, note_id@) is None,
        r matches Err(e) ==> lookup_error(old(index)@.notes, note_id@) == Some(e@) && final(index)@
            == old(index)@,
        r matches Ok(meta) ==> replaces_note(old(index)@, final(index)@, note_id@, meta@)
            && is_touched(
            meta@,
            NoteMetaView {
                images: note_with_id(old(index)@.notes, note_id@).images + image_refs_of(
                    note_id@,
                    files.deep_view(),
                    last_added_at(meta@.images),
                ),
                ..note_with_id(old(index)@.notes, note_id@)
            },
        ),
        r matches Ok(meta) ==> meta@.updated_at == now@ && (files.len() > 0 ==> last_added_at(
            meta@.images,
        ) == now@),
{
    match locate_note(index, note_id) {
        Err(e) => Err(e),
        Ok(i) => {
            let ghost before = index.notes.deep_view();
            let ghost images_before = index.notes[i as int].images.deep_view();
            proof {
                assert(before[i as int] == index.notes[i as int]@);
            }
            let added_at = now.to_string();
            let ghost target = image_refs_of(note_id@, files.deep_view(), added_at@);
            let mut k: usize = 0;
            proof {
                assert(images_before + target.take(0) =~= images_before);
            }
            while k < files.len()
                invariant
                    k <= files.len(),
                    i < index.notes.len(),
                    index.notes.len() == before.len(),
                    index.notebooks == old(index).notebooks,
                    target == image_refs_of(note_id@, files.deep_view(), added_at@),
                    index.notes[i as int]@ == (NoteMetaView {
                        images: images_before + target.take(k as int),
                        ..before[i as int]
                    }),
                    forall|j: int|
                        0 <= j < before.len() && j != i ==> #[trigger] index.notes.deep_view()[j]
                            == before[j],
                decreases files.len() - k,
            {
                let f = &files[k];
                let ghost current = index.notes.deep_view();
                let ghost mine = index.notes[i as int].images.deep_view();
                let image = ImageRef {
                    name: f.name.clone(),
                    path: image_location_of(note_id, f.stored_name.as_str()),
                    added_at: added_at.clone(),
                    size: f.size,
                };
                proof {
                    assert(files.deep_view()[k as int] == f@);
                    assert(image@ == target[k as int]);
                }
                index.notes[i].images.push(image);
                proof {
                    assert(index.notes[i as int].images.deep_view() =~~= mine.push(
                        target[k as int],
                    ));
                    assert(images_before + target.take(k + 1) =~= (images_before + target.take(
                        k as int,
                    )).push(target[k as int]));
                    assert forall|j: int| 0 <= j < before.len() && j != i implies #[trigger] index.notes.deep_view()[j]
                        == before[j] by {
                        assert(index.notes.deep_view()[j] == current[j]);
                    }
                }
                k += 1;
            }
            let ghost mid = index.notes.deep_view();
            index.notes[i].updated_at = now.to_string();
            let meta = index.notes[i].clone();
            proof {
                assert(target.take(files.len() as int) =~= target);
                assert forall|j: int| 0 <= j < before.len() && j != i implies #[trigger] index.notes.deep_view()[j]
                    == before[j] by {
                    assert(index.notes.deep_view()[j] == mid[j]);
                }
                assert(index.notes.deep_view() =~= before.update(i as int, meta@));
                if files.len() > 0 {
                    assert(meta@.images.last() == target.last());
                    assert(last_added_at(meta@.images) == added_at@);
                } else {
                    assert(target =~= image_refs_of(
                        note_id@,
                        files.deep_view(),
                        last_added_at(meta@.images),
                    ));
                }
            }
            Ok(meta)
        },
    }
}

/// Records the files that were stored for the note `note_id`: they are
/// added behind the note's attachments, in their order, all with the same
/// time of attaching, and the note gets a new time of last change.
pub fn attach_images(index: &mut IndexFile, note_id: &str, files: &Vec<StoredFile>) -> (r: Result<
    NoteMeta,
    String,
>)
    ensures
        r is Ok <==> lookup_error(old(index)@.notes, note_id@) is None,
        r matches Err(e) ==> lookup_error(old(index)@.notes, note_id@) == Some(e@) && final(index)@
            == old(index)@,
        r matches Ok(meta) ==> replaces_note(old(index)@, final(index)@, note_id@, meta@)
            && is_touched(
            meta@,
            NoteMetaView {
                images: note_with_id(old(index)@.notes, note_id@).images + image_refs_of(
                    note_id@,
                    files.deep_view(),
                    last_added_at(meta@.images),
                ),
                ..note_with_id(old(index)@.notes, note_id@)
            },
        ),
{
    let now = now_rfc3339();
    attach_images_at(index, note_id, files, now.as_str())
}

/// Why an attachment of the note `id` at `path` cannot be looked up, if it
/// cannot: the identifier is not valid, or the path is not safe, or no note
/// has the identifier.
pub open spec fn attachment_error(
    notes: Seq<NoteMetaView>,
    id: Seq<char>,
    path: Seq<char>,
) -> Option<Seq<char>> {
    if !is_valid_id(id) {
        Some(note_id_error(id))
    } else if !is_safe_relative_path(path) {
        Some("Invalid path"@)
    } else if !has_note(notes, id) {
        Some("Note not found"@)
    } else {
        None
    }
}

fn locate_attachment_note(index: &IndexFile, note_id: &str, relative_path: &str) -> (r: Result<
    usize,
    String,
>)
    ensures
        r is Ok <==> attachment_error(index@.notes, note_id@, relative_path@) is None,
        r matches Ok(i) ==> is_first_with_id(index@.notes, note_id@, i as int) && i == position_of(
            index@.notes,
            note_id@,
        ),
        r matches Err(e) ==> attachment_error(index@.notes, note_id@, relative_path@) == Some(e@),
{
    match validate_note_id(note_id) {
        Err(e) => {
            return Err(e);
        },
        Ok(_) => {},
    }
    if !check_relative_path(relative_path) {
        return Err("Invalid path".to_string());
    }
    match find_note(&index.notes, note_id) {
        Some(i) => Ok(i),
        None => Err("Note not found".to_string()),
    }
}

/// The test for attachments that do not lie at `path`, as a function.
pub open spec fn other_path_test(path: Seq<char>) -> spec_fn(ImageRefView) -> bool {
    |image: ImageRefView| image.path != path
}

/// Takes the attachment at `relative_path` off the note `note_id`: every
/// attachment recorded at that path goes, the others stay in their order,
/// and the note gets a new time of last change.
/// All this at the instant `now`, which becomes the time of last change.
pub fn remove_attachment_at(index: &mut IndexFile, note_id: &str, relative_path: &str, now: &str) -> (r: Result<
    NoteMeta,
    String,
>)
    ensures
        r is Ok <==> attachment_error(old(index)@.notes, note_id@, relative_path@) is None,
        r matches Err(e) ==> attachment_error(old(index)@.notes, note_id@, relative_path@) == Some(
            e@,
        ) && final(index)@ == old(index)@,
        r matches Ok(meta) ==> replaces_note(old(index)@, final(index)@, note_id@, meta@)
            && is_touched(
            meta@,
            NoteMetaView {
                images: note_with_id(old(index)@.notes, note_id@).images.filter(
                    other_path_test(relative_path@),
                ),
                ..note_with_id(old(index)@.notes, note_id@)
            },
        ),
        r matches Ok(meta) ==> meta@.updated_at == now@,
{
    match locate_attachment_note(index, note_id, relative_path) {
        Err(e) => Err(e),
        Ok(i) => {
            let ghost before = index.notes.deep_view();
            proof {
                assert(before[i as int] == index.notes[i as int]@);
            }
            let ghost all = index.notes[i as int].images.deep_view();
            let ghost test = other_path_test(relative_path@);
            let mut kept: Vec<ImageRef> = Vec::new();
            let mut k: usize = 0;
            proof {
                reveal(Seq::filter);
                assert(all.take(0) =~= Seq::<ImageRefView>::empty());
                assert(kept.deep_view() =~= all.take(0).filter(test));
            }
            while k < index.notes[i].images.len()
                invariant
                    i < index.notes.len(),
                    *index == *old(index),
                    k <= index.notes[i as int].images.len(),
                    all == index.notes[i as int].images.deep_view(),
                    test == other_path_test(relative_path@),
                    kept.deep_view() == all.take(k as int).filter(test),
                decreases index.notes[i as int].images.len() - k,
            {
                let image = &index.notes[i].images[k];
                let ghost prior = kept.deep_view();
                proof {
                    assert(all[k as int] == image@);
                    assert(all.take(k + 1) == all.take(k as int).push(image@));
                    all.take(k as int).lemma_filter_push(image@, test);
                }
                if !same_text(image.path.as_str(), relative_path) {
                    kept.push(image.clone());
                    proof {
                        assert(kept.deep_view() =~~= prior.push(image@));
                    }
                }
                k += 1;
            }
            proof {
                assert(all.take(index.notes[i as int].images.len() as int) == all);
            }
            index.notes[i].images = kept;
            index.notes[i].updated_at = now.to_string();
            let meta = index.notes[i].clone();
            proof {
                assert(index.notes.deep_view() =~= before.update(i as int, meta@));
            }
            Ok(meta)
        },
    }
}

/// Takes the attachment at `relative_path` off the note `note_id`: every
/// attachment recorded at that path goes, the others stay in their order,
/// and the note gets a new time of last change.
pub fn remove_attachment(index: &mut IndexFile, note_id: &str, relative_path: &str) -> (r: Result<
    NoteMeta,
    String,
>)
    ensures
        r is Ok <==> attachment_error(old(index)@.notes, note_id@, relative_path@) is None,
        r matches Err(e) ==> attachment_error(old(index)@.notes, note_id@, relative_path@) == Some(
            e@,
        ) && final(index)@ == old(index)@,
        r matches Ok(meta) ==> replaces_note(old(index)@, final(index)@, note_id@, meta@)
            && is_touched(
            meta@,
            NoteMetaView {
                images: note_with_id(old(index)@.notes, note_id@).images.filter(
                    other_path_test(relative_path@),
                ),
                ..note_with_id(old(index)@.notes, note_id@)
            },
        ),
{
    let now = now_rfc3339();
    remove_attachment_at(index, note_id, relative_path, now.as_str())
}

/// One of `images` lies at `path`.
pub open spec fn has_image(images: Seq<ImageRefView>, path: Seq<char>) -> bool {
    exists|k: int| 0 <= k < images.len() && (#[trigger] images[k]).path == path
}

/// The position of the first of `images` that lies at `path`.
pub open spec fn is_first_at_path(images: Seq<ImageRefView>, path: Seq<char>, k: int) -> bool {
    &&& 0 <= k < images.len()
    &&& images[k].path == path
    &&& forall|j: int| 0 <= j < k ==> (#[trigger] images[j]).path != path
}

/// Why the attachment of the note `id` at `path` cannot get the name
/// `new_name`, if it cannot.
pub open spec fn rename_error(
    notes: Seq<NoteMetaView>,
    id: Seq<char>,
    path: Seq<char>,
    new_name: Seq<char>,
) -> Option<Seq<char>> {
    if !is_valid_id(id) {
        Some(note_id_error(id))
    } else if !is_safe_relative_path(path) {
        Some("Invalid path"@)
    } else if sanitized(trim(new_name)).len() == 0 {
        Some("Name cannot be empty"@)
    } else if !has_note(notes, id) {
        Some("Note not found"@)
    } else if !has_image(note_with_id(notes, id).images, path) {
        Some("Attachment not found"@)
    } else {
        None
    }
}

/// Gives the attachment of the note `note_id` at `relative_path` a new
/// name for the user to see: `new_name`, trimmed and sanitized. The first
/// attachment recorded at that path is renamed; the file stays where it is.
/// The note gets a new time of last change.
/// All this at the instant `now`, which becomes the time of last change.
pub fn rename_attachment_at(
    index: &mut IndexFile,
    note_id: &str,
    relative_path: &str,
    new_name: &str,
    now: &str,
) -> (r: Result<NoteMeta, String>)
    ensures
        r is Ok <==> rename_error(old(index)@.notes, note_id@, relative_path@, new_name@) is None,
        r matches Err(e) ==> rename_error(old(index)@.notes, note_id@, relative_path@, new_name@)
            == Some(e@) && final(index)@ == old(index)@,
        r matches Ok(meta) ==> replaces_note(old(index)@, final(index)@, note_id@, meta@)
            && exists|k: int|
            is_first_at_path(note_with_id(old(index)@.notes, note_id@).images, relative_path@, k)
                && is_touched(
                meta@,
                NoteMetaView {
                    images: note_with_id(old(index)@.notes, note_id@).images.update(
                        k,
                        ImageRefView {
                            name: sanitized(trim(new_name@)),
                            ..note_with_id(old(index)@.notes, note_id@).images[k]
                        },
                    ),
                    ..note_with_id(old(index)@.notes, note_id@)
                },
            ),
        r matches Ok(meta) ==> meta@.updated_at == now@,
{
    match validate_note_id(note_id) {
        Err(e) => {
            return Err(e);
        },
        Ok(_) => {},
    }
    if !check_relative_path(relative_path) {
        return Err("Invalid path".to_string());
    }
    let trimmed = from_chars(&trim_chars(&to_chars(new_name)));
    let name = sanitize_filename(trimmed.as_str());
    if to_chars(name.as_str()).len() == 0 {
        return Err("Name cannot be empty".to_string());
    }
    let i = match find_note(&index.notes, note_id) {
        Some(i) => i,
        None => {
            return Err("Note not found".to_string());
        },
    };
    let ghost before = index.notes.deep_view();
    let ghost images = index.notes[i as int].images.deep_view();
    proof {
        assert(before[i as int] == index.notes[i as int]@);
    }
    let mut k: usize = 0;
    while k < index.notes[i].images.len()
        invariant
            i < index.notes.len(),
            *index == *old(index),
            before == index.notes.deep_view(),
            before[i as int] == index.notes[i as int]@,
            is_first_with_id(before, note_id@, i as int),
            i == position_of(before, note_id@),
            is_valid_id(note_id@),
            is_safe_relative_path(relative_path@),
            name@ == sanitized(trim(new_name@)),
            name@.len() > 0,
            k <= index.notes[i as int].images.len(),
            images == index.notes[i as int].images.deep_view(),
            forall|j: int| 0 <= j < k ==> (#[trigger] images[j]).path != relative_path@,
        decreases index.notes[i as int].images.len() - k,
    {
        proof {
            assert(images[k as int] == index.notes[i as int].images[k as int]@);
        }
        if same_text(index.notes[i].images[k].path.as_str(), relative_path) {
            let ghost fresh = ImageRefView { name: name@, ..images[k as int] };
            index.notes[i].images[k].name = name;
            let ghost mid = index.notes.deep_view();
            proof {
                assert(index.notes[i as int].images[k as int]@ == fresh);
                assert forall|j: int| 0 <= j < images.len() && j != k implies #[trigger] index.notes[i as int].images.deep_view()[j]
                    == images[j] by {
                    assert(index.notes[i as int].images[j] == old(index).notes[i as int].images[j]);
                }
                assert(index.notes[i as int].images.deep_view() =~= images.update(k as int, fresh));
            }
            index.notes[i].updated_at = now.to_string();
            let meta = index.notes[i].clone();
            proof {
                assert(is_first_at_path(images, relative_path@, k as int));
                assert forall|j: int| 0 <= j < before.len() && j != i implies #[trigger] index.notes.deep_view()[j]
                    == before[j] by {
                    assert(index.notes[j] == old(index).notes[j]);
                }
                assert(index.notes.deep_view() =~= before.update(i as int, meta@));
            }
            return Ok(meta);
        }
        k += 1;
    }
    proof {
        assert(!has_image(images, relative_path@));
    }
    Err("Attachment not found".to_string())
}

/// Gives the attachment of the note `note_id` at `relative_path` a new
/// name for the user to see: `new_name`, trimmed and sanitized. The first
/// attachment recorded at that path is renamed; the file stays where it is.
/// The note gets a new time of last change.
pub fn rename_attachment(
    index: &mut IndexFile,
    note_id: &str,
    relative_path: &str,
    new_name: &str,
) -> (r: Result<NoteMeta, String>)
    ensures
        r is Ok <==> rename_error(old(index)@.notes, note_id@, relative_path@, new_name@) is None,
        r matches Err(e) ==> rename_error(old(index)@.notes, note_id@, relative_path@, new_name@)
            == Some(e@) && final(index)@ == old(index)@,
        r matches Ok(meta) ==> replaces_note(old(index)@, final(index)@, note_id@, meta@)
            && exists|k: int|
            is_first_at_path(note_with_id(old(index)@.notes, note_id@).images, relative_path@, k)
                && is_touched(
                meta@,
                NoteMetaView {
                    images: note_with_id(old(index)@.notes, note_id@).images.update(
                        k,
                        ImageRefView {
                            name: sanitized(trim(new_name@)),
                            ..note_with_id(old(index)@.notes, note_id@).images[k]
                        },
                    ),
                    ..note_with_id(old(index)@.notes, note_id@)
                },
            ),
{
    let now = now_rfc3339();
    rename_attachment_at(index, note_id, relative_path, new_name, now.as_str())
}

/// The length of `path` up to and with its last `/`; 0 where it has none.
pub open spec fn directory_len(path: Seq<char>) -> nat
    decreases path.len(),
{
    if path.len() == 0 {
        0
    } else if path.last() == '/' {
        path.len()
    } else {
        directory_len(path.drop_last())
    }
}

/// What stands behind the last `/` of `path`.
pub open spec fn last_part(path: Seq<char>) -> Seq<char> {
    if directory_len(path) >= path.len() {
        Seq::empty()
    } else {
        path.skip(directory_len(path) as int)
    }
}

/// The name of the file that the relative path `path` leads to: what
/// stands behind its last `/`. Where nothing stands there, or `.` or `..`,
/// which name no file, the name is `image`.
pub open spec fn file_name_of(path: Seq<char>) -> Seq<char> {
    if last_part(path).len() == 0 || last_part(path) == seq!['.'] || last_part(path) == seq![
        '.',
        '.',
    ] {
        "image"@
    } else {
        last_part(path)
    }
}

/// The name of the file that `path` leads to. It is never empty and never
/// `.` or `..`.
pub fn file_name(path: &str) -> (r: String)
    ensures
        r@ == file_name_of(path@),
        r@.len() > 0,
        r@ != seq!['.'],
        r@ != seq!['.', '.'],
{
    let v = to_chars(path);
    let mut n: usize = v.len();
    proof {
        reveal_strlit("image");
        assert(seq!['.'].len() == 1);
        assert(seq!['.', '.'].len() == 2);
        assert(v@.take(n as int) == v@);
    }
    while n > 0 && v[n - 1] != '/'
        invariant
            n <= v.len(),
            directory_len(v@) == directory_len(v@.take(n as int)),
        decreases n,
    {
        proof {
            assert(v@.take(n as int).drop_last() == v@.take(n - 1));
        }
        n -= 1;
    }
    proof {
        assert(directory_len(v@.take(n as int)) == n);
        assert(v@.subrange(n as int, v.len() as int) == v@.skip(n as int));
    }
    let name = slice_chars(&v, n, v.len());
    if name.len() == 0 {
        return "image".to_string();
    }
    if name.len() == 1 && name[0] == '.' {
        proof {
            assert(name@ =~= seq!['.']);
        }
        return "image".to_string();
    }
    if name.len() == 2 && name[0] == '.' && name[1] == '.' {
        proof {
            assert(name@ =~= seq!['.', '.']);
        }
        return "image".to_string();
    }
    proof {
        if name@ == seq!['.'] {
            assert(name@[0] == seq!['.'][0]);
        }
        if name@ == seq!['.', '.'] {
            assert(name@[0] == seq!['.', '.'][0]);
            assert(name@[1] == seq!['.', '.'][1]);
        }
    }
    from_chars(&name)
}

/// What a copy of a note records of the attachment `image` of the note
/// that was copied: the same name and size, the file of the same name
/// among the copy's files, and the time of copying.
pub open spec fn adopted_image(id: Seq<char>, image: ImageRefView, added_at: Seq<char>) -> ImageRefView {
    ImageRefView {
        name: image.name,
        path: image_location(id, file_name_of(image.path)),
        added_at,
        size: image.size,
    }
}

/// What a copy records of the attachments of the note that was copied.
pub open spec fn adopted_images(
    id: Seq<char>,
    images: Seq<ImageRefView>,
    added_at: Seq<char>,
) -> Seq<ImageRefView> {
    Seq::new(images.len(), |k: int| adopted_image(id, images[k], added_at))
}

/// Records for the note `note_id`, a copy, the attachments `images` of the
/// note it was copied from, whose files the caller has copied: they are added behind the
/// note's attachments, and the note gets a new time of last change.
/// All this at the instant `now`, which becomes the time of attaching and
/// the time of last change.
pub fn adopt_images_at(index: &mut IndexFile, note_id: &str, images: &Vec<ImageRef>, now: &str) -> (r: Result<
    NoteMeta,
    String,
>)
    ensures
        r is Ok <==> has_note(old(index)@.notes, note_id@),
        r matches Err(e) ==> e@ == "Note not found"@ && final(index)@ == old(index)@,
        r matches Ok(meta) ==> replaces_note(old(index)@, final(index)@, note_id@, meta@)
            && is_touched(
            meta@,
            NoteMetaView {
                images: note_with_id(old(index)@.notes, note_id@).images + adopted_images(
                    note_id@,
                    images.deep_view(),
                    last_added_at(meta@.images),
                ),
                ..note_with_id(old(index)@.notes, note_id@)
            },
        ),
        r matches Ok(meta) ==> meta@.updated_at == now@ && (images.len() > 0 ==> last_added_at(
            meta@.images,
        ) == now@),
{
    let i = match find_note(&index.notes, note_id) {
        Some(i) => i,
        None => {
            return Err("Note not found".to_string());
        },
    };
    let ghost before = index.notes.deep_view();
    let ghost images_before = index.notes[i as int].images.deep_view();
    proof {
        assert(before[i as int] == index.notes[i as int]@);
    }
    let added_at = now.to_string();
    let ghost target = adopted_images(note_id@, images.deep_view(), added_at@);
    let mut k: usize = 0;
    proof {
        assert(images_before + target.take(0) =~= images_before);
    }
    while k < images.len()
        invariant
            k <= images.len(),
            i < index.notes.len(),
            index.notes.len() == before.len(),
            index.notebooks == old(index).notebooks,
            target == adopted_images(note_id@, images.deep_view(), added_at@),
            index.notes[i as int]@ == (NoteMetaView {
                images: images_before + target.take(k as int),
                ..before[i as int]
            }),
            forall|j: int|
                0 <= j < before.len() && j != i ==> #[trigger] index.notes.deep_view()[j]
                    == before[j],
        decreases images.len() - k,
    {
        let source = &images[k];
        let ghost current = index.notes.deep_view();
        let ghost mine = index.notes[i as int].images.deep_view();
        let image = ImageRef {
            name: source.name.clone(),
            path: image_location_of(note_id, file_name(source.path.as_str()).as_str()),
            added_at: added_at.clone(),
            size: source.size,
        };
        proof {
            assert(images.deep_view()[k as int] == source@);
            assert(image@ == target[k as int]);
        }
        index.notes[i].images.push(image);
        proof {
            assert(index.notes[i as int].images.deep_view() =~~= mine.push(target[k as int]));
            assert(images_before + target.take(k + 1) =~= (images_before + target.take(
                k as int,
            )).push(target[k as int]));
            assert forall|j: int| 0 <= j < before.len() && j != i implies #[trigger] index.notes.deep_view()[j]
                == before[j] by {
                assert(index.notes.deep_view()[j] == current[j]);
            }
        }
        k += 1;
    }
    let ghost mid = index.notes.deep_view();
    index.notes[i].updated_at = now.to_string();
    let meta = index.notes[i].clone();
    proof {
        assert(target.take(images.len() as int) =~= target);
        assert forall|j: int| 0 <= j < before.len() && j != i implies #[trigger] index.notes.deep_view()[j]
            == before[j] by {
            assert(index.notes.deep_view()[j] == mid[j]);
        }
        assert(index.notes.deep_view() =~= before.update(i as int, meta@));
        if images.len() > 0 {
            assert(meta@.images.last() == target.last());
            assert(last_added_at(meta@.images) == added_at@);
        } else {
            assert(target =~= adopted_images(
                note_id@,
                images.deep_view(),
                last_added_at(meta@.images),
            ));
        }
    }
    Ok(meta)
}

/// Records for the note `note_id`, a copy, the attachments `images` of the
/// note it was copied from, whose files the caller has copied: they are added behind the
/// note's attachments, and the note gets a new time of last change.
pub fn adopt_images(index: &mut IndexFile, note_id: &str, images: &Vec<ImageRef>) -> (r: Result<
    NoteMeta,
    String,
>)
    ensures
        r is Ok <==> has_note(old(index)@.notes, note_id@),
        r matches Err(e) ==> e@ == "Note not found"@ && final(index)@ == old(index)@,
        r matches Ok(meta) ==> replaces_note(old(index)@, final(index)@, note_id@, meta@)
            && is_touched(
            meta@,
            NoteMetaView {
                images: note_with_id(old(index)@.notes, note_id@).images + adopted_images(
                    note_id@,
                    images.deep_view(),
                    last_added_at(meta@.images),
                ),
                ..note_with_id(old(index)@.notes, note_id@)
            },
        ),
{
    let now = now_rfc3339();
    adopt_images_at(index, note_id, images, now.as_str())
}

/// The title of a copy of a note with the title `title`.
pub open spec fn copy_title(title: Seq<char>) -> Seq<char> {
    trim(title) + " (copy)"@
}

/// What duplicating a note hands back.
#[derive(Debug)]
pub struct DuplicateOutcome {
    /// The note that was copied, with its body.
    pub source: NoteContent,
    /// The copy as the index now records it. Its body is that of the source.
    pub copy: NoteMeta,
}

/// What duplicating the note `id` does, where the note can be looked up:
/// the source is handed back with its body, and the copy is a new note with
/// the title of the source marked as a copy and the source's body, from
/// which its tags and links are derived.
pub open spec fn is_duplicate_outcome(
    before: IndexFileView,
    after: IndexFileView,
    id: Seq<char>,
    stored_body: Option<Seq<char>>,
    source: NoteContentView,
    copy: NoteMetaView,
) -> bool {
    &&& source.meta == note_with_id(before.notes, id)
    &&& source.body == (match stored_body {
        Some(b) => b,
        None => Seq::empty(),
    })
    &&& is_new_save_outcome(before, after, copy_title(source.meta.title), source.body, copy, None)
    &&& is_valid_id(copy.id)
}

/// Makes a copy of the note `note_id` at the instant `now`, given what the
/// note's body file holds: a new note with a fresh identifier, created at
/// `now`, with the title of the source marked as a copy and the source's
/// body. The caller writes the body, copies the attached files and has them
/// adopted. Where the note cannot be looked up nothing changes. Else the
/// copy fails only where every identifier that was drawn is taken; it
/// succeeds where no note has a written UUID as its identifier.
pub fn duplicate_note_at(
    index: &mut IndexFile,
    note_id: &str,
    stored_body: Option<String>,
    now: &str,
) -> (r: Result<DuplicateOutcome, String>)
    ensures
        r is Ok ==> lookup_error(old(index)@.notes, note_id@) is None,
        lookup_error(old(index)@.notes, note_id@) is None && !has_uuid_id(old(index)@.notes)
            ==> r is Ok,
        r matches Err(e) ==> final(index)@ == old(index)@ && (match lookup_error(
            old(index)@.notes,
            note_id@,
        ) {
            Some(reason) => e@ == reason,
            None => e@ == no_fresh_id() && exists|drawn: Seq<Seq<char>>| #[trigger]
                all_taken(old(index)@.notes, drawn),
        }),
        r matches Ok(out) ==> is_duplicate_outcome(
            old(index)@,
            final(index)@,
            note_id@,
            stored_body.deep_view(),
            out.source@,
            out.copy@,
        ) && out.copy@.created_at == now@ && out.copy@.updated_at == now@,
{
    let source = match read_note(index, note_id, stored_body) {
        Err(e) => {
            return Err(e);
        },
        Ok(c) => c,
    };
    let mut title = trim_chars(&to_chars(source.meta.title.as_str()));
    append_str(&mut title, " (copy)");
    let title = from_chars(&title);
    match save_fresh_note_at(index, title.as_str(), source.body.as_str(), now) {
        Err(e) => Err(e),
        Ok(saved) => Ok(DuplicateOutcome { source, copy: saved.meta }),
    }
}

/// Makes a copy of the note `note_id`, now: as `duplicate_note_at` does at
/// the present instant.
pub fn duplicate_note(index: &mut IndexFile, note_id: &str, stored_body: Option<String>) -> (r:
    Result<DuplicateOutcome, String>)
    ensures
        r is Ok ==> lookup_error(old(index)@.notes, note_id@) is None,
        lookup_error(old(index)@.notes, note_id@) is None && !has_uuid_id(old(index)@.notes)
            ==> r is Ok,
        r matches Err(e) ==> final(index)@ == old(index)@ && (match lookup_error(
            old(index)@.notes,
            note_id@,
        ) {
            Some(reason) => e@ == reason,
            None => e@ == no_fresh_id() && exists|drawn: Seq<Seq<char>>| #[trigger]
                all_taken(old(index)@.notes, drawn),
        }),
        r matches Ok(out) ==> is_duplicate_outcome(
            old(index)@,
            final(index)@,
            note_id@,
            stored_body.deep_view(),
            out.source@,
            out.copy@,
        ),
{
    let now = now_rfc3339();
    duplicate_note_at(index, note_id, stored_body, now.as_str())
}

} // verus!
