//! The records of the store, each with its view: the same record with every
//! string read as the sequence of its characters.

use vstd::prelude::*;

verus! {

/// A copy of a list of strings.
pub fn clone_strings(v: &Vec<String>) -> (r: Vec<String>)
    ensures
        r.deep_view() == v.deep_view(),
{
    let mut r: Vec<String> = Vec::new();
    let mut i: usize = 0;
    while i < v.len()
        invariant
            i <= v.len(),
            r.deep_view() == v.deep_view().take(i as int),
        decreases v.len() - i,
    {
        let ghost prior = r.deep_view();
        r.push(v[i].clone());
        proof {
            assert(r.deep_view() =~~= prior.push(v[i as int]@));
            assert(v.deep_view().take(i + 1) =~~= prior.push(v[i as int]@));
        }
        i += 1;
    }
    proof {
        assert(v.deep_view().take(v.len() as int) =~~= v.deep_view());
    }
    r
}

/// A copy of an optional string.
pub fn clone_optional(s: &Option<String>) -> (r: Option<String>)
    ensures
        r.deep_view() == s.deep_view(),
{
    match s {
        Some(t) => Some(t.clone()),
        None => None,
    }
}

/// A file attached to a note.
#[derive(Debug)]
pub struct ImageRef {
    /// The name shown to the user.
    pub name: String,
    /// Where the file lies, relative to the storage root.
    pub path: String,
    /// When it was attached.
    pub added_at: String,
    /// Its size in bytes, if known.
    pub size: Option<u64>,
}

/// The view of an `ImageRef`.
pub struct ImageRefView {
    pub name: Seq<char>,
    pub path: Seq<char>,
    pub added_at: Seq<char>,
    pub size: Option<u64>,
}

impl View for ImageRef {
    type V = ImageRefView;

    open spec fn view(&self) -> ImageRefView {
        ImageRefView {
            name: self.name@,
            path: self.path@,
            added_at: self.added_at@,
            size: self.size,
        }
    }
}

impl DeepView for ImageRef {
    type V = ImageRefView;

    open spec fn deep_view(&self) -> ImageRefView {
        self@
    }
}

impl Clone for ImageRef {
    fn clone(&self) -> (r: Self)
        ensures
            r@ == self@,
    {
        ImageRef {
            name: self.name.clone(),
            path: self.path.clone(),
            added_at: self.added_at.clone(),
            size: self.size,
        }
    }
}

/// A copy of a list of attachments.
pub fn clone_images(v: &Vec<ImageRef>) -> (r: Vec<ImageRef>)
    ensures
        r.deep_view() == v.deep_view(),
{
    let mut r: Vec<ImageRef> = Vec::new();
    let mut i: usize = 0;
    while i < v.len()
        invariant
            i <= v.len(),
            r.deep_view() == v.deep_view().take(i as int),
        decreases v.len() - i,
    {
        let ghost prior = r.deep_view();
        r.push(v[i].clone());
        proof {
            assert(r.deep_view() =~~= prior.push(v[i as int]@));
            assert(v.deep_view().take(i + 1) =~~= prior.push(v[i as int]@));
        }
        i += 1;
    }
    proof {
        assert(v.deep_view().take(v.len() as int) =~~= v.deep_view());
    }
    r
}

/// What the index records of one note. The body text is not part of it.
#[derive(Debug)]
pub struct NoteMeta {
    /// The note's identity; never changed after creation.
    pub id: String,
    pub title: String,
    /// When the note was created.
    pub created_at: String,
    /// When the note was last changed.
    pub updated_at: String,
    /// Whether the note is starred.
    pub important: bool,
    /// The name given to the body file at creation.
    pub filename: String,
    /// The attachments, in the order in which they were added.
    pub images: Vec<ImageRef>,
    pub tags: Vec<String>,
    /// The ids of the notes that this note links to.
    pub links_to: Vec<String>,
    /// Whether this is the note of a day.
    pub is_daily: bool,
    /// The notebook that holds the note, if any. The notebook may be gone.
    pub notebook_id: Option<String>,
}

/// The view of a `NoteMeta`.
pub struct NoteMetaView {
    pub id: Seq<char>,
    pub title: Seq<char>,
    pub created_at: Seq<char>,
    pub updated_at: Seq<char>,
    pub important: bool,
    pub filename: Seq<char>,
    pub images: Seq<ImageRefView>,
    pub tags: Seq<Seq<char>>,
    pub links_to: Seq<Seq<char>>,
    pub is_daily: bool,
    pub notebook_id: Option<Seq<char>>,
}

impl View for NoteMeta {
    type V = NoteMetaView;

    open spec fn view(&self) -> NoteMetaView {
        NoteMetaView {
            id: self.id@,
            title: self.title@,
            created_at: self.created_at@,
            updated_at: self.updated_at@,
            important: self.important,
            filename: self.filename@,
            images: self.images.deep_view(),
            tags: self.tags.deep_view(),
            links_to: self.links_to.deep_view(),
            is_daily: self.is_daily,
            notebook_id: self.notebook_id.deep_view(),
        }
    }
}

impl DeepView for NoteMeta {
    type V = NoteMetaView;

    open spec fn deep_view(&self) -> NoteMetaView {
        self@
    }
}

impl Clone for NoteMeta {
    fn clone(&self) -> (r: Self)
        ensures
            r@ == self@,
    {
        NoteMeta {
            id: self.id.clone(),
            title: self.title.clone(),
            created_at: self.created_at.clone(),
            updated_at: self.updated_at.clone(),
            important: self.important,
            filename: self.filename.clone(),
            images: clone_images(&self.images),
            tags: clone_strings(&self.tags),
            links_to: clone_strings(&self.links_to),
            is_daily: self.is_daily,
            notebook_id: clone_optional(&self.notebook_id),
        }
    }
}

/// A named group of notes. Notes point to it; it owns none.
#[derive(Debug)]
pub struct Notebook {
    pub id: String,
    pub name: String,
    pub archived: bool,
    pub created_at: String,
}

/// The view of a `Notebook`.
pub struct NotebookView {
    pub id: Seq<char>,
    pub name: Seq<char>,
    pub archived: bool,
    pub created_at: Seq<char>,
}

impl View for Notebook {
    type V = NotebookView;

    open spec fn view(&self) -> NotebookView {
        NotebookView {
            id: self.id@,
            name: self.name@,
            archived: self.archived,
            created_at: self.created_at@,
        }
    }
}

impl DeepView for Notebook {
    type V = NotebookView;

    open spec fn deep_view(&self) -> NotebookView {
        self@
    }
}

impl Clone for Notebook {
    fn clone(&self) -> (r: Self)
        ensures
            r@ == self@,
    {
        Notebook {
            id: self.id.clone(),
            name: self.name.clone(),
            archived: self.archived,
            created_at: self.created_at.clone(),
        }
    }
}

/// The index: all notes and all notebooks, each list in the order in which
/// its entries were added.
#[derive(Debug)]
pub struct IndexFile {
    pub notes: Vec<NoteMeta>,
    pub notebooks: Vec<Notebook>,
}

/// The view of an `IndexFile`.
pub struct IndexFileView {
    pub notes: Seq<NoteMetaView>,
    pub notebooks: Seq<NotebookView>,
}

impl View for IndexFile {
    type V = IndexFileView;

    open spec fn view(&self) -> IndexFileView {
        IndexFileView { notes: self.notes.deep_view(), notebooks: self.notebooks.deep_view() }
    }
}

impl DeepView for IndexFile {
    type V = IndexFileView;

    open spec fn deep_view(&self) -> IndexFileView {
        self@
    }
}

impl Default for IndexFile {
    /// The empty index: no notes, no notebooks.
    fn default() -> (r: Self)
        ensures
            r@.notes.len() == 0,
            r@.notebooks.len() == 0,
    {
        IndexFile { notes: Vec::new(), notebooks: Vec::new() }
    }
}

/// A copy of a list of notes.
pub fn clone_notes(v: &Vec<NoteMeta>) -> (r: Vec<NoteMeta>)
    ensures
        r.deep_view() == v.deep_view(),
{
    let mut r: Vec<NoteMeta> = Vec::new();
    let mut i: usize = 0;
    while i < v.len()
        invariant
            i <= v.len(),
            r.deep_view() == v.deep_view().take(i as int),
        decreases v.len() - i,
    {
        let ghost prior = r.deep_view();
        r.push(v[i].clone());
        proof {
            assert(r.deep_view() =~~= prior.push(v[i as int]@));
            assert(v.deep_view().take(i + 1) =~~= prior.push(v[i as int]@));
        }
        i += 1;
    }
    proof {
        assert(v.deep_view().take(v.len() as int) =~~= v.deep_view());
    }
    r
}

/// A copy of a list of notebooks.
pub fn clone_notebooks(v: &Vec<Notebook>) -> (r: Vec<Notebook>)
    ensures
        r.deep_view() == v.deep_view(),
{
    let mut r: Vec<Notebook> = Vec::new();
    let mut i: usize = 0;
    while i < v.len()
        invariant
            i <= v.len(),
            r.deep_view() == v.deep_view().take(i as int),
        decreases v.len() - i,
    {
        let ghost prior = r.deep_view();
        r.push(v[i].clone());
        proof {
            assert(r.deep_view() =~~= prior.push(v[i as int]@));
            assert(v.deep_view().take(i + 1) =~~= prior.push(v[i as int]@));
        }
        i += 1;
    }
    proof {
        assert(v.deep_view().take(v.len() as int) =~~= v.deep_view());
    }
    r
}

impl Clone for IndexFile {
    fn clone(&self) -> (r: Self)
        ensures
            r@ == self@,
    {
        IndexFile { notes: clone_notes(&self.notes), notebooks: clone_notebooks(&self.notebooks) }
    }
}

/// A note as a reader gets it: what the index records, and the body text.
#[derive(Debug)]
pub struct NoteContent {
    pub meta: NoteMeta,
    pub body: String,
}

/// The view of a `NoteContent`.
pub struct NoteContentView {
    pub meta: NoteMetaView,
    pub body: Seq<char>,
}

impl View for NoteContent {
    type V = NoteContentView;

    open spec fn view(&self) -> NoteContentView {
        NoteContentView { meta: self.meta@, body: self.body@ }
    }
}

impl DeepView for NoteContent {
    type V = NoteContentView;

    open spec fn deep_view(&self) -> NoteContentView {
        self@
    }
}

impl Clone for NoteContent {
    fn clone(&self) -> (r: Self)
        ensures
            r@ == self@,
    {
        NoteContent { meta: self.meta.clone(), body: self.body.clone() }
    }
}

/// One entry of a note's history, for a list: the body is cut to a preview.
#[derive(Debug)]
pub struct NoteVersionItem {
    pub saved_at: String,
    pub title: String,
    pub body_preview: String,
}

/// The view of a `NoteVersionItem`.
pub struct NoteVersionItemView {
    pub saved_at: Seq<char>,
    pub title: Seq<char>,
    pub body_preview: Seq<char>,
}

impl View for NoteVersionItem {
    type V = NoteVersionItemView;

    open spec fn view(&self) -> NoteVersionItemView {
        NoteVersionItemView {
            saved_at: self.saved_at@,
            title: self.title@,
            body_preview: self.body_preview@,
        }
    }
}

impl DeepView for NoteVersionItem {
    type V = NoteVersionItemView;

    open spec fn deep_view(&self) -> NoteVersionItemView {
        self@
    }
}

impl Clone for NoteVersionItem {
    fn clone(&self) -> (r: Self)
        ensures
            r@ == self@,
    {
        NoteVersionItem {
            saved_at: self.saved_at.clone(),
            title: self.title.clone(),
            body_preview: self.body_preview.clone(),
        }
    }
}

/// One entry of a note's history in full, as handed to a reader.
#[derive(Debug)]
pub struct NoteVersionContent {
    pub saved_at: String,
    pub title: String,
    pub body: String,
}

/// The view of a `NoteVersionContent`.
pub struct NoteVersionContentView {
    pub saved_at: Seq<char>,
    pub title: Seq<char>,
    pub body: Seq<char>,
}

impl View for NoteVersionContent {
    type V = NoteVersionContentView;

    open spec fn view(&self) -> NoteVersionContentView {
        NoteVersionContentView { saved_at: self.saved_at@, title: self.title@, body: self.body@ }
    }
}

impl DeepView for NoteVersionContent {
    type V = NoteVersionContentView;

    open spec fn deep_view(&self) -> NoteVersionContentView {
        self@
    }
}

impl Clone for NoteVersionContent {
    fn clone(&self) -> (r: Self)
        ensures
            r@ == self@,
    {
        NoteVersionContent {
            saved_at: self.saved_at.clone(),
            title: self.title.clone(),
            body: self.body.clone(),
        }
    }
}

/// What a note held before it was overwritten, as kept in its history.
/// `saved_at` is the note's time of last change before the overwrite.
#[derive(Debug)]
pub struct VersionSnapshot {
    pub saved_at: String,
    pub title: String,
    pub body: String,
}

/// The view of a `VersionSnapshot`.
pub struct VersionSnapshotView {
    pub saved_at: Seq<char>,
    pub title: Seq<char>,
    pub body: Seq<char>,
}

impl View for VersionSnapshot {
    type V = VersionSnapshotView;

    open spec fn view(&self) -> VersionSnapshotView {
        VersionSnapshotView { saved_at: self.saved_at@, title: self.title@, body: self.body@ }
    }
}

impl DeepView for VersionSnapshot {
    type V = VersionSnapshotView;

    open spec fn deep_view(&self) -> VersionSnapshotView {
        self@
    }
}

impl Clone for VersionSnapshot {
    fn clone(&self) -> (r: Self)
        ensures
            r@ == self@,
    {
        VersionSnapshot {
            saved_at: self.saved_at.clone(),
            title: self.title.clone(),
            body: self.body.clone(),
        }
    }
}

/// A pattern for new notes.
#[derive(Debug)]
pub struct NoteTemplate {
    pub id: String,
    pub name: String,
    pub body: String,
    /// The title of a note made from the template when the user gives none.
    pub default_title_pattern: Option<String>,
    /// Whether a user made the template; the others are built in.
    pub is_custom: bool,
}

/// The view of a `NoteTemplate`.
pub struct NoteTemplateView {
    pub id: Seq<char>,
    pub name: Seq<char>,
    pub body: Seq<char>,
    pub default_title_pattern: Option<Seq<char>>,
    pub is_custom: bool,
}

impl View for NoteTemplate {
    type V = NoteTemplateView;

    open spec fn view(&self) -> NoteTemplateView {
        NoteTemplateView {
            id: self.id@,
            name: self.name@,
            body: self.body@,
            default_title_pattern: self.default_title_pattern.deep_view(),
            is_custom: self.is_custom,
        }
    }
}

impl DeepView for NoteTemplate {
    type V = NoteTemplateView;

    open spec fn deep_view(&self) -> NoteTemplateView {
        self@
    }
}

impl Clone for NoteTemplate {
    fn clone(&self) -> (r: Self)
        ensures
            r@ == self@,
    {
        NoteTemplate {
            id: self.id.clone(),
            name: self.name.clone(),
            body: self.body.clone(),
            default_title_pattern: clone_optional(&self.default_title_pattern),
            is_custom: self.is_custom,
        }
    }
}

} // verus!
