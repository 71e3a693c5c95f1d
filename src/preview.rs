//! What the preview panel shows for an item, and the cache that keeps a file
//! from being opened twice.
use vstd::prelude::*;

verus! {

/// Biggest file size to preview, in bytes.
pub const MAX_FILE_SIZE_FOR_PREVIEW: u64 = 10 * 1024 * 1024;

/// How many leading bytes of a file decide whether it is text.
pub const CONTENT_SNIFF_LEN: usize = 1024;

/// What an item previews: a document open in the editor, or a file by its
/// path as bytes.
#[derive(Clone, PartialEq, Eq, Debug)]
pub enum PathOrId {
    Id(usize),
    Path(Vec<u8>),
}

/// A file preview as the cache keeps it.
pub enum CachedPreview<Doc> {
    Document(Doc),
    Binary,
    LargeFile,
    NotFound,
}

/// A preview for one frame: from the cache or from the editor's documents.
pub enum Preview<'a, Doc> {
    Cached(&'a CachedPreview<Doc>),
    EditorDocument(&'a Doc),
}

impl<'a, Doc> Preview<'a, Doc> {
    /// The document to draw, if there is one.
    pub fn document(&self) -> (r: Option<&'a Doc>)
        ensures
            r == match *self {
                Preview::EditorDocument(d) => Some(d),
                Preview::Cached(CachedPreview::Document(d)) => Some(d),
                _ => None,
            },
    {
        match self {
            Preview::EditorDocument(doc) => Some(*doc),
            Preview::Cached(CachedPreview::Document(doc)) => Some(doc),
            _ => None,
        }
    }

    /// The text shown in place of the document.
    pub fn placeholder(&self) -> (r: &'static str)
        ensures
            r@ == match *self {
                Preview::Cached(CachedPreview::Binary) => "<Binary file>"@,
                Preview::Cached(CachedPreview::LargeFile) => "<File too large to preview>"@,
                Preview::Cached(CachedPreview::NotFound) => "<File not found>"@,
                _ => "<Invalid file location>"@,
            },
    {
        match self {
            Preview::EditorDocument(_) => "<Invalid file location>",
            Preview::Cached(preview) => match preview {
                CachedPreview::Document(_) => "<Invalid file location>",
                CachedPreview::Binary => "<Binary file>",
                CachedPreview::LargeFile => "<File too large to preview>",
                CachedPreview::NotFound => "<File not found>",
            },
        }
    }
}

/// The buffer starts with a UTF-8, UTF-16 or UTF-32 byte order mark.
pub open spec fn has_byte_order_mark(b: Seq<u8>) -> bool {
    ||| seq![0xEFu8, 0xBBu8, 0xBFu8].is_prefix_of(b)
    ||| seq![0x00u8, 0x00u8, 0xFEu8, 0xFFu8].is_prefix_of(b)
    ||| seq![0xFFu8, 0xFEu8, 0x00u8, 0x00u8].is_prefix_of(b)
    ||| seq![0xFEu8, 0xFFu8].is_prefix_of(b)
    ||| seq![0xFFu8, 0xFEu8].is_prefix_of(b)
}

/// The buffer is judged binary: it has no byte order mark, and it either holds
/// a zero byte among its first 1024 bytes or starts like a PDF or PNG file.
pub open spec fn inspected_binary(b: Seq<u8>) -> bool {
    &&& !has_byte_order_mark(b)
    &&& {
        ||| exists|i: int| 0 <= i < b.len() && i < 1024 && b[i] == 0u8
        ||| seq![0x25u8, 0x50u8, 0x44u8, 0x46u8].is_prefix_of(b)
        ||| seq![0x89u8, 0x50u8, 0x4Eu8, 0x47u8].is_prefix_of(b)
    }
}

/// Relies on content_inspector::inspect: it reports `BINARY` exactly when the
/// buffer has none of the byte order marks it knows and either holds a zero
/// byte in its first 1024 bytes or starts with `%PDF` or `\x89PNG`.
#[verifier::external_body]
fn inspect_binary(head: &[u8]) -> (r: bool)
    ensures
        r == inspected_binary(head@),
{
    match content_inspector::inspect(head) {
        content_inspector::ContentType::BINARY => true,
        _ => false,
    }
}

/// How a file on disk is previewed.
#[derive(Clone, Copy, PartialEq, Eq, Debug, Structural)]
pub enum FileClass {
    Binary,
    LargeFile,
    Text,
}

/// Binary content wins; text over the size limit is too large.
pub open spec fn file_class(size: u64, binary: bool) -> FileClass {
    if binary {
        FileClass::Binary
    } else if size > MAX_FILE_SIZE_FOR_PREVIEW {
        FileClass::LargeFile
    } else {
        FileClass::Text
    }
}

/// Classifies a file of `size` bytes whose leading bytes were judged
/// `binary` or not.
pub fn classify_inspected(size: u64, binary: bool) -> (r: FileClass)
    ensures
        r == file_class(size, binary),
{
    if binary {
        FileClass::Binary
    } else if size > MAX_FILE_SIZE_FOR_PREVIEW {
        FileClass::LargeFile
    } else {
        FileClass::Text
    }
}

/// Classifies a file of `size` bytes from its leading bytes `head`.
pub fn classify(size: u64, head: &[u8]) -> (r: FileClass)
    ensures
        r == file_class(size, inspected_binary(head@)),
{
    classify_inspected(size, inspect_binary(head))
}

/// The cached entry for a classified file: `opened` is the document that
/// opening a text file gave, if it could be opened.
pub fn cached_for<Doc>(class: FileClass, opened: Option<Doc>) -> (r: CachedPreview<Doc>)
    ensures
        r == match class {
            FileClass::Binary => CachedPreview::Binary,
            FileClass::LargeFile => CachedPreview::LargeFile,
            FileClass::Text => match opened {
                Some(d) => CachedPreview::Document(d),
                None => CachedPreview::NotFound,
            },
        },
{
    match class {
        FileClass::Binary => CachedPreview::Binary,
        FileClass::LargeFile => CachedPreview::LargeFile,
        FileClass::Text => match opened {
            Some(d) => CachedPreview::Document(d),
            None => CachedPreview::NotFound,
        },
    }
}

/// Whether a requested line range can be shown in a document of
/// `line_count` lines; no range can always be shown.
pub fn range_fits(range: Option<(usize, usize)>, line_count: usize) -> (r: bool)
    ensures
        r == match range {
            Some((start, end)) => start <= end && end <= line_count,
            None => true,
        },
{
    match range {
        Some((start, end)) => start <= end && end <= line_count,
        None => true,
    }
}

/// Whether showing `entry` asks the highlighter to work on its document: a
/// document just opened always does, a cached one only while it has no
/// language configuration.
pub fn requests_highlight<Doc>(entry: &CachedPreview<Doc>, just_opened: bool, has_language: bool) -> (r: bool)
    ensures
        r == (entry is Document && (just_opened || !has_language)),
{
    match entry {
        CachedPreview::Document(_) => just_opened || !has_language,
        _ => false,
    }
}

/// The line to put at the top of a preview of lines `start..=end`: the
/// `centred` line, which puts the middle of the range in the middle of
/// `inner_height` rows, where the range fits and that keeps `start` in view;
/// `start` otherwise.
pub fn preview_anchor(start: usize, end: usize, centred: usize, inner_height: usize) -> (r: usize)
    requires
        start <= end,
    ensures
        r == if end - start < inner_height && centred <= start { centred } else { start },
{
    if end - start < inner_height && centred <= start {
        centred
    } else {
        start
    }
}

/// Where a placeholder of `len` columns is drawn in an area at `x`, `y` of
/// `width` by `height`: centred across, on the middle row.
pub fn placeholder_position(x: u16, y: u16, width: u16, height: u16, len: u16) -> (r: (u16, u16))
    requires
        x + width <= u16::MAX,
        y + height <= u16::MAX,
    ensures
        r.0 == x + (if width >= len { width - len } else { 0 }) / 2,
        r.1 == y + height / 2,
{
    (x + width.saturating_sub(len) / 2, y + height / 2)
}

/// Whether two byte strings are equal.
fn same_bytes(a: &Vec<u8>, b: &Vec<u8>) -> (r: bool)
    ensures
        r == (a@ == b@),
{
    if a.len() != b.len() {
        return false;
    }
    let mut i: usize = 0;
    while i < a.len()
        invariant
            a.len() == b.len(),
            i <= a.len(),
            forall|j: int| 0 <= j < i ==> a@[j] == b@[j],
        decreases a.len() - i,
    {
        if a[i] != b[i] {
            return false;
        }
        i = i + 1;
    }
    assert(a@ =~= b@);
    true
}

/// The next step in showing a preview.
#[derive(Clone, Copy, PartialEq, Eq, Debug, Structural)]
pub enum PreviewStep {
    /// Borrow the editor's document.
    EditorDocument,
    /// Serve the cached entry.
    Cached,
    /// Open and classify the file, then record it.
    Open,
}

/// File previews by path, kept for the picker's lifetime.
pub struct PreviewCache<Doc> {
    pub entries: Vec<(Vec<u8>, CachedPreview<Doc>)>,
}

impl<Doc> PreviewCache<Doc> {
    /// The paths recorded, in order.
    pub open spec fn paths(&self) -> Seq<Seq<u8>> {
        self.entries@.map_values(|e: (Vec<u8>, CachedPreview<Doc>)| e.0@)
    }

    /// A path is recorded at most once.
    pub open spec fn wf(&self) -> bool {
        forall|i: int, j: int| 0 <= i < j < self.paths().len() ==> self.paths()[i] != self.paths()[j]
    }

    /// Whether `path` is recorded.
    pub open spec fn has(&self, path: Seq<u8>) -> bool {
        self.paths().contains(path)
    }

    /// The entry recorded for `path`.
    pub open spec fn entry(&self, path: Seq<u8>) -> CachedPreview<Doc> {
        self.entries@[self.paths().index_of(path)].1
    }

    /// The next step for `source`: a document the editor has open is
    /// borrowed, a recorded path is served from the cache, and only a path
    /// not yet recorded is opened.
    pub open spec fn step_for(&self, source: PathOrId, open_in_editor: bool) -> PreviewStep {
        match source {
            PathOrId::Id(_) => PreviewStep::EditorDocument,
            PathOrId::Path(p) => if open_in_editor {
                PreviewStep::EditorDocument
            } else if self.has(p@) {
                PreviewStep::Cached
            } else {
                PreviewStep::Open
            },
        }
    }

    /// An empty cache.
    pub fn new() -> (r: PreviewCache<Doc>)
        ensures
            r.wf(),
            r.entries.len() == 0,
    {
        PreviewCache { entries: Vec::new() }
    }

    fn position(&self, path: &Vec<u8>) -> (r: Option<usize>)
        requires
            self.wf(),
        ensures
            match r {
                Some(i) => i < self.entries.len() && self.entries@[i as int].0@ == path@
                    && self.has(path@) && self.paths().index_of(path@) == i,
                None => !self.has(path@),
            },
    {
        let mut i: usize = 0;
        while i < self.entries.len()
            invariant
                self.wf(),
                i <= self.entries.len(),
                forall|j: int| 0 <= j < i ==> self.entries@[j].0@ != path@,
            decreases self.entries.len() - i,
        {
            if same_bytes(&self.entries[i].0, path) {
                proof {
                    assert(self.paths()[i as int] == path@);
                    assert(self.has(path@));
                    let k = self.paths().index_of(path@);
                    assert(self.paths()[k] == path@);
                    if k < i {
                        assert(self.paths()[k] != self.paths()[i as int]);
                    } else if k > i {
                        assert(self.paths()[i as int] != self.paths()[k]);
                    }
                }
                return Some(i);
            }
            i = i + 1;
        }
        proof {
            assert forall|j: int| 0 <= j < self.paths().len() implies self.paths()[j] != path@ by {
                assert(self.paths()[j] == self.entries@[j].0@);
            }
        }
        None
    }

    /// The entry recorded for `path`, if any.
    pub fn get(&self, path: &Vec<u8>) -> (r: Option<&CachedPreview<Doc>>)
        requires
            self.wf(),
        ensures
            match r {
                Some(p) => self.has(path@) && *p == self.entry(path@),
                None => !self.has(path@),
            },
    {
        match self.position(path) {
            Some(i) => Some(&self.entries[i].1),
            None => None,
        }
    }

    /// Records the preview of a path not recorded yet. Entries already there
    /// stay as they are.
    pub fn insert(&mut self, path: Vec<u8>, preview: CachedPreview<Doc>)
        requires
            old(self).wf(),
            !old(self).has(path@),
        ensures
            final(self).wf(),
            final(self).has(path@),
            final(self).entry(path@) == preview,
            forall|p: Seq<u8>| old(self).has(p) ==> final(self).has(p) && final(self).entry(p) == old(self).entry(p),
    {
        let ghost key = path@;
        let ghost before = self.paths();
        self.entries.push((path, preview));
        proof {
            assert(self.paths() =~= before.push(key));
            assert(self.paths()[before.len() as int] == key);
            assert forall|p: Seq<u8>| old(self).has(p) implies self.has(p) && self.entry(p) == old(self).entry(p) by {
                let i = before.index_of(p);
                assert(before[i] == p);
                assert(self.paths()[i] == p);
                let k = self.paths().index_of(p);
                assert(self.paths()[k] == p);
                if k < i {
                    assert(self.paths()[k] != self.paths()[i]);
                } else if k > i {
                    assert(self.paths()[i] != self.paths()[k]);
                }
            }
            let k = self.paths().index_of(key);
            assert(self.paths()[k] == key);
            if k < before.len() {
                assert(before[k] == key);
            }
        }
    }

    /// The next step for `source`; `open_in_editor` tells whether the editor
    /// has a document for its path.
    pub fn step(&self, source: &PathOrId, open_in_editor: bool) -> (r: PreviewStep)
        requires
            self.wf(),
        ensures
            r == self.step_for(*source, open_in_editor),
    {
        match source {
            PathOrId::Id(_) => PreviewStep::EditorDocument,
            PathOrId::Path(p) => {
                if open_in_editor {
                    PreviewStep::EditorDocument
                } else if self.position(p).is_some() {
                    PreviewStep::Cached
                } else {
                    PreviewStep::Open
                }
            },
        }
    }
}

/// A recorded path is never opened again: once the cache holds an entry for
/// it (a binary, too large or missing file included), the next step for it is
/// to serve that entry or the editor's document, and recording other paths
/// keeps the entry.
pub proof fn lemma_recorded_path_not_reopened<Doc>(
    cache: PreviewCache<Doc>,
    later: PreviewCache<Doc>,
    path: Vec<u8>,
    open_in_editor: bool,
)
    requires
        cache.has(path@),
        forall|p: Seq<u8>| cache.has(p) ==> later.has(p) && later.entry(p) == cache.entry(p),
    ensures
        later.step_for(PathOrId::Path(path), open_in_editor) != PreviewStep::Open,
        later.entry(path@) == cache.entry(path@),
{
}

} // verus!
