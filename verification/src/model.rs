use vstd::prelude::*;
use crate::path::{DocId, LocationId};

verus! {

/// The view of an optional string.
pub open spec fn opt_text(o: Option<String>) -> Option<Seq<char>> {
    match o {
        Some(s) => Some(s@),
        None => None,
    }
}

/// An instant: whole seconds since the epoch and the nanoseconds within the second.
#[derive(Debug, Clone, Copy, PartialEq, Eq, Hash, Structural)]
pub struct Timestamp {
    pub secs: i64,
    pub nanos: u32,
}

impl Timestamp {
    /// `self` comes strictly before `other`.
    pub open spec fn before(self, other: Timestamp) -> bool {
        self.secs < other.secs || (self.secs == other.secs && self.nanos < other.nanos)
    }

    pub fn is_before(&self, other: &Timestamp) -> (out: bool)
        ensures
            out == self.before(*other),
    {
        self.secs < other.secs || (self.secs == other.secs && self.nanos < other.nanos)
    }
}

/// How a file's bytes encode its text.
#[derive(Debug, Clone, Copy, PartialEq, Eq, Structural)]
pub enum Encoding {
    Utf8,
    Utf8WithBom,
    Utf16Le,
    Utf16Be,
}

impl Default for Encoding {
    fn default() -> (out: Self)
        ensures
            out == Encoding::Utf8,
    {
        Encoding::Utf8
    }
}

impl Encoding {
    /// The number under which the encoding is stored in the catalog.
    pub fn code(&self) -> (out: i32)
        ensures
            out == match *self {
                Encoding::Utf8 => 0i32,
                Encoding::Utf8WithBom => 1i32,
                Encoding::Utf16Le => 2i32,
                Encoding::Utf16Be => 3i32,
            },
    {
        match self {
            Encoding::Utf8 => 0,
            Encoding::Utf8WithBom => 1,
            Encoding::Utf16Le => 2,
            Encoding::Utf16Be => 3,
        }
    }
}

/// The style of a text's line endings.
#[derive(Debug, Clone, Copy, PartialEq, Eq, Structural)]
pub enum LineEnding {
    Lf,
    CrLf,
    Auto,
}

impl Default for LineEnding {
    fn default() -> (out: Self)
        ensures
            out == LineEnding::Lf,
    {
        LineEnding::Lf
    }
}

impl LineEnding {
    /// The number under which the style is stored in the catalog.
    pub fn code(&self) -> (out: i32)
        ensures
            out == match *self {
                LineEnding::Lf => 0i32,
                LineEnding::CrLf => 1i32,
                LineEnding::Auto => 2i32,
            },
    {
        match self {
            LineEnding::Lf => 0,
            LineEnding::CrLf => 1,
            LineEnding::Auto => 2,
        }
    }
}

/// What the catalog knows of one document.
#[derive(Debug, Clone, PartialEq)]
pub struct DocMeta {
    pub id: DocId,
    pub filename: String,
    pub size_bytes: u64,
    pub mtime: Timestamp,
    pub created_at: Option<Timestamp>,
    pub content_hash: Option<String>,
    pub encoding: Encoding,
    pub line_ending: LineEnding,
    pub is_conflict: bool,
    pub title: Option<String>,
    pub word_count: Option<usize>,
}

/// A document's metadata as plain values.
pub struct DocMetaView {
    pub location_id: i64,
    pub rel_path: Seq<char>,
    pub filename: Seq<char>,
    pub size_bytes: u64,
    pub mtime: Timestamp,
    pub created_at: Option<Timestamp>,
    pub content_hash: Option<Seq<char>>,
    pub encoding: Encoding,
    pub line_ending: LineEnding,
    pub is_conflict: bool,
    pub title: Option<Seq<char>>,
    pub word_count: Option<usize>,
}

impl View for DocMeta {
    type V = DocMetaView;

    open spec fn view(&self) -> DocMetaView {
        DocMetaView {
            location_id: self.id.location_id.0,
            rel_path: self.id.rel_path@,
            filename: self.filename@,
            size_bytes: self.size_bytes,
            mtime: self.mtime,
            created_at: self.created_at,
            content_hash: opt_text(self.content_hash),
            encoding: self.encoding,
            line_ending: self.line_ending,
            is_conflict: self.is_conflict,
            title: opt_text(self.title),
            word_count: self.word_count,
        }
    }
}

/// A document's text together with its metadata.
#[derive(Debug, Clone, PartialEq)]
pub struct DocContent {
    pub text: String,
    pub meta: DocMeta,
}

/// The field by which a listing is sorted.
#[derive(Debug, Clone, Copy, PartialEq, Eq, Structural)]
pub enum DocSortField {
    Name,
    Modified,
    Created,
    Size,
}

/// The direction of a listing.
#[derive(Debug, Clone, Copy, PartialEq, Eq, Structural)]
pub enum SortOrder {
    Ascending,
    Descending,
}

impl Default for SortOrder {
    fn default() -> (out: Self)
        ensures
            out == SortOrder::Descending,
    {
        SortOrder::Descending
    }
}

/// Options for listing documents.
#[derive(Debug, Clone, PartialEq)]
pub struct DocListOptions {
    pub recursive: bool,
    pub extensions: Option<Vec<String>>,
    pub sort_by: Option<DocSortField>,
    pub sort_order: SortOrder,
}

impl Default for DocListOptions {
    fn default() -> (out: Self)
        ensures
            !out.recursive,
            out.extensions is None,
            out.sort_by is None,
            out.sort_order == SortOrder::Descending,
    {
        DocListOptions {
            recursive: false,
            extensions: None,
            sort_by: None,
            sort_order: SortOrder::Descending,
        }
    }
}

/// How a save writes the file.
#[derive(Debug, Clone, Copy, PartialEq, Eq, Structural)]
pub enum SavePolicy {
    /// Write a temporary file beside the target, sync it, rename it over the target.
    Atomic,
    /// Truncate and write the target itself.
    InPlace,
}

impl Default for SavePolicy {
    fn default() -> (out: Self)
        ensures
            out == SavePolicy::Atomic,
    {
        SavePolicy::Atomic
    }
}

/// What a save reports.
#[derive(Debug, Clone, PartialEq)]
pub struct SaveResult {
    pub success: bool,
    pub new_meta: Option<DocMeta>,
    pub conflict_detected: bool,
}

/// A registered root directory.
#[derive(Debug, Clone, PartialEq)]
pub struct LocationDescriptor {
    pub id: LocationId,
    pub name: String,
    pub root_path: String,
    pub added_at: Timestamp,
}

/// Whether a change concerns a file or a directory.
#[derive(Debug, Clone, Copy, PartialEq, Eq, Structural)]
pub enum FsEntryKind {
    File,
    Directory,
}

/// What happened to an entry.
#[derive(Debug, Clone, Copy, PartialEq, Eq, Structural)]
pub enum FsChangeKind {
    Created,
    Modified,
    Deleted,
    Renamed,
}

/// Save status shown to the user.
#[derive(Debug, Clone, Copy, PartialEq, Eq, Structural)]
pub enum SaveStatus {
    Idle,
    Dirty,
    Saving,
    Saved,
    Error,
}

/// Notifications for the user interface.
#[derive(Debug, Clone, PartialEq)]
pub enum BackendEvent {
    LocationMissing { location_id: LocationId, path: String },
    LocationChanged { location_id: LocationId, old_path: String, new_path: String },
    ReconciliationComplete { checked: usize, missing: Vec<LocationId> },
    ConflictDetected { location_id: LocationId, rel_path: String, conflict_filename: String },
    DocModifiedExternally { doc_id: DocId, new_mtime: Timestamp },
    SaveStatusChanged { doc_id: DocId, status: SaveStatus },
    FilesystemChanged {
        location_id: LocationId,
        entry_kind: FsEntryKind,
        change_kind: FsChangeKind,
        rel_path: String,
        old_rel_path: Option<String>,
    },
}

/// Bounds on a row's time of last update, as ISO-8601 text.
#[derive(Debug, Clone, PartialEq, Eq)]
pub struct SearchDateRange {
    pub from: Option<String>,
    pub to: Option<String>,
}

impl Default for SearchDateRange {
    fn default() -> (out: Self)
        ensures
            out.from is None,
            out.to is None,
    {
        SearchDateRange { from: None, to: None }
    }
}

/// Filters of a full-text search.
#[derive(Debug, Clone, PartialEq, Eq)]
pub struct SearchFilters {
    pub locations: Option<Vec<LocationId>>,
    pub file_types: Option<Vec<String>>,
    pub date_range: Option<SearchDateRange>,
}

impl Default for SearchFilters {
    fn default() -> (out: Self)
        ensures
            out.locations is None,
            out.file_types is None,
            out.date_range is None,
    {
        SearchFilters { locations: None, file_types: None, date_range: None }
    }
}

/// A highlighted range of a snippet, in characters.
#[derive(Debug, Clone, Copy, PartialEq, Eq, Structural)]
pub struct SearchMatch {
    pub start: usize,
    pub end: usize,
}

/// One result of a search.
#[derive(Debug, Clone, PartialEq, Eq)]
pub struct SearchHit {
    pub location_id: LocationId,
    pub rel_path: String,
    pub title: String,
    pub snippet: String,
    pub line: usize,
    pub column: usize,
    pub matches: Vec<SearchMatch>,
}

} // verus!
