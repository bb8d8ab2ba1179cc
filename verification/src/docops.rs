use vstd::prelude::*;
use vstd::utf8::valid_utf8;
use crate::catalog::{
    index_after_text, index_without, rows_upserted, rows_without, Store, StoreView,
};
use crate::chars::concat;
use crate::dirops::{io_error, io_failure, outcome_view, parent_of, parent_path, root_of};
use crate::docmeta::{
    filename_of, filename_spec, open_document, read_doc_metadata, saved_document, scanned_meta,
    text_meta, FileStat,
};
use crate::error::{
    failure, normalized_or_error, path_failure, AppError, ErrorCode, ErrorView,
};
use crate::model::{
    DocContent, DocMeta, DocMetaView, Encoding, SavePolicy, SaveResult, Timestamp,
};
use crate::path::{join_path, join_path_spec, normalize_spec, DocId, Normalized};
use crate::reconcile::location_not_found_message;
use crate::text::{
    decode_spec, decode_utf8_strict, detect_and_decode, detect_encoding_spec, is_conflicted_spec,
    is_indexable_spec, is_indexable_text_path,
};

verus! {

/// What reading a file gave: nothing is there, reading failed with the
/// system's own words, or the file's bytes and what the file system reports of it.
#[derive(Debug, Clone, PartialEq, Eq)]
pub enum FileRead {
    Missing,
    Failed(String),
    Content { bytes: Vec<u8>, stat: FileStat },
}

/// A file read as plain values.
pub enum FileReadView {
    Missing,
    Failed(Seq<char>),
    Content { bytes: Seq<u8>, stat: FileStat },
}

impl View for FileRead {
    type V = FileReadView;

    open spec fn view(&self) -> FileReadView {
        match *self {
            FileRead::Missing => FileReadView::Missing,
            FileRead::Failed(d) => FileReadView::Failed(d@),
            FileRead::Content { bytes, stat } => FileReadView::Content { bytes: bytes@, stat },
        }
    }
}

/// The error for a document that is not on disk.
pub open spec fn document_not_found(root: Seq<char>, rel_path: Seq<char>) -> ErrorView {
    failure(ErrorCode::NotFound, "Document not found: "@ + join_path_spec(root, rel_path))
}

fn document_missing(root: &str, rel_path: &str) -> (out: AppError)
    ensures
        out@ == document_not_found(root@, rel_path@),
{
    let full = join_path(root, rel_path);
    let message = concat("Document not found: ", full.as_str());
    AppError::not_found(message.as_str())
}

/// What opening a document answers: the decoded text with its metadata,
/// or the class and message of the error. A file whose bytes cannot be
/// decoded is an `Io` error whose message starts by naming the encoding.
pub open spec fn doc_open_spec(c: StoreView, doc_id: DocId, file: FileReadView) -> Result<
    (Seq<char>, DocMetaView),
    (ErrorCode, Seq<char>),
> {
    match root_of(c, doc_id.location_id.0) {
        None => Err((ErrorCode::NotFound, location_not_found_message(doc_id.location_id.0))),
        Some(root) => match file {
            FileReadView::Missing => Err(
                (ErrorCode::NotFound, "Document not found: "@ + join_path_spec(root, doc_id.rel_path@)),
            ),
            FileReadView::Failed(detail) => Err((ErrorCode::Io, "Failed to read file: "@ + detail)),
            FileReadView::Content { bytes, stat } => match decode_spec(bytes) {
                Some(text) => Ok(
                    (text, text_meta(doc_id, stat, text, detect_encoding_spec(bytes))),
                ),
                None => Err(
                    (
                        ErrorCode::Io,
                        if detect_encoding_spec(bytes) == Encoding::Utf16Le {
                            crate::text::utf16_le_error_prefix()
                        } else {
                            crate::text::utf16_be_error_prefix()
                        },
                    ),
                ),
            },
        },
    }
}

/// What a save does to the state, and the metadata it answers.
pub open spec fn doc_save_spec(
    c: StoreView,
    doc_id: DocId,
    text: Seq<char>,
    written: Result<FileStat, Seq<char>>,
    now: Timestamp,
) -> (StoreView, Result<DocMetaView, ErrorView>) {
    match root_of(c, doc_id.location_id.0) {
        None => (
            c,
            Err(failure(ErrorCode::NotFound, location_not_found_message(doc_id.location_id.0))),
        ),
        Some(_) => match written {
            Err(detail) => (c, Err(io_failure("Failed to write file: "@, detail))),
            Ok(stat) => {
                let meta = text_meta(doc_id, stat, text, Encoding::Utf8);
                (
                    StoreView {
                        documents: rows_upserted(c.documents, meta, now),
                        index: index_after_text(
                            c.index,
                            doc_id.location_id.0,
                            doc_id.rel_path@,
                            meta.title,
                            text,
                        ),
                        ..c
                    },
                    Ok(meta),
                )
            },
        },
    }
}

pub open spec fn stat_outcome_view(o: Result<FileStat, String>) -> Result<FileStat, Seq<char>> {
    match o {
        Ok(s) => Ok(s),
        Err(d) => Err(d@),
    }
}

pub open spec fn save_result_view(r: Result<SaveResult, AppError>) -> Result<DocMetaView, ErrorView> {
    match r {
        Ok(s) => match s.new_meta {
            Some(m) => Ok(m@),
            None => Err(arbitrary()),
        },
        Err(e) => Err(e@),
    }
}

/// What deleting a document does to the state, and what it answers.
pub open spec fn doc_delete_spec(
    c: StoreView,
    doc_id: DocId,
    exists: bool,
    removed: Result<(), Seq<char>>,
) -> (StoreView, Result<bool, ErrorView>) {
    match root_of(c, doc_id.location_id.0) {
        None => (
            c,
            Err(failure(ErrorCode::NotFound, location_not_found_message(doc_id.location_id.0))),
        ),
        Some(_) => if !exists {
            (c, Ok(false))
        } else {
            match removed {
                Err(detail) => (c, Err(io_failure("Failed to delete file: "@, detail))),
                Ok(()) => (
                    StoreView {
                        documents: rows_without(
                            c.documents,
                            doc_id.location_id.0,
                            doc_id.rel_path@,
                        ),
                        index: index_without(c.index, doc_id.location_id.0, doc_id.rel_path@),
                        ..c
                    },
                    Ok(true),
                ),
            }
        },
    }
}

/// What taking a document in again does to the state: a document that is
/// gone loses its rows; one that is there gets its catalog row written
/// and, where its extension is indexed, its text indexed. It fails with
/// `Io` where the file could not be read, and, after the catalog row is
/// written, where the text could not be decoded.
pub open spec fn reindex_spec(c: StoreView, doc_id: DocId, file: FileReadView, now: Timestamp) -> (
    StoreView,
    bool,
) {
    match root_of(c, doc_id.location_id.0) {
        None => (c, false),
        Some(_) => match file {
            FileReadView::Missing => (
                StoreView {
                    documents: rows_without(c.documents, doc_id.location_id.0, doc_id.rel_path@),
                    index: index_without(c.index, doc_id.location_id.0, doc_id.rel_path@),
                    ..c
                },
                true,
            ),
            FileReadView::Failed(_) => (c, false),
            FileReadView::Content { bytes, stat } => {
                let meta = scanned_meta(
                    doc_id.location_id,
                    doc_id.rel_path@,
                    filename_spec(doc_id.rel_path@),
                    stat,
                    Some(bytes),
                );
                let documents = rows_upserted(c.documents, meta, now);
                if is_indexable_spec(doc_id.rel_path@) {
                    match decode_spec(bytes) {
                        Some(text) => (
                            StoreView {
                                documents,
                                index: index_after_text(
                                    c.index,
                                    doc_id.location_id.0,
                                    doc_id.rel_path@,
                                    meta.title,
                                    text,
                                ),
                                ..c
                            },
                            true,
                        ),
                        None => (StoreView { documents, ..c }, false),
                    }
                } else {
                    (
                        StoreView {
                            documents,
                            index: index_without(c.index, doc_id.location_id.0, doc_id.rel_path@),
                            ..c
                        },
                        true,
                    )
                }
            },
        },
    }
}

/// The identity that a document gets when it is renamed: the new name in
/// place of its file name, normalised.
pub open spec fn rename_target_spec(doc_id: DocId, new_name: Seq<char>) -> Seq<char> {
    join_path_spec(parent_of(doc_id.rel_path@), new_name)
}

/// The identity of a renamed document, or the error where the new name
/// makes no valid path.
pub fn doc_rename_target(doc_id: &DocId, new_name: &str) -> (result: Result<DocId, AppError>)
    ensures
        match result {
            Ok(id) => id.location_id == doc_id.location_id && normalize_spec(
                rename_target_spec(*doc_id, new_name@),
            ) == Normalized::Path(id.rel_path@) && id.wf(),
            Err(e) => !(normalize_spec(rename_target_spec(*doc_id, new_name@)) is Path) && e@
                == path_failure(rename_target_spec(*doc_id, new_name@)),
        },
{
    let parent = parent_path(doc_id.rel_path.as_str());
    let joined = join_path(parent.as_str(), new_name);
    let rel = normalized_or_error(joined.as_str())?;
    proof {
        crate::path::lemma_normalize_idempotent(joined@);
    }
    Ok(DocId { location_id: doc_id.location_id, rel_path: rel })
}

/// The identity of a moved document, or the error where the new path is not valid.
pub fn doc_move_target(doc_id: &DocId, new_rel_path: &str) -> (result: Result<DocId, AppError>)
    ensures
        match result {
            Ok(id) => id.location_id == doc_id.location_id && normalize_spec(new_rel_path@)
                == Normalized::Path(id.rel_path@) && id.wf(),
            Err(e) => !(normalize_spec(new_rel_path@) is Path) && e@ == path_failure(new_rel_path@),
        },
{
    let rel = normalized_or_error(new_rel_path)?;
    proof {
        crate::path::lemma_normalize_idempotent(new_rel_path@);
    }
    Ok(DocId { location_id: doc_id.location_id, rel_path: rel })
}

/// The words of a rename or a move.
pub struct RelocationWords {
    pub conflict: Seq<char>,
    pub failed: Seq<char>,
    pub unreadable: Seq<char>,
}

pub open spec fn rename_words() -> RelocationWords {
    RelocationWords {
        conflict: "A file with that name already exists"@,
        failed: "Failed to rename file: "@,
        unreadable: "Failed to read renamed file: "@,
    }
}

pub open spec fn move_words() -> RelocationWords {
    RelocationWords {
        conflict: "A file at the destination already exists"@,
        failed: "Failed to move file: "@,
        unreadable: "Failed to read moved file: "@,
    }
}

pub open spec fn not_utf8_detail() -> Seq<char> {
    "stream did not contain valid UTF-8"@
}

/// What a rename or a move of a document does to the state, and the
/// metadata it answers. The new path must be valid, which is tested before
/// anything that was seen on disk; the document must be on disk and nothing
/// may be at its new place. Once the file has moved on
/// disk, the rows of the old identity are removed, the metadata of the
/// file at its new place is written to the catalog, and its text, where
/// its extension is indexed, to the index.
pub open spec fn relocate_spec(
    c: StoreView,
    doc_id: DocId,
    target: Seq<char>,
    source_exists: bool,
    dest_exists: bool,
    renamed: Result<(), Seq<char>>,
    moved: FileReadView,
    words: RelocationWords,
    now: Timestamp,
) -> (StoreView, Result<DocMetaView, ErrorView>) {
    let loc = doc_id.location_id.0;
    match root_of(c, loc) {
        None => (c, Err(failure(ErrorCode::NotFound, location_not_found_message(loc)))),
        Some(root) => match normalize_spec(target) {
            Normalized::Path(new_path) => if !source_exists {
                (c, Err(document_not_found(root, doc_id.rel_path@)))
            } else if dest_exists {
                (c, Err(failure(ErrorCode::Conflict, words.conflict)))
            } else {
                match renamed {
                    Err(detail) => (c, Err(io_failure(words.failed, detail))),
                    Ok(()) => {
                        let removed = StoreView {
                            documents: rows_without(c.documents, loc, doc_id.rel_path@),
                            index: index_without(c.index, loc, doc_id.rel_path@),
                            ..c
                        };
                        match moved {
                            FileReadView::Content { bytes, stat } => {
                                let meta = scanned_meta(
                                    doc_id.location_id,
                                    new_path,
                                    filename_spec(new_path),
                                    stat,
                                    Some(bytes),
                                );
                                let written = StoreView {
                                    documents: rows_upserted(removed.documents, meta, now),
                                    ..removed
                                };
                                if !is_indexable_spec(new_path) {
                                    (written, Ok(meta))
                                } else if valid_utf8(bytes) {
                                    (
                                        StoreView {
                                            index: index_after_text(
                                                written.index,
                                                loc,
                                                new_path,
                                                meta.title,
                                                vstd::utf8::decode_utf8(bytes),
                                            ),
                                            ..written
                                        },
                                        Ok(meta),
                                    )
                                } else {
                                    (
                                        written,
                                        Err(io_failure(words.unreadable, not_utf8_detail())),
                                    )
                                }
                            },
                            FileReadView::Missing => (
                                removed,
                                Err(
                                    io_failure(
                                        "Failed to read metadata: "@,
                                        "file not found after it was moved"@,
                                    ),
                                ),
                            ),
                            FileReadView::Failed(detail) => (
                                removed,
                                Err(io_failure("Failed to read metadata: "@, detail)),
                            ),
                        }
                    },
                }
            },
            _ => (c, Err(path_failure(target))),
        },
    }
}

pub open spec fn meta_result_view(r: Result<DocMeta, AppError>) -> Result<DocMetaView, ErrorView> {
    match r {
        Ok(m) => Ok(m@),
        Err(e) => Err(e@),
    }
}

/// Where a save writes: the document's file, and, for an atomic save,
/// the directory in which the temporary file is made.
#[derive(Debug, Clone, PartialEq, Eq)]
pub struct SavePlan {
    pub target: String,
    pub temp_dir: Option<String>,
}

impl Store {
    /// Plans a save: the file to write and, for an atomic save, the
    /// directory of the temporary file. That directory is the one the
    /// target lies in, so that renaming the temporary file over the target
    /// never leaves the volume. The policy is atomic where none is given.
    pub fn plan_save(&self, doc_id: &DocId, policy: Option<SavePolicy>) -> (result: Result<
        SavePlan,
        AppError,
    >)
        ensures
            match result {
                Ok(plan) => root_of(self@, doc_id.location_id.0) matches Some(root) && plan.target@
                    == join_path_spec(root, doc_id.rel_path@) && crate::model::opt_text(plan.temp_dir)
                    == (if policy == Some(SavePolicy::InPlace) {
                    None
                } else {
                    Some(parent_of(plan.target@))
                }),
                Err(e) => root_of(self@, doc_id.location_id.0) is None && e@ == failure(
                    ErrorCode::NotFound,
                    location_not_found_message(doc_id.location_id.0),
                ),
            },
    {
        let root = self.location_root(doc_id.location_id)?;
        let target = join_path(root.as_str(), doc_id.rel_path.as_str());
        let atomic = match policy {
            Some(SavePolicy::InPlace) => false,
            _ => true,
        };
        let temp_dir = if atomic {
            Some(parent_path(target.as_str()))
        } else {
            None
        };
        Ok(SavePlan { target, temp_dir })
    }

    /// Opens a document: builds its text and metadata from what reading
    /// the file gave. Fails with `NotFound` where the location is not
    /// registered or the file is not there, and with `Io` where it could
    /// not be read or decoded. The store is not touched.
    pub fn doc_open(&self, doc_id: &DocId, file: &FileRead) -> (result: Result<DocContent, AppError>)
        ensures
            match (result, doc_open_spec(self@, *doc_id, file@)) {
                (Ok(content), Ok((text, meta))) => content.text@ == text && content.meta@ == meta,
                (Err(e), Err((code, message))) => e.code == code && e.context is None && if file@
                    is Content {
                    message.is_prefix_of(e.message@)
                } else {
                    e.message@ == message
                },
                _ => false,
            },
    {
        let root = self.location_root(doc_id.location_id)?;
        match file {
            FileRead::Missing => Err(document_missing(root.as_str(), doc_id.rel_path.as_str())),
            FileRead::Failed(detail) => Err(io_error("Failed to read file: ", detail.as_str())),
            FileRead::Content { bytes, stat } => open_document(doc_id, bytes.as_slice(), *stat),
        }
    }

    /// Records a save: given how writing the text to disk went, writes the
    /// new metadata to the catalog, keeping the time of creation of a row
    /// that is there already, and the text to the index. A name that marks
    /// a conflicted copy is reported and does not make the save fail.
    pub fn doc_save(
        &mut self,
        doc_id: &DocId,
        text: &str,
        written: Result<FileStat, String>,
        now: Timestamp,
    ) -> (result: Result<SaveResult, AppError>)
        requires
            old(self).wf(),
        ensures
            final(self).wf(),
            (final(self)@, save_result_view(result)) == doc_save_spec(
                old(self)@,
                *doc_id,
                text@,
                stat_outcome_view(written),
                now,
            ),
            result matches Ok(r) ==> r.success && r.new_meta is Some && r.conflict_detected
                == is_conflicted_spec(crate::docmeta::filename_spec(doc_id.rel_path@)),
    {
        let _root = self.location_root(doc_id.location_id)?;
        let stat = match written {
            Ok(s) => s,
            Err(detail) => {
                return Err(io_error("Failed to write file: ", detail.as_str()));
            },
        };
        let saved = saved_document(doc_id, text, stat);
        match &saved.new_meta {
            Some(meta) => {
                self.update_doc_in_catalog(meta, now);
                self.index_document_text(doc_id, meta, text);
            },
            None => {},
        }
        Ok(saved)
    }

    /// Deletes a document, as far as the store decides it: given whether
    /// the file is there and how removing it went. The answer is `false`
    /// where the file is not there, and nothing changes; where it was
    /// removed, its catalog and index rows go with it.
    pub fn doc_delete(&mut self, doc_id: &DocId, exists: bool, removed: Result<(), String>) -> (result:
        Result<bool, AppError>)
        requires
            old(self).wf(),
        ensures
            final(self).wf(),
            (final(self)@, crate::dirops::bool_result_view(result)) == doc_delete_spec(
                old(self)@,
                *doc_id,
                exists,
                outcome_view(removed),
            ),
    {
        let _root = self.location_root(doc_id.location_id)?;
        if !exists {
            return Ok(false);
        }
        match removed {
            Ok(()) => {},
            Err(detail) => {
                return Err(io_error("Failed to delete file: ", detail.as_str()));
            },
        }
        self.remove_document_from_index(doc_id);
        Ok(true)
    }

    /// Takes one document into catalog and index again, from what reading
    /// its file gave. A document that is gone loses its rows.
    pub fn reindex_document(&mut self, doc_id: &DocId, file: &FileRead, now: Timestamp) -> (result:
        Result<(), AppError>)
        requires
            old(self).wf(),
        ensures
            final(self).wf(),
            final(self)@ == reindex_spec(old(self)@, *doc_id, file@, now).0,
            result is Ok == reindex_spec(old(self)@, *doc_id, file@, now).1,
            result matches Err(e) ==> if root_of(old(self)@, doc_id.location_id.0) is None {
                e@ == failure(ErrorCode::NotFound, location_not_found_message(doc_id.location_id.0))
            } else {
                match file@ {
                    FileReadView::Failed(detail) => e@ == io_failure(
                        "Failed to read metadata: "@,
                        detail,
                    ),
                    FileReadView::Content { bytes, .. } => e.code == ErrorCode::Io && e.context
                        is None && (if detect_encoding_spec(bytes) == Encoding::Utf16Le {
                        crate::text::utf16_le_error_prefix()
                    } else {
                        crate::text::utf16_be_error_prefix()
                    }).is_prefix_of(e.message@),
                    FileReadView::Missing => false,
                }
            },
    {
        let _root = self.location_root(doc_id.location_id)?;
        match file {
            FileRead::Missing => {
                self.remove_document_from_index(doc_id);
                Ok(())
            },
            FileRead::Failed(detail) => Err(io_error("Failed to read metadata: ", detail.as_str())),
            FileRead::Content { bytes, stat } => {
                let filename = filename_of(doc_id.rel_path.as_str());
                let meta = read_doc_metadata(
                    *stat,
                    doc_id.location_id,
                    doc_id.rel_path.clone(),
                    filename.as_str(),
                    Some(bytes),
                );
                self.update_doc_in_catalog(&meta, now);
                if is_indexable_text_path(doc_id.rel_path.as_str()) {
                    match detect_and_decode(bytes.as_slice()) {
                        Ok((text, _)) => {
                            self.index_document_text(doc_id, &meta, text.as_str());
                            Ok(())
                        },
                        Err(e) => Err(e),
                    }
                } else {
                    self.remove_fts_entry(doc_id);
                    Ok(())
                }
            },
        }
    }

    fn relocate(
        &mut self,
        doc_id: &DocId,
        target: &str,
        source_exists: bool,
        dest_exists: bool,
        renamed: Result<(), String>,
        moved: &FileRead,
        conflict: &str,
        failed: &str,
        unreadable: &str,
        now: Timestamp,
    ) -> (result: Result<DocMeta, AppError>)
        requires
            old(self).wf(),
        ensures
            final(self).wf(),
            (final(self)@, meta_result_view(result)) == relocate_spec(
                old(self)@,
                *doc_id,
                target@,
                source_exists,
                dest_exists,
                outcome_view(renamed),
                moved@,
                RelocationWords { conflict: conflict@, failed: failed@, unreadable: unreadable@ },
                now,
            ),
    {
        let root = self.location_root(doc_id.location_id)?;
        let new_path = normalized_or_error(target)?;
        if !source_exists {
            return Err(document_missing(root.as_str(), doc_id.rel_path.as_str()));
        }
        if dest_exists {
            return Err(AppError::new(ErrorCode::Conflict, conflict));
        }
        match renamed {
            Ok(()) => {},
            Err(detail) => {
                return Err(io_error(failed, detail.as_str()));
            },
        }
        self.remove_document_from_index(doc_id);
        let new_id = DocId { location_id: doc_id.location_id, rel_path: new_path };
        match moved {
            FileRead::Content { bytes, stat } => {
                let filename = filename_of(new_id.rel_path.as_str());
                let meta = read_doc_metadata(
                    *stat,
                    new_id.location_id,
                    new_id.rel_path.clone(),
                    filename.as_str(),
                    Some(bytes),
                );
                self.update_doc_in_catalog(&meta, now);
                if !is_indexable_text_path(new_id.rel_path.as_str()) {
                    return Ok(meta);
                }
                match decode_utf8_strict(bytes.as_slice()) {
                    Some(text) => {
                        self.index_document_text(&new_id, &meta, text.as_str());
                        Ok(meta)
                    },
                    None => Err(io_error(unreadable, "stream did not contain valid UTF-8")),
                }
            },
            FileRead::Missing => Err(
                io_error("Failed to read metadata: ", "file not found after it was moved"),
            ),
            FileRead::Failed(detail) => Err(io_error("Failed to read metadata: ", detail.as_str())),
        }
    }

    /// Renames a document within its directory, as far as the store
    /// decides it: given whether the document and something at its new
    /// place are on disk, how the rename on disk went, and what reading the
    /// file at its new place gave. Something at the new place is always a
    /// `Conflict`.
    pub fn doc_rename(
        &mut self,
        doc_id: &DocId,
        new_name: &str,
        source_exists: bool,
        dest_exists: bool,
        renamed: Result<(), String>,
        moved: &FileRead,
        now: Timestamp,
    ) -> (result: Result<DocMeta, AppError>)
        requires
            old(self).wf(),
        ensures
            final(self).wf(),
            (final(self)@, meta_result_view(result)) == relocate_spec(
                old(self)@,
                *doc_id,
                rename_target_spec(*doc_id, new_name@),
                source_exists,
                dest_exists,
                outcome_view(renamed),
                moved@,
                rename_words(),
                now,
            ),
    {
        let parent = parent_path(doc_id.rel_path.as_str());
        let target = join_path(parent.as_str(), new_name);
        self.relocate(
            doc_id,
            target.as_str(),
            source_exists,
            dest_exists,
            renamed,
            moved,
            "A file with that name already exists",
            "Failed to rename file: ",
            "Failed to read renamed file: ",
            now,
        )
    }

    /// Moves a document to another path of its location, as far as the
    /// store decides it; see `doc_rename`.
    pub fn doc_move(
        &mut self,
        doc_id: &DocId,
        new_rel_path: &str,
        source_exists: bool,
        dest_exists: bool,
        renamed: Result<(), String>,
        moved: &FileRead,
        now: Timestamp,
    ) -> (result: Result<DocMeta, AppError>)
        requires
            old(self).wf(),
        ensures
            final(self).wf(),
            (final(self)@, meta_result_view(result)) == relocate_spec(
                old(self)@,
                *doc_id,
                new_rel_path@,
                source_exists,
                dest_exists,
                outcome_view(renamed),
                moved@,
                move_words(),
                now,
            ),
    {
        self.relocate(
            doc_id,
            new_rel_path,
            source_exists,
            dest_exists,
            renamed,
            moved,
            "A file at the destination already exists",
            "Failed to move file: ",
            "Failed to read moved file: ",
            now,
        )
    }
}

/// A second save of a document keeps the time of creation that the first
/// save recorded, whatever the file system reports at the second save,
/// while the time of modification follows the file: after two saves of a
/// document that the catalog did not hold, its one row carries the first
/// save's time of creation and the second save's metadata otherwise.
pub proof fn lemma_second_save_keeps_time_of_creation(
    c: StoreView,
    doc_id: DocId,
    first_text: Seq<char>,
    first_stat: FileStat,
    first: Timestamp,
    second_text: Seq<char>,
    second_stat: FileStat,
    second: Timestamp,
)
    requires
        crate::catalog::store_wf(c),
        root_of(c, doc_id.location_id.0) is Some,
        crate::catalog::find_row(c.documents, doc_id.location_id.0, doc_id.rel_path@, 0) is None,
        first_stat.created_at is Some,
    ensures
        ({
            let once = doc_save_spec(c, doc_id, first_text, Ok(first_stat), first).0;
            let twice = doc_save_spec(once, doc_id, second_text, Ok(second_stat), second).0;
            let i = c.documents.len() as int;
            &&& twice.documents.len() == c.documents.len() + 1
            &&& crate::catalog::keys_distinct(twice.documents)
            &&& twice.documents[i].meta == (DocMetaView {
                created_at: first_stat.created_at,
                ..text_meta(doc_id, second_stat, second_text, Encoding::Utf8)
            })
            &&& twice.documents[i].meta.mtime == second_stat.mtime
            &&& twice.documents[i].updated_at == second
        }),
{
    let first_meta = text_meta(doc_id, first_stat, first_text, Encoding::Utf8);
    let second_meta = text_meta(doc_id, second_stat, second_text, Encoding::Utf8);
    let once = doc_save_spec(c, doc_id, first_text, Ok(first_stat), first).0;
    let i = c.documents.len() as int;
    crate::catalog::lemma_find_row_none(c.documents, doc_id.location_id.0, doc_id.rel_path@, 0);
    crate::catalog::lemma_upsert_keeps_keys_distinct(c.documents, first_meta, first);
    assert(once.documents == c.documents.push(
        crate::catalog::RowView { meta: first_meta, updated_at: first },
    ));
    assert(once.locations == c.locations);
    crate::catalog::lemma_upsert_keeps_time_of_creation(once.documents, second_meta, second, i);
    crate::catalog::lemma_upsert_keeps_keys_distinct(once.documents, second_meta, second);
}

} // verus!
