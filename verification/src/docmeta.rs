use vstd::prelude::*;
use vstd::utf8::{decode_utf8, encode_utf8, valid_utf8};
use crate::error::{AppError, ErrorCode};
use crate::md_types::{DocumentMetadata, MarkdownError, MarkdownProfile};
use crate::metadata::{body_spec, document_metadata, events_spec, fields_spec, title_spec};
use crate::model::{
    opt_text, DocContent, DocMeta, DocMetaView, Encoding, LineEnding, SaveResult, Timestamp,
};
use crate::path::{DocId, LocationId};
use crate::text::{
    decode_spec, decode_utf8_strict, detect_and_decode, detect_encoding_spec,
    detect_line_ending_spec, estimate_word_count, file_name, file_name_spec, file_stem,
    file_stem_spec, hash_text, hex_digits, is_conflicted_filename, is_conflicted_spec,
    is_indexable_spec, is_indexable_text_path, text_hash64, word_count_spec,
};

verus! {

/// What the file system reports of a file.
#[derive(Debug, Clone, Copy, PartialEq, Eq, Structural)]
pub struct FileStat {
    pub size_bytes: u64,
    pub mtime: Timestamp,
    pub created_at: Option<Timestamp>,
}

/// The title that a path gives where the text gives none: the stem of its file name.
pub fn fallback_title_from_path(rel_path: &str) -> (out: Option<String>)
    ensures
        opt_text(out) == file_stem_spec(rel_path@),
{
    file_stem(rel_path)
}

/// The file name of a path, or `unknown` where it has none.
pub open spec fn filename_spec(rel_path: Seq<char>) -> Seq<char> {
    match file_name_spec(rel_path) {
        Some(n) => n,
        None => "unknown"@,
    }
}

/// The file name of a path, or `unknown` where it has none.
pub fn filename_of(rel_path: &str) -> (out: String)
    ensures
        out@ == filename_spec(rel_path@),
{
    match file_name(rel_path) {
        Some(n) => n,
        None => "unknown".to_string(),
    }
}

/// The title of a text: what its Markdown gives, and none where it gives none.
pub open spec fn derived_title(text: Seq<char>) -> Option<Seq<char>> {
    title_spec(
        events_spec(text, MarkdownProfile::Extended),
        fields_spec(text, MarkdownProfile::Extended),
    )
}

/// The number of words of a text's body, its front matter left out.
pub open spec fn derived_word_count(text: Seq<char>) -> nat {
    word_count_spec(body_spec(text, MarkdownProfile::Extended))
}

/// Title and word count from what the Markdown engine answered: its title,
/// which may be none, and its count where it answered; the stem of the file
/// name and the number of words of the whole text where it failed.
pub fn text_metadata_from(
    outcome: Result<DocumentMetadata, MarkdownError>,
    text: &str,
    rel_path: &str,
) -> (out: (Option<String>, usize))
    ensures
        match outcome {
            Ok(m) => opt_text(out.0) == opt_text(m.title) && out.1 == m.word_count,
            Err(_) => opt_text(out.0) == file_stem_spec(rel_path@) && out.1 == word_count_spec(
                text@,
            ),
        },
{
    match outcome {
        Ok(m) => (m.title, m.word_count),
        Err(_) => (fallback_title_from_path(rel_path), estimate_word_count(text)),
    }
}

/// Derives title and word count of a text through the Markdown engine.
pub fn derive_text_metadata(text: &str, rel_path: &str) -> (out: (Option<String>, usize))
    ensures
        opt_text(out.0) == derived_title(text@),
        out.1 == derived_word_count(text@),
{
    let outcome = document_metadata(text, MarkdownProfile::Extended);
    text_metadata_from(outcome, text, rel_path)
}

/// The content hash of a text.
pub open spec fn hash_spec(text: Seq<char>) -> Seq<char> {
    hex_digits(text_hash64(text) as int, 16)
}

/// The text that metadata is derived from when a file is scanned: the
/// file's bytes as strict UTF-8, for files whose text is indexed.
pub open spec fn scanned_text(rel_path: Seq<char>, bytes: Option<Seq<u8>>) -> Option<Seq<char>> {
    match bytes {
        Some(b) => if is_indexable_spec(rel_path) && valid_utf8(b) {
            Some(decode_utf8(b))
        } else {
            None
        },
        None => None,
    }
}

/// The metadata of a scanned file.
pub open spec fn scanned_meta(
    location_id: LocationId,
    rel_path: Seq<char>,
    filename: Seq<char>,
    stat: FileStat,
    bytes: Option<Seq<u8>>,
) -> DocMetaView {
    let text = scanned_text(rel_path, bytes);
    DocMetaView {
        location_id: location_id.0,
        rel_path,
        filename,
        size_bytes: stat.size_bytes,
        mtime: stat.mtime,
        created_at: stat.created_at,
        content_hash: match text {
            Some(t) => Some(hash_spec(t)),
            None => None,
        },
        encoding: Encoding::Utf8,
        line_ending: LineEnding::Lf,
        is_conflict: is_conflicted_spec(filename),
        title: match text {
            Some(t) => derived_title(t),
            None => file_stem_spec(rel_path),
        },
        word_count: match text {
            Some(t) => Some(derived_word_count(t) as usize),
            None => None,
        },
    }
}

pub open spec fn opt_bytes(bytes: Option<&Vec<u8>>) -> Option<Seq<u8>> {
    match bytes {
        Some(b) => Some(b@),
        None => None,
    }
}

/// Computes the metadata of a file from what the file system reports of it
/// and from its bytes, where they could be read. Title, word count and
/// content hash come from the text of files whose text is indexed and whose
/// bytes are valid UTF-8; a file whose text is not read gets the stem of its
/// name as title.
pub fn read_doc_metadata(
    stat: FileStat,
    location_id: LocationId,
    rel_path: String,
    filename: &str,
    bytes: Option<&Vec<u8>>,
) -> (out: DocMeta)
    ensures
        out@ == scanned_meta(location_id, rel_path@, filename@, stat, opt_bytes(bytes)),
        out.id.rel_path == rel_path,
{
    let is_conflict = is_conflicted_filename(filename);
    let text: Option<String> = match bytes {
        Some(b) => if is_indexable_text_path(rel_path.as_str()) {
            decode_utf8_strict(b.as_slice())
        } else {
            None
        },
        None => None,
    };
    let (title, word_count, content_hash) = match &text {
        Some(t) => {
            let (title, count) = derive_text_metadata(t.as_str(), rel_path.as_str());
            (title, Some(count), Some(hash_text(t.as_str())))
        },
        None => (fallback_title_from_path(rel_path.as_str()), None, None),
    };
    DocMeta {
        id: DocId { location_id, rel_path },
        filename: filename.to_string(),
        size_bytes: stat.size_bytes,
        mtime: stat.mtime,
        created_at: stat.created_at,
        content_hash,
        encoding: Encoding::Utf8,
        line_ending: LineEnding::Lf,
        is_conflict,
        title,
        word_count,
    }
}

/// The metadata that belongs to a text read from or written to a document.
pub open spec fn text_meta(
    doc_id: DocId,
    stat: FileStat,
    text: Seq<char>,
    encoding: Encoding,
) -> DocMetaView {
    DocMetaView {
        location_id: doc_id.location_id.0,
        rel_path: doc_id.rel_path@,
        filename: filename_spec(doc_id.rel_path@),
        size_bytes: stat.size_bytes,
        mtime: stat.mtime,
        created_at: stat.created_at,
        content_hash: Some(hash_spec(text)),
        encoding,
        line_ending: detect_line_ending_spec(text),
        is_conflict: is_conflicted_spec(filename_spec(doc_id.rel_path@)),
        title: derived_title(text),
        word_count: Some(derived_word_count(text) as usize),
    }
}

fn meta_for_text(doc_id: &DocId, stat: FileStat, text: &str, encoding: Encoding) -> (out: DocMeta)
    ensures
        out@ == text_meta(*doc_id, stat, text@, encoding),
{
    let (title, word_count) = derive_text_metadata(text, doc_id.rel_path.as_str());
    let filename = filename_of(doc_id.rel_path.as_str());
    let is_conflict = is_conflicted_filename(filename.as_str());
    DocMeta {
        id: DocId { location_id: doc_id.location_id, rel_path: doc_id.rel_path.clone() },
        filename,
        size_bytes: stat.size_bytes,
        mtime: stat.mtime,
        created_at: stat.created_at,
        content_hash: Some(hash_text(text)),
        encoding,
        line_ending: LineEnding::detect(text),
        is_conflict,
        title,
        word_count: Some(word_count),
    }
}

/// Builds what opening a document returns from the file's bytes and what
/// the file system reports of it: the decoded text and its metadata. Fails
/// with an `Io` error exactly where the bytes announce UTF-16 and are not
/// valid UTF-16.
pub fn open_document(doc_id: &DocId, bytes: &[u8], stat: FileStat) -> (result: Result<
    DocContent,
    AppError,
>)
    ensures
        match result {
            Ok(content) => decode_spec(bytes@) == Some(content.text@) && content.meta@
                == text_meta(*doc_id, stat, content.text@, detect_encoding_spec(bytes@)),
            Err(e) => decode_spec(bytes@) is None && e.code == ErrorCode::Io && e.context is None
                && (if detect_encoding_spec(bytes@) == Encoding::Utf16Le {
                crate::text::utf16_le_error_prefix()
            } else {
                crate::text::utf16_be_error_prefix()
            }).is_prefix_of(e.message@),
        },
{
    match detect_and_decode(bytes) {
        Ok((text, encoding)) => {
            let meta = meta_for_text(doc_id, stat, text.as_str(), encoding);
            Ok(DocContent { text, meta })
        },
        Err(e) => Err(e),
    }
}

/// Builds what a save reports once the text is written: the new metadata,
/// with encoding UTF-8, and whether the document's file name marks a
/// conflicted copy. The conflict is reported and does not make the save fail.
pub fn saved_document(doc_id: &DocId, text: &str, stat: FileStat) -> (out: SaveResult)
    ensures
        out.success,
        out.new_meta matches Some(meta) && meta@ == text_meta(
            *doc_id,
            stat,
            text@,
            Encoding::Utf8,
        ),
        out.conflict_detected == is_conflicted_spec(filename_spec(doc_id.rel_path@)),
{
    let meta = meta_for_text(doc_id, stat, text, Encoding::Utf8);
    let conflict = meta.is_conflict;
    SaveResult { success: true, new_meta: Some(meta), conflict_detected: conflict }
}

/// A text that is saved and opened again comes back as it was: the bytes
/// that a save writes are the text's UTF-8 encoding, and unless they start
/// with a byte-order mark they decode to the same text, as UTF-8. The
/// metadata of both operations is then derived from the same text.
pub proof fn lemma_save_then_open_round_trip(doc_id: DocId, text: Seq<char>, stat: FileStat)
    requires
        detect_encoding_spec(encode_utf8(text)) == Encoding::Utf8,
    ensures
        decode_spec(encode_utf8(text)) == Some(text),
        text_meta(doc_id, stat, text, detect_encoding_spec(encode_utf8(text))) == text_meta(
            doc_id,
            stat,
            text,
            Encoding::Utf8,
        ),
{
    vstd::utf8::encode_utf8_valid_utf8(text);
    vstd::utf8::encode_utf8_decode_utf8(text);
}

} // verus!
