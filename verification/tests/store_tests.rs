use writer::catalog::{CatalogRow, IndexRow, Store};
use writer::dirops::EntryState;
use writer::docmeta::{
    derive_text_metadata, fallback_title_from_path, filename_of, open_document,
    read_doc_metadata, saved_document, text_metadata_from, FileStat,
};
use writer::docops::{doc_move_target, doc_rename_target, FileRead};
use writer::error::ErrorCode;
use writer::listing::{passes_extension_filter, sort_documents, text_before};
use writer::engine::MarkdownEngine;
use writer::md_types::{MarkdownError, MarkdownProfile};
use writer::model::{
    DocListOptions, DocMeta, DocSortField, Encoding, LineEnding, SortOrder, Timestamp,
};
use writer::path::{DocId, LocationId};
use writer::reconcile::{LocationScan, ScannedFile};
use writer::text::hash_text;

fn at(secs: i64) -> Timestamp {
    Timestamp { secs, nanos: 0 }
}

fn stat(size: u64, mtime: i64, created: Option<i64>) -> FileStat {
    FileStat { size_bytes: size, mtime: at(mtime), created_at: created.map(at) }
}

fn scanned(rel: &str, content: &str, mtime: i64) -> ScannedFile {
    ScannedFile {
        rel_path: rel.to_string(),
        stat: stat(content.len() as u64, mtime, Some(mtime)),
        bytes: Some(content.as_bytes().to_vec()),
    }
}

fn read(content: &str, mtime: i64) -> FileRead {
    FileRead::Content {
        bytes: content.as_bytes().to_vec(),
        stat: stat(content.len() as u64, mtime, Some(mtime)),
    }
}

fn store_with_location(root: &str) -> (Store, LocationId) {
    let mut store = Store::new();
    let location = store.location_add("Test Location".to_string(), root.to_string(), at(100)).unwrap();
    (store, location.id)
}

fn doc(location: LocationId, rel: &str) -> DocId {
    DocId::new(location, rel.to_string()).unwrap()
}

fn index_paths(store: &Store) -> Vec<String> {
    store.index_rows().into_iter().map(|r| r.rel_path).collect()
}

fn catalog_paths(store: &Store) -> Vec<String> {
    store.documents().into_iter().map(|r| r.meta.id.rel_path).collect()
}

fn rows_holding(store: &Store, token: &str) -> Vec<IndexRow> {
    store.index_rows().into_iter().filter(|r| r.content.contains(token)).collect()
}

const PRESENT_DIR: EntryState = EntryState { exists: true, is_dir: true };
const PRESENT_FILE: EntryState = EntryState { exists: true, is_dir: false };
const ABSENT: EntryState = EntryState { exists: false, is_dir: false };

#[test]
fn test_location_add_and_list() {
    let mut store = Store::new();
    let location = store.location_add("Test Location".to_string(), "/tmp/loc".to_string(), at(5)).unwrap();

    assert_eq!(location.name, "Test Location");
    assert_eq!(location.root_path, "/tmp/loc");
    assert_eq!(location.id, LocationId(1));

    let locations = store.location_list();
    assert_eq!(locations.len(), 1);
    assert_eq!(locations[0].name, "Test Location");
    assert_eq!(locations[0].root_path, "/tmp/loc");
}

#[test]
fn test_location_duplicate() {
    let mut store = Store::new();
    store.location_add("First".to_string(), "/tmp/loc".to_string(), at(1)).unwrap();

    let result = store.location_add("Second".to_string(), "/tmp/loc".to_string(), at(2));
    assert!(result.is_err());
    let err = result.unwrap_err();
    assert_eq!(err.code, ErrorCode::Conflict);
    assert_eq!(err.message, "Location already exists");
    assert_eq!(err.context, Some("Path: /tmp/loc".to_string()));
    assert_eq!(store.location_list().len(), 1);
}

#[test]
fn test_location_remove() {
    let mut store = Store::new();
    let location = store.location_add("Test".to_string(), "/tmp/loc".to_string(), at(1)).unwrap();
    let removed = store.location_remove(location.id);
    assert!(removed);

    let locations = store.location_list();
    assert!(locations.is_empty());

    let removed_again = store.location_remove(location.id);
    assert!(!removed_again);
}

#[test]
fn test_location_get() {
    let mut store = Store::new();
    let location = store.location_add("Test".to_string(), "/tmp/loc".to_string(), at(1)).unwrap();
    let retrieved = store.location_get(location.id);
    assert!(retrieved.is_some());

    let retrieved = retrieved.unwrap();
    assert_eq!(retrieved.name, "Test");
    assert_eq!(retrieved.root_path, "/tmp/loc");

    let not_found = store.location_get(LocationId(999));
    assert!(not_found.is_none());
}

#[test]
fn test_validate_locations() {
    let mut store = Store::new();
    let _ = store.location_add("Existing".to_string(), "/tmp/existing".to_string(), at(1)).unwrap();
    let non_existent =
        store.location_add("NonExistent".to_string(), "/non/existent/path/12345".to_string(), at(2)).unwrap();

    // Newest first: the location added last is listed first.
    let missing = store.validate_locations(&vec![false, true]);
    assert_eq!(missing.len(), 1);
    assert_eq!(missing[0].0, non_existent.id);
    assert_eq!(missing[0].1, "/non/existent/path/12345");
    assert!(store.validate_locations(&vec![true, true]).is_empty());
    assert!(store.validate_locations(&vec![]).is_empty());
    assert_eq!(store.validate_locations(&vec![false, false, false]).len(), 2);
}

#[test]
fn locations_are_listed_newest_first_and_ids_are_not_reused() {
    let mut store = Store::new();
    let a = store.location_add("a".to_string(), "/a".to_string(), at(10)).unwrap();
    let b = store.location_add("b".to_string(), "/b".to_string(), at(30)).unwrap();
    let c = store.location_add("c".to_string(), "/c".to_string(), at(20)).unwrap();
    let d = store.location_add("d".to_string(), "/d".to_string(), at(20)).unwrap();
    let names: Vec<String> = store.location_list().into_iter().map(|l| l.name).collect();
    assert_eq!(names, vec!["b", "c", "d", "a"]);
    assert_eq!((a.id, b.id, c.id, d.id), (LocationId(1), LocationId(2), LocationId(3), LocationId(4)));
    assert!(store.location_remove(d.id));
    let e = store.location_add("e".to_string(), "/e".to_string(), at(5)).unwrap();
    assert_eq!(e.id, LocationId(5));
}

#[test]
fn removing_a_location_removes_its_catalog_rows_and_keeps_index_rows() {
    let (mut store, location) = store_with_location("/root");
    let other = store.location_add("Other".to_string(), "/other".to_string(), at(1)).unwrap().id;
    store.doc_save(&doc(location, "a.md"), "alpha", Ok(stat(5, 1, None)), at(2)).unwrap();
    store.doc_save(&doc(other, "b.md"), "beta", Ok(stat(4, 1, None)), at(2)).unwrap();
    assert!(store.location_remove(location));
    assert_eq!(catalog_paths(&store), vec!["b.md"]);
    assert_eq!(index_paths(&store), vec!["a.md", "b.md"]);
}

#[test]
fn test_doc_list_shallow() {
    let (store, location) = store_with_location("/root");
    let listing = vec![scanned("file1.md", "# File 1", 10), scanned("file2.txt", "File 2 content", 20)];
    let docs = store.doc_list(location, None, Ok(listing)).unwrap();
    assert_eq!(docs.len(), 2);
    assert_eq!(docs[0].filename, "file2.txt");
    assert_eq!(docs[1].filename, "file1.md");
}

#[test]
fn test_doc_list_recursive() {
    let (store, location) = store_with_location("/root");
    let listing = vec![scanned("file1.md", "# File 1", 10), scanned("subdir/file2.md", "# File 2", 20)];
    let options = DocListOptions { recursive: true, ..Default::default() };
    let docs = store.doc_list(location, Some(options), Ok(listing)).unwrap();
    assert_eq!(docs.len(), 2);
    assert_eq!(docs[0].id.rel_path, "subdir/file2.md");
    assert_eq!(docs[0].filename, "file2.md");
}

#[test]
fn test_doc_list_with_extension_filter() {
    let (store, location) = store_with_location("/root");
    let listing = vec![
        scanned("file1.md", "# File 1", 10),
        scanned("file2.txt", "File 2", 20),
        scanned("file3.rs", "fn main() {}", 30),
    ];
    let options =
        DocListOptions { recursive: false, extensions: Some(vec!["md".to_string()]), ..Default::default() };
    let docs = store.doc_list(location, Some(options), Ok(listing)).unwrap();
    assert_eq!(docs.len(), 1);
    assert_eq!(docs[0].filename, "file1.md");
}

#[test]
fn doc_list_reports_missing_location_and_unreadable_directory() {
    let (store, location) = store_with_location("/root");
    let err = store.doc_list(LocationId(77), None, Ok(vec![])).unwrap_err();
    assert_eq!(err.code, ErrorCode::NotFound);
    assert_eq!(err.message, "Location not found: LocationId(77)");
    let err = store.doc_list(location, None, Err("permission denied".to_string())).unwrap_err();
    assert_eq!(err.code, ErrorCode::Io);
    assert_eq!(err.message, "Failed to read directory: permission denied");
}

fn meta(name: &str, size: u64, mtime: i64, created: Option<i64>) -> DocMeta {
    DocMeta {
        id: DocId { location_id: LocationId(1), rel_path: name.to_string() },
        filename: name.to_string(),
        size_bytes: size,
        mtime: at(mtime),
        created_at: created.map(at),
        content_hash: None,
        encoding: Encoding::Utf8,
        line_ending: LineEnding::Lf,
        is_conflict: false,
        title: None,
        word_count: None,
    }
}

fn names(docs: &[DocMeta]) -> Vec<&str> {
    docs.iter().map(|d| d.filename.as_str()).collect()
}

#[test]
fn sorting_follows_each_field_and_keeps_ties_in_place() {
    let docs = vec![
        meta("b", 10, 5, Some(7)),
        meta("a", 30, 9, None),
        meta("c", 20, 9, Some(3)),
        meta("a", 10, 1, Some(7)),
    ];
    let by = |field, order| sort_documents(docs.clone(), field, order);
    assert_eq!(
        docs.iter().map(|d| d.size_bytes).collect::<Vec<_>>(),
        vec![10, 30, 20, 10]
    );
    let sorted = by(DocSortField::Name, SortOrder::Descending);
    assert_eq!(names(&sorted), vec!["a", "a", "b", "c"]);
    assert_eq!(sorted[0].size_bytes, 30);
    assert_eq!(sorted[1].size_bytes, 10);
    let sorted = by(DocSortField::Modified, SortOrder::Descending);
    assert_eq!(names(&sorted), vec!["a", "c", "b", "a"]);
    let sorted = by(DocSortField::Created, SortOrder::Descending);
    assert_eq!(sorted.iter().map(|d| d.created_at).collect::<Vec<_>>(), vec![
        Some(at(7)),
        Some(at(7)),
        Some(at(3)),
        None
    ]);
    assert_eq!(sorted[0].filename, "b");
    let sorted = by(DocSortField::Size, SortOrder::Descending);
    assert_eq!(sorted.iter().map(|d| d.size_bytes).collect::<Vec<_>>(), vec![30, 20, 10, 10]);
    assert_eq!(sorted[2].filename, "b");
    let sorted = by(DocSortField::Size, SortOrder::Ascending);
    assert_eq!(sorted.iter().map(|d| d.size_bytes).collect::<Vec<_>>(), vec![10, 10, 20, 30]);
    assert_eq!(sorted[0].filename, "a");
    assert!(sort_documents(vec![], DocSortField::Name, SortOrder::Ascending).is_empty());
}

#[test]
fn text_order_is_by_character() {
    assert!(text_before("a", "b"));
    assert!(text_before("a", "ab"));
    assert!(text_before("", "a"));
    assert!(!text_before("a", "a"));
    assert!(!text_before("b", "a"));
    assert!(text_before("Z", "a"));
    assert!(text_before("z", "\u{e9}"));
}

#[test]
fn extension_filter_ignores_case_and_treats_no_extension_as_empty() {
    assert!(passes_extension_filter("a.MD", &Some(vec!["md".to_string()])));
    assert!(passes_extension_filter("a.md", &Some(vec!["TXT".to_string(), "Md".to_string()])));
    assert!(!passes_extension_filter("a.rs", &Some(vec!["md".to_string()])));
    assert!(!passes_extension_filter("a", &Some(vec!["md".to_string()])));
    assert!(passes_extension_filter("a", &Some(vec!["".to_string()])));
    assert!(!passes_extension_filter("a.md", &Some(vec![])));
    assert!(passes_extension_filter("a.rs", &None));
}

#[test]
fn test_doc_open() {
    let (store, location) = store_with_location("/root");
    let content = "# Test Document\n\nThis is a test.";
    let doc_id = doc(location, "test.md");
    let doc_content = store.doc_open(&doc_id, &read(content, 50)).unwrap();

    assert_eq!(doc_content.text, content);
    assert_eq!(doc_content.meta.filename, "test.md");
    assert_eq!(doc_content.meta.word_count, Some(7));
    assert_eq!(doc_content.meta.title, Some("Test Document".to_string()));
    assert_eq!(doc_content.meta.encoding, Encoding::Utf8);
    assert_eq!(doc_content.meta.line_ending, LineEnding::Lf);
    assert_eq!(doc_content.meta.mtime, at(50));
    assert_eq!(doc_content.meta.content_hash, Some(hash_text(content)));
    assert!(!doc_content.meta.is_conflict);
    assert!(store.documents().is_empty());
}

#[test]
fn test_doc_open_uses_markdown_front_matter_title_and_excludes_fm_from_word_count() {
    let (store, location) = store_with_location("/root");
    let content = "---\ntitle: Front Matter Title\n---\n\nBody words only";
    let doc_id = doc(location, "frontmatter.md");
    let doc_content = store.doc_open(&doc_id, &read(content, 50)).unwrap();

    assert_eq!(doc_content.meta.title, Some("Front Matter Title".to_string()));
    assert_eq!(doc_content.meta.word_count, Some(3));
}

#[test]
fn doc_open_reports_what_is_missing() {
    let (store, location) = store_with_location("/root");
    let id = doc(location, "a/b.md");
    let err = store.doc_open(&id, &FileRead::Missing).unwrap_err();
    assert_eq!(err.code, ErrorCode::NotFound);
    assert_eq!(err.message, "Document not found: /root/a/b.md");
    let err = store.doc_open(&id, &FileRead::Failed("denied".to_string())).unwrap_err();
    assert_eq!(err.code, ErrorCode::Io);
    assert_eq!(err.message, "Failed to read file: denied");
    let err = store.doc_open(&doc(LocationId(9), "a.md"), &read("x", 1)).unwrap_err();
    assert_eq!(err.code, ErrorCode::NotFound);
    assert_eq!(err.message, "Location not found: LocationId(9)");
    let undecodable = FileRead::Content { bytes: vec![0xff, 0xfe, 0x00, 0xd8], stat: stat(4, 1, None) };
    assert_eq!(store.doc_open(&id, &undecodable).unwrap_err().code, ErrorCode::Io);
}

#[test]
fn doc_open_detects_encoding_and_line_endings() {
    let (store, location) = store_with_location("/root");
    let bytes = vec![0xef, 0xbb, 0xbf, b'a', b'\r', b'\n', b'b', b'\r', b'\n'];
    let file = FileRead::Content { bytes, stat: stat(9, 1, None) };
    let content = store.doc_open(&doc(location, "x.txt"), &file).unwrap();
    assert_eq!(content.text, "a\r\nb\r\n");
    assert_eq!(content.meta.encoding, Encoding::Utf8WithBom);
    assert_eq!(content.meta.line_ending, LineEnding::CrLf);
    assert_eq!(content.meta.title, None);
    assert_eq!(content.meta.size_bytes, 9);
}

#[test]
fn test_doc_save_atomic() {
    let (mut store, location) = store_with_location("/root");
    let doc_id = doc(location, "new_file.md");
    let content = "# New Document\n\nContent here.";
    let result = store.doc_save(&doc_id, content, Ok(stat(content.len() as u64, 7, Some(7))), at(8)).unwrap();
    assert!(result.success);
    assert!(result.new_meta.is_some());
    assert!(!result.conflict_detected);

    let row = store.document(&doc_id).unwrap();
    assert_eq!(row.meta, result.new_meta.unwrap());
    assert_eq!(row.updated_at, at(8));
    assert_eq!(row.meta.title, Some("New Document".to_string()));
    assert_eq!(row.meta.word_count, Some(5));
    let rows = store.index_rows();
    assert_eq!(rows.len(), 1);
    assert_eq!(rows[0].content, content);
    assert_eq!(rows[0].title, "New Document");
}

#[test]
fn test_doc_save_overwrite() {
    let (mut store, location) = store_with_location("/root");
    let doc_id = doc(location, "overwrite.md");
    store.doc_save(&doc_id, "Initial content", Ok(stat(15, 1, None)), at(1)).unwrap();

    let new_content = "Updated content here";
    let result = store.doc_save(&doc_id, new_content, Ok(stat(20, 2, None)), at(2)).unwrap();

    assert!(result.success);
    assert_eq!(store.documents().len(), 1);
    let rows = store.index_rows();
    assert_eq!(rows.len(), 1);
    assert_eq!(rows[0].content, new_content);
    assert_eq!(rows[0].title, "overwrite");
}

#[test]
fn test_doc_save_creates_directories() {
    let (mut store, location) = store_with_location("/root");
    let doc_id = doc(location, "level1/level2/file.md");
    let result = store.doc_save(&doc_id, "Nested content", Ok(stat(14, 1, None)), at(1));

    assert!(result.is_ok());
    assert_eq!(doc_id.resolve("/root"), "/root/level1/level2/file.md");
    assert_eq!(catalog_paths(&store), vec!["level1/level2/file.md"]);
}

#[test]
fn doc_save_failures_change_nothing() {
    let (mut store, location) = store_with_location("/root");
    let err = store
        .doc_save(&doc(location, "a.md"), "x", Err("disk full".to_string()), at(1))
        .unwrap_err();
    assert_eq!(err.code, ErrorCode::Io);
    assert_eq!(err.message, "Failed to write file: disk full");
    let err = store.doc_save(&doc(LocationId(9), "a.md"), "x", Ok(stat(1, 1, None)), at(1)).unwrap_err();
    assert_eq!(err.code, ErrorCode::NotFound);
    assert!(store.documents().is_empty());
    assert!(store.index_rows().is_empty());
}

#[test]
fn doc_save_reports_conflicted_copies_and_still_succeeds() {
    let (mut store, location) = store_with_location("/root");
    let id = doc(location, "Draft (Anna's conflicted copy 2024-01-15).md");
    let result = store.doc_save(&id, "text", Ok(stat(4, 1, None)), at(1)).unwrap();
    assert!(result.success);
    assert!(result.conflict_detected);
    assert!(store.document(&id).unwrap().meta.is_conflict);
}

#[test]
fn doc_save_of_a_file_that_is_not_indexed_leaves_no_index_row() {
    let (mut store, location) = store_with_location("/root");
    let id = doc(location, "data.json");
    store.doc_save(&id, "{}", Ok(stat(2, 1, None)), at(1)).unwrap();
    assert_eq!(catalog_paths(&store), vec!["data.json"]);
    assert!(store.index_rows().is_empty());
}

#[test]
fn second_save_keeps_the_time_of_creation() {
    let (mut store, location) = store_with_location("/root");
    let id = doc(location, "note.md");
    store.doc_save(&id, "hello", Ok(stat(5, 100, Some(100))), at(101)).unwrap();
    let second = store.doc_save(&id, "hello again", Ok(stat(11, 200, Some(200))), at(201)).unwrap();
    assert_eq!(second.new_meta.unwrap().created_at, Some(at(200)));
    let row = store.document(&id).unwrap();
    assert_eq!(row.meta.created_at, Some(at(100)));
    assert_eq!(row.meta.mtime, at(200));
    assert_eq!(row.meta.size_bytes, 11);
    assert_eq!(row.updated_at, at(201));
    assert_eq!(store.documents().len(), 1);
}

#[test]
fn save_without_a_time_of_creation_takes_the_first_one_known() {
    let (mut store, location) = store_with_location("/root");
    let id = doc(location, "note.md");
    store.doc_save(&id, "a", Ok(stat(1, 1, None)), at(1)).unwrap();
    assert_eq!(store.document(&id).unwrap().meta.created_at, None);
    store.doc_save(&id, "b", Ok(stat(1, 2, Some(2))), at(2)).unwrap();
    assert_eq!(store.document(&id).unwrap().meta.created_at, Some(at(2)));
    store.doc_save(&id, "c", Ok(stat(1, 3, Some(3))), at(3)).unwrap();
    assert_eq!(store.document(&id).unwrap().meta.created_at, Some(at(2)));
}

#[test]
fn save_then_open_returns_the_same_text_and_metadata() {
    let (mut store, location) = store_with_location("/root");
    let id = doc(location, "round/trip.md");
    let text = "---\ntitle: Round Trip\n---\n\n# Heading\r\nsome \u{e9}t\u{e9} words\r\n";
    let s = stat(text.len() as u64, 9, Some(9));
    let saved = store.doc_save(&id, text, Ok(s), at(10)).unwrap().new_meta.unwrap();
    let file = FileRead::Content { bytes: text.as_bytes().to_vec(), stat: s };
    let opened = store.doc_open(&id, &file).unwrap();
    assert_eq!(opened.text, text);
    assert_eq!(opened.meta, saved);
    let (title, words) = derive_text_metadata(text, "round/trip.md");
    assert_eq!(opened.meta.title, title);
    assert_eq!(opened.meta.word_count, Some(words));
    assert_eq!(title, Some("Round Trip".to_string()));
    assert_eq!(words, 5);
    assert_eq!(opened.meta.line_ending, LineEnding::Lf);
}

#[test]
fn text_that_starts_with_a_byte_order_mark_does_not_come_back_whole() {
    let (store, location) = store_with_location("/root");
    let id = doc(location, "bom.md");
    let text = "\u{feff}x";
    let opened = store.doc_open(&id, &read(text, 1)).unwrap();
    assert_eq!(opened.text, "x");
    assert_eq!(opened.meta.encoding, Encoding::Utf8WithBom);
}

#[test]
fn test_directory_create_and_delete() {
    let (mut store, location) = store_with_location("/root");

    let created = store.dir_create(location, "nested/notes", ABSENT, Ok(())).unwrap();
    assert!(created);

    let created_again = store.dir_create(location, "nested/notes", PRESENT_DIR, Ok(())).unwrap();
    assert!(!created_again);

    let deleted = store.dir_delete(location, "nested", PRESENT_DIR, Ok(())).unwrap();
    assert!(deleted);
    let deleted_again = store.dir_delete(location, "nested", ABSENT, Ok(())).unwrap();
    assert!(!deleted_again);
}

#[test]
fn dir_create_refuses_files_bad_paths_and_unknown_locations() {
    let (store, location) = store_with_location("/root");
    let err = store.dir_create(location, "a", PRESENT_FILE, Ok(())).unwrap_err();
    assert_eq!(err.code, ErrorCode::Conflict);
    assert_eq!(err.message, "A file already exists at the target directory path");
    assert_eq!(store.dir_create(location, "../a", ABSENT, Ok(())).unwrap_err().code, ErrorCode::InvalidPath);
    assert_eq!(store.dir_create(location, "", ABSENT, Ok(())).unwrap_err().message, "Empty path is not allowed");
    assert_eq!(store.dir_create(LocationId(5), "a", ABSENT, Ok(())).unwrap_err().code, ErrorCode::NotFound);
    let err = store.dir_create(location, "a", ABSENT, Err("read-only".to_string())).unwrap_err();
    assert_eq!(err.code, ErrorCode::Io);
    assert_eq!(err.message, "Failed to create directory: read-only");
}

#[test]
fn resolve_in_location_gives_both_paths() {
    let (store, location) = store_with_location("/root");
    let r = store.resolve_in_location(location, "a/./b/../c.md").unwrap();
    assert_eq!(r.rel_path, "a/c.md");
    assert_eq!(r.full_path, "/root/a/c.md");
    assert_eq!(store.location_root(location).unwrap(), "/root");
    assert_eq!(
        store.resolve_in_location(location, "/abs").unwrap_err().message,
        "Absolute paths are not allowed as relative paths"
    );
    let err = store.resolve_in_location(location, "a/../../b").unwrap_err();
    assert_eq!(err.context, Some("Access denied: path escapes location root".to_string()));
}

#[test]
fn directory_move_rewrites_index_rows() {
    let (mut store, location) = store_with_location("/root");
    let doc_a = doc(location, "old/sub/a.md");
    let doc_b = doc(location, "old/sub/deep/b.md");
    store.doc_save(&doc_a, "# A\n\nalphatoken", Ok(stat(10, 1, None)), at(1)).unwrap();
    store.doc_save(&doc_b, "# B\n\ndeeptoken", Ok(stat(10, 1, None)), at(1)).unwrap();

    let moved = store
        .dir_move(location, "old/sub", "new/archive", PRESENT_DIR, ABSENT, Ok(()), at(2))
        .unwrap();
    assert_eq!(moved, "new/archive");

    let alpha_hits = rows_holding(&store, "alphatoken");
    assert_eq!(alpha_hits.len(), 1);
    assert_eq!(alpha_hits[0].rel_path, "new/archive/a.md");

    let deep_hits = rows_holding(&store, "deeptoken");
    assert_eq!(deep_hits.len(), 1);
    assert_eq!(deep_hits[0].rel_path, "new/archive/deep/b.md");
}

#[test]
fn directory_move_takes_rows_along_and_leaves_none_behind() {
    let (mut store, location) = store_with_location("/root");
    for (rel, text) in [
        ("old/sub/a.md", "alphatoken"),
        ("old/sub/deep/b.md", "deeptoken"),
        ("old/subway.md", "neighbour"),
        ("old/sub.md", "sibling"),
    ] {
        store.doc_save(&doc(location, rel), text, Ok(stat(1, 1, Some(1))), at(1)).unwrap();
    }
    let moved = store.dir_move(location, "old/sub", "new/home", PRESENT_DIR, ABSENT, Ok(()), at(9)).unwrap();
    assert_eq!(moved, "new/home");
    assert_eq!(
        catalog_paths(&store),
        vec!["new/home/a.md", "new/home/deep/b.md", "old/subway.md", "old/sub.md"]
    );
    assert_eq!(index_paths(&store), catalog_paths(&store));
    assert_eq!(rows_holding(&store, "alphatoken")[0].rel_path, "new/home/a.md");
    assert_eq!(rows_holding(&store, "deeptoken")[0].rel_path, "new/home/deep/b.md");
    assert!(index_paths(&store).iter().all(|p| !p.starts_with("old/sub/")));
    let rows = store.documents();
    assert_eq!(rows[0].updated_at, at(9));
    assert_eq!(rows[0].meta.filename, "a.md");
    assert_eq!(rows[0].meta.created_at, Some(at(1)));
    assert_eq!(rows[2].updated_at, at(1));
}

#[test]
fn directory_cannot_move_into_itself() {
    let (mut store, location) = store_with_location("/root");
    store.doc_save(&doc(location, "a/x.md"), "x", Ok(stat(1, 1, None)), at(1)).unwrap();
    let before = (store.documents(), store.index_rows());
    for target in ["a/b", "a", "./a/b/c", "a/"] {
        let err = store.dir_move(location, "a", target, PRESENT_DIR, ABSENT, Ok(()), at(2)).unwrap_err();
        assert_eq!(err.code, ErrorCode::InvalidPath);
        assert_eq!(err.message, "Cannot move a directory into itself or one of its descendants");
        assert!(store.dir_move_plan(location, "a", target).is_err());
    }
    assert_eq!((store.documents(), store.index_rows()), before);
    // A sibling whose name merely starts alike is no descendant.
    assert!(store.dir_move_plan(location, "a", "ab").is_ok());
}

#[test]
fn directory_move_is_refused_by_what_is_on_disk() {
    let (mut store, location) = store_with_location("/root");
    let err = store.dir_move(location, "a", "b", ABSENT, ABSENT, Ok(()), at(1)).unwrap_err();
    assert_eq!((err.code, err.message.as_str()), (ErrorCode::NotFound, "Directory not found"));
    let err = store.dir_move(location, "a", "b", PRESENT_FILE, ABSENT, Ok(()), at(1)).unwrap_err();
    assert_eq!((err.code, err.message.as_str()), (ErrorCode::InvalidPath, "Path is not a directory"));
    let err = store.dir_move(location, "a", "b", PRESENT_DIR, PRESENT_DIR, Ok(()), at(1)).unwrap_err();
    assert_eq!(err.code, ErrorCode::Conflict);
    assert_eq!(err.message, "A file or directory already exists at the destination");
    let err = store
        .dir_move(location, "a", "b", PRESENT_DIR, ABSENT, Err("busy".to_string()), at(1))
        .unwrap_err();
    assert_eq!((err.code, err.message.as_str()), (ErrorCode::Io, "Failed to move directory: busy"));
    let err = store.dir_move(LocationId(8), "a", "b", PRESENT_DIR, ABSENT, Ok(()), at(1)).unwrap_err();
    assert_eq!(err.code, ErrorCode::NotFound);
}

#[test]
fn directory_move_onto_catalogued_documents_fails_and_changes_nothing() {
    let (mut store, location) = store_with_location("/root");
    store.doc_save(&doc(location, "a/x.md"), "one", Ok(stat(1, 1, None)), at(1)).unwrap();
    store.doc_save(&doc(location, "b/x.md"), "two", Ok(stat(1, 1, None)), at(1)).unwrap();
    let before = (store.documents(), store.index_rows());
    let err = store.dir_move(location, "a", "b", PRESENT_DIR, ABSENT, Ok(()), at(2)).unwrap_err();
    assert_eq!(err.code, ErrorCode::Index);
    assert_eq!((store.documents(), store.index_rows()), before);
}

#[test]
fn directory_rename_replaces_the_last_segment() {
    let (mut store, location) = store_with_location("/root");
    store.doc_save(&doc(location, "a/old/x.md"), "x", Ok(stat(1, 1, None)), at(1)).unwrap();
    let plan = store.dir_rename_plan(location, "a/old", "new").unwrap();
    assert_eq!((plan.from_rel.as_str(), plan.to_rel.as_str()), ("a/old", "a/new"));
    assert_eq!((plan.from_full.as_str(), plan.to_full.as_str()), ("/root/a/old", "/root/a/new"));
    let renamed = store.dir_rename(location, "a/old", "new", PRESENT_DIR, ABSENT, Ok(()), at(2)).unwrap();
    assert_eq!(renamed, "a/new");
    assert_eq!(catalog_paths(&store), vec!["a/new/x.md"]);
    assert_eq!(index_paths(&store), vec!["a/new/x.md"]);
    assert_eq!(store.dir_rename_plan(location, "top", "other").unwrap().to_rel, "other");
}

#[test]
fn directory_rename_wants_one_valid_segment() {
    let (mut store, location) = store_with_location("/root");
    let err = store.dir_rename(location, "a", "b/c", PRESENT_DIR, ABSENT, Ok(()), at(1)).unwrap_err();
    assert_eq!(err.code, ErrorCode::InvalidPath);
    assert_eq!(err.message, "New directory name must be a single path segment");
    for bad in ["", "..", "/x", "."] {
        let err = store.dir_rename(location, "a", bad, PRESENT_DIR, ABSENT, Ok(()), at(1)).unwrap_err();
        assert_eq!(err.code, ErrorCode::InvalidPath);
        assert_eq!(err.message, "New directory name is invalid");
    }
    let err = store
        .dir_rename(location, "a", "b", PRESENT_DIR, ABSENT, Err("busy".to_string()), at(1))
        .unwrap_err();
    assert_eq!(err.message, "Failed to rename directory: busy");
}

#[test]
fn directory_delete_removes_rows_below_it_only() {
    let (mut store, location) = store_with_location("/root");
    for rel in ["dir/a.md", "dir/sub/b.md", "dir2/c.md", "dir.md"] {
        store.doc_save(&doc(location, rel), rel, Ok(stat(1, 1, None)), at(1)).unwrap();
    }
    assert!(store.dir_delete(location, "dir", PRESENT_DIR, Ok(())).unwrap());
    assert_eq!(catalog_paths(&store), vec!["dir2/c.md", "dir.md"]);
    assert_eq!(index_paths(&store), vec!["dir2/c.md", "dir.md"]);
    let err = store.dir_delete(location, "dir.md", PRESENT_FILE, Ok(())).unwrap_err();
    assert_eq!((err.code, err.message.as_str()), (ErrorCode::InvalidPath, "Path is not a directory"));
    let err = store.dir_delete(location, "dir2", PRESENT_DIR, Err("busy".to_string())).unwrap_err();
    assert_eq!(err.message, "Failed to delete directory: busy");
    assert_eq!(catalog_paths(&store).len(), 2);
}

#[test]
fn wildcard_characters_in_directory_names_stand_for_themselves() {
    let (mut store, location) = store_with_location("/root");
    for rel in ["a_b/x.md", "axb/x.md", "a%/y.md", "abc/y.md"] {
        store.doc_save(&doc(location, rel), rel, Ok(stat(1, 1, None)), at(1)).unwrap();
    }
    store.dir_move(location, "a_b", "moved", PRESENT_DIR, ABSENT, Ok(()), at(2)).unwrap();
    assert_eq!(catalog_paths(&store), vec!["moved/x.md", "axb/x.md", "a%/y.md", "abc/y.md"]);
    assert!(store.dir_delete(location, "a%", PRESENT_DIR, Ok(())).unwrap());
    assert_eq!(catalog_paths(&store), vec!["moved/x.md", "axb/x.md", "abc/y.md"]);
}

#[test]
fn saved_text_is_in_the_index() {
    let (mut store, location) = store_with_location("/root");
    let doc_id = doc(location, "chapter-1.md");
    store
        .doc_save(&doc_id, "# Chapter One\nThe stormlight archives begin here.", Ok(stat(40, 1, None)), at(1))
        .unwrap();

    let results = rows_holding(&store, "stormlight");
    assert_eq!(results.len(), 1);
    assert_eq!(results[0].location_id, location);
    assert_eq!(results[0].rel_path, "chapter-1.md");
    assert_eq!(results[0].title, "Chapter One");
}

#[test]
fn reconcile_drops_rows_of_deleted_files() {
    let (mut store, location) = store_with_location("/root");
    let files = vec![scanned("notes.md", "# Notes\nIndex me", 1)];

    let indexed = store.reconcile_location_index(location, true, &files, at(2)).unwrap();
    assert_eq!(indexed, 1);
    assert_eq!(rows_holding(&store, "Index").len(), 1);

    let indexed_after_delete = store.reconcile_location_index(location, true, &vec![], at(3)).unwrap();
    assert_eq!(indexed_after_delete, 0);
    assert!(rows_holding(&store, "Index").is_empty());
    assert!(store.documents().is_empty());
}

#[test]
fn reconcile_indexes_one_file_and_makes_it_findable() {
    let (mut store, location) = store_with_location("/data/p");
    let files = vec![scanned("notes.md", "# Title\nBody text", 1)];
    let indexed = store.reconcile_location_index(location, true, &files, at(2)).unwrap();
    assert_eq!(indexed, 1);
    let hits = rows_holding(&store, "Body");
    assert_eq!(hits.len(), 1);
    assert_eq!(hits[0].rel_path, "notes.md");
    assert_eq!(hits[0].title, "Title");
    assert_eq!(hits[0].location_id, location);
    let row = store.document(&doc(location, "notes.md")).unwrap();
    assert_eq!(row.meta.title, Some("Title".to_string()));
    assert_eq!(row.meta.word_count, Some(4));
    assert_eq!(row.meta.content_hash, Some(hash_text("# Title\nBody text")));
    assert_eq!(row.meta.filename, "notes.md");
}

#[test]
fn reconcile_twice_changes_nothing_but_the_time() {
    let (mut store, location) = store_with_location("/root");
    let other = store.location_add("Other".to_string(), "/other".to_string(), at(1)).unwrap().id;
    store.doc_save(&doc(other, "else.md"), "elsewhere", Ok(stat(1, 1, None)), at(1)).unwrap();
    store.doc_save(&doc(location, "stale.md"), "stale", Ok(stat(1, 1, None)), at(1)).unwrap();
    let files = vec![
        scanned("a.md", "# A\nalpha", 1),
        scanned("img.png", "not indexed", 1),
        scanned("sub/b.txt", "beta", 1),
        ScannedFile { rel_path: "bad.md".to_string(), stat: stat(4, 1, None), bytes: Some(vec![0xff, 0xfe, 0x00, 0xd8]) },
    ];
    assert_eq!(store.reconcile_location_index(location, true, &files, at(5)).unwrap(), 2);
    let once = (store.documents(), store.index_rows());
    assert_eq!(store.reconcile_location_index(location, true, &files, at(5)).unwrap(), 2);
    assert_eq!((store.documents(), store.index_rows()), once);
    assert_eq!(store.reconcile_location_index(location, true, &files, at(6)).unwrap(), 2);
    let later = store.documents();
    assert_eq!(store.index_rows(), once.1);
    assert_eq!(later.len(), once.0.len());
    for (new, old) in later.iter().zip(once.0.iter()) {
        assert_eq!(new.meta, old.meta);
        if new.meta.id.location_id == location {
            assert_eq!(new.updated_at, at(6));
        } else {
            assert_eq!(new.updated_at, old.updated_at);
        }
    }
}

#[test]
fn after_reconcile_every_file_has_one_catalog_row_and_the_index_rows_it_is_owed() {
    let (mut store, location) = store_with_location("/root");
    store.upsert_fts_entry(&doc(location, "a.md"), "old", "old text");
    store.upsert_fts_entry(&doc(location, "bad.md"), "old", "stale text");
    let files = vec![
        scanned("a.md", "# A\nalpha", 1),
        ScannedFile { rel_path: "bad.md".to_string(), stat: stat(4, 1, None), bytes: Some(vec![0xfe, 0xff, 0xd8, 0x00]) },
        ScannedFile { rel_path: "unread.md".to_string(), stat: stat(4, 1, None), bytes: None },
        scanned("pic.png", "bytes", 1),
    ];
    assert_eq!(store.reconcile_location_index(location, true, &files, at(5)).unwrap(), 1);
    assert_eq!(catalog_paths(&store), vec!["a.md", "bad.md", "unread.md", "pic.png"]);
    let rows = store.index_rows();
    assert_eq!(rows.len(), 1);
    assert_eq!(rows[0].rel_path, "a.md");
    assert_eq!(rows[0].content, "# A\nalpha");
    assert_eq!(rows[0].title, store.document(&doc(location, "a.md")).unwrap().meta.title.unwrap());
    let bad = store.document(&doc(location, "bad.md")).unwrap();
    assert_eq!(bad.meta.title, Some("bad".to_string()));
    assert_eq!(bad.meta.word_count, None);
    assert_eq!(bad.meta.content_hash, None);
}

#[test]
fn reconcile_removes_rows_of_files_deleted_out_of_band() {
    let (mut store, location) = store_with_location("/root");
    let both = vec![scanned("keep.md", "keeper", 1), scanned("gone.md", "goner", 1)];
    assert_eq!(store.reconcile_location_index(location, true, &both, at(1)).unwrap(), 2);
    assert_eq!(rows_holding(&store, "goner").len(), 1);
    let one = vec![scanned("keep.md", "keeper", 1)];
    assert_eq!(store.reconcile_location_index(location, true, &one, at(2)).unwrap(), 1);
    assert_eq!(catalog_paths(&store), vec!["keep.md"]);
    assert_eq!(index_paths(&store), vec!["keep.md"]);
    assert!(rows_holding(&store, "goner").is_empty());
}

#[test]
fn reconcile_of_a_missing_root_is_no_error_and_changes_nothing() {
    let (mut store, location) = store_with_location("/root");
    store.doc_save(&doc(location, "a.md"), "a", Ok(stat(1, 1, None)), at(1)).unwrap();
    let before = (store.documents(), store.index_rows());
    assert_eq!(store.reconcile_location_index(location, false, &vec![], at(2)).unwrap(), 0);
    assert_eq!((store.documents(), store.index_rows()), before);
}

#[test]
fn reconcile_reports_unknown_locations_and_invalid_paths() {
    let (mut store, location) = store_with_location("/root");
    let err = store.reconcile_location_index(LocationId(42), true, &vec![], at(1)).unwrap_err();
    assert_eq!(err.code, ErrorCode::NotFound);
    assert_eq!(err.message, "Location not found: LocationId(42)");
    let files = vec![scanned("ok.md", "fine", 1), scanned("../out.md", "escape", 1), scanned("late.md", "x", 1)];
    let err = store.reconcile_location_index(location, true, &files, at(1)).unwrap_err();
    assert_eq!(err.code, ErrorCode::InvalidPath);
    assert_eq!(catalog_paths(&store), vec!["ok.md"]);
}

#[test]
fn reconcile_keeps_the_rows_of_other_locations() {
    let (mut store, location) = store_with_location("/root");
    let other = store.location_add("Other".to_string(), "/other".to_string(), at(1)).unwrap().id;
    store.doc_save(&doc(other, "same.md"), "other text", Ok(stat(1, 1, None)), at(1)).unwrap();
    assert_eq!(store.reconcile_location_index(location, true, &vec![], at(2)).unwrap(), 0);
    assert_eq!(store.documents().len(), 1);
    assert_eq!(store.index_rows().len(), 1);
}

#[test]
fn reconcile_indexes_sums_over_locations() {
    let (mut store, first) = store_with_location("/one");
    let second = store.location_add("Two".to_string(), "/two".to_string(), at(1)).unwrap().id;
    let scans = vec![
        LocationScan { location_id: first, root_exists: true, files: vec![scanned("a.md", "a", 1), scanned("b.md", "b", 1)] },
        LocationScan { location_id: second, root_exists: false, files: vec![scanned("c.md", "c", 1)] },
        LocationScan { location_id: second, root_exists: true, files: vec![scanned("d.txt", "d", 1)] },
    ];
    assert_eq!(store.reconcile_indexes(&scans, at(2)).unwrap(), 3);
    assert_eq!(store.index_rows().len(), 3);
    let bad = vec![LocationScan { location_id: LocationId(99), root_exists: true, files: vec![] }];
    assert_eq!(store.reconcile_indexes(&bad, at(3)).unwrap_err().code, ErrorCode::NotFound);
    assert_eq!(store.reconcile_indexes(&vec![], at(3)).unwrap(), 0);
}

#[test]
fn reindex_document_follows_the_file() {
    let (mut store, location) = store_with_location("/root");
    let id = doc(location, "a.md");
    store.reindex_document(&id, &read("# One\nfirst", 1), at(1)).unwrap();
    assert_eq!(store.index_rows()[0].title, "One");
    store.reindex_document(&id, &read("# Two\nsecond", 2), at(2)).unwrap();
    assert_eq!(store.index_rows().len(), 1);
    assert_eq!(store.index_rows()[0].content, "# Two\nsecond");
    assert_eq!(store.document(&id).unwrap().meta.mtime, at(2));
    store.reindex_document(&id, &FileRead::Missing, at(3)).unwrap();
    assert!(store.documents().is_empty() && store.index_rows().is_empty());
    let err = store.reindex_document(&id, &FileRead::Failed("denied".to_string()), at(4)).unwrap_err();
    assert_eq!(err.message, "Failed to read metadata: denied");
    let undecodable = FileRead::Content { bytes: vec![0xff, 0xfe, 0x00, 0xd8], stat: stat(4, 1, None) };
    assert_eq!(store.reindex_document(&id, &undecodable, at(5)).unwrap_err().code, ErrorCode::Io);
    assert_eq!(catalog_paths(&store), vec!["a.md"]);
    assert!(store.index_rows().is_empty());
    let png = doc(location, "p.png");
    store.upsert_fts_entry(&png, "t", "c");
    store.reindex_document(&png, &read("bytes", 1), at(6)).unwrap();
    assert!(store.index_rows().is_empty());
    assert_eq!(
        store.reindex_document(&doc(LocationId(7), "a.md"), &FileRead::Missing, at(1)).unwrap_err().code,
        ErrorCode::NotFound
    );
}

#[test]
fn doc_rename_moves_rows_to_the_new_name() {
    let (mut store, location) = store_with_location("/root");
    let id = doc(location, "dir/old.md");
    store.doc_save(&id, "# T\ntext", Ok(stat(8, 1, Some(1))), at(1)).unwrap();
    assert_eq!(doc_rename_target(&id, "new.md").unwrap().rel_path, "dir/new.md");
    let meta = store
        .doc_rename(&id, "new.md", true, false, Ok(()), &read("# T\ntext", 1), at(2))
        .unwrap();
    assert_eq!(meta.id.rel_path, "dir/new.md");
    assert_eq!(meta.filename, "new.md");
    assert_eq!(catalog_paths(&store), vec!["dir/new.md"]);
    assert_eq!(index_paths(&store), vec!["dir/new.md"]);
    assert_eq!(store.index_rows()[0].title, "T");
}

#[test]
fn doc_rename_refusals() {
    let (mut store, location) = store_with_location("/root");
    let id = doc(location, "a.md");
    store.doc_save(&id, "text", Ok(stat(4, 1, None)), at(1)).unwrap();
    let before = (store.documents(), store.index_rows());
    let file = read("text", 1);
    let err = store.doc_rename(&id, "b.md", false, false, Ok(()), &file, at(2)).unwrap_err();
    assert_eq!((err.code, err.message.as_str()), (ErrorCode::NotFound, "Document not found: /root/a.md"));
    let err = store.doc_rename(&id, "b.md", true, true, Ok(()), &file, at(2)).unwrap_err();
    assert_eq!((err.code, err.message.as_str()), (ErrorCode::Conflict, "A file with that name already exists"));
    let err = store.doc_rename(&id, "../b.md", true, false, Ok(()), &file, at(2)).unwrap_err();
    assert_eq!(err.code, ErrorCode::InvalidPath);
    let err = store.doc_rename(&id, "b.md", true, false, Err("busy".to_string()), &file, at(2)).unwrap_err();
    assert_eq!((err.code, err.message.as_str()), (ErrorCode::Io, "Failed to rename file: busy"));
    assert_eq!((store.documents(), store.index_rows()), before);
    assert_eq!(doc_rename_target(&id, "..").unwrap_err().code, ErrorCode::InvalidPath);
}

#[test]
fn doc_move_moves_rows_to_the_new_path() {
    let (mut store, location) = store_with_location("/root");
    let id = doc(location, "a.md");
    store.doc_save(&id, "text", Ok(stat(4, 1, None)), at(1)).unwrap();
    assert_eq!(doc_move_target(&id, "x/./y.txt").unwrap().rel_path, "x/y.txt");
    let meta = store.doc_move(&id, "x/./y.txt", true, false, Ok(()), &read("text", 1), at(2)).unwrap();
    assert_eq!(meta.id.rel_path, "x/y.txt");
    assert_eq!(catalog_paths(&store), vec!["x/y.txt"]);
    assert_eq!(index_paths(&store), vec!["x/y.txt"]);
    let err = store.doc_move(&doc(location, "x/y.txt"), "z.md", true, true, Ok(()), &read("t", 1), at(3)).unwrap_err();
    assert_eq!(err.message, "A file at the destination already exists");
    let err = store
        .doc_move(&doc(location, "x/y.txt"), "z.md", true, false, Err("busy".to_string()), &read("t", 1), at(3))
        .unwrap_err();
    assert_eq!(err.message, "Failed to move file: busy");
    let bad = FileRead::Content { bytes: vec![0xff], stat: stat(1, 1, None) };
    let err = store.doc_move(&doc(location, "x/y.txt"), "z.md", true, false, Ok(()), &bad, at(3)).unwrap_err();
    assert_eq!(err.message, "Failed to read moved file: stream did not contain valid UTF-8");
    assert_eq!(catalog_paths(&store), vec!["z.md"]);
    assert!(store.index_rows().is_empty());
}

#[test]
fn doc_delete_removes_rows_when_the_file_was_there() {
    let (mut store, location) = store_with_location("/root");
    let id = doc(location, "a.md");
    store.doc_save(&id, "text", Ok(stat(4, 1, None)), at(1)).unwrap();
    assert!(!store.doc_delete(&id, false, Ok(())).unwrap());
    assert_eq!(store.documents().len(), 1);
    let err = store.doc_delete(&id, true, Err("busy".to_string())).unwrap_err();
    assert_eq!(err.message, "Failed to delete file: busy");
    assert!(store.doc_delete(&id, true, Ok(())).unwrap());
    assert!(store.documents().is_empty() && store.index_rows().is_empty());
    assert_eq!(store.doc_delete(&doc(LocationId(9), "a.md"), true, Ok(())).unwrap_err().code, ErrorCode::NotFound);
}

#[test]
fn index_upsert_replaces_every_row_of_the_key() {
    let mut store = Store::new();
    let id = DocId::new(LocationId(1), "a.md".to_string()).unwrap();
    let other = DocId::new(LocationId(2), "a.md".to_string()).unwrap();
    store.upsert_fts_entry(&id, "t1", "c1");
    store.upsert_fts_entry(&other, "o", "oc");
    store.upsert_fts_entry(&id, "t2", "c2");
    let rows = store.index_rows();
    assert_eq!(rows.len(), 2);
    assert_eq!(rows[0].location_id, LocationId(2));
    assert_eq!((rows[1].title.as_str(), rows[1].content.as_str()), ("t2", "c2"));
    store.remove_fts_entry(&id);
    assert_eq!(store.index_rows().len(), 1);
    store.remove_document_from_index(&other);
    assert!(store.index_rows().is_empty());
}

#[test]
fn index_title_falls_back_to_stem_and_untitled() {
    let mut store = Store::new();
    let id = DocId::new(LocationId(1), "dir/name.md".to_string()).unwrap();
    let mut m = meta("name.md", 1, 1, None);
    m.id = id.clone();
    store.index_document_text(&id, &m, "text");
    assert_eq!(store.index_rows()[0].title, "name");
    m.title = Some("Given".to_string());
    store.index_document_text(&id, &m, "text");
    assert_eq!(store.index_rows().len(), 1);
    assert_eq!(store.index_rows()[0].title, "Given");
    let odd = DocId { location_id: LocationId(1), rel_path: "x.md/..".to_string() };
    m.title = None;
    store.index_document_text(&odd, &m, "text");
    assert_eq!(store.index_rows().len(), 1);
}

#[test]
fn store_restores_from_rows_only_when_they_are_sound() {
    let (mut store, location) = store_with_location("/root");
    store.doc_save(&doc(location, "a.md"), "a", Ok(stat(1, 1, None)), at(1)).unwrap();
    let restored =
        Store::from_rows(store.location_list(), store.documents(), store.index_rows(), 2).unwrap();
    assert_eq!(restored.documents(), store.documents());
    assert_eq!(restored.location_list(), store.location_list());
    let twice: Vec<CatalogRow> = store.documents().into_iter().chain(store.documents()).collect();
    assert!(Store::from_rows(store.location_list(), twice, vec![], 2).is_none());
    assert!(Store::from_rows(store.location_list(), vec![], vec![], 1).is_none());
}

#[test]
fn metadata_helpers() {
    assert_eq!(fallback_title_from_path("a/b.c.md"), Some("b.c".to_string()));
    assert_eq!(fallback_title_from_path(".hidden"), Some(".hidden".to_string()));
    assert_eq!(fallback_title_from_path("a/.."), None);
    assert_eq!(filename_of("a/b.md"), "b.md");
    assert_eq!(filename_of(".."), "unknown");
    let failed = text_metadata_from(Err(MarkdownError::ParseError("x".to_string())), "one two", "n.md");
    assert_eq!(failed, (Some("n".to_string()), 2));
    let m = read_doc_metadata(stat(3, 4, Some(5)), LocationId(1), "n.bin".to_string(), "n.bin", Some(&vec![b'a']));
    assert_eq!(m.title, Some("n".to_string()));
    assert_eq!(m.word_count, None);
    assert_eq!((m.size_bytes, m.mtime, m.created_at), (3, at(4), Some(at(5))));
    let id = DocId::new(LocationId(1), "n.md".to_string()).unwrap();
    let answered = MarkdownEngine::new().metadata("plain body", MarkdownProfile::Extended).unwrap();
    assert_eq!(answered.title, None);
    assert_eq!(text_metadata_from(Ok(answered), "one two three", "n.md"), (None, 2));
    let titled = MarkdownEngine::new().metadata("# Top\nbody", MarkdownProfile::Extended).unwrap();
    assert_eq!(text_metadata_from(Ok(titled), "", "n.md"), (Some("Top".to_string()), 3));
    let opened = open_document(&id, b"plain words here", stat(16, 1, None)).unwrap();
    assert_eq!(opened.meta.title, None);
    assert_eq!(opened.meta.word_count, Some(3));
    let saved = saved_document(&id, "plain words here", stat(16, 1, None));
    assert_eq!(saved.new_meta, Some(opened.meta));
    assert_eq!(MarkdownError::ParseError("bad".to_string()).to_text(), "Failed to parse markdown: bad");
}

#[test]
fn conflict_is_told_by_the_file_name_alone() {
    let (mut store, location) = store_with_location("/root");
    let inside = doc(location, "x (conflict)/a.md");
    let result = store.doc_save(&inside, "t", Ok(stat(1, 1, None)), at(1)).unwrap();
    assert!(!result.conflict_detected);
    assert!(!result.new_meta.unwrap().is_conflict);
    assert!(!store.document(&inside).unwrap().meta.is_conflict);
    let opened = store.doc_open(&inside, &read("t", 1)).unwrap();
    assert!(!opened.meta.is_conflict);
    assert!(!saved_document(&inside, "t", stat(1, 1, None)).conflict_detected);

    let copy = doc(location, "x (conflict)/a (conflict).md");
    let result = store.doc_save(&copy, "t", Ok(stat(1, 1, None)), at(1)).unwrap();
    assert!(result.conflict_detected);
    assert!(result.new_meta.unwrap().is_conflict);
    assert!(store.doc_open(&copy, &read("t", 1)).unwrap().meta.is_conflict);
}

#[test]
fn opened_title_is_the_one_the_markdown_gives() {
    let (store, location) = store_with_location("/root");
    let engine = MarkdownEngine::new();
    for text in ["no heading here", "# Top\n\nbody", "---\ntitle: Front\n---\n\n# Top", "## second level only"] {
        let opened = store.doc_open(&doc(location, "dir/name.md"), &read(text, 1)).unwrap();
        let metadata = engine.metadata(text, MarkdownProfile::Extended).unwrap();
        assert_eq!(opened.meta.title, metadata.title);
        assert_eq!(opened.meta.word_count, Some(metadata.word_count));
    }
    let opened = store.doc_open(&doc(location, "dir/name.md"), &read("no heading here", 1)).unwrap();
    assert_eq!(opened.meta.title, None);
}

#[test]
fn scanned_title_falls_back_to_the_stem_only_in_the_index() {
    let (mut store, location) = store_with_location("/root");
    let files = vec![scanned("notes/plain.md", "just words", 1)];
    assert_eq!(store.reconcile_location_index(location, true, &files, at(5)).unwrap(), 1);
    assert_eq!(store.document(&doc(location, "notes/plain.md")).unwrap().meta.title, None);
    assert_eq!(store.index_rows()[0].title, "plain");
}

#[test]
fn rename_tests_the_new_path_before_the_disk() {
    let (mut store, location) = store_with_location("/root");
    let id = doc(location, "a.md");
    store.doc_save(&id, "text", Ok(stat(4, 1, None)), at(1)).unwrap();
    let before = (store.documents(), store.index_rows());
    let file = read("text", 1);
    let err = store.doc_rename(&id, "../b.md", true, true, Ok(()), &file, at(2)).unwrap_err();
    assert_eq!(err.code, ErrorCode::InvalidPath);
    let err = store.doc_move(&id, "../../b.md", true, true, Ok(()), &file, at(2)).unwrap_err();
    assert_eq!(err.code, ErrorCode::InvalidPath);
    let err = store.doc_move(&id, "../b.md", false, false, Ok(()), &file, at(2)).unwrap_err();
    assert_eq!(err.code, ErrorCode::InvalidPath);
    let err = store.doc_move(&id, "b.md", false, true, Ok(()), &file, at(2)).unwrap_err();
    assert_eq!(err.code, ErrorCode::NotFound);
    assert_eq!((store.documents(), store.index_rows()), before);
}

#[test]
fn reconcile_twice_leaves_one_row_for_each_key() {
    let (mut store, location) = store_with_location("/root");
    let other = store.location_add("Other".to_string(), "/other".to_string(), at(101)).unwrap().id;
    store.doc_save(&doc(location, "gone.md"), "old", Ok(stat(3, 1, None)), at(1)).unwrap();
    store.doc_save(&doc(other, "a.md"), "elsewhere", Ok(stat(9, 1, None)), at(1)).unwrap();
    store.upsert_fts_entry(&doc(location, "orphan.md"), "Orphan", "kept in the index");
    let files = vec![scanned("a.md", "# A\nalpha", 1), scanned("b.txt", "beta", 2), scanned("c.png", "x", 3)];
    assert_eq!(store.reconcile_location_index(location, true, &files, at(5)).unwrap(), 2);
    let first = (store.documents_in(location), store.index_rows_in(location));
    assert_eq!(store.reconcile_location_index(location, true, &files, at(5)).unwrap(), 2);
    let second = (store.documents_in(location), store.index_rows_in(location));
    assert_eq!(first, second);
    assert_eq!(second.0.iter().map(|r| r.meta.id.rel_path.as_str()).collect::<Vec<_>>(), vec!["a.md", "b.txt", "c.png"]);
    assert_eq!(second.1.iter().map(|r| r.rel_path.as_str()).collect::<Vec<_>>(), vec!["orphan.md", "a.md", "b.txt"]);
    for rows in [index_keys(&store), catalog_keys(&store)] {
        let mut sorted = rows.clone();
        sorted.sort();
        sorted.dedup();
        assert_eq!(sorted.len(), rows.len());
    }
    assert_eq!(store.documents_in(other).len(), 1);
    assert_eq!(store.index_rows_in(other).len(), 1);
    assert_eq!(store.index_rows_of(&doc(location, "a.md")).len(), 1);
    assert_eq!(store.index_rows_of(&doc(location, "a.md"))[0].content, "# A\nalpha");
    assert!(store.index_rows_of(&doc(location, "c.png")).is_empty());
    assert!(store.index_rows_of(&doc(other, "b.txt")).is_empty());
    assert!(store.documents_in(LocationId(99)).is_empty());
}

#[test]
fn a_path_scanned_twice_holds_what_was_scanned_last() {
    let (mut store, location) = store_with_location("/root");
    let files = vec![scanned("a.md", "# First\nold", 1), scanned("b.md", "b", 1), scanned("./a.md", "# Last\nnew text", 7)];
    assert_eq!(store.reconcile_location_index(location, true, &files, at(5)).unwrap(), 3);
    assert_eq!(catalog_paths(&store), vec!["a.md", "b.md"]);
    let row = store.document(&doc(location, "a.md")).unwrap();
    assert_eq!(row.meta.title, Some("Last".to_string()));
    assert_eq!(row.meta.mtime, at(7));
    let rows = store.index_rows_of(&doc(location, "a.md"));
    assert_eq!(rows.len(), 1);
    assert_eq!((rows[0].title.as_str(), rows[0].content.as_str()), ("Last", "# Last\nnew text"));
    let once = (store.documents(), store.index_rows());
    assert_eq!(store.reconcile_location_index(location, true, &files, at(5)).unwrap(), 3);
    assert_eq!((store.documents(), store.index_rows()), once);
    assert_eq!(index_paths(&store), vec!["b.md", "a.md"]);
}

fn index_keys(store: &Store) -> Vec<String> {
    store.index_rows().into_iter().map(|r| format!("{}:{}", r.location_id.0, r.rel_path)).collect()
}

fn catalog_keys(store: &Store) -> Vec<String> {
    store.documents().into_iter().map(|r| format!("{}:{}", r.meta.id.location_id.0, r.meta.id.rel_path)).collect()
}
