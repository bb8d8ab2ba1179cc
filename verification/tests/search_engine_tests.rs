use chrono::{TimeZone, Utc};
use rusqlite::types::Value;
use rusqlite::{params_from_iter, Connection};
use writer::catalog::Store;
use writer::docmeta::FileStat;
use writer::dirops::EntryState;
use writer::model::{SearchDateRange, SearchFilters, SearchHit, Timestamp};
use writer::path::{DocId, LocationId};
use writer::reconcile::ScannedFile;
use writer::search::{build_search_query, search_hit, SqlParam};

fn at(secs: i64) -> Timestamp {
    Timestamp { secs, nanos: 0 }
}

fn rfc3339(t: Timestamp) -> String {
    Utc.timestamp_opt(t.secs, t.nanos).single().unwrap().to_rfc3339()
}

fn stat(mtime: i64) -> FileStat {
    FileStat { size_bytes: 1, mtime: at(mtime), created_at: Some(at(mtime)) }
}

fn scanned(rel: &str, content: &str, mtime: i64) -> ScannedFile {
    ScannedFile { rel_path: rel.to_string(), stat: stat(mtime), bytes: Some(content.as_bytes().to_vec()) }
}

/// A database with the store's rows in it, as the application keeps it.
fn database_of(store: &Store) -> Connection {
    let conn = Connection::open_in_memory().unwrap();
    conn.execute_batch(
        "CREATE TABLE documents (
            location_id INTEGER NOT NULL,
            rel_path TEXT NOT NULL,
            filename TEXT NOT NULL,
            mtime TEXT NOT NULL,
            title TEXT,
            updated_at TEXT NOT NULL,
            PRIMARY KEY (location_id, rel_path)
        );
        CREATE VIRTUAL TABLE docs_fts USING fts5(
            location_id UNINDEXED,
            rel_path UNINDEXED,
            title,
            content,
            tokenize = 'unicode61'
        );",
    )
    .unwrap();
    for row in store.documents() {
        conn.execute(
            "INSERT INTO documents (location_id, rel_path, filename, mtime, title, updated_at)
             VALUES (?1, ?2, ?3, ?4, ?5, ?6)",
            (
                row.meta.id.location_id.0,
                row.meta.id.rel_path,
                row.meta.filename,
                rfc3339(row.meta.mtime),
                row.meta.title,
                rfc3339(row.updated_at),
            ),
        )
        .unwrap();
    }
    for row in store.index_rows() {
        conn.execute(
            "INSERT INTO docs_fts (location_id, rel_path, title, content) VALUES (?1, ?2, ?3, ?4)",
            (row.location_id.0, row.rel_path, row.title, row.content),
        )
        .unwrap();
    }
    conn
}

fn search(store: &Store, query: &str, filters: Option<SearchFilters>, limit: usize) -> Vec<SearchHit> {
    let Some(built) = build_search_query(query, filters, limit) else {
        return Vec::new();
    };
    let conn = database_of(store);
    let values: Vec<Value> = built
        .params
        .iter()
        .map(|p| match p {
            SqlParam::Text(t) => Value::from(t.clone()),
            SqlParam::Integer(i) => Value::from(*i),
        })
        .collect();
    let mut stmt = conn.prepare(&built.sql).unwrap();
    let rows = stmt
        .query_map(params_from_iter(values.iter()), |row| {
            Ok((
                row.get::<_, i64>(0)?,
                row.get::<_, String>(1)?,
                row.get::<_, String>(2)?,
                row.get::<_, String>(3)?,
                row.get::<_, String>(4)?,
            ))
        })
        .unwrap();
    rows.map(|row| {
        let (location_id, rel_path, title, snippet, content) = row.unwrap();
        search_hit(location_id, rel_path, title, &snippet, &content, query)
    })
    .collect()
}

fn store_with_location(root: &str) -> (Store, LocationId) {
    let mut store = Store::new();
    let id = store.location_add("L".to_string(), root.to_string(), at(1)).unwrap().id;
    (store, id)
}

fn doc(location: LocationId, rel: &str) -> DocId {
    DocId::new(location, rel.to_string()).unwrap()
}

#[test]
fn reconciled_file_is_found_by_search() {
    let (mut store, location) = store_with_location("/data/p");
    let files = vec![scanned("notes.md", "# Title\nBody text", 10)];
    assert_eq!(store.reconcile_location_index(location, true, &files, at(11)).unwrap(), 1);

    let hits = search(&store, "Body", None, 10);
    assert_eq!(hits.len(), 1);
    assert_eq!(hits[0].rel_path, "notes.md");
    assert_eq!(hits[0].location_id, location);
    assert_eq!(hits[0].title, "Title");
    assert_eq!((hits[0].line, hits[0].column), (2, 1));
    assert!(hits[0].snippet.contains("Body text"));
    assert!(!hits[0].snippet.contains("<<"));
    assert_eq!(hits[0].matches.len(), 1);
    let m = hits[0].matches[0];
    let marked: String = hits[0].snippet.chars().skip(m.start).take(m.end - m.start).collect();
    assert_eq!(marked, "Body");
}

#[test]
fn search_follows_a_directory_move() {
    let (mut store, location) = store_with_location("/root");
    store.doc_save(&doc(location, "old/sub/a.md"), "# A\n\nalphatoken", Ok(stat(1)), at(1)).unwrap();
    store.doc_save(&doc(location, "old/sub/deep/b.md"), "# B\n\ndeeptoken", Ok(stat(1)), at(1)).unwrap();
    let present = EntryState { exists: true, is_dir: true };
    let absent = EntryState { exists: false, is_dir: false };
    let moved = store.dir_move(location, "old/sub", "new/home", present, absent, Ok(()), at(2)).unwrap();
    assert_eq!(moved, "new/home");

    let alpha = search(&store, "alphatoken", None, 10);
    assert_eq!(alpha.len(), 1);
    assert_eq!(alpha[0].rel_path, "new/home/a.md");
    let deep = search(&store, "deeptoken", None, 10);
    assert_eq!(deep.len(), 1);
    assert_eq!(deep[0].rel_path, "new/home/deep/b.md");
    for hit in search(&store, "alphatoken OR deeptoken", None, 10) {
        assert!(!hit.rel_path.starts_with("old/sub"));
    }
}

#[test]
fn file_deleted_out_of_band_leaves_search_after_reconcile() {
    let (mut store, location) = store_with_location("/root");
    let files = vec![scanned("notes.md", "# Notes\nIndex me", 1)];
    assert_eq!(store.reconcile_location_index(location, true, &files, at(2)).unwrap(), 1);
    assert_eq!(search(&store, "Index", None, 10).len(), 1);

    assert_eq!(store.reconcile_location_index(location, true, &vec![], at(3)).unwrap(), 0);
    assert!(search(&store, "Index", None, 10).is_empty());
    assert!(store.documents().is_empty());
    assert!(store.index_rows().is_empty());
}

#[test]
fn saved_document_is_found_and_blank_query_finds_nothing() {
    let (mut store, location) = store_with_location("/root");
    store
        .doc_save(&doc(location, "chapter-1.md"), "# Chapter One\nThe stormlight archives begin here.", Ok(stat(1)), at(1))
        .unwrap();
    let results = search(&store, "stormlight", None, 10);
    assert_eq!(results.len(), 1);
    assert_eq!(results[0].location_id, location);
    assert_eq!(results[0].rel_path, "chapter-1.md");
    assert!(!results[0].snippet.is_empty());
    assert!(search(&store, "   ", None, 10).is_empty());
    assert!(search(&store, "absentword", None, 10).is_empty());
}

#[test]
fn search_filters_by_location_type_and_date_and_holds_the_limit() {
    let (mut store, first) = store_with_location("/one");
    let second = store.location_add("Two".to_string(), "/two".to_string(), at(2)).unwrap().id;
    store.doc_save(&doc(first, "a.md"), "common alpha", Ok(stat(10)), at(100)).unwrap();
    store.doc_save(&doc(first, "b.txt"), "common beta", Ok(stat(20)), at(200)).unwrap();
    store.doc_save(&doc(second, "c.md"), "common gamma", Ok(stat(30)), at(300)).unwrap();

    assert_eq!(search(&store, "common", None, 10).len(), 3);
    assert_eq!(search(&store, "common", None, 0).len(), 1);
    assert_eq!(search(&store, "common", None, 2).len(), 2);

    let by_location =
        SearchFilters { locations: Some(vec![second]), file_types: None, date_range: None };
    let hits = search(&store, "common", Some(by_location), 10);
    assert_eq!(hits.len(), 1);
    assert_eq!(hits[0].rel_path, "c.md");

    let by_type =
        SearchFilters { locations: None, file_types: Some(vec![".MD".to_string()]), date_range: None };
    let mut paths: Vec<String> = search(&store, "common", Some(by_type), 10).into_iter().map(|h| h.rel_path).collect();
    paths.sort();
    assert_eq!(paths, vec!["a.md", "c.md"]);

    let by_date = SearchFilters {
        locations: None,
        file_types: None,
        date_range: Some(SearchDateRange { from: Some(rfc3339(at(150))), to: Some(rfc3339(at(250))) }),
    };
    let hits = search(&store, "common", Some(by_date), 10);
    assert_eq!(hits.len(), 1);
    assert_eq!(hits[0].rel_path, "b.txt");
}

#[test]
fn equally_relevant_hits_come_newest_first() {
    let (mut store, location) = store_with_location("/root");
    store.doc_save(&doc(location, "old.md"), "same words here", Ok(stat(10)), at(1)).unwrap();
    store.doc_save(&doc(location, "new.md"), "same words here", Ok(stat(99)), at(1)).unwrap();
    store.doc_save(&doc(location, "mid.md"), "same words here", Ok(stat(50)), at(1)).unwrap();
    let paths: Vec<String> = search(&store, "words", None, 10).into_iter().map(|h| h.rel_path).collect();
    assert_eq!(paths, vec!["new.md", "mid.md", "old.md"]);
}

const PRESENT_DIR: EntryState = EntryState { exists: true, is_dir: true };
const ABSENT: EntryState = EntryState { exists: false, is_dir: false };

#[test]
fn test_directory_move_updates_catalog_paths() {
    let (mut store, location) = store_with_location("/root");

    let doc_a = doc(location, "old/sub/a.md");
    let doc_b = doc(location, "old/sub/deep/b.md");
    store.doc_save(&doc_a, "# A\n\nalphatoken", Ok(stat(1)), at(1)).unwrap();
    store.doc_save(&doc_b, "# B\n\ndeeptoken", Ok(stat(1)), at(1)).unwrap();

    let moved = store.dir_move(location, "old/sub", "new/archive", PRESENT_DIR, ABSENT, Ok(()), at(2)).unwrap();
    assert_eq!(moved, "new/archive");
    assert_eq!(doc(location, "new/archive/a.md").resolve("/root"), "/root/new/archive/a.md");
    assert_eq!(doc(location, "new/archive/deep/b.md").resolve("/root"), "/root/new/archive/deep/b.md");

    let alpha_hits = search(&store, "alphatoken", None, 10);
    assert_eq!(alpha_hits.len(), 1);
    assert_eq!(alpha_hits[0].rel_path, "new/archive/a.md");

    let deep_hits = search(&store, "deeptoken", None, 10);
    assert_eq!(deep_hits.len(), 1);
    assert_eq!(deep_hits[0].rel_path, "new/archive/deep/b.md");
}

#[test]
fn test_search_returns_indexed_results() {
    let (mut store, location) = store_with_location("/root");

    let doc_id = doc(location, "chapter-1.md");
    store
        .doc_save(&doc_id, "# Chapter One\nThe stormlight archives begin here.", Ok(stat(1)), at(1))
        .unwrap();

    let results = search(&store, "stormlight", None, 10);
    assert_eq!(results.len(), 1);
    assert_eq!(results[0].location_id, location);
    assert_eq!(results[0].rel_path, "chapter-1.md");
    assert!(!results[0].snippet.is_empty());
}

#[test]
fn test_reconcile_location_index_removes_deleted_docs_from_search() {
    let (mut store, location) = store_with_location("/root");
    let files = vec![scanned("notes.md", "# Notes\nIndex me", 1)];

    let indexed = store.reconcile_location_index(location, true, &files, at(2)).unwrap();
    assert_eq!(indexed, 1);
    assert_eq!(search(&store, "Index", None, 10).len(), 1);

    let indexed_after_delete = store.reconcile_location_index(location, true, &vec![], at(3)).unwrap();
    assert_eq!(indexed_after_delete, 0);
    assert!(search(&store, "Index", None, 10).is_empty());
}
