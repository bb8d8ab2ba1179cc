use writer::model::{SearchDateRange, SearchFilters};
use writer::path::LocationId;
use writer::search::{
    build_search_query, directory_like_pattern, escape_like, normalize_file_type, search_hit,
    SqlParam,
};

#[test]
fn blank_query_is_no_search() {
    assert!(build_search_query("", None, 10).is_none());
    assert!(build_search_query("   \t\n", None, 10).is_none());
}

#[test]
fn plain_query_has_query_and_limit() {
    let q = build_search_query("  storm light ", None, 10).unwrap();
    assert!(q.sql.starts_with("SELECT"));
    assert!(q.sql.contains("WHERE docs_fts MATCH ?"));
    assert!(q.sql.ends_with(" ORDER BY bm25(docs_fts), d.mtime DESC LIMIT ?"));
    assert!(!q.sql.contains(" AND d.location_id IN"));
    assert_eq!(q.params, vec![SqlParam::Text("storm light".to_string()), SqlParam::Integer(10)]);
}

#[test]
fn limit_is_held_between_one_and_two_hundred() {
    let limit = |n: usize| build_search_query("x", None, n).unwrap().params.pop().unwrap();
    assert_eq!(limit(0), SqlParam::Integer(1));
    assert_eq!(limit(1), SqlParam::Integer(1));
    assert_eq!(limit(200), SqlParam::Integer(200));
    assert_eq!(limit(201), SqlParam::Integer(200));
    assert_eq!(limit(usize::MAX), SqlParam::Integer(200));
}

#[test]
fn filters_add_clauses_and_values_in_order() {
    let filters = SearchFilters {
        locations: Some(vec![LocationId(4), LocationId(9)]),
        file_types: Some(vec![" .MD ".to_string(), "".to_string(), "..txt".to_string(), " . ".to_string()]),
        date_range: Some(SearchDateRange {
            from: Some("2024-01-01T00:00:00Z".to_string()),
            to: Some("2024-12-31T23:59:59Z".to_string()),
        }),
    };
    let q = build_search_query("x", Some(filters), 50).unwrap();
    let tail = " AND d.location_id IN (?, ?) AND (LOWER(d.filename) LIKE ? OR LOWER(d.filename) LIKE ?) AND d.updated_at >= ? AND d.updated_at <= ? ORDER BY bm25(docs_fts), d.mtime DESC LIMIT ?";
    assert!(q.sql.ends_with(tail));
    assert!(q.sql[..q.sql.len() - tail.len()].ends_with("WHERE docs_fts MATCH ?"));
    assert_eq!(
        q.params,
        vec![
            SqlParam::Text("x".to_string()),
            SqlParam::Integer(4),
            SqlParam::Integer(9),
            SqlParam::Text("%.md".to_string()),
            SqlParam::Text("%.txt".to_string()),
            SqlParam::Text("2024-01-01T00:00:00Z".to_string()),
            SqlParam::Text("2024-12-31T23:59:59Z".to_string()),
            SqlParam::Integer(50),
        ]
    );
    assert_eq!(q.sql.matches('?').count(), q.params.len());
}

#[test]
fn empty_filters_add_nothing() {
    let filters = SearchFilters {
        locations: Some(vec![]),
        file_types: Some(vec![" ".to_string(), ".".to_string()]),
        date_range: Some(SearchDateRange { from: Some(String::new()), to: None }),
    };
    let with = build_search_query("x", Some(filters), 5).unwrap();
    let without = build_search_query("x", None, 5).unwrap();
    assert_eq!(with, without);
    let default = build_search_query("x", Some(SearchFilters::default()), 5).unwrap();
    assert_eq!(default, without);
}

#[test]
fn only_upper_bound_of_the_date_range() {
    let filters = SearchFilters {
        locations: None,
        file_types: None,
        date_range: Some(SearchDateRange { from: None, to: Some("2025".to_string()) }),
    };
    let q = build_search_query("x", Some(filters), 5).unwrap();
    assert!(q.sql.contains(" AND d.updated_at <= ?"));
    assert!(!q.sql.contains(" AND d.updated_at >= ?"));
    assert_eq!(q.params.len(), 3);
}

#[test]
fn file_types_are_trimmed_and_lowercased() {
    assert_eq!(normalize_file_type("  .Md "), "md");
    assert_eq!(normalize_file_type("...TXT"), "txt");
    assert_eq!(normalize_file_type("a.b"), "a.b");
    assert_eq!(normalize_file_type(" . "), "");
}

#[test]
fn search_hit_strips_markers_and_locates_the_query() {
    let hit = search_hit(
        7,
        "notes.md".to_string(),
        "Title".to_string(),
        "some <<Body>> text",
        "# Title\nBody text",
        "  body ",
    );
    assert_eq!(hit.location_id, LocationId(7));
    assert_eq!(hit.rel_path, "notes.md");
    assert_eq!(hit.title, "Title");
    assert_eq!(hit.snippet, "some Body text");
    assert_eq!(hit.matches.len(), 1);
    assert_eq!((hit.matches[0].start, hit.matches[0].end), (5, 9));
    assert_eq!((hit.line, hit.column), (2, 1));
}

#[test]
fn like_patterns_escape_wildcards() {
    assert_eq!(escape_like("plain"), "plain");
    assert_eq!(escape_like("100%_done\\x"), "100\\%\\_done\\\\x");
    assert_eq!(directory_like_pattern("my_dir"), "my\\_dir/%");
    assert_eq!(directory_like_pattern(""), "/%");
}
