use writer::error::{AppError, CommandResult, ErrorCode};
use writer::model::{Encoding, LineEnding, SavePolicy, SortOrder};
use writer::path::PathError;
use writer::text::{
    detect_and_decode, estimate_word_count, extract_highlight_matches, hash_text, html_escape,
    fold_case, is_conflicted_filename, is_indexable_text_path, locate_query_position,
    position_in,
    significant_term,
};

#[test]
fn test_is_conflicted_filename_basic() {
    assert!(is_conflicted_filename("My Doc (conflict).md"));
    assert!(is_conflicted_filename("My Doc conflicted copy.md"));
    assert!(is_conflicted_filename("My Doc (John's conflicted copy).md"));
    assert!(is_conflicted_filename("My Doc (Case conflicted copy 2024-01-15).md"));
}

#[test]
fn test_is_conflicted_filename_false() {
    assert!(!is_conflicted_filename("My Doc.md"));
    assert!(!is_conflicted_filename("Conflict Resolution.md"));
    assert!(!is_conflicted_filename("regular-file.txt"));
}

#[test]
fn conflicted_filename_ignores_case() {
    assert!(is_conflicted_filename("NOTES (CONFLICT).MD"));
    assert!(is_conflicted_filename("Draft (Anna's Conflicted Copy).md"));
}

#[test]
fn test_default_encoding() {
    let enc: Encoding = Default::default();
    assert!(matches!(enc, Encoding::Utf8));
}

#[test]
fn test_default_line_ending() {
    let le: LineEnding = Default::default();
    assert!(matches!(le, LineEnding::Lf));
}

#[test]
fn test_default_save_policy() {
    let policy: SavePolicy = Default::default();
    assert!(matches!(policy, SavePolicy::Atomic));
}

#[test]
fn test_default_sort_order() {
    let order: SortOrder = Default::default();
    assert!(matches!(order, SortOrder::Descending));
}

#[test]
fn hash_text_is_stable() {
    assert_eq!(hash_text("hello"), hash_text("hello"));
    assert_ne!(hash_text("hello"), hash_text("goodbye"));
}

#[test]
fn hash_text_is_sixteen_hex_digits() {
    let h = hash_text("hello");
    assert_eq!(h.len(), 16);
    assert!(h.chars().all(|c| c.is_ascii_hexdigit() && !c.is_ascii_uppercase()));
}

#[test]
fn test_html_escape_function() {
    assert_eq!(html_escape("<script>"), "&lt;script&gt;");
    assert_eq!(html_escape("&"), "&amp;");
    assert_eq!(html_escape("\""), "&quot;");
    assert_eq!(html_escape("'"), "&#x27;");
    assert_eq!(html_escape(">"), "&gt;");
}

#[test]
fn html_escape_handles_every_character_once() {
    assert_eq!(html_escape("a&b<c>d\"e'f"), "a&amp;b&lt;c&gt;d&quot;e&#x27;f");
    assert_eq!(html_escape("&amp;"), "&amp;amp;");
    assert_eq!(html_escape(""), "");
}

#[test]
fn test_detect_encoding_utf8() {
    let bytes = b"Hello, World!";
    let (text, enc) = detect_and_decode(bytes).unwrap();
    assert_eq!(text, "Hello, World!");
    assert!(matches!(enc, Encoding::Utf8));
}

#[test]
fn test_detect_encoding_utf8_bom() {
    let bytes = vec![0xef, 0xbb, 0xbf, b'H', b'i'];
    let (text, enc) = detect_and_decode(&bytes).unwrap();
    assert_eq!(text, "Hi");
    assert!(matches!(enc, Encoding::Utf8WithBom));
}

#[test]
fn detect_encoding_utf16_both_orders() {
    let le = vec![0xff, 0xfe, b'H', 0x00, b'i', 0x00];
    let (text, enc) = detect_and_decode(&le).unwrap();
    assert_eq!(text, "Hi");
    assert_eq!(enc, Encoding::Utf16Le);

    let be = vec![0xfe, 0xff, 0x00, b'H', 0x00, b'i'];
    let (text, enc) = detect_and_decode(&be).unwrap();
    assert_eq!(text, "Hi");
    assert_eq!(enc, Encoding::Utf16Be);

    let odd = vec![0xff, 0xfe, b'H', 0x00, b'i'];
    let (text, _) = detect_and_decode(&odd).unwrap();
    assert_eq!(text, "H");
}

#[test]
fn detect_encoding_rejects_unpaired_surrogate() {
    let le = vec![0xff, 0xfe, 0x00, 0xd8];
    let err = detect_and_decode(&le).unwrap_err();
    assert_eq!(err.code, ErrorCode::Io);
    assert!(err.message.starts_with("Invalid UTF-16 LE: "));

    let be = vec![0xfe, 0xff, 0xd8, 0x00];
    let err = detect_and_decode(&be).unwrap_err();
    assert_eq!(err.code, ErrorCode::Io);
    assert!(err.message.starts_with("Invalid UTF-16 BE: "));
}

#[test]
fn detect_encoding_replaces_invalid_utf8() {
    let bytes = vec![b'a', 0xff, b'b'];
    let (text, enc) = detect_and_decode(&bytes).unwrap();
    assert_eq!(text, "a\u{fffd}b");
    assert_eq!(enc, Encoding::Utf8);
}

#[test]
fn test_detect_line_ending_lf() {
    let text = "line1\nline2\nline3";
    let le = LineEnding::detect(text);
    assert!(matches!(le, LineEnding::Lf));
}

#[test]
fn test_detect_line_ending_crlf() {
    let text = "line1\r\nline2\r\nline3";
    let le = LineEnding::detect(text);
    assert!(matches!(le, LineEnding::CrLf));
}

#[test]
fn detect_line_ending_takes_the_majority() {
    assert_eq!(LineEnding::detect("a\r\nb\r\nc\nd"), LineEnding::CrLf);
    assert_eq!(LineEnding::detect("a\r\nb\nc\nd"), LineEnding::Lf);
    assert_eq!(LineEnding::detect("a\r\nb\nc"), LineEnding::Lf);
    assert_eq!(LineEnding::detect("no line ends"), LineEnding::Lf);
}

#[test]
fn word_count_counts_runs_between_white_space() {
    assert_eq!(estimate_word_count(""), 0);
    assert_eq!(estimate_word_count("   "), 0);
    assert_eq!(estimate_word_count("one"), 1);
    assert_eq!(estimate_word_count("  one\ttwo\n\nthree  "), 3);
    assert_eq!(estimate_word_count("a\u{a0}b\u{3000}c"), 3);
}

#[test]
fn indexable_extensions_ignore_case() {
    assert!(is_indexable_text_path("notes.md"));
    assert!(is_indexable_text_path("a/b/NOTES.MD"));
    assert!(is_indexable_text_path("x.markdown"));
    assert!(is_indexable_text_path("x.mdx"));
    assert!(is_indexable_text_path("x.Txt"));
    assert!(!is_indexable_text_path("x.rs"));
    assert!(!is_indexable_text_path("md"));
    assert!(!is_indexable_text_path(".md"));
    assert!(!is_indexable_text_path("a.md/b"));
    assert!(!is_indexable_text_path("x.md."));
}

#[test]
fn highlight_markers_become_ranges() {
    let (plain, matches) = extract_highlight_matches("the <<quick>> brown <<fox>>");
    assert_eq!(plain, "the quick brown fox");
    assert_eq!(matches.len(), 2);
    assert_eq!((matches[0].start, matches[0].end), (4, 9));
    assert_eq!((matches[1].start, matches[1].end), (16, 19));
}

#[test]
fn highlight_markers_without_partner_are_dropped() {
    let (plain, matches) = extract_highlight_matches("a>>b<<c");
    assert_eq!(plain, "abc");
    assert!(matches.is_empty());

    let (plain, matches) = extract_highlight_matches("<<<x>>>");
    assert_eq!(plain, "<x>");
    assert_eq!((matches[0].start, matches[0].end), (0, 2));
}

#[test]
fn highlight_ranges_count_characters() {
    let (plain, matches) = extract_highlight_matches("\u{e9}t\u{e9} <<\u{e9}t\u{e9}>>");
    assert_eq!(plain, "\u{e9}t\u{e9} \u{e9}t\u{e9}");
    assert_eq!((matches[0].start, matches[0].end), (4, 7));
}

#[test]
fn significant_term_skips_operators_and_quotes() {
    assert_eq!(significant_term("storm"), "storm");
    assert_eq!(significant_term("  AND or \"Storm\" light"), "Storm");
    assert_eq!(significant_term("NOT"), "NOT");
    assert_eq!(significant_term("and OR"), "and OR");
    assert_eq!(significant_term("\"\"\""), "");
    assert_eq!(significant_term("ANDROID app"), "ANDROID");
}

#[test]
fn locate_query_position_reports_line_and_column() {
    let content = "# Title\nBody text\nmore Body";
    assert_eq!(locate_query_position(content, "body"), (2, 1));
    assert_eq!(locate_query_position(content, "TEXT"), (2, 6));
    assert_eq!(locate_query_position(content, "title OR body"), (1, 3));
    assert_eq!(locate_query_position(content, "absent"), (1, 1));
    assert_eq!(locate_query_position(content, ""), (1, 1));
    assert_eq!(locate_query_position(content, "\"more\""), (3, 1));
}

#[test]
fn position_in_counts_characters_not_bytes() {
    assert_eq!(position_in("\u{e9}\u{e9} x", "x"), (1, 4));
    assert_eq!(position_in("a\nb", "b"), (2, 1));
    assert_eq!(position_in("abc", ""), (1, 1));
    assert_eq!(position_in("abc", "d"), (1, 1));
    assert_eq!(position_in("ABC", "bc"), (1, 2));
    // The term is taken as it is given: only the text is folded.
    assert_eq!(position_in("abc", "BC"), (1, 1));
}

#[test]
fn position_counts_characters_where_lowercase_is_longer() {
    // The capital I with a dot becomes two characters in lowercase.
    assert_eq!(fold_case("\u{130}"), "i\u{307}");
    assert_eq!(locate_query_position("\u{130}\u{e9}", "\u{e9}"), (1, 2));
    assert_eq!(locate_query_position("\u{130}\nx", "x"), (2, 1));
    assert_eq!(locate_query_position("\u{130}\u{130}\nab\u{130}Q", "q"), (2, 4));
    assert_eq!(locate_query_position("\u{130}x", "\u{130}X"), (1, 1));
    assert_eq!(locate_query_position("a\u{130}x", "\u{130}X"), (1, 2));
    // A match starts where the folding of a character starts, never inside it.
    assert_eq!(locate_query_position("\u{130}\u{307}", "\u{307}"), (1, 2));
    assert_eq!(locate_query_position("x\u{130}", "\u{307}"), (1, 1));
    assert_eq!(locate_query_position("x\u{130}", "i"), (1, 2));
}

#[test]
fn fold_case_lowers_each_character() {
    assert_eq!(fold_case("Hello W\u{d6}RLD 12"), "hello w\u{f6}rld 12");
    assert_eq!(fold_case(""), "");
    assert_eq!(locate_query_position("One TWO three", "two"), (1, 5));
    assert_eq!(locate_query_position("one two", "NOT \"TWO\""), (1, 5));
}

#[test]
fn app_error_builders_set_code_and_message() {
    let e = AppError::new(ErrorCode::Parse, "bad");
    assert_eq!(e.code, ErrorCode::Parse);
    assert_eq!(e.message, "bad");
    assert_eq!(e.context, None);
    assert_eq!(AppError::not_found("x").code, ErrorCode::NotFound);
    assert_eq!(AppError::permission_denied("x").code, ErrorCode::PermissionDenied);
    assert_eq!(AppError::invalid_path("x").code, ErrorCode::InvalidPath);
    assert_eq!(AppError::io("x").code, ErrorCode::Io);
    let with = AppError::io("disk").with_context("while saving");
    assert_eq!(with.context, Some("while saving".to_string()));
    assert_eq!(with.to_text(), "[IO_ERROR] disk (context: while saving)");
    assert_eq!(AppError::new(ErrorCode::Conflict, "dup").to_text(), "[CONFLICT] dup");
    assert_eq!(AppError::new(ErrorCode::Index, "i").to_text(), "[INDEX_ERROR] i");
    assert_eq!(AppError::not_found("n").to_text(), "[NOT_FOUND] n");
    assert_eq!(AppError::permission_denied("p").to_text(), "[PERMISSION_DENIED] p");
    assert_eq!(AppError::invalid_path("v").to_text(), "[INVALID_PATH] v");
    assert_eq!(AppError::new(ErrorCode::Parse, "q").to_text(), "[PARSE_ERROR] q");
}

#[test]
fn path_errors_become_invalid_path_errors() {
    let e: AppError = PathError::PathTraversalAttempt.into();
    assert_eq!(e.code, ErrorCode::InvalidPath);
    assert_eq!(e.message, "Path traversal attempt detected");
    assert_eq!(e.context, Some("Access denied: path escapes location root".to_string()));

    let e: AppError = PathError::EmptyPath.into();
    assert_eq!(e.message, "Empty path is not allowed");
    assert_eq!(e.context, None);

    let e: AppError = PathError::InvalidPath("nope".to_string()).into();
    assert_eq!(e.message, "nope");
    assert_eq!(PathError::InvalidPath("nope".to_string()).to_text(), "Invalid path: nope");
    assert_eq!(PathError::EmptyPath.to_text(), "Empty path is not allowed");
    assert_eq!(PathError::PathTraversalAttempt.to_text(), "Path traversal attempt detected");
}

#[test]
fn command_result_tells_success_from_failure() {
    let ok: CommandResult<i32> = CommandResult::ok(3);
    assert!(ok.is_ok());
    assert!(!ok.is_err());
    let err: CommandResult<i32> = CommandResult::err(AppError::io("x"));
    assert!(err.is_err());
    assert!(!err.is_ok());
}
