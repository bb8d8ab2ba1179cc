use writer::diagnostics::{Diagnostic, DiagnosticSeverity, Diagnostics};
use writer::engine::{assemble_html_document, has_sourcepos, ExportOptions, MarkdownEngine};
use writer::front_matter::{
    extract_front_matter, parse_toml_like_front_matter, parse_yaml_like_front_matter,
};
use writer::md_types::{
    DocumentMetadata, FrontMatter, FrontMatterFormat, Heading, LinkRef, MarkdownProfile, TaskStats,
};

#[test]
fn test_export_html_standalone() {
    let engine = MarkdownEngine::new();
    let markdown = "# Hello World\n\nThis is a test.";
    let options = ExportOptions::standalone();
    let html = engine.export_html(markdown, MarkdownProfile::GfmSafe, &options).unwrap();

    assert!(html.starts_with("<!DOCTYPE html>"));
    assert!(html.contains("<html"));
    assert!(html.contains("<head>"));
    assert!(html.contains("<body>"));
    assert!(html.contains("<main>"));
    assert!(html.contains("<h1"));
    assert!(html.contains("Hello World"));
    assert!(html.contains("</html>"));
}

#[test]
fn test_export_html_body_only() {
    let engine = MarkdownEngine::new();
    let markdown = "# Hello World";
    let html = engine.export_html_body(markdown, MarkdownProfile::GfmSafe).unwrap();

    assert!(!html.contains("<!DOCTYPE html>"));
    assert!(!html.contains("<html"));
    assert!(html.contains("<h1"));
    assert!(html.contains("Hello World"));
}

#[test]
fn test_export_html_with_front_matter_title() {
    let engine = MarkdownEngine::new();
    let markdown = "---\ntitle: My Document\n---\n\n# Content";
    let options = ExportOptions::standalone();
    let html = engine.export_html(markdown, MarkdownProfile::Extended, &options).unwrap();

    assert!(html.contains("<title>My Document</title>"));
    assert!(html.contains("<h1>My Document</h1>"));
}

#[test]
fn test_export_html_with_custom_title() {
    let engine = MarkdownEngine::new();
    let markdown = "# Hello";
    let mut options = ExportOptions::standalone();
    options.title = Some("Custom Title".to_string());
    let html = engine.export_html(markdown, MarkdownProfile::GfmSafe, &options).unwrap();

    assert!(html.contains("<title>Custom Title</title>"));
}

#[test]
fn test_export_html_includes_default_styles() {
    let engine = MarkdownEngine::new();
    let markdown = "# Test";
    let options = ExportOptions::standalone();
    let html = engine.export_html(markdown, MarkdownProfile::GfmSafe, &options).unwrap();

    assert!(html.contains("<style>"));
    assert!(html.contains("body {"));
    assert!(html.contains("font-family"));
}

#[test]
fn test_export_html_without_styles() {
    let engine = MarkdownEngine::new();
    let markdown = "# Test";
    let mut options = ExportOptions::standalone();
    options.include_default_styles = false;
    let html = engine.export_html(markdown, MarkdownProfile::GfmSafe, &options).unwrap();

    assert!(!html.contains("<style>"));
}

#[test]
fn test_export_html_with_custom_css() {
    let engine = MarkdownEngine::new();
    let markdown = "# Test";
    let mut options = ExportOptions::standalone();
    options.custom_css = Some(".custom { color: red; }".to_string());
    let html = engine.export_html(markdown, MarkdownProfile::GfmSafe, &options).unwrap();

    assert!(html.contains(".custom { color: red; }"));
}

#[test]
fn test_export_html_with_external_css() {
    let engine = MarkdownEngine::new();
    let markdown = "# Test";
    let mut options = ExportOptions::standalone();
    options.external_css_urls = vec!["https://example.com/style.css".to_string()];
    let html = engine.export_html(markdown, MarkdownProfile::GfmSafe, &options).unwrap();

    assert!(html.contains("<link rel=\"stylesheet\" href=\"https://example.com/style.css\">"));
}

#[test]
fn test_export_html_escapes_title() {
    let engine = MarkdownEngine::new();
    let markdown = "# Test <script>alert('xss')</script>";
    let options = ExportOptions::standalone();
    let html = engine.export_html(markdown, MarkdownProfile::GfmSafe, &options).unwrap();

    assert!(!html.contains("<script>"));
    assert!(!html.to_lowercase().contains("<script") && !html.contains("</script>"));
}

#[test]
fn test_export_options_embed() {
    let opts = ExportOptions::embed();
    assert!(!opts.include_default_styles);
    assert!(!opts.include_header);
    assert!(!opts.include_footer);
}

#[test]
fn test_export_html_with_footer() {
    let engine = MarkdownEngine::new();
    let markdown = "# Test";
    let options = ExportOptions::standalone();
    let html = engine.export_html(markdown, MarkdownProfile::GfmSafe, &options).unwrap();

    assert!(html.contains("<footer>"));
    assert!(html.contains("Exported from Writer"));
}

#[test]
fn test_export_html_metadata_display() {
    let engine = MarkdownEngine::new();
    let markdown = "---\ntitle: Doc\nauthor: John Doe\ndate: 2024-01-15\n---\n\n# Content";
    let options = ExportOptions::standalone();
    let html = engine.export_html(markdown, MarkdownProfile::Extended, &options).unwrap();

    assert!(html.contains("class=\"author\""));
    assert!(html.contains("John Doe"));
    assert!(html.contains("class=\"date\""));
    assert!(html.contains("2024-01-15"));
}

#[test]
fn export_options_default_and_standalone() {
    let d = ExportOptions::default();
    assert!(d.include_default_styles && d.include_header && d.include_metadata);
    assert!(!d.include_footer);
    assert_eq!(d.language, "en");
    let s = ExportOptions::standalone();
    assert!(s.include_footer);
    assert_eq!(s.title, None);
    assert!(s.external_css_urls.is_empty());
}

#[test]
fn assembled_page_is_exact() {
    let mut options = ExportOptions::embed();
    options.include_header = true;
    options.include_metadata = true;
    options.language = "de".to_string();
    let author = "A & B".to_string();
    let title = "T<1>".to_string();
    let page = assemble_html_document(&options, Some(&title), Some(&author), None, 1234, "<p>x</p>\n");
    let expected = "<!DOCTYPE html>\n<html lang=\"de\">\n<head>\n  <meta charset=\"UTF-8\">\n  <meta name=\"viewport\" content=\"width=device-width, initial-scale=1.0\">\n  <title>T&lt;1&gt;</title>\n</head>\n<body>\n  <header>\n    <h1>T&lt;1&gt;</h1>\n    <div class=\"metadata\">\n      <span class=\"author\">A &amp; B</span>\n      <span class=\"word-count\">1234 words</span>\n    </div>\n  </header>\n  <main>\n<p>x</p>\n  </main>\n</body>\n</html>\n";
    assert_eq!(page, expected);
}

#[test]
fn assembled_page_falls_back_to_fixed_title() {
    let options = ExportOptions::embed();
    let page = assemble_html_document(&options, None, None, None, 0, "");
    assert!(page.contains("<title>Exported Document</title>"));
    assert!(!page.contains("<header>"));
    assert!(!page.contains("<footer>"));
}

#[test]
fn outline_lists_headings_in_order() {
    let engine = MarkdownEngine::new();
    let result = engine
        .render("# Heading 1\n\n## Heading 2\n\n### Heading 3", MarkdownProfile::GfmSafe)
        .unwrap();

    assert_eq!(result.metadata.outline.len(), 3);
    assert_eq!(result.metadata.outline[0].level, 1);
    assert_eq!(result.metadata.outline[0].text, "Heading 1");
    assert_eq!(result.metadata.outline[1].level, 2);
    assert_eq!(result.metadata.outline[2].level, 3);
}

#[test]
fn word_count_counts_every_word() {
    let engine = MarkdownEngine::new();
    let result = engine.render("This is a test with seven words here.", MarkdownProfile::GfmSafe).unwrap();
    assert_eq!(result.metadata.word_count, 8);
}

#[test]
fn metadata_prefers_front_matter_title() {
    let engine = MarkdownEngine::new();
    let metadata = engine
        .metadata("---\ntitle: Front Matter Title\n---\n\n# Heading\n\nBody words", MarkdownProfile::Extended)
        .unwrap();

    assert_eq!(metadata.title, Some("Front Matter Title".to_string()));
    assert_eq!(metadata.word_count, 4);
}

#[test]
fn task_items_are_counted() {
    let engine = MarkdownEngine::new();
    let result = engine.render("- [ ] Unchecked\n- [x] Checked", MarkdownProfile::GfmSafe).unwrap();
    assert_eq!(result.metadata.task_items.total, 2);
    assert_eq!(result.metadata.task_items.completed, 1);
}

#[test]
fn rendered_html_carries_source_positions() {
    let engine = MarkdownEngine::new();
    let result = engine.render("# Heading\n\nParagraph", MarkdownProfile::GfmSafe).unwrap();
    assert!(has_sourcepos(&result.html));
    assert!(result.html.contains("data-sourcepos"));
}

#[test]
fn raw_html_is_not_passed_through() {
    let engine = MarkdownEngine::new();
    let result = engine.render("<script>alert('xss')</script>", MarkdownProfile::GfmSafe).unwrap();
    assert!(!result.html.contains("<script>"));
}

#[test]
fn extended_profile_reads_front_matter_fields() {
    let engine = MarkdownEngine::new();
    let text = "---\ntitle: My Document\nauthor: Jane\n---\n\n# Content";
    let result = engine.render(text, MarkdownProfile::Extended).unwrap();

    assert_eq!(result.metadata.front_matter.format, Some(FrontMatterFormat::Yaml));
    assert_eq!(result.metadata.front_matter.get("title"), Some(&"My Document".to_string()));
    assert_eq!(result.metadata.front_matter.get("author"), Some(&"Jane".to_string()));
    assert_eq!(result.metadata.title, Some("My Document".to_string()));
}

#[test]
fn front_matter_is_left_alone_outside_extended() {
    let engine = MarkdownEngine::new();
    let text = "---\ntitle: My Document\n---\n\n# Content";
    let result = engine.render(text, MarkdownProfile::GfmSafe).unwrap();
    assert!(result.metadata.front_matter.fields.is_empty());
}

#[test]
fn toml_front_matter_fields_are_read() {
    let engine = MarkdownEngine::new();
    let text = "+++\ntitle = \"TOML Doc\"\n+++\n\n# Content";
    let result = engine.render(text, MarkdownProfile::Extended).unwrap();
    assert_eq!(result.metadata.front_matter.format, Some(FrontMatterFormat::Toml));
    assert_eq!(result.metadata.front_matter.get("title"), Some(&"TOML Doc".to_string()));
}

#[test]
fn yaml_fields_keep_scalars_only() {
    let fields = parse_yaml_like_front_matter(
        "title: \"Doc\"\ncount: 3\ndraft: true\nnothing: null\ntags:\n  - a\n  - b\nnested:\n  key: value\n",
    );
    let get = |k: &str| fields.iter().find(|f| f.0 == k).map(|f| f.1.clone());
    assert_eq!(get("title"), Some("Doc".to_string()));
    assert_eq!(get("count"), Some("3".to_string()));
    assert_eq!(get("draft"), Some("true".to_string()));
    assert_eq!(get("nothing"), Some("null".to_string()));
    assert_eq!(get("tags"), None);
    assert_eq!(get("nested"), None);
    assert_eq!(fields.len(), 4);
}

#[test]
fn toml_fields_keep_scalars_only() {
    let fields = parse_toml_like_front_matter(
        "title = \"Doc\"\ncount = 3\ndraft = false\ntags = [\"a\", \"b\"]\n[nested]\nkey = \"value\"\n",
    );
    let get = |k: &str| fields.iter().find(|f| f.0 == k).map(|f| f.1.clone());
    assert_eq!(get("title"), Some("Doc".to_string()));
    assert_eq!(get("count"), Some("3".to_string()));
    assert_eq!(get("draft"), Some("false".to_string()));
    assert_eq!(get("tags"), None);
    assert_eq!(get("nested"), None);
}

#[test]
fn front_matter_that_does_not_parse_has_no_fields() {
    assert!(parse_yaml_like_front_matter(": : :\n\t- x").is_empty());
    assert!(parse_yaml_like_front_matter("just a string").is_empty());
    assert!(parse_toml_like_front_matter("not toml at all").is_empty());
}

#[test]
fn extract_front_matter_splits_body() {
    let (body, fm) = extract_front_matter("  \n---\ntitle: T\n---\nBody\n---\nmore");
    assert_eq!(body, "Body\n---\nmore");
    assert_eq!(fm.raw, Some("\ntitle: T".to_string()));
    assert_eq!(fm.format, Some(FrontMatterFormat::Yaml));
    assert_eq!(fm.get("title"), Some(&"T".to_string()));

    let (body, fm) = extract_front_matter("+++\na = 1\n+++\n\nBody");
    assert_eq!(body, "\nBody");
    assert_eq!(fm.format, Some(FrontMatterFormat::Toml));
    assert_eq!(fm.get("a"), Some(&"1".to_string()));
}

#[test]
fn extract_front_matter_without_closing_line_is_all_body() {
    let text = "---\ntitle: T\nno end";
    let (body, fm) = extract_front_matter(text);
    assert_eq!(body, text);
    assert_eq!(fm, FrontMatter::default());

    let (body, fm) = extract_front_matter("  plain");
    assert_eq!(body, "  plain");
    assert!(fm.raw.is_none() && fm.format.is_none() && fm.fields.is_empty());
}

#[test]
fn front_matter_format_delimiters() {
    assert_eq!(FrontMatterFormat::Yaml.delimiter(), "---");
    assert_eq!(FrontMatterFormat::Toml.delimiter(), "+++");
    assert_eq!(FrontMatterFormat::default(), FrontMatterFormat::Yaml);
}

#[test]
fn profiles_and_their_features() {
    assert_eq!(MarkdownProfile::default(), MarkdownProfile::GfmSafe);
    assert!(MarkdownProfile::Extended.supports_front_matter());
    assert!(!MarkdownProfile::GfmSafe.supports_front_matter());
    assert!(!MarkdownProfile::StrictCommonMark.supports_front_matter());
    let strict = MarkdownProfile::StrictCommonMark.features();
    assert!(!strict.table && !strict.strikethrough && strict.sourcepos);
    assert_eq!(strict.header_id_prefix, None);
    let gfm = MarkdownProfile::GfmSafe.features();
    assert!(gfm.table && gfm.tasklist && gfm.footnotes);
    assert_eq!(gfm.header_id_prefix, Some("heading-".to_string()));
    assert_eq!(gfm.front_matter_delimiter, None);
    assert_eq!(MarkdownProfile::Extended.features().front_matter_delimiter, Some("---".to_string()));
}

#[test]
fn strict_profile_renders_emphasis() {
    let engine = MarkdownEngine::new();
    let result = engine.render("# Hello\n\nThis is **bold**.", MarkdownProfile::StrictCommonMark).unwrap();
    assert!(result.html.contains("<h1"));
    assert!(result.html.contains("Hello"));
    assert!(result.html.contains("<strong"));
}

#[test]
fn test_gfm_tables() {
    let engine = MarkdownEngine::new();
    let result = engine.render("| A | B |\n|---|---|\n| 1 | 2 |", MarkdownProfile::GfmSafe).unwrap();
    assert!(result.html.contains("<table"));
}

#[test]
fn heading_text_joins_text_and_code() {
    let engine = MarkdownEngine::new();
    let metadata = engine.metadata("# Use `foo` and *bar*\n", MarkdownProfile::GfmSafe).unwrap();
    assert_eq!(metadata.title, Some("Use foo and bar".to_string()));
    assert_eq!(metadata.outline[0].anchor, None);
}

#[test]
fn links_are_collected_with_optional_titles() {
    let engine = MarkdownEngine::new();
    let metadata = engine
        .metadata("[a](http://a.example) and [b](http://b.example \"Bee\")", MarkdownProfile::GfmSafe)
        .unwrap();
    assert_eq!(metadata.links.len(), 2);
    assert_eq!(metadata.links[0], LinkRef { url: "http://a.example".to_string(), title: None });
    assert_eq!(metadata.links[1].title, Some("Bee".to_string()));
}

fn metadata_with(outline: Vec<Heading>, links: Vec<LinkRef>) -> DocumentMetadata {
    DocumentMetadata {
        title: None,
        outline,
        links,
        task_items: TaskStats::default(),
        word_count: 0,
        front_matter: FrontMatter::default(),
    }
}

#[test]
fn empty_link_destination_is_a_warning() {
    let metadata = metadata_with(vec![], vec![LinkRef { url: String::new(), title: None }]);
    let diagnostics = Diagnostics::run("text", &metadata);
    assert_eq!(diagnostics.len(), 1);
    assert_eq!(diagnostics.items[0].code, "empty-link-url");
    assert_eq!(diagnostics.items[0].severity, DiagnosticSeverity::Warning);
    assert_eq!(diagnostics.items[0].source, Some("[text]".to_string()));
}

#[test]
fn mixed_line_endings_are_a_warning() {
    let metadata = metadata_with(vec![], vec![]);
    let diagnostics = Diagnostics::run("Line 1\r\nLine 2\nLine 3", &metadata);
    assert!(diagnostics.items.iter().any(|d| d.code == "mixed-line-endings"));
    assert!(Diagnostics::run("a\r\nb\r\n", &metadata).is_empty());
    assert!(Diagnostics::run("a\nb\n", &metadata).is_empty());
}

#[test]
fn script_link_is_an_error() {
    let metadata =
        metadata_with(vec![], vec![LinkRef { url: "javascript:alert(1)".to_string(), title: None }]);
    let diagnostics = Diagnostics::run("text", &metadata);
    assert_eq!(diagnostics.errors().len(), 1);
    assert_eq!(diagnostics.items[0].code, "javascript-link");
    assert_eq!(diagnostics.items[0].message, "JavaScript URL detected: javascript:alert(1)");
    assert_eq!(diagnostics.items[0].source, Some("javascript:alert(1)".to_string()));
}

#[test]
fn diagnostics_duplicate_heading_anchors() {
    let h = |level: u8, text: &str, anchor: Option<&str>| Heading {
        level,
        text: text.to_string(),
        anchor: anchor.map(|a| a.to_string()),
    };
    let metadata = metadata_with(
        vec![h(1, "A", Some("x")), h(2, "B", Some("y")), h(3, "C", Some("x")), h(2, "D", None)],
        vec![],
    );
    let diagnostics = Diagnostics::run("", &metadata);
    assert_eq!(diagnostics.len(), 2);
    assert_eq!(diagnostics.items[0].message, "Duplicate heading ID: x");
    assert_eq!(diagnostics.items[0].line, Some(1));
    assert_eq!(diagnostics.items[0].column, Some(1));
    assert_eq!(diagnostics.items[0].source, Some("# A".to_string()));
    assert_eq!(diagnostics.items[1].line, Some(3));
    assert_eq!(diagnostics.items[1].source, Some("### C".to_string()));
    assert_eq!(diagnostics.warnings().len(), 2);
    assert!(diagnostics.errors().is_empty());
}

#[test]
fn diagnostic_builders_and_filters() {
    let d = Diagnostic::new(DiagnosticSeverity::Info, "c", "m").at_position(3, 4).with_source("s");
    assert_eq!(d.severity, DiagnosticSeverity::Info);
    assert_eq!((d.line, d.column), (Some(3), Some(4)));
    assert_eq!(d.source, Some("s".to_string()));
    assert_eq!(Diagnostic::error("c", "m").severity, DiagnosticSeverity::Error);
    assert_eq!(Diagnostic::warning("c", "m").severity, DiagnosticSeverity::Warning);
    assert_eq!(Diagnostic::info("c", "m").line, None);
    assert_eq!(DiagnosticSeverity::Warning.as_str(), "warning");

    let mut all = Diagnostics::new();
    assert!(all.is_empty());
    all.push(Diagnostic::error("e1", "m"));
    all.push(Diagnostic::info("i1", "m"));
    all.push(Diagnostic::error("e2", "m"));
    assert_eq!(all.len(), 3);
    let errors = all.by_severity(DiagnosticSeverity::Error);
    assert_eq!(errors.len(), 2);
    assert_eq!(errors[0].code, "e1");
    assert_eq!(errors[1].code, "e2");
    assert_eq!(all.by_severity(DiagnosticSeverity::Info).len(), 1);
    assert!(all.warnings().is_empty());
}

#[test]
fn render_default_uses_gfm_safe() {
    let engine = MarkdownEngine::new();
    let result = engine.render_default("~~gone~~").unwrap();
    assert!(result.html.contains("<del"));
}

#[test]
fn test_gfm_safe_blocks_raw_html() {
    let engine = MarkdownEngine::new();
    let markdown = "<script>alert('xss')</script>\n\nHello world";
    let result = engine.render(markdown, MarkdownProfile::GfmSafe).unwrap();

    assert!(!result.html.contains("<script>"));
    assert!(!result.html.contains("alert"));
}

#[test]
fn test_strict_common_mark_basic() {
    let engine = MarkdownEngine::new();
    let markdown = "# Hello\n\nThis is a paragraph.";
    let result = engine.render(markdown, MarkdownProfile::StrictCommonMark).unwrap();

    assert!(result.html.contains("<h1"));
    assert!(result.html.contains("Hello"));
    assert!(result.metadata.title == Some("Hello".to_string()));
}

#[test]
fn test_gfm_task_lists() {
    let engine = MarkdownEngine::new();
    let markdown = "- [x] Done\n- [ ] Not done";
    let result = engine.render(markdown, MarkdownProfile::GfmSafe).unwrap();

    assert_eq!(result.metadata.task_items.total, 2);
    assert_eq!(result.metadata.task_items.completed, 1);
}

#[test]
fn test_sourcepos_present() {
    let engine = MarkdownEngine::new();
    let markdown = "# Hello\n\nParagraph here.";
    let result = engine.render(markdown, MarkdownProfile::GfmSafe).unwrap();

    assert!(has_sourcepos(&result.html));
    assert!(result.html.contains("data-sourcepos"));
}

#[test]
fn test_outline_extraction() {
    let engine = MarkdownEngine::new();
    let markdown = "# Title\n\n## Section 1\n\n### Subsection\n\n## Section 2";
    let result = engine.render(markdown, MarkdownProfile::GfmSafe).unwrap();

    assert_eq!(result.metadata.outline.len(), 4);
    assert_eq!(result.metadata.outline[0].level, 1);
    assert_eq!(result.metadata.outline[0].text, "Title");
    assert_eq!(result.metadata.outline[1].level, 2);
    assert_eq!(result.metadata.outline[1].text, "Section 1");
}

#[test]
fn test_word_count() {
    let engine = MarkdownEngine::new();
    let markdown = "This has five words total.";
    let result = engine.render(markdown, MarkdownProfile::GfmSafe).unwrap();

    assert_eq!(result.metadata.word_count, 5);
}

#[test]
fn test_metadata_extracts_front_matter_title_without_rendering_html() {
    let engine = MarkdownEngine::new();
    let markdown = "---\ntitle: Metadata Title\n---\n\nBody text only";
    let metadata = engine.metadata(markdown, MarkdownProfile::Extended).unwrap();

    assert_eq!(metadata.title, Some("Metadata Title".to_string()));
    assert_eq!(metadata.word_count, 3);
}

#[test]
fn lib_test_strikethrough() {
    let engine = MarkdownEngine::new();
    let markdown = "~~deleted~~";
    let result = engine.render(markdown, MarkdownProfile::GfmSafe).unwrap();

    assert!(result.html.contains("<del") || result.html.contains("<s>"));
}

#[test]
fn test_autolinks() {
    let engine = MarkdownEngine::new();
    let markdown = "Visit https://example.com for info";
    let result = engine.render(markdown, MarkdownProfile::GfmSafe).unwrap();

    assert!(result.html.contains("<a ") || result.html.contains("<a>"));
    assert!(result.html.contains("href="));
    assert!(result.html.contains("example.com"));
}

#[test]
fn test_footnotes_rendering() {
    let engine = MarkdownEngine::new();
    let markdown = "Text with a footnote[^1].\n\n[^1]: This is the footnote.";
    let result = engine.render(markdown, MarkdownProfile::GfmSafe).unwrap();

    assert!(result.html.contains("footnote"));
    assert!(result.html.contains("sup"));
}

#[test]
fn test_description_lists() {
    let engine = MarkdownEngine::new();
    let markdown = "Term 1\n: Definition 1\n\nTerm 2\n: Definition 2";
    let result = engine.render(markdown, MarkdownProfile::GfmSafe).unwrap();

    assert!(result.html.contains("<dl"));
    assert!(result.html.contains("<dt"));
    assert!(result.html.contains("<dd"));
}

#[test]
fn test_extended_profile_front_matter() {
    let engine = MarkdownEngine::new();
    let markdown = "---\ntitle: My Post\nauthor: John\n---\n\n# Content";
    let result = engine.render(markdown, MarkdownProfile::Extended).unwrap();

    assert_eq!(result.metadata.title, Some("My Post".to_string()));
    assert_eq!(result.metadata.front_matter.format, Some(FrontMatterFormat::Yaml));
    assert!(result.metadata.front_matter.get("title").is_some());
    assert!(result.metadata.front_matter.get("author").is_some());
}

#[test]
fn test_front_matter_not_parsed_in_gfm_safe() {
    let engine = MarkdownEngine::new();
    let markdown = "---\ntitle: My Post\n---\n\n# Content";
    let result = engine.render(markdown, MarkdownProfile::GfmSafe).unwrap();

    assert!(result.metadata.front_matter.get("title").is_none());
}

#[test]
fn test_toml_front_matter() {
    let engine = MarkdownEngine::new();
    let markdown = "+++\ntitle = \"TOML Post\"\n+++\n\n# Content";
    let result = engine.render(markdown, MarkdownProfile::Extended).unwrap();

    assert_eq!(result.metadata.title, Some("TOML Post".to_string()));
    assert_eq!(result.metadata.front_matter.format, Some(FrontMatterFormat::Toml));
}

#[test]
fn test_yaml_front_matter_parses_scalar_fields_only() {
    let engine = MarkdownEngine::new();
    let markdown =
        "---\ntitle: \"YAML Post: 2026\"\ndraft: false\nrevision: 3\ntags:\n  - writing\n---\n\n# Content";
    let result = engine.render(markdown, MarkdownProfile::Extended).unwrap();

    assert_eq!(result.metadata.title, Some("YAML Post: 2026".to_string()));
    assert_eq!(result.metadata.front_matter.get("draft"), Some(&"false".to_string()));
    assert_eq!(result.metadata.front_matter.get("revision"), Some(&"3".to_string()));
    assert!(result.metadata.front_matter.get("tags").is_none());
}

#[test]
fn test_toml_front_matter_parses_scalar_fields_only() {
    let engine = MarkdownEngine::new();
    let markdown =
        "+++\ntitle = \"TOML Post\"\ndraft = true\nrevision = 2\n[nested]\nkey = \"ignored\"\n+++\n\n# Content";
    let result = engine.render(markdown, MarkdownProfile::Extended).unwrap();

    assert_eq!(result.metadata.title, Some("TOML Post".to_string()));
    assert_eq!(result.metadata.front_matter.get("draft"), Some(&"true".to_string()));
    assert_eq!(result.metadata.front_matter.get("revision"), Some(&"2".to_string()));
    assert!(result.metadata.front_matter.get("nested").is_none());
}

#[test]
fn test_diagnostics_empty_link_url() {
    let engine = MarkdownEngine::new();
    let markdown = "[Empty link]()";
    let result = engine.render(markdown, MarkdownProfile::GfmSafe).unwrap();

    let empty_link_warnings: Vec<_> = result
        .diagnostics
        .warnings()
        .into_iter()
        .filter(|d| d.code == "empty-link-url")
        .collect();
    assert!(!empty_link_warnings.is_empty(), "Should detect empty link URL");
}

#[test]
fn test_diagnostics_mixed_line_endings() {
    let engine = MarkdownEngine::new();
    let markdown = "Line 1\r\nLine 2\nLine 3";
    let result = engine.render(markdown, MarkdownProfile::GfmSafe).unwrap();

    let mixed_line_warnings: Vec<_> = result
        .diagnostics
        .warnings()
        .into_iter()
        .filter(|d| d.code == "mixed-line-endings")
        .collect();
    assert!(!mixed_line_warnings.is_empty(), "Should detect mixed line endings");
}

#[test]
fn test_diagnostics_javascript_link() {
    let engine = MarkdownEngine::new();
    let markdown = "[Click me](javascript:alert('XSS'))";
    let result = engine.render(markdown, MarkdownProfile::GfmSafe).unwrap();

    let js_errors: Vec<_> = result
        .diagnostics
        .errors()
        .into_iter()
        .filter(|d| d.code == "javascript-link")
        .collect();
    assert!(!js_errors.is_empty(), "Should detect JavaScript URL");
}

#[test]
fn test_extended_profile_enables_all_features() {
    let engine = MarkdownEngine::new();

    let markdown =
        "---\ntitle: Test\n---\n\n| Col |\n|-----|\n| Val |\n\nFootnote[^1].\n\nTerm\n: Def\n\n[^1]: Note.";
    let result = engine.render(markdown, MarkdownProfile::Extended).unwrap();

    assert!(result.html.contains("<table"));
    assert!(result.html.contains("footnote"));
    assert!(result.html.contains("<dl"));
    assert_eq!(result.metadata.title, Some("Test".to_string()));
}

#[test]
fn yaml_key_with_a_tag_is_read_by_its_text() {
    let fields = parse_yaml_like_front_matter("!k title: Doc\nplain: !v hidden\n7: seven\n");
    assert_eq!(fields, vec![("title".to_string(), "Doc".to_string())]);
    let engine = MarkdownEngine::new();
    let metadata = engine.metadata("---\n!k title: Tagged\n---\n\nbody", MarkdownProfile::Extended).unwrap();
    assert_eq!(metadata.title, Some("Tagged".to_string()));
}

#[test]
fn no_profile_lets_raw_html_through() {
    let engine = MarkdownEngine::new();
    for profile in [MarkdownProfile::StrictCommonMark, MarkdownProfile::GfmSafe, MarkdownProfile::Extended] {
        assert!(!profile.features().raw_html);
        let html = engine.render("<script>alert(1)</script>\n\nok <b>x</b>", profile).unwrap().html;
        assert!(!html.contains("<script>"));
        assert!(!html.contains("<b>"));
        let options = profile.to_options();
        assert!(options.render.sourcepos);
        assert_eq!(options.extension.table, profile != MarkdownProfile::StrictCommonMark);
        assert_eq!(
            options.extension.front_matter_delimiter,
            if profile == MarkdownProfile::Extended { Some("---".to_string()) } else { None }
        );
    }
}
