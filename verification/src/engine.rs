use vstd::prelude::*;
use crate::chars::{decimal, decimal_chars, from_chars, push_all, push_text, to_chars};
use crate::diagnostics::{diagnostic_views, run_spec, Diagnostics};
use crate::md_bridge::{markdown_html, parse_events, render_html};
use crate::md_types::{
    features_spec, field_views, lookup, DocumentMetadata, MarkdownError, MarkdownProfile,
};
use crate::metadata::{
    body_spec, build_metadata, document_metadata, is_metadata_of, split_for_profile,
};
use crate::model::opt_text;
use crate::text::{html_escape, html_escape_spec};

verus! {

/// The style sheet that an exported page carries by default.
pub const DEFAULT_EXPORT_STYLES: &'static str =
    "    body {\n      font-family: Georgia, 'Times New Roman', serif;\n      line-height: 1.6;\n      max-width: 42rem;\n      margin: 2rem auto;\n      padding: 0 1rem;\n      color: #222;\n    }\n    header {\n      margin-bottom: 2rem;\n      border-bottom: 1px solid #ddd;\n    }\n    .metadata span {\n      margin-right: 1rem;\n      color: #666;\n      font-size: 0.9em;\n    }\n    pre {\n      background: #f5f5f5;\n      padding: 1rem;\n      overflow-x: auto;\n    }\n    code {\n      font-family: 'IBM Plex Mono', monospace;\n    }\n    blockquote {\n      margin-left: 0;\n      padding-left: 1rem;\n      border-left: 3px solid #ccc;\n      color: #555;\n    }\n    table {\n      border-collapse: collapse;\n    }\n    th, td {\n      border: 1px solid #ccc;\n      padding: 0.3rem 0.6rem;\n    }\n    footer {\n      margin-top: 3rem;\n      color: #888;\n      font-size: 0.8em;\n    }\n";

/// Rendered HTML with the document's metadata and diagnostics.
#[derive(Debug, Clone, PartialEq, Eq)]
pub struct RenderResult {
    pub html: String,
    pub metadata: DocumentMetadata,
    pub diagnostics: Diagnostics,
}

/// Options of an HTML export.
#[derive(Debug, Clone, PartialEq, Eq)]
pub struct ExportOptions {
    /// The page's title; overrides the document's own.
    pub title: Option<String>,
    /// The page's language code.
    pub language: String,
    pub include_default_styles: bool,
    /// A header with the title.
    pub include_header: bool,
    pub include_footer: bool,
    /// Author, date and word count in the header.
    pub include_metadata: bool,
    /// Style rules for the page's head.
    pub custom_css: Option<String>,
    /// Style sheets to link.
    pub external_css_urls: Vec<String>,
}

/// Export options as plain values.
pub struct ExportOptionsView {
    pub title: Option<Seq<char>>,
    pub language: Seq<char>,
    pub include_default_styles: bool,
    pub include_header: bool,
    pub include_footer: bool,
    pub include_metadata: bool,
    pub custom_css: Option<Seq<char>>,
    pub external_css_urls: Seq<Seq<char>>,
}

impl View for ExportOptions {
    type V = ExportOptionsView;

    open spec fn view(&self) -> ExportOptionsView {
        ExportOptionsView {
            title: opt_text(self.title),
            language: self.language@,
            include_default_styles: self.include_default_styles,
            include_header: self.include_header,
            include_footer: self.include_footer,
            include_metadata: self.include_metadata,
            custom_css: opt_text(self.custom_css),
            external_css_urls: self.external_css_urls@.map_values(|u: String| u@),
        }
    }
}

/// Options with the given switches, no title, language `en`, and no style rules of their own.
pub open spec fn options_with(styles: bool, header: bool, footer: bool, metadata: bool) -> ExportOptionsView {
    ExportOptionsView {
        title: None,
        language: "en"@,
        include_default_styles: styles,
        include_header: header,
        include_footer: footer,
        include_metadata: metadata,
        custom_css: None,
        external_css_urls: Seq::empty(),
    }
}

impl Default for ExportOptions {
    fn default() -> (out: Self)
        ensures
            out@ == options_with(true, true, false, true),
    {
        let out = ExportOptions {
            title: None,
            language: "en".to_string(),
            include_default_styles: true,
            include_header: true,
            include_footer: false,
            include_metadata: true,
            custom_css: None,
            external_css_urls: Vec::new(),
        };
        proof {
            assert(out@.external_css_urls =~= Seq::empty());
        }
        out
    }
}

impl ExportOptions {
    /// Options for a page that stands alone: styles, header, footer and metadata.
    pub fn standalone() -> (out: Self)
        ensures
            out@ == options_with(true, true, true, true),
    {
        let out = ExportOptions {
            title: None,
            language: "en".to_string(),
            include_default_styles: true,
            include_header: true,
            include_footer: true,
            include_metadata: true,
            custom_css: None,
            external_css_urls: Vec::new(),
        };
        proof {
            assert(out@.external_css_urls =~= Seq::empty());
        }
        out
    }

    /// Options for content that is embedded in another page: nothing around it.
    pub fn embed() -> (out: Self)
        ensures
            out@ == options_with(false, false, false, false),
    {
        let out = ExportOptions {
            title: None,
            language: "en".to_string(),
            include_default_styles: false,
            include_header: false,
            include_footer: false,
            include_metadata: false,
            custom_css: None,
            external_css_urls: Vec::new(),
        };
        proof {
            assert(out@.external_css_urls =~= Seq::empty());
        }
        out
    }
}

/// The `link` elements for the first `n` style sheets.
pub open spec fn stylesheet_links(urls: Seq<Seq<char>>, n: int) -> Seq<char>
    decreases n,
{
    if n <= 0 || n > urls.len() {
        Seq::empty()
    } else {
        stylesheet_links(urls, n - 1) + "  <link rel=\"stylesheet\" href=\""@ + html_escape_spec(
            urls[n - 1],
        ) + "\">\n"@
    }
}

/// The title of an exported page: the options' title, else the document's, else a fixed one.
pub open spec fn effective_title(options_title: Option<Seq<char>>, doc_title: Option<Seq<char>>) -> Seq<char> {
    match options_title {
        Some(t) => t,
        None => match doc_title {
            Some(t) => t,
            None => "Exported Document"@,
        },
    }
}

/// The page's head.
pub open spec fn page_head(options: ExportOptionsView, title: Seq<char>) -> Seq<char> {
    "<!DOCTYPE html>\n"@ + "<html lang=\""@ + options.language + "\">\n"@ + "<head>\n"@
        + "  <meta charset=\"UTF-8\">\n"@
        + "  <meta name=\"viewport\" content=\"width=device-width, initial-scale=1.0\">\n"@
        + "  <title>"@ + html_escape_spec(title) + "</title>\n"@ + (if options.include_default_styles {
        "  <style>\n"@ + DEFAULT_EXPORT_STYLES@ + "  </style>\n"@
    } else {
        Seq::empty()
    }) + (match options.custom_css {
        Some(css) => "  <style>\n"@ + css + "  </style>\n"@,
        None => Seq::empty(),
    }) + stylesheet_links(options.external_css_urls, options.external_css_urls.len() as int)
        + "</head>\n"@
}

/// The metadata block of the header.
pub open spec fn metadata_block(
    author: Option<Seq<char>>,
    date: Option<Seq<char>>,
    word_count: nat,
) -> Seq<char> {
    "    <div class=\"metadata\">\n"@ + (match author {
        Some(a) => "      <span class=\"author\">"@ + html_escape_spec(a) + "</span>\n"@,
        None => Seq::empty(),
    }) + (match date {
        Some(d) => "      <span class=\"date\">"@ + html_escape_spec(d) + "</span>\n"@,
        None => Seq::empty(),
    }) + (if word_count > 0 {
        "      <span class=\"word-count\">"@ + decimal(word_count) + " words</span>\n"@
    } else {
        Seq::empty()
    }) + "    </div>\n"@
}

/// The page's header; none where the options ask for none or the title is empty.
pub open spec fn page_header(
    options: ExportOptionsView,
    title: Seq<char>,
    author: Option<Seq<char>>,
    date: Option<Seq<char>>,
    word_count: nat,
) -> Seq<char> {
    if options.include_header && title.len() > 0 {
        "  <header>\n"@ + "    <h1>"@ + html_escape_spec(title) + "</h1>\n"@ + (if options.include_metadata {
            metadata_block(author, date, word_count)
        } else {
            Seq::empty()
        }) + "  </header>\n"@
    } else {
        Seq::empty()
    }
}

/// The content between its `main` tags.
pub open spec fn page_main(body_html: Seq<char>) -> Seq<char> {
    "  <main>\n"@ + body_html + "  </main>\n"@
}

/// The page's footer; none where the options ask for none.
pub open spec fn page_footer(options: ExportOptionsView) -> Seq<char> {
    if options.include_footer {
        "  <footer>\n"@ + "    <p>Exported from Writer</p>\n"@ + "  </footer>\n"@
    } else {
        Seq::empty()
    }
}

/// A whole exported page around rendered HTML.
pub open spec fn page_spec(
    options: ExportOptionsView,
    title: Seq<char>,
    author: Option<Seq<char>>,
    date: Option<Seq<char>>,
    word_count: nat,
    body_html: Seq<char>,
) -> Seq<char> {
    page_head(options, title) + "<body>\n"@ + page_header(options, title, author, date, word_count)
        + page_main(body_html) + page_footer(options) + "</body>\n"@ + "</html>\n"@
}

fn write_head(out: &mut Vec<char>, options: &ExportOptions, title: &str)
    requires
        old(out)@.len() == 0,
    ensures
        final(out)@ == page_head(options@, title@),
{
    push_text(out, "<!DOCTYPE html>\n");
    push_text(out, "<html lang=\"");
    push_text(out, options.language.as_str());
    push_text(out, "\">\n");
    push_text(out, "<head>\n");
    push_text(out, "  <meta charset=\"UTF-8\">\n");
    push_text(out, "  <meta name=\"viewport\" content=\"width=device-width, initial-scale=1.0\">\n");
    push_text(out, "  <title>");
    let escaped = html_escape(title);
    push_text(out, escaped.as_str());
    push_text(out, "</title>\n");
    let ghost s0 = out@;
    proof {
        assert(s0 =~= "<!DOCTYPE html>\n"@ + "<html lang=\""@ + options@.language + "\">\n"@
            + "<head>\n"@ + "  <meta charset=\"UTF-8\">\n"@
            + "  <meta name=\"viewport\" content=\"width=device-width, initial-scale=1.0\">\n"@
            + "  <title>"@ + html_escape_spec(title@) + "</title>\n"@);
    }
    if options.include_default_styles {
        push_text(out, "  <style>\n");
        push_text(out, DEFAULT_EXPORT_STYLES);
        push_text(out, "  </style>\n");
    }
    let ghost s1 = out@;
    proof {
        assert(s1 =~= s0 + (if options@.include_default_styles {
            "  <style>\n"@ + DEFAULT_EXPORT_STYLES@ + "  </style>\n"@
        } else {
            Seq::empty()
        }));
    }
    match &options.custom_css {
        Some(css) => {
            push_text(out, "  <style>\n");
            push_text(out, css.as_str());
            push_text(out, "  </style>\n");
        },
        None => {},
    }
    let ghost s2 = out@;
    proof {
        assert(s2 =~= s1 + (match options@.custom_css {
            Some(css) => "  <style>\n"@ + css + "  </style>\n"@,
            None => Seq::empty(),
        }));
    }
    let ghost urls = options@.external_css_urls;
    let mut i: usize = 0;
    proof {
        assert(s2 + stylesheet_links(urls, 0) =~= s2);
    }
    while i < options.external_css_urls.len()
        invariant
            i <= options.external_css_urls.len(),
            urls == options@.external_css_urls,
            urls.len() == options.external_css_urls@.len(),
            out@ == s2 + stylesheet_links(urls, i as int),
        decreases options.external_css_urls.len() - i,
    {
        let ghost before = out@;
        push_text(out, "  <link rel=\"stylesheet\" href=\"");
        let escaped_url = html_escape(options.external_css_urls[i].as_str());
        push_text(out, escaped_url.as_str());
        push_text(out, "\">\n");
        proof {
            assert(urls[i as int] == options.external_css_urls@[i as int]@);
            assert(out@ =~= s2 + stylesheet_links(urls, i + 1));
        }
        i += 1;
    }
    push_text(out, "</head>\n");
}

fn write_metadata_block(
    out: &mut Vec<char>,
    author: Option<&String>,
    date: Option<&String>,
    word_count: usize,
)
    ensures
        final(out)@ == old(out)@ + metadata_block(
            match author {
                Some(a) => Some(a@),
                None => None,
            },
            match date {
                Some(d) => Some(d@),
                None => None,
            },
            word_count as nat,
        ),
{
    let ghost base = out@;
    push_text(out, "    <div class=\"metadata\">\n");
    match author {
        Some(a) => {
            push_text(out, "      <span class=\"author\">");
            let e = html_escape(a.as_str());
            push_text(out, e.as_str());
            push_text(out, "</span>\n");
        },
        None => {},
    }
    let ghost s1 = out@;
    proof {
        assert(s1 =~= base + "    <div class=\"metadata\">\n"@ + (match author {
            Some(a) => "      <span class=\"author\">"@ + html_escape_spec(a@) + "</span>\n"@,
            None => Seq::empty(),
        }));
    }
    match date {
        Some(d) => {
            push_text(out, "      <span class=\"date\">");
            let e = html_escape(d.as_str());
            push_text(out, e.as_str());
            push_text(out, "</span>\n");
        },
        None => {},
    }
    let ghost s2 = out@;
    proof {
        assert(s2 =~= s1 + (match date {
            Some(d) => "      <span class=\"date\">"@ + html_escape_spec(d@) + "</span>\n"@,
            None => Seq::empty(),
        }));
    }
    if word_count > 0 {
        push_text(out, "      <span class=\"word-count\">");
        let digits = decimal_chars(word_count);
        push_all(out, &digits);
        push_text(out, " words</span>\n");
    }
    let ghost s3 = out@;
    proof {
        assert(s3 =~= s2 + (if word_count > 0 {
            "      <span class=\"word-count\">"@ + decimal(word_count as nat) + " words</span>\n"@
        } else {
            Seq::empty()
        }));
    }
    push_text(out, "    </div>\n");
    proof {
        let a = match author {
            Some(a) => Some(a@),
            None => None,
        };
        let d = match date {
            Some(d) => Some(d@),
            None => None,
        };
        assert(out@ =~= base + metadata_block(a, d, word_count as nat));
    }
}

fn write_header(
    out: &mut Vec<char>,
    options: &ExportOptions,
    title: &str,
    author: Option<&String>,
    date: Option<&String>,
    word_count: usize,
)
    ensures
        final(out)@ == old(out)@ + page_header(
            options@,
            title@,
            match author {
                Some(a) => Some(a@),
                None => None,
            },
            match date {
                Some(d) => Some(d@),
                None => None,
            },
            word_count as nat,
        ),
{
    let ghost base = out@;
    let ghost a = match author {
        Some(a) => Some(a@),
        None => None,
    };
    let ghost d = match date {
        Some(d) => Some(d@),
        None => None,
    };
    if options.include_header && !title.is_empty() {
        push_text(out, "  <header>\n");
        push_text(out, "    <h1>");
        let escaped = html_escape(title);
        push_text(out, escaped.as_str());
        push_text(out, "</h1>\n");
        let ghost h0 = out@;
        proof {
            assert(h0 =~= base + "  <header>\n"@ + "    <h1>"@ + html_escape_spec(title@)
                + "</h1>\n"@);
        }
        if options.include_metadata {
            write_metadata_block(out, author, date, word_count);
        }
        let ghost h1 = out@;
        proof {
            assert(h1 =~= h0 + (if options@.include_metadata {
                metadata_block(a, d, word_count as nat)
            } else {
                Seq::empty()
            }));
        }
        push_text(out, "  </header>\n");
        proof {
            assert(out@ =~= base + page_header(options@, title@, a, d, word_count as nat));
        }
    } else {
        proof {
            assert(out@ =~= base + page_header(options@, title@, a, d, word_count as nat));
        }
    }
}

fn write_main(out: &mut Vec<char>, body_html: &str)
    ensures
        final(out)@ == old(out)@ + page_main(body_html@),
{
    let ghost base = out@;
    push_text(out, "  <main>\n");
    push_text(out, body_html);
    push_text(out, "  </main>\n");
    proof {
        assert(out@ =~= base + page_main(body_html@));
    }
}

fn write_footer(out: &mut Vec<char>, options: &ExportOptions)
    ensures
        final(out)@ == old(out)@ + page_footer(options@),
{
    let ghost base = out@;
    if options.include_footer {
        push_text(out, "  <footer>\n");
        push_text(out, "    <p>Exported from Writer</p>\n");
        push_text(out, "  </footer>\n");
    }
    proof {
        assert(out@ =~= base + page_footer(options@));
    }
}

/// Writes a whole HTML page around rendered HTML: head with title and
/// styles, optional header with title and metadata, the content, and an
/// optional footer.
pub fn assemble_html_document(
    options: &ExportOptions,
    doc_title: Option<&String>,
    author: Option<&String>,
    date: Option<&String>,
    word_count: usize,
    body_html: &str,
) -> (out: String)
    ensures
        out@ == page_spec(
            options@,
            effective_title(
                options@.title,
                match doc_title {
                    Some(t) => Some(t@),
                    None => None,
                },
            ),
            match author {
                Some(a) => Some(a@),
                None => None,
            },
            match date {
                Some(d) => Some(d@),
                None => None,
            },
            word_count as nat,
            body_html@,
        ),
{
    let title: String = match &options.title {
        Some(t) => t.clone(),
        None => match doc_title {
            Some(t) => t.clone(),
            None => "Exported Document".to_string(),
        },
    };
    let mut out: Vec<char> = Vec::new();
    write_head(&mut out, options, title.as_str());
    push_text(&mut out, "<body>\n");
    write_header(&mut out, options, title.as_str(), author, date, word_count);
    write_main(&mut out, body_html);
    write_footer(&mut out, options);
    push_text(&mut out, "</body>\n");
    push_text(&mut out, "</html>\n");
    from_chars(&out)
}

pub open spec fn author_key() -> Seq<char> {
    "author"@
}

pub open spec fn date_key() -> Seq<char> {
    "date"@
}

/// A render result is what rendering a text under a profile gives.
pub open spec fn is_render_of(r: RenderResult, text: Seq<char>, profile: MarkdownProfile) -> bool {
    &&& markdown_html(body_spec(text, profile), features_spec(profile)) == Some(r.html@)
    &&& is_metadata_of(r.metadata, text, profile)
    &&& diagnostic_views(r.diagnostics.items@) == run_spec(text, r.metadata)
}

/// The page that an export writes around a render result.
pub open spec fn export_of(r: RenderResult, options: ExportOptionsView) -> Seq<char> {
    let fields = field_views(r.metadata.front_matter.fields@);
    page_spec(
        options,
        effective_title(options.title, opt_text(r.metadata.title)),
        lookup(fields, author_key()),
        lookup(fields, date_key()),
        r.metadata.word_count as nat,
        r.html@,
    )
}

/// The Markdown engine: parsing, metadata, rendering and export.
#[derive(Debug, Clone, Copy)]
pub struct MarkdownEngine;

impl Default for MarkdownEngine {
    fn default() -> (out: Self) {
        MarkdownEngine
    }
}

impl MarkdownEngine {
    pub fn new() -> (out: Self) {
        MarkdownEngine
    }

    /// Extracts a document's metadata without rendering it. Never fails.
    pub fn metadata(&self, text: &str, profile: MarkdownProfile) -> (out: Result<
        DocumentMetadata,
        MarkdownError,
    >)
        ensures
            out matches Ok(m) && is_metadata_of(m, text@, profile),
    {
        document_metadata(text, profile)
    }

    /// Renders a text to HTML under a profile, with metadata and
    /// diagnostics. Fails exactly where the renderer does.
    pub fn render(&self, text: &str, profile: MarkdownProfile) -> (out: Result<
        RenderResult,
        MarkdownError,
    >)
        ensures
            match out {
                Ok(r) => is_render_of(r, text@, profile),
                Err(_) => markdown_html(body_spec(text@, profile), features_spec(profile)) is None,
            },
    {
        let (body, front_matter) = split_for_profile(text, profile);
        let features = profile.features();
        let events = parse_events(body.as_str(), &features);
        let metadata = build_metadata(&events, body.as_str(), front_matter);
        match render_html(body.as_str(), &features) {
            Ok(html) => {
                let diagnostics = Diagnostics::run(text, &metadata);
                Ok(RenderResult { html, metadata, diagnostics })
            },
            Err(e) => Err(MarkdownError::ParseError(e)),
        }
    }

    /// Renders a text under the default profile.
    pub fn render_default(&self, text: &str) -> (out: Result<RenderResult, MarkdownError>)
        ensures
            match out {
                Ok(r) => is_render_of(r, text@, MarkdownProfile::GfmSafe),
                Err(_) => markdown_html(
                    body_spec(text@, MarkdownProfile::GfmSafe),
                    features_spec(MarkdownProfile::GfmSafe),
                ) is None,
            },
    {
        self.render(text, MarkdownProfile::GfmSafe)
    }

    /// Exports a text as a whole HTML page. Fails exactly where the renderer does.
    pub fn export_html(&self, text: &str, profile: MarkdownProfile, options: &ExportOptions) -> (out:
        Result<String, MarkdownError>)
        ensures
            match out {
                Ok(page) => exists|r: RenderResult|
                    #[trigger] is_render_of(r, text@, profile) && page@ == export_of(r, options@),
                Err(_) => markdown_html(body_spec(text@, profile), features_spec(profile)) is None,
            },
    {
        match self.render(text, profile) {
            Ok(r) => {
                let page = assemble_html_document(
                    options,
                    r.metadata.title.as_ref(),
                    r.metadata.front_matter.get("author"),
                    r.metadata.front_matter.get("date"),
                    r.metadata.word_count,
                    r.html.as_str(),
                );
                proof {
                    assert(is_render_of(r, text@, profile));
                    assert(page@ == export_of(r, options@));
                }
                Ok(page)
            },
            Err(e) => Err(e),
        }
    }

    /// Exports only the rendered HTML, with no page around it.
    pub fn export_html_body(&self, text: &str, profile: MarkdownProfile) -> (out: Result<
        String,
        MarkdownError,
    >)
        ensures
            match out {
                Ok(html) => markdown_html(body_spec(text@, profile), features_spec(profile)) == Some(
                    html@,
                ),
                Err(_) => markdown_html(body_spec(text@, profile), features_spec(profile)) is None,
            },
    {
        match self.render(text, profile) {
            Ok(r) => Ok(r.html),
            Err(e) => Err(e),
        }
    }
}

/// Whether rendered HTML carries source positions.
pub fn has_sourcepos(html: &str) -> (out: bool)
    ensures
        out == crate::chars::contains_seq(html@, "data-sourcepos"@),
{
    crate::chars::contains(&to_chars(html), &to_chars("data-sourcepos"))
}

} // verus!
