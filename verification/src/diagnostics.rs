use vstd::prelude::*;
use crate::chars::{concat, from_chars, matches_at, occurs_at, push_text, same_text, to_chars};
use crate::md_types::{DocumentMetadata, Heading, LinkRef};
use crate::model::opt_text;
use crate::text::{is_bare_lf_at, is_crlf_at};

verus! {

/// How grave a diagnostic is.
#[derive(Debug, Clone, Copy, PartialEq, Eq, Structural)]
pub enum DiagnosticSeverity {
    Error,
    Warning,
    Info,
}

impl DiagnosticSeverity {
    /// The severity as a lowercase word.
    pub fn as_str(&self) -> (out: &'static str)
        ensures
            out@ == match *self {
                DiagnosticSeverity::Error => "error"@,
                DiagnosticSeverity::Warning => "warning"@,
                DiagnosticSeverity::Info => "info"@,
            },
    {
        match self {
            DiagnosticSeverity::Error => "error",
            DiagnosticSeverity::Warning => "warning",
            DiagnosticSeverity::Info => "info",
        }
    }
}

/// One finding about a document.
#[derive(Debug, Clone, PartialEq, Eq)]
pub struct Diagnostic {
    pub severity: DiagnosticSeverity,
    pub code: String,
    pub message: String,
    /// Line of the finding, counted from one.
    pub line: Option<usize>,
    /// Column of the finding, counted from one.
    pub column: Option<usize>,
    /// The source text that gave rise to the finding.
    pub source: Option<String>,
}

/// A diagnostic as plain values.
pub struct DiagnosticView {
    pub severity: DiagnosticSeverity,
    pub code: Seq<char>,
    pub message: Seq<char>,
    pub line: Option<usize>,
    pub column: Option<usize>,
    pub source: Option<Seq<char>>,
}

impl View for Diagnostic {
    type V = DiagnosticView;

    open spec fn view(&self) -> DiagnosticView {
        DiagnosticView {
            severity: self.severity,
            code: self.code@,
            message: self.message@,
            line: self.line,
            column: self.column,
            source: opt_text(self.source),
        }
    }
}

/// A diagnostic with no position and no source.
pub open spec fn plain_diagnostic(
    severity: DiagnosticSeverity,
    code: Seq<char>,
    message: Seq<char>,
) -> DiagnosticView {
    DiagnosticView { severity, code, message, line: None, column: None, source: None }
}

impl Diagnostic {
    pub fn new(severity: DiagnosticSeverity, code: &str, message: &str) -> (out: Self)
        ensures
            out@ == plain_diagnostic(severity, code@, message@),
    {
        Diagnostic {
            severity,
            code: code.to_string(),
            message: message.to_string(),
            line: None,
            column: None,
            source: None,
        }
    }

    /// The same diagnostic at a position.
    pub fn at_position(self, line: usize, column: usize) -> (out: Self)
        ensures
            out@ == (DiagnosticView { line: Some(line), column: Some(column), ..self@ }),
    {
        Diagnostic {
            severity: self.severity,
            code: self.code,
            message: self.message,
            line: Some(line),
            column: Some(column),
            source: self.source,
        }
    }

    /// The same diagnostic with its source text.
    pub fn with_source(self, source: &str) -> (out: Self)
        ensures
            out@ == (DiagnosticView { source: Some(source@), ..self@ }),
    {
        Diagnostic {
            severity: self.severity,
            code: self.code,
            message: self.message,
            line: self.line,
            column: self.column,
            source: Some(source.to_string()),
        }
    }

    pub fn error(code: &str, message: &str) -> (out: Self)
        ensures
            out@ == plain_diagnostic(DiagnosticSeverity::Error, code@, message@),
    {
        Self::new(DiagnosticSeverity::Error, code, message)
    }

    pub fn warning(code: &str, message: &str) -> (out: Self)
        ensures
            out@ == plain_diagnostic(DiagnosticSeverity::Warning, code@, message@),
    {
        Self::new(DiagnosticSeverity::Warning, code, message)
    }

    pub fn info(code: &str, message: &str) -> (out: Self)
        ensures
            out@ == plain_diagnostic(DiagnosticSeverity::Info, code@, message@),
    {
        Self::new(DiagnosticSeverity::Info, code, message)
    }
}

/// All diagnostics of a document, in the order in which they were found.
#[derive(Debug, Clone, PartialEq, Eq)]
pub struct Diagnostics {
    pub items: Vec<Diagnostic>,
}

pub open spec fn diagnostic_views(items: Seq<Diagnostic>) -> Seq<DiagnosticView> {
    items.map_values(|d: Diagnostic| d@)
}

/// The diagnostics of the given severity among the first `n`, in order.
pub open spec fn with_severity(
    items: Seq<DiagnosticView>,
    severity: DiagnosticSeverity,
    n: int,
) -> Seq<DiagnosticView>
    decreases n,
{
    if n <= 0 || n > items.len() {
        Seq::empty()
    } else if items[n - 1].severity == severity {
        with_severity(items, severity, n - 1).push(items[n - 1])
    } else {
        with_severity(items, severity, n - 1)
    }
}

pub open spec fn ref_views(items: Seq<&Diagnostic>) -> Seq<DiagnosticView> {
    items.map_values(|d: &Diagnostic| d@)
}

/// The number of headings among the first `n` that carry the given anchor.
pub open spec fn anchor_count(outline: Seq<Heading>, anchor: Seq<char>, n: int) -> nat
    decreases n,
{
    if n <= 0 || n > outline.len() {
        0
    } else {
        anchor_count(outline, anchor, n - 1) + if opt_text(outline[n - 1].anchor) == Some(anchor) {
            1nat
        } else {
            0nat
        }
    }
}

/// `count` number signs.
pub open spec fn hashes(count: nat) -> Seq<char> {
    Seq::new(count, |i: int| '#')
}

/// The finding for a heading whose anchor another heading carries too.
pub open spec fn duplicate_heading_diagnostic(h: Heading, index: int) -> DiagnosticView {
    DiagnosticView {
        severity: DiagnosticSeverity::Warning,
        code: "dup-heading-id"@,
        message: "Duplicate heading ID: "@ + h.anchor.unwrap()@,
        line: Some((index + 1) as usize),
        column: Some(1usize),
        source: Some(hashes(h.level as nat) + " "@ + h.text@),
    }
}

/// The findings for the first `n` headings: one for each heading whose
/// anchor occurs more than once in the whole outline, in outline order.
pub open spec fn duplicate_heading_diagnostics(outline: Seq<Heading>, n: int) -> Seq<DiagnosticView>
    decreases n,
{
    if n <= 0 || n > outline.len() {
        Seq::empty()
    } else {
        let before = duplicate_heading_diagnostics(outline, n - 1);
        match outline[n - 1].anchor {
            Some(a) => if anchor_count(outline, a@, outline.len() as int) > 1 {
                before.push(duplicate_heading_diagnostic(outline[n - 1], n - 1))
            } else {
                before
            },
            None => before,
        }
    }
}

pub open spec fn javascript_scheme() -> Seq<char> {
    "javascript:"@
}

/// The finding for a link, if it has one: a warning for an empty
/// destination, an error for a destination that starts a script.
pub open spec fn link_diagnostic(link: LinkRef) -> Option<DiagnosticView> {
    if link.url@.len() == 0 {
        Some(
            DiagnosticView {
                severity: DiagnosticSeverity::Warning,
                code: "empty-link-url"@,
                message: "Link has empty URL"@,
                line: None,
                column: None,
                source: Some(
                    "["@ + (match link.title {
                        Some(t) => t@,
                        None => "text"@,
                    }) + "]"@,
                ),
            },
        )
    } else if occurs_at(link.url@, javascript_scheme(), 0) {
        Some(
            DiagnosticView {
                severity: DiagnosticSeverity::Error,
                code: "javascript-link"@,
                message: "JavaScript URL detected: "@ + link.url@,
                line: None,
                column: None,
                source: Some(link.url@),
            },
        )
    } else {
        None
    }
}

/// The findings for the first `n` links, in order.
pub open spec fn link_diagnostics(links: Seq<LinkRef>, n: int) -> Seq<DiagnosticView>
    decreases n,
{
    if n <= 0 || n > links.len() {
        Seq::empty()
    } else {
        match link_diagnostic(links[n - 1]) {
            Some(d) => link_diagnostics(links, n - 1).push(d),
            None => link_diagnostics(links, n - 1),
        }
    }
}

/// A text holds line feeds of both kinds: after a carriage return, and bare.
pub open spec fn has_mixed_line_endings(text: Seq<char>) -> bool {
    (exists|i: int| is_crlf_at(text, i)) && (exists|j: int| is_bare_lf_at(text, j))
}

pub open spec fn mixed_line_endings_diagnostic() -> DiagnosticView {
    plain_diagnostic(
        DiagnosticSeverity::Warning,
        "mixed-line-endings"@,
        "Document contains mixed line endings (CRLF and LF)"@,
    )
}

pub open spec fn line_ending_diagnostics(text: Seq<char>) -> Seq<DiagnosticView> {
    if has_mixed_line_endings(text) {
        seq![mixed_line_endings_diagnostic()]
    } else {
        Seq::empty()
    }
}

/// All findings about a document: duplicate heading anchors, malformed
/// links, mixed line endings, in that order.
pub open spec fn run_spec(text: Seq<char>, metadata: DocumentMetadata) -> Seq<DiagnosticView> {
    duplicate_heading_diagnostics(metadata.outline@, metadata.outline@.len() as int)
        + link_diagnostics(metadata.links@, metadata.links@.len() as int) + line_ending_diagnostics(
        text,
    )
}

fn same_opt_text(a: &Option<String>, b: &str) -> (out: bool)
    ensures
        out == (opt_text(*a) == Some(b@)),
{
    match a {
        Some(s) => same_text(s.as_str(), b),
        None => false,
    }
}

fn count_anchor(outline: &Vec<Heading>, anchor: &str) -> (out: usize)
    ensures
        out == anchor_count(outline@, anchor@, outline@.len() as int),
{
    let mut count: usize = 0;
    let mut i: usize = 0;
    while i < outline.len()
        invariant
            i <= outline.len(),
            count == anchor_count(outline@, anchor@, i as int),
            count <= i,
        decreases outline.len() - i,
    {
        if same_opt_text(&outline[i].anchor, anchor) {
            count += 1;
        }
        i += 1;
    }
    count
}

fn repeat_hash(count: u8) -> (out: Vec<char>)
    ensures
        out@ == hashes(count as nat),
{
    let mut out: Vec<char> = Vec::new();
    let mut i: u8 = 0;
    while i < count
        invariant
            i <= count,
            out@ == hashes(i as nat),
        decreases count - i,
    {
        out.push('#');
        proof {
            assert(out@ =~= hashes((i + 1) as nat));
        }
        i += 1;
    }
    out
}

impl Diagnostics {
    /// An empty collection.
    pub fn new() -> (out: Self)
        ensures
            out.items@.len() == 0,
    {
        Diagnostics { items: Vec::new() }
    }

    /// Adds a diagnostic at the end.
    pub fn push(&mut self, diagnostic: Diagnostic)
        ensures
            final(self).items@ == old(self).items@.push(diagnostic),
    {
        self.items.push(diagnostic);
    }

    pub fn is_empty(&self) -> (out: bool)
        ensures
            out == (self.items@.len() == 0),
    {
        self.items.len() == 0
    }

    pub fn len(&self) -> (out: usize)
        ensures
            out == self.items@.len(),
    {
        self.items.len()
    }

    /// The diagnostics of one severity, in order.
    pub fn by_severity(&self, severity: DiagnosticSeverity) -> (out: Vec<&Diagnostic>)
        ensures
            ref_views(out@) == with_severity(
                diagnostic_views(self.items@),
                severity,
                self.items@.len() as int,
            ),
    {
        let ghost views = diagnostic_views(self.items@);
        let mut out: Vec<&Diagnostic> = Vec::new();
        let mut i: usize = 0;
        proof {
            assert(ref_views(out@) =~= Seq::empty());
        }
        while i < self.items.len()
            invariant
                i <= self.items.len(),
                views == diagnostic_views(self.items@),
                ref_views(out@) == with_severity(views, severity, i as int),
            decreases self.items.len() - i,
        {
            let ghost before = ref_views(out@);
            proof {
                assert(views[i as int] == self.items@[i as int]@);
            }
            if self.items[i].severity == severity {
                out.push(&self.items[i]);
                proof {
                    assert(ref_views(out@) =~= before.push(self.items@[i as int]@));
                }
            }
            i += 1;
        }
        out
    }

    /// The errors, in order.
    pub fn errors(&self) -> (out: Vec<&Diagnostic>)
        ensures
            ref_views(out@) == with_severity(
                diagnostic_views(self.items@),
                DiagnosticSeverity::Error,
                self.items@.len() as int,
            ),
    {
        self.by_severity(DiagnosticSeverity::Error)
    }

    /// The warnings, in order.
    pub fn warnings(&self) -> (out: Vec<&Diagnostic>)
        ensures
            ref_views(out@) == with_severity(
                diagnostic_views(self.items@),
                DiagnosticSeverity::Warning,
                self.items@.len() as int,
            ),
    {
        self.by_severity(DiagnosticSeverity::Warning)
    }

    /// Adds a warning for each heading whose anchor another heading carries too.
    pub fn check_duplicate_heading_ids(&mut self, metadata: &DocumentMetadata)
        ensures
            diagnostic_views(final(self).items@) == diagnostic_views(old(self).items@)
                + duplicate_heading_diagnostics(
                metadata.outline@,
                metadata.outline@.len() as int,
            ),
    {
        let ghost base = diagnostic_views(self.items@);
        let outline = &metadata.outline;
        let mut i: usize = 0;
        proof {
            assert(base + Seq::<DiagnosticView>::empty() =~= base);
        }
        while i < outline.len()
            invariant
                i <= outline.len(),
                outline@ == metadata.outline@,
                diagnostic_views(self.items@) == base + duplicate_heading_diagnostics(
                    outline@,
                    i as int,
                ),
            decreases outline.len() - i,
        {
            let ghost before = diagnostic_views(self.items@);
            let h = &outline[i];
            match &h.anchor {
                Some(anchor) => {
                    if count_anchor(outline, anchor.as_str()) > 1 {
                        let message = concat("Duplicate heading ID: ", anchor.as_str());
                        let mut source = repeat_hash(h.level);
                        push_text(&mut source, " ");
                        push_text(&mut source, h.text.as_str());
                        let source_text = from_chars(&source);
                        let d = Diagnostic::warning("dup-heading-id", message.as_str()).at_position(
                            i + 1,
                            1,
                        ).with_source(source_text.as_str());
                        self.items.push(d);
                        proof {
                            assert(d@ == duplicate_heading_diagnostic(*h, i as int));
                            assert(diagnostic_views(self.items@) =~= before.push(d@));
                            assert(before.push(d@) =~= base + duplicate_heading_diagnostics(
                                outline@,
                                i as int,
                            ).push(d@));
                        }
                    }
                },
                None => {},
            }
            i += 1;
        }
    }

    /// Adds a finding for each link with an empty destination or one that starts a script.
    pub fn check_malformed_links(&mut self, metadata: &DocumentMetadata)
        ensures
            diagnostic_views(final(self).items@) == diagnostic_views(old(self).items@)
                + link_diagnostics(metadata.links@, metadata.links@.len() as int),
    {
        let ghost base = diagnostic_views(self.items@);
        let links = &metadata.links;
        let scheme = to_chars("javascript:");
        let mut i: usize = 0;
        proof {
            assert(base + Seq::<DiagnosticView>::empty() =~= base);
        }
        while i < links.len()
            invariant
                i <= links.len(),
                links@ == metadata.links@,
                scheme@ == javascript_scheme(),
                diagnostic_views(self.items@) == base + link_diagnostics(links@, i as int),
            decreases links.len() - i,
        {
            let ghost before = diagnostic_views(self.items@);
            let link = &links[i];
            let url = to_chars(link.url.as_str());
            if url.len() == 0 {
                let mut source: Vec<char> = Vec::new();
                push_text(&mut source, "[");
                match &link.title {
                    Some(t) => push_text(&mut source, t.as_str()),
                    None => push_text(&mut source, "text"),
                }
                push_text(&mut source, "]");
                let source_text = from_chars(&source);
                let d = Diagnostic::warning("empty-link-url", "Link has empty URL").with_source(
                    source_text.as_str(),
                );
                self.items.push(d);
                proof {
                    assert(Seq::<char>::empty() + "["@ =~= "["@);
                    assert(Some(d@) == link_diagnostic(*link));
                    assert(diagnostic_views(self.items@) =~= before.push(d@));
                    assert(before.push(d@) =~= base + link_diagnostics(links@, i as int).push(d@));
                }
            } else if matches_at(&url, &scheme, 0) {
                let message = concat("JavaScript URL detected: ", link.url.as_str());
                let d = Diagnostic::error("javascript-link", message.as_str()).with_source(
                    link.url.as_str(),
                );
                self.items.push(d);
                proof {
                    assert(Some(d@) == link_diagnostic(*link));
                    assert(diagnostic_views(self.items@) =~= before.push(d@));
                    assert(before.push(d@) =~= base + link_diagnostics(links@, i as int).push(d@));
                }
            }
            i += 1;
        }
    }

    /// Adds a warning where the text holds line feeds of both kinds.
    pub fn check_mixed_line_endings(&mut self, text: &str)
        ensures
            diagnostic_views(final(self).items@) == diagnostic_views(old(self).items@)
                + line_ending_diagnostics(text@),
    {
        let ghost base = diagnostic_views(self.items@);
        let chars = to_chars(text);
        let mut has_crlf = false;
        let mut has_lf = false;
        let mut i: usize = 0;
        while i < chars.len()
            invariant
                i <= chars.len(),
                chars@ == text@,
                has_crlf == (exists|k: int| k < i && is_crlf_at(chars@, k)),
                has_lf == (exists|k: int| k < i && is_bare_lf_at(chars@, k)),
            decreases chars.len() - i,
        {
            if chars[i] == '\n' {
                if i > 0 && chars[i - 1] == '\r' {
                    assert(is_crlf_at(chars@, i as int));
                    has_crlf = true;
                } else {
                    assert(is_bare_lf_at(chars@, i as int));
                    has_lf = true;
                }
            }
            i += 1;
        }
        if has_crlf && has_lf {
            let d = Diagnostic::warning(
                "mixed-line-endings",
                "Document contains mixed line endings (CRLF and LF)",
            );
            self.items.push(d);
            proof {
                assert(diagnostic_views(self.items@) =~= base.push(d@));
                assert(base.push(d@) =~= base + seq![mixed_line_endings_diagnostic()]);
            }
        } else {
            proof {
                assert(base + Seq::<DiagnosticView>::empty() =~= base);
            }
        }
    }

    /// Runs all checks on a document.
    pub fn run(text: &str, metadata: &DocumentMetadata) -> (out: Self)
        ensures
            diagnostic_views(out.items@) == run_spec(text@, *metadata),
    {
        let mut diagnostics = Self::new();
        proof {
            assert(diagnostic_views(diagnostics.items@) =~= Seq::empty());
        }
        diagnostics.check_duplicate_heading_ids(metadata);
        diagnostics.check_malformed_links(metadata);
        diagnostics.check_mixed_line_endings(text);
        proof {
            let a = duplicate_heading_diagnostics(metadata.outline@, metadata.outline@.len() as int);
            assert(Seq::<DiagnosticView>::empty() + a =~= a);
        }
        diagnostics
    }
}

impl Default for Diagnostics {
    fn default() -> (out: Self)
        ensures
            out.items@.len() == 0,
    {
        Diagnostics { items: Vec::new() }
    }
}

} // verus!
