use vstd::prelude::*;
use crate::chars::{from_chars, push_all, push_text};
use crate::md_types::DocumentMetadata;
use crate::model::opt_text;
use crate::search::{trim, trim_spec};

verus! {

/// What export reads of a node of a parsed document: its kind, and of some
/// kinds a text or a switch. Kinds that export treats alike are `Other`.
#[derive(Debug, Clone, PartialEq, Eq)]
pub enum DocNode {
    Document,
    Heading(u8),
    Paragraph,
    CodeBlock { info: String, literal: String },
    List { ordered: bool },
    Item,
    TaskItem { checked: bool },
    BlockQuote,
    MultilineBlockQuote,
    ThematicBreak,
    FootnoteDefinition(String),
    HtmlBlock(String),
    Table,
    TableRow,
    TableCell,
    Text(String),
    SoftBreak,
    LineBreak,
    Code(String),
    Link { url: String },
    FootnoteReference,
    Other,
}

/// A node as plain values.
pub enum DocNodeView {
    Document,
    Heading(u8),
    Paragraph,
    CodeBlock { info: Seq<char>, literal: Seq<char> },
    List { ordered: bool },
    Item,
    TaskItem { checked: bool },
    BlockQuote,
    MultilineBlockQuote,
    ThematicBreak,
    FootnoteDefinition(Seq<char>),
    HtmlBlock(Seq<char>),
    Table,
    TableRow,
    TableCell,
    Text(Seq<char>),
    SoftBreak,
    LineBreak,
    Code(Seq<char>),
    Link { url: Seq<char> },
    FootnoteReference,
    Other,
}

impl View for DocNode {
    type V = DocNodeView;

    open spec fn view(&self) -> DocNodeView {
        match *self {
            DocNode::Document => DocNodeView::Document,
            DocNode::Heading(level) => DocNodeView::Heading(level),
            DocNode::Paragraph => DocNodeView::Paragraph,
            DocNode::CodeBlock { info, literal } => DocNodeView::CodeBlock {
                info: info@,
                literal: literal@,
            },
            DocNode::List { ordered } => DocNodeView::List { ordered },
            DocNode::Item => DocNodeView::Item,
            DocNode::TaskItem { checked } => DocNodeView::TaskItem { checked },
            DocNode::BlockQuote => DocNodeView::BlockQuote,
            DocNode::MultilineBlockQuote => DocNodeView::MultilineBlockQuote,
            DocNode::ThematicBreak => DocNodeView::ThematicBreak,
            DocNode::FootnoteDefinition(name) => DocNodeView::FootnoteDefinition(name@),
            DocNode::HtmlBlock(literal) => DocNodeView::HtmlBlock(literal@),
            DocNode::Table => DocNodeView::Table,
            DocNode::TableRow => DocNodeView::TableRow,
            DocNode::TableCell => DocNodeView::TableCell,
            DocNode::Text(text) => DocNodeView::Text(text@),
            DocNode::SoftBreak => DocNodeView::SoftBreak,
            DocNode::LineBreak => DocNodeView::LineBreak,
            DocNode::Code(literal) => DocNodeView::Code(literal@),
            DocNode::Link { url } => DocNodeView::Link { url: url@ },
            DocNode::FootnoteReference => DocNodeView::FootnoteReference,
            DocNode::Other => DocNodeView::Other,
        }
    }
}

/// A step of a walk over a parsed document, in tree order: into a node, or
/// out of the node that was entered last and not yet left.
#[derive(Debug, Clone, PartialEq, Eq)]
pub enum DocEvent {
    Start(DocNode),
    End,
}

/// A step as plain values.
pub enum DocEventView {
    Start(DocNodeView),
    End,
}

impl View for DocEvent {
    type V = DocEventView;

    open spec fn view(&self) -> DocEventView {
        match *self {
            DocEvent::Start(node) => DocEventView::Start(node@),
            DocEvent::End => DocEventView::End,
        }
    }
}

pub open spec fn doc_event_views(events: Seq<DocEvent>) -> Seq<DocEventView> {
    events.map_values(|e: DocEvent| e@)
}

/// The first index at or after `j`, below `hi`, of a step out that finds
/// `depth` nodes entered and all of them left again; `hi` where there is none.
pub open spec fn close_at(v: Seq<DocEventView>, j: int, hi: int, depth: nat) -> int
    decreases hi - j,
{
    if j < 0 || j >= hi || j >= v.len() {
        hi
    } else {
        match v[j] {
            DocEventView::End => if depth == 0 {
                j
            } else {
                close_at(v, j + 1, hi, (depth - 1) as nat)
            },
            DocEventView::Start(_) => close_at(v, j + 1, hi, depth + 1),
        }
    }
}

/// Where the steps go on behind a node that is left at `e`: behind that
/// step, or at `hi` where the node is never left.
pub open spec fn behind(e: int, hi: int) -> int {
    if e < hi {
        e + 1
    } else {
        hi
    }
}

/// What a node adds to the text of the node around it, `inner` being the
/// text of what it holds itself.
pub open spec fn inline_piece(node: DocNodeView, inner: Seq<char>) -> Seq<char> {
    match node {
        DocNodeView::Text(text) => text,
        DocNodeView::SoftBreak => " "@,
        DocNodeView::LineBreak => " "@,
        DocNodeView::Code(literal) => literal,
        DocNodeView::Link { url } => if inner.len() == 0 {
            url
        } else {
            inner
        },
        DocNodeView::FootnoteReference => Seq::empty(),
        DocNodeView::TaskItem { checked } => (if checked {
            "[x] "@
        } else {
            "[ ] "@
        }) + inner,
        _ => inner,
    }
}

/// The pieces of the nodes that the steps from `lo` to `hi` walk over, one
/// behind the other. The text of what a node holds is trimmed before the
/// node's piece is made of it.
pub open spec fn inline_text(v: Seq<DocEventView>, lo: int, hi: int) -> Seq<char>
    decreases hi - lo,
{
    if lo < 0 || lo >= hi || hi > v.len() {
        Seq::empty()
    } else {
        match v[lo] {
            DocEventView::End => inline_text(v, lo + 1, hi),
            DocEventView::Start(node) => {
                let e = close_at(v, lo + 1, hi, 0);
                if lo < e <= hi {
                    inline_piece(node, trim_spec(inline_text(v, lo + 1, e))) + inline_text(
                        v,
                        behind(e, hi),
                        hi,
                    )
                } else {
                    Seq::empty()
                }
            },
        }
    }
}

/// The text of what a node holds, its steps running from `lo` to `hi`:
/// the pieces of its nodes, trimmed.
pub open spec fn text_content(v: Seq<DocEventView>, lo: int, hi: int) -> Seq<char> {
    trim_spec(inline_text(v, lo, hi))
}

/// A block of a document laid out for PDF.
#[derive(Debug, PartialEq, Eq)]
pub enum PdfNode {
    Heading { level: u8, content: String },
    Paragraph { content: String },
    Code { content: String, language: Option<String> },
    List { items: Vec<PdfNode>, ordered: bool },
    Blockquote { content: String },
    Footnote { id: String, content: String },
}

/// An item of a list laid out for PDF.
#[derive(Debug, Clone, PartialEq, Eq)]
pub struct PdfListItem {
    pub content: String,
}

/// A block as plain values. Of a list's items it holds the text of each
/// that is a paragraph, and `None` for any other.
pub enum PdfNodeView {
    Heading { level: u8, content: Seq<char> },
    Paragraph { content: Seq<char> },
    Code { content: Seq<char>, language: Option<Seq<char>> },
    List { items: Seq<Option<Seq<char>>>, ordered: bool },
    Blockquote { content: Seq<char> },
    Footnote { id: Seq<char>, content: Seq<char> },
}

/// The text of a block that is a paragraph.
pub open spec fn item_text(node: PdfNode) -> Option<Seq<char>> {
    match node {
        PdfNode::Paragraph { content } => Some(content@),
        _ => None,
    }
}

pub open spec fn item_texts(items: Seq<PdfNode>) -> Seq<Option<Seq<char>>> {
    items.map_values(|n: PdfNode| item_text(n))
}

impl View for PdfNode {
    type V = PdfNodeView;

    open spec fn view(&self) -> PdfNodeView {
        match *self {
            PdfNode::Heading { level, content } => PdfNodeView::Heading { level, content: content@ },
            PdfNode::Paragraph { content } => PdfNodeView::Paragraph { content: content@ },
            PdfNode::Code { content, language } => PdfNodeView::Code {
                content: content@,
                language: opt_text(language),
            },
            PdfNode::List { items, ordered } => PdfNodeView::List {
                items: item_texts(items@),
                ordered,
            },
            PdfNode::Blockquote { content } => PdfNodeView::Blockquote { content: content@ },
            PdfNode::Footnote { id, content } => PdfNodeView::Footnote {
                id: id@,
                content: content@,
            },
        }
    }
}

pub open spec fn pdf_views(nodes: Seq<PdfNode>) -> Seq<PdfNodeView> {
    nodes.map_values(|n: PdfNode| n@)
}

/// The items of a list, its steps running from `lo` to `hi`: the text of
/// each item that has any, in order. Nodes between the list and its items
/// are looked through.
pub open spec fn list_items(v: Seq<DocEventView>, lo: int, hi: int) -> Seq<Option<Seq<char>>>
    decreases hi - lo,
{
    if lo < 0 || lo >= hi || hi > v.len() {
        Seq::empty()
    } else {
        match v[lo] {
            DocEventView::End => list_items(v, lo + 1, hi),
            DocEventView::Start(node) => {
                let e = close_at(v, lo + 1, hi, 0);
                if lo < e <= hi {
                    (match node {
                        DocNodeView::Item => if text_content(v, lo + 1, e).len() == 0 {
                            Seq::empty()
                        } else {
                            seq![Some(text_content(v, lo + 1, e))]
                        },
                        _ => list_items(v, lo + 1, e),
                    }) + list_items(v, behind(e, hi), hi)
                } else {
                    Seq::empty()
                }
            },
        }
    }
}

/// The blocks for PDF of the nodes that the steps from `lo` to `hi` walk
/// over. A heading, a block quote and a footnote give a block whatever
/// their text; a paragraph and a list only where they are not empty; a
/// code block its literal text, and its language where it names one. A
/// node of any other kind is looked through for blocks inside it.
pub open spec fn pdf_nodes(v: Seq<DocEventView>, lo: int, hi: int) -> Seq<PdfNodeView>
    decreases hi - lo,
{
    if lo < 0 || lo >= hi || hi > v.len() {
        Seq::empty()
    } else {
        match v[lo] {
            DocEventView::End => pdf_nodes(v, lo + 1, hi),
            DocEventView::Start(node) => {
                let e = close_at(v, lo + 1, hi, 0);
                if lo < e <= hi {
                    let content = text_content(v, lo + 1, e);
                    (match node {
                        DocNodeView::Heading(level) => seq![PdfNodeView::Heading { level, content }],
                        DocNodeView::Paragraph => if content.len() == 0 {
                            Seq::empty()
                        } else {
                            seq![PdfNodeView::Paragraph { content }]
                        },
                        DocNodeView::CodeBlock { info, literal } => seq![
                            PdfNodeView::Code {
                                content: literal,
                                language: if info.len() == 0 {
                                    None
                                } else {
                                    Some(info)
                                },
                            },
                        ],
                        DocNodeView::List { ordered } => if list_items(v, lo + 1, e).len() == 0 {
                            Seq::empty()
                        } else {
                            seq![PdfNodeView::List { items: list_items(v, lo + 1, e), ordered }]
                        },
                        DocNodeView::BlockQuote => seq![PdfNodeView::Blockquote { content }],
                        DocNodeView::FootnoteDefinition(name) => seq![
                            PdfNodeView::Footnote { id: name, content },
                        ],
                        _ => pdf_nodes(v, lo + 1, e),
                    }) + pdf_nodes(v, behind(e, hi), hi)
                } else {
                    Seq::empty()
                }
            },
        }
    }
}

/// The blocks for PDF of a whole document, given as the steps of a walk
/// over it.
pub open spec fn pdf_nodes_spec(v: Seq<DocEventView>) -> Seq<PdfNodeView> {
    pdf_nodes(v, 0, v.len() as int)
}

/// Finds the step that leaves the node whose steps start at `from`.
pub(crate) fn close_index(events: &Vec<DocEvent>, from: usize, hi: usize) -> (out: usize)
    requires
        from <= hi <= events.len(),
    ensures
        out == close_at(doc_event_views(events@), from as int, hi as int, 0),
        from <= out <= hi,
{
    let ghost v = doc_event_views(events@);
    let mut j: usize = from;
    let mut depth: usize = 0;
    while j < hi
        invariant
            from <= j <= hi <= events.len(),
            v == doc_event_views(events@),
            depth <= j - from,
            close_at(v, from as int, hi as int, 0) == close_at(v, j as int, hi as int, depth as nat),
        decreases hi - j,
    {
        proof {
            assert(v[j as int] == events@[j as int]@);
        }
        match &events[j] {
            DocEvent::End => {
                if depth == 0 {
                    return j;
                }
                depth -= 1;
            },
            DocEvent::Start(_) => {
                depth += 1;
            },
        }
        j += 1;
    }
    hi
}

pub(crate) fn behind_index(e: usize, hi: usize) -> (out: usize)
    requires
        e <= hi,
    ensures
        out == behind(e as int, hi as int),
        e <= out <= hi,
{
    if e < hi {
        e + 1
    } else {
        hi
    }
}

fn push_inline_piece(out: &mut Vec<char>, node: &DocNode, inner: &Vec<char>)
    ensures
        final(out)@ == old(out)@ + inline_piece(node@, inner@),
{
    match node {
        DocNode::Text(text) => push_text(out, text.as_str()),
        DocNode::SoftBreak => push_text(out, " "),
        DocNode::LineBreak => push_text(out, " "),
        DocNode::Code(literal) => push_text(out, literal.as_str()),
        DocNode::Link { url } => {
            if inner.len() == 0 {
                push_text(out, url.as_str());
            } else {
                push_all(out, inner);
            }
        },
        DocNode::FootnoteReference => {
            proof {
                assert(out@ =~= old(out)@ + Seq::<char>::empty());
            }
        },
        DocNode::TaskItem { checked } => {
            if *checked {
                push_text(out, "[x] ");
            } else {
                push_text(out, "[ ] ");
            }
            push_all(out, inner);
            proof {
                assert(out@ =~= old(out)@ + inline_piece(node@, inner@));
            }
        },
        _ => push_all(out, inner),
    }
}

fn inline_text_of(events: &Vec<DocEvent>, lo: usize, hi: usize) -> (out: Vec<char>)
    requires
        lo <= hi <= events.len(),
    ensures
        out@ == inline_text(doc_event_views(events@), lo as int, hi as int),
    decreases hi - lo,
{
    let ghost v = doc_event_views(events@);
    let mut out: Vec<char> = Vec::new();
    let mut cur: usize = lo;
    proof {
        assert(out@ + inline_text(v, lo as int, hi as int) =~= inline_text(v, lo as int, hi as int));
    }
    while cur < hi
        invariant
            lo <= cur <= hi <= events.len(),
            v == doc_event_views(events@),
            out@ + inline_text(v, cur as int, hi as int) == inline_text(v, lo as int, hi as int),
        decreases hi - cur,
    {
        proof {
            assert(v[cur as int] == events@[cur as int]@);
        }
        match &events[cur] {
            DocEvent::End => {
                cur += 1;
            },
            DocEvent::Start(node) => {
                let e = close_index(events, cur + 1, hi);
                let raw = inline_text_of(events, cur + 1, e);
                let inner = trim(&raw);
                let ghost before = out@;
                let ghost rest = inline_text(v, behind(e as int, hi as int), hi as int);
                push_inline_piece(&mut out, node, &inner);
                proof {
                    let piece = inline_piece(node@, inner@);
                    assert(inline_text(v, cur as int, hi as int) == piece + rest);
                    assert((before + piece) + rest =~= before + (piece + rest));
                }
                cur = behind_index(e, hi);
            },
        }
    }
    proof {
        assert(out@ + Seq::<char>::empty() =~= out@);
    }
    out
}

pub(crate) fn text_content_of(events: &Vec<DocEvent>, lo: usize, hi: usize) -> (out: Vec<char>)
    requires
        lo <= hi <= events.len(),
    ensures
        out@ == text_content(doc_event_views(events@), lo as int, hi as int),
{
    let raw = inline_text_of(events, lo, hi);
    trim(&raw)
}

fn list_items_of(events: &Vec<DocEvent>, lo: usize, hi: usize) -> (out: Vec<PdfNode>)
    requires
        lo <= hi <= events.len(),
    ensures
        item_texts(out@) == list_items(doc_event_views(events@), lo as int, hi as int),
    decreases hi - lo,
{
    let ghost v = doc_event_views(events@);
    let mut out: Vec<PdfNode> = Vec::new();
    let mut cur: usize = lo;
    proof {
        assert(item_texts(out@) =~= Seq::empty());
        assert(item_texts(out@) + list_items(v, lo as int, hi as int) =~= list_items(
            v,
            lo as int,
            hi as int,
        ));
    }
    while cur < hi
        invariant
            lo <= cur <= hi <= events.len(),
            v == doc_event_views(events@),
            item_texts(out@) + list_items(v, cur as int, hi as int) == list_items(
                v,
                lo as int,
                hi as int,
            ),
        decreases hi - cur,
    {
        proof {
            assert(v[cur as int] == events@[cur as int]@);
        }
        match &events[cur] {
            DocEvent::End => {
                cur += 1;
            },
            DocEvent::Start(node) => {
                let e = close_index(events, cur + 1, hi);
                let ghost before = item_texts(out@);
                let ghost rest = list_items(v, behind(e as int, hi as int), hi as int);
                match node {
                    DocNode::Item => {
                        let content = text_content_of(events, cur + 1, e);
                        if content.len() > 0 {
                            out.push(PdfNode::Paragraph { content: from_chars(&content) });
                            proof {
                                assert(item_texts(out@) =~= before.push(Some(content@)));
                                assert((before.push(Some(content@))) + rest =~= before + (seq![
                                    Some(content@),
                                ] + rest));
                            }
                        } else {
                            proof {
                                assert(before + rest =~= before + (Seq::empty() + rest));
                            }
                        }
                    },
                    _ => {
                        let mut inner = list_items_of(events, cur + 1, e);
                        let ghost inner_texts = item_texts(inner@);
                        out.append(&mut inner);
                        proof {
                            assert(item_texts(out@) =~= before + inner_texts);
                            assert((before + inner_texts) + rest =~= before + (inner_texts + rest));
                        }
                    },
                }
                cur = behind_index(e, hi);
            },
        }
    }
    proof {
        assert(item_texts(out@) + Seq::empty() =~= item_texts(out@));
    }
    out
}

fn pdf_nodes_of(events: &Vec<DocEvent>, lo: usize, hi: usize) -> (out: Vec<PdfNode>)
    requires
        lo <= hi <= events.len(),
    ensures
        pdf_views(out@) == pdf_nodes(doc_event_views(events@), lo as int, hi as int),
    decreases hi - lo,
{
    let ghost v = doc_event_views(events@);
    let mut out: Vec<PdfNode> = Vec::new();
    let mut cur: usize = lo;
    proof {
        assert(pdf_views(out@) =~= Seq::empty());
        assert(pdf_views(out@) + pdf_nodes(v, lo as int, hi as int) =~= pdf_nodes(
            v,
            lo as int,
            hi as int,
        ));
    }
    while cur < hi
        invariant
            lo <= cur <= hi <= events.len(),
            v == doc_event_views(events@),
            pdf_views(out@) + pdf_nodes(v, cur as int, hi as int) == pdf_nodes(
                v,
                lo as int,
                hi as int,
            ),
        decreases hi - cur,
    {
        proof {
            assert(v[cur as int] == events@[cur as int]@);
        }
        match &events[cur] {
            DocEvent::End => {
                cur += 1;
            },
            DocEvent::Start(node) => {
                let e = close_index(events, cur + 1, hi);
                let ghost before = pdf_views(out@);
                let ghost rest = pdf_nodes(v, behind(e as int, hi as int), hi as int);
                let mut here: Vec<PdfNode> = Vec::new();
                proof {
                    assert(pdf_views(here@) =~= Seq::empty());
                }
                match node {
                    DocNode::Heading(level) => {
                        let content = from_chars(&text_content_of(events, cur + 1, e));
                        let block = PdfNode::Heading { level: *level, content };
                        here.push(block);
                        proof {
                            assert(pdf_views(here@) =~= seq![block@]);
                        }
                    },
                    DocNode::Paragraph => {
                        let content = text_content_of(events, cur + 1, e);
                        if content.len() > 0 {
                            let block = PdfNode::Paragraph { content: from_chars(&content) };
                            here.push(block);
                            proof {
                                assert(pdf_views(here@) =~= seq![block@]);
                            }
                        }
                    },
                    DocNode::CodeBlock { info, literal } => {
                        let language = if info.as_str().is_empty() {
                            None
                        } else {
                            Some(info.clone())
                        };
                        let block = PdfNode::Code { content: literal.clone(), language };
                        here.push(block);
                        proof {
                            assert(pdf_views(here@) =~= seq![block@]);
                        }
                    },
                    DocNode::List { ordered } => {
                        let items = list_items_of(events, cur + 1, e);
                        if items.len() > 0 {
                            let block = PdfNode::List { items, ordered: *ordered };
                            here.push(block);
                            proof {
                                assert(pdf_views(here@) =~= seq![block@]);
                            }
                        }
                    },
                    DocNode::BlockQuote => {
                        let content = from_chars(&text_content_of(events, cur + 1, e));
                        let block = PdfNode::Blockquote { content };
                        here.push(block);
                        proof {
                            assert(pdf_views(here@) =~= seq![block@]);
                        }
                    },
                    DocNode::FootnoteDefinition(name) => {
                        let content = from_chars(&text_content_of(events, cur + 1, e));
                        let block = PdfNode::Footnote { id: name.clone(), content };
                        here.push(block);
                        proof {
                            assert(pdf_views(here@) =~= seq![block@]);
                        }
                    },
                    _ => {
                        here = pdf_nodes_of(events, cur + 1, e);
                    },
                }
                let ghost here_views = pdf_views(here@);
                proof {
                    assert(pdf_nodes(v, cur as int, hi as int) == here_views + rest);
                }
                out.append(&mut here);
                proof {
                    assert(pdf_views(out@) =~= before + here_views);
                    assert((before + here_views) + rest =~= before + (here_views + rest));
                }
                cur = behind_index(e, hi);
            },
        }
    }
    proof {
        assert(pdf_views(out@) + Seq::empty() =~= pdf_views(out@));
    }
    out
}

/// A document laid out for PDF, with its title and its number of words.
#[derive(Debug, PartialEq, Eq)]
pub struct PdfRenderResult {
    pub nodes: Vec<PdfNode>,
    pub title: Option<String>,
    pub word_count: usize,
}

/// A document as plain text, with its title and its number of words.
#[derive(Debug, Clone, PartialEq, Eq)]
pub struct TextExportResult {
    pub text: String,
    pub title: Option<String>,
    pub word_count: usize,
}

/// A document as the bytes of a DOCX file, with its title and its number of words.
#[derive(Debug, Clone, PartialEq, Eq)]
pub struct DocxExportResult {
    pub data: Vec<u8>,
    pub title: Option<String>,
    pub word_count: usize,
}

/// Turns parsed documents into what exports are made of.
pub struct MarkdownTransformer;

impl MarkdownTransformer {
    /// Lays a document out in blocks for PDF, from the steps of a walk over
    /// it in tree order.
    pub fn transform_to_pdf_nodes(events: &Vec<DocEvent>) -> (out: Vec<PdfNode>)
        ensures
            pdf_views(out@) == pdf_nodes_spec(doc_event_views(events@)),
    {
        pdf_nodes_of(events, 0, events.len())
    }
}

/// Puts together what an export for PDF answers: the blocks of the
/// document, and title and number of words as its metadata has them.
pub fn pdf_render_result(events: &Vec<DocEvent>, metadata: DocumentMetadata) -> (out: PdfRenderResult)
    ensures
        pdf_views(out.nodes@) == pdf_nodes_spec(doc_event_views(events@)),
        out.title == metadata.title,
        out.word_count == metadata.word_count,
{
    PdfRenderResult {
        nodes: MarkdownTransformer::transform_to_pdf_nodes(events),
        title: metadata.title,
        word_count: metadata.word_count,
    }
}

/// Puts together what an export to DOCX answers: the bytes of the file,
/// and title and number of words as the document's metadata has them.
pub fn docx_export_result(data: Vec<u8>, metadata: DocumentMetadata) -> (out: DocxExportResult)
    ensures
        out.data == data,
        out.title == metadata.title,
        out.word_count == metadata.word_count,
{
    DocxExportResult { data, title: metadata.title, word_count: metadata.word_count }
}

} // verus!
