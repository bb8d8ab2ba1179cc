use vstd::prelude::*;
use crate::model::opt_text;

verus! {

/// The format of a document's front matter.
#[derive(Debug, Clone, Copy, PartialEq, Eq, Structural)]
pub enum FrontMatterFormat {
    Yaml,
    Toml,
}

impl Default for FrontMatterFormat {
    fn default() -> (out: Self)
        ensures
            out == FrontMatterFormat::Yaml,
    {
        FrontMatterFormat::Yaml
    }
}

impl FrontMatterFormat {
    /// The line that opens and closes front matter of this format.
    pub fn delimiter(&self) -> (out: &'static str)
        ensures
            out@ == match *self {
                FrontMatterFormat::Yaml => "---"@,
                FrontMatterFormat::Toml => "+++"@,
            },
    {
        match self {
            FrontMatterFormat::Yaml => "---",
            FrontMatterFormat::Toml => "+++",
        }
    }
}

/// Feature sets of the Markdown engine.
#[derive(Debug, Clone, Copy, PartialEq, Eq, Structural)]
pub enum MarkdownProfile {
    /// CommonMark with no extensions.
    StrictCommonMark,
    /// GitHub Flavored Markdown; raw HTML is never passed through.
    GfmSafe,
    /// The GFM features and front matter.
    Extended,
}

impl Default for MarkdownProfile {
    fn default() -> (out: Self)
        ensures
            out == MarkdownProfile::GfmSafe,
    {
        MarkdownProfile::GfmSafe
    }
}

/// The switches of the Markdown parser that a profile sets. No profile
/// sets `raw_html`: raw HTML is never passed through.
#[derive(Debug, Clone, PartialEq, Eq)]
pub struct ProfileFeatures {
    pub raw_html: bool,
    pub strikethrough: bool,
    pub table: bool,
    pub autolink: bool,
    pub tasklist: bool,
    pub footnotes: bool,
    pub description_lists: bool,
    pub header_id_prefix: Option<String>,
    pub front_matter_delimiter: Option<String>,
    pub sourcepos: bool,
}

/// A profile's switches as plain values.
pub struct FeaturesView {
    pub raw_html: bool,
    pub strikethrough: bool,
    pub table: bool,
    pub autolink: bool,
    pub tasklist: bool,
    pub footnotes: bool,
    pub description_lists: bool,
    pub header_id_prefix: Option<Seq<char>>,
    pub front_matter_delimiter: Option<Seq<char>>,
    pub sourcepos: bool,
}

impl View for ProfileFeatures {
    type V = FeaturesView;

    open spec fn view(&self) -> FeaturesView {
        FeaturesView {
            raw_html: self.raw_html,
            strikethrough: self.strikethrough,
            table: self.table,
            autolink: self.autolink,
            tasklist: self.tasklist,
            footnotes: self.footnotes,
            description_lists: self.description_lists,
            header_id_prefix: opt_text(self.header_id_prefix),
            front_matter_delimiter: opt_text(self.front_matter_delimiter),
            sourcepos: self.sourcepos,
        }
    }
}

/// The switches that each profile sets.
pub open spec fn features_spec(profile: MarkdownProfile) -> FeaturesView {
    let gfm = profile != MarkdownProfile::StrictCommonMark;
    FeaturesView {
        raw_html: false,
        strikethrough: gfm,
        table: gfm,
        autolink: gfm,
        tasklist: gfm,
        footnotes: gfm,
        description_lists: gfm,
        header_id_prefix: if gfm {
            Some("heading-"@)
        } else {
            None
        },
        front_matter_delimiter: if profile == MarkdownProfile::Extended {
            Some("---"@)
        } else {
            None
        },
        sourcepos: true,
    }
}

impl MarkdownProfile {
    /// The parser switches of this profile.
    pub fn features(&self) -> (out: ProfileFeatures)
        ensures
            out@ == features_spec(*self),
    {
        match self {
            MarkdownProfile::StrictCommonMark => ProfileFeatures {
                raw_html: false,
                strikethrough: false,
                table: false,
                autolink: false,
                tasklist: false,
                footnotes: false,
                description_lists: false,
                header_id_prefix: None,
                front_matter_delimiter: None,
                sourcepos: true,
            },
            MarkdownProfile::GfmSafe => ProfileFeatures {
                raw_html: false,
                strikethrough: true,
                table: true,
                autolink: true,
                tasklist: true,
                footnotes: true,
                description_lists: true,
                header_id_prefix: Some("heading-".to_string()),
                front_matter_delimiter: None,
                sourcepos: true,
            },
            MarkdownProfile::Extended => ProfileFeatures {
                raw_html: false,
                strikethrough: true,
                table: true,
                autolink: true,
                tasklist: true,
                footnotes: true,
                description_lists: true,
                header_id_prefix: Some("heading-".to_string()),
                front_matter_delimiter: Some("---".to_string()),
                sourcepos: true,
            },
        }
    }

    /// Whether front matter is read under this profile.
    pub fn supports_front_matter(&self) -> (out: bool)
        ensures
            out == (*self == MarkdownProfile::Extended),
    {
        match self {
            MarkdownProfile::Extended => true,
            _ => false,
        }
    }
}

/// A heading of the outline.
#[derive(Debug, Clone, PartialEq, Eq)]
pub struct Heading {
    pub level: u8,
    pub text: String,
    pub anchor: Option<String>,
}

/// A link found in the document.
#[derive(Debug, Clone, PartialEq, Eq)]
pub struct LinkRef {
    pub url: String,
    pub title: Option<String>,
}

/// Counts of task list items.
#[derive(Debug, Clone, Copy, PartialEq, Eq, Structural)]
pub struct TaskStats {
    pub total: usize,
    pub completed: usize,
}

impl Default for TaskStats {
    fn default() -> (out: Self)
        ensures
            out.total == 0,
            out.completed == 0,
    {
        TaskStats { total: 0, completed: 0 }
    }
}

/// A document's front matter: its raw text, its format, and its scalar
/// fields by key. No key occurs twice among the fields.
#[derive(Debug, Clone, PartialEq, Eq)]
pub struct FrontMatter {
    pub raw: Option<String>,
    pub format: Option<FrontMatterFormat>,
    pub fields: Vec<(String, String)>,
}

/// Key and value of each field, as plain values.
pub open spec fn field_views(fields: Seq<(String, String)>) -> Seq<(Seq<char>, Seq<char>)> {
    fields.map_values(|f: (String, String)| (f.0@, f.1@))
}

/// The value of the first field with the given key.
pub open spec fn lookup(fields: Seq<(Seq<char>, Seq<char>)>, key: Seq<char>) -> Option<Seq<char>>
    decreases fields.len(),
{
    if fields.len() == 0 {
        None
    } else if fields[0].0 == key {
        Some(fields[0].1)
    } else {
        lookup(fields.drop_first(), key)
    }
}

impl Default for FrontMatter {
    fn default() -> (out: Self)
        ensures
            out.raw is None,
            out.format is None,
            out.fields@.len() == 0,
    {
        FrontMatter { raw: None, format: None, fields: Vec::new() }
    }
}

impl FrontMatter {
    /// The value of the field with the given key.
    pub fn get(&self, key: &str) -> (out: Option<&String>)
        ensures
            match out {
                Some(v) => lookup(field_views(self.fields@), key@) == Some(v@),
                None => lookup(field_views(self.fields@), key@) is None,
            },
    {
        let mut i: usize = 0;
        proof {
            assert(field_views(self.fields@).skip(0) =~= field_views(self.fields@));
        }
        while i < self.fields.len()
            invariant
                i <= self.fields.len(),
                lookup(field_views(self.fields@), key@) == lookup(
                    field_views(self.fields@).skip(i as int),
                    key@,
                ),
            decreases self.fields.len() - i,
        {
            let ghost rest = field_views(self.fields@).skip(i as int);
            proof {
                assert(rest[0] == (self.fields@[i as int].0@, self.fields@[i as int].1@));
                assert(rest.drop_first() =~= field_views(self.fields@).skip(i + 1));
            }
            if crate::chars::same_text(self.fields[i].0.as_str(), key) {
                return Some(&self.fields[i].1);
            }
            i += 1;
        }
        None
    }
}

/// What parsing extracts from a document.
#[derive(Debug, Clone, PartialEq, Eq)]
pub struct DocumentMetadata {
    /// The front matter's title, else the text of the first heading of level one.
    pub title: Option<String>,
    /// All headings, in document order.
    pub outline: Vec<Heading>,
    /// All links, in document order.
    pub links: Vec<LinkRef>,
    /// Counts of task list items.
    pub task_items: TaskStats,
    /// The number of words of the body.
    pub word_count: usize,
    pub front_matter: FrontMatter,
}

/// Errors of Markdown processing.
#[derive(Debug, Clone, PartialEq, Eq)]
pub enum MarkdownError {
    ParseError(String),
}

impl MarkdownError {
    /// The error as a line of text.
    pub fn to_text(&self) -> (out: String)
        ensures
            out@ == match *self {
                MarkdownError::ParseError(m) => "Failed to parse markdown: "@ + m@,
            },
    {
        match self {
            MarkdownError::ParseError(m) => crate::chars::concat(
                "Failed to parse markdown: ",
                m.as_str(),
            ),
        }
    }
}

/// The kinds of node that metadata is read from; every other kind is `Other`.
#[derive(Debug, Clone, PartialEq, Eq)]
pub enum MdNode {
    Heading(u8),
    Text(String),
    Code(String),
    Link { url: String, title: String },
    TaskItem(Option<char>),
    Other,
}

/// One step of a walk over a parsed document in tree order: into a node, or
/// out of the node entered last.
#[derive(Debug, Clone, PartialEq, Eq)]
pub enum MdEvent {
    Start(MdNode),
    End,
}

/// A node as plain values.
pub enum MdNodeView {
    Heading(u8),
    Text(Seq<char>),
    Code(Seq<char>),
    Link { url: Seq<char>, title: Seq<char> },
    TaskItem(Option<char>),
    Other,
}

/// A step of the walk as plain values.
pub enum MdEventView {
    Start(MdNodeView),
    End,
}

impl View for MdNode {
    type V = MdNodeView;

    open spec fn view(&self) -> MdNodeView {
        match *self {
            MdNode::Heading(l) => MdNodeView::Heading(l),
            MdNode::Text(t) => MdNodeView::Text(t@),
            MdNode::Code(c) => MdNodeView::Code(c@),
            MdNode::Link { url, title } => MdNodeView::Link { url: url@, title: title@ },
            MdNode::TaskItem(s) => MdNodeView::TaskItem(s),
            MdNode::Other => MdNodeView::Other,
        }
    }
}

impl View for MdEvent {
    type V = MdEventView;

    open spec fn view(&self) -> MdEventView {
        match *self {
            MdEvent::Start(n) => MdEventView::Start(n@),
            MdEvent::End => MdEventView::End,
        }
    }
}

pub open spec fn event_views(events: Seq<MdEvent>) -> Seq<MdEventView> {
    events.map_values(|e: MdEvent| e@)
}

/// A value of a front matter field, by kind. Numbers and dates are held as
/// the text that their own formatting gives; sequences, mappings and tables
/// are `Other`.
#[derive(Debug, Clone, PartialEq, Eq)]
pub enum FieldValue {
    Null,
    Bool(bool),
    Text(String),
    Number(String),
    Datetime(String),
    Other,
}

/// A field value as plain values.
pub enum FieldValueView {
    Null,
    Bool(bool),
    Text(Seq<char>),
    Number(Seq<char>),
    Datetime(Seq<char>),
    Other,
}

impl View for FieldValue {
    type V = FieldValueView;

    open spec fn view(&self) -> FieldValueView {
        match *self {
            FieldValue::Null => FieldValueView::Null,
            FieldValue::Bool(b) => FieldValueView::Bool(b),
            FieldValue::Text(t) => FieldValueView::Text(t@),
            FieldValue::Number(t) => FieldValueView::Number(t@),
            FieldValue::Datetime(t) => FieldValueView::Datetime(t@),
            FieldValue::Other => FieldValueView::Other,
        }
    }
}

} // verus!
