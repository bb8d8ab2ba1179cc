use vstd::prelude::*;
use comrak::arena_tree::NodeEdge;
use comrak::nodes::NodeValue;
use serde_yaml::Value;
use crate::md_types::{
    event_views, FeaturesView, FieldValue, FieldValueView, MarkdownProfile, MdEvent, MdEventView,
    MdNode, ProfileFeatures,
};

verus! {

#[verifier::external_type_specification]
#[verifier::external_body]
pub struct ExOptions<'c>(comrak::Options<'c>);

/// The steps of a walk, in tree order, over the document that comrak parses
/// from a text under given switches.
pub uninterp spec fn markdown_events(body: Seq<char>, features: FeaturesView) -> Seq<MdEventView>;

/// The HTML that comrak renders for a text under given switches, where rendering succeeds.
pub uninterp spec fn markdown_html(body: Seq<char>, features: FeaturesView) -> Option<Seq<char>>;

/// The entries of the mapping that a YAML text holds, where it parses to a mapping.
pub uninterp spec fn yaml_entries_of(content: Seq<char>) -> Option<
    Seq<(FieldValueView, FieldValueView)>,
>;

/// The entries of the table that a TOML text holds, where it parses.
pub uninterp spec fn toml_entries_of(content: Seq<char>) -> Option<
    Seq<(Seq<char>, FieldValueView)>,
>;

pub open spec fn yaml_pair_views(entries: Seq<(FieldValue, FieldValue)>) -> Seq<
    (FieldValueView, FieldValueView),
> {
    entries.map_values(|e: (FieldValue, FieldValue)| (e.0@, e.1@))
}

pub open spec fn toml_pair_views(entries: Seq<(String, FieldValue)>) -> Seq<
    (Seq<char>, FieldValueView),
> {
    entries.map_values(|e: (String, FieldValue)| (e.0@, e.1@))
}

/// Copies a profile's switches into comrak's `Options`, starting from
/// `Options::default()`, which leaves raw HTML escaped. The switch for raw
/// HTML is never turned on, so only switches that ask for none are taken.
#[verifier::external_body]
pub(crate) fn comrak_options(features: &ProfileFeatures) -> (out: comrak::Options<'static>)
    requires
        !features.raw_html,
{
    let mut options = comrak::Options::default();
    options.extension.strikethrough = features.strikethrough;
    options.extension.table = features.table;
    options.extension.autolink = features.autolink;
    options.extension.tasklist = features.tasklist;
    options.extension.footnotes = features.footnotes;
    options.extension.description_lists = features.description_lists;
    options.extension.header_id_prefix = features.header_id_prefix.clone();
    options.extension.front_matter_delimiter = features.front_matter_delimiter.clone();
    options.render.sourcepos = features.sourcepos;
    options
}

impl MarkdownProfile {
    /// The options that comrak is given under this profile.
    pub fn to_options(&self) -> (out: comrak::Options<'static>) {
        let features = self.features();
        comrak_options(&features)
    }
}

/// Parses a text with comrak's `parse_document` and walks the tree with
/// `traverse`, which yields every node on the way in and on the way out.
/// Of each node the kind is told apart and the fields that metadata is
/// read from are copied. The contract names the result.
#[verifier::external_body]
pub(crate) fn parse_events(body: &str, features: &ProfileFeatures) -> (out: Vec<MdEvent>)
    requires
        !features.raw_html,
    ensures
        event_views(out@) == markdown_events(body@, features@),
{
    let arena = comrak::Arena::new();
    let options = comrak_options(features);
    let root = comrak::parse_document(&arena, body, &options);
    root.traverse().map(|edge| match edge {
        NodeEdge::End(_) => MdEvent::End,
        NodeEdge::Start(n) => MdEvent::Start(match &n.data.borrow().value {
            NodeValue::Heading(h) => MdNode::Heading(h.level),
            NodeValue::Text(t) => MdNode::Text(t.to_string()),
            NodeValue::Code(c) => MdNode::Code(c.literal.clone()),
            NodeValue::Link(l) => MdNode::Link { url: l.url.clone(), title: l.title.clone() },
            NodeValue::TaskItem(t) => MdNode::TaskItem(t.symbol),
            _ => MdNode::Other,
        }),
    }).collect()
}

/// Parses a text with comrak's `parse_document` and renders it with
/// `format_html`. The contract names the result; the error is the text of
/// the formatter's error.
#[verifier::external_body]
pub(crate) fn render_html(body: &str, features: &ProfileFeatures) -> (out: Result<String, String>)
    requires
        !features.raw_html,
    ensures
        match out {
            Ok(html) => markdown_html(body@, features@) == Some(html@),
            Err(_) => markdown_html(body@, features@) is None,
        },
{
    let arena = comrak::Arena::new();
    let options = comrak_options(features);
    let root = comrak::parse_document(&arena, body, &options);
    let mut html = String::new();
    match comrak::format_html(root, &options, &mut html) {
        Ok(()) => Ok(html),
        Err(e) => Err(e.to_string()),
    }
}

/// Parses a text with `serde_yaml::from_str` and hands out the entries of
/// its mapping in the mapping's own order; `None` where the text does not
/// parse or holds no mapping. A key is held as text where `Value::as_str`
/// gives its text, which looks through a tag, and as `Other` where it gives
/// none. Of each value the kind is told apart; a number is held as the text
/// that its `Display` writes. The contract names the result.
#[verifier::external_body]
pub(crate) fn yaml_entries(content: &str) -> (out: Option<Vec<(FieldValue, FieldValue)>>)
    ensures
        match out {
            Some(entries) => yaml_entries_of(content@) == Some(yaml_pair_views(entries@)),
            None => yaml_entries_of(content@) is None,
        },
{
    let key = |k: &Value| k.as_str().map_or(FieldValue::Other, |s| FieldValue::Text(s.to_string()));
    let field = |value: &Value| match value {
        Value::Null => FieldValue::Null,
        Value::Bool(b) => FieldValue::Bool(*b),
        Value::Number(n) => FieldValue::Number(n.to_string()),
        Value::String(s) => FieldValue::Text(s.clone()),
        _ => FieldValue::Other,
    };
    match serde_yaml::from_str::<Value>(content) {
        Ok(Value::Mapping(m)) => Some(m.iter().map(|(k, v)| (key(k), field(v))).collect()),
        _ => None,
    }
}

/// Parses a text with `toml::from_str` into a table and hands out its
/// entries in the table's own order; `None` where the text does not parse.
/// Of each value the kind is told apart; numbers and dates are held as the
/// text that their `Display` writes. The contract names the result.
#[verifier::external_body]
pub(crate) fn toml_entries(content: &str) -> (out: Option<Vec<(String, FieldValue)>>)
    ensures
        match out {
            Some(entries) => toml_entries_of(content@) == Some(toml_pair_views(entries@)),
            None => toml_entries_of(content@) is None,
        },
{
    let table = toml::from_str::<toml::Table>(content).ok()?;
    Some(table.iter().map(|(k, v)| (k.clone(), match v {
        toml::Value::String(s) => FieldValue::Text(s.clone()),
        toml::Value::Integer(n) => FieldValue::Number(n.to_string()),
        toml::Value::Float(n) => FieldValue::Number(n.to_string()),
        toml::Value::Boolean(b) => FieldValue::Bool(*b),
        toml::Value::Datetime(d) => FieldValue::Datetime(d.to_string()),
        _ => FieldValue::Other,
    })).collect())
}

} // verus!
