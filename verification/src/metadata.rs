use vstd::prelude::*;
use crate::chars::{from_chars, push_text};
use crate::front_matter::{extract_front_matter, extract_spec};
use crate::md_bridge::{markdown_events, parse_events};
use crate::md_types::{
    event_views, features_spec, field_views, lookup, DocumentMetadata, FrontMatter, Heading,
    LinkRef, MarkdownError, MarkdownProfile, MdEvent, MdEventView, MdNode, MdNodeView, TaskStats,
};
use crate::model::opt_text;
use crate::text::{estimate_word_count, word_count_spec};

verus! {

/// The text of the node entered just before index `j`, read from `j` on at
/// nesting depth `depth`: the text and code of all nodes inside it, in order.
pub open spec fn inner_text(events: Seq<MdEventView>, j: int, depth: int) -> Seq<char>
    decreases events.len() - j,
{
    if j < 0 || j >= events.len() || depth <= 0 {
        Seq::empty()
    } else {
        match events[j] {
            MdEventView::End => if depth == 1 {
                Seq::empty()
            } else {
                inner_text(events, j + 1, depth - 1)
            },
            MdEventView::Start(MdNodeView::Text(t)) => t + inner_text(events, j + 1, depth + 1),
            MdEventView::Start(MdNodeView::Code(c)) => c + inner_text(events, j + 1, depth + 1),
            MdEventView::Start(_) => inner_text(events, j + 1, depth + 1),
        }
    }
}

/// A heading as plain values: level and text.
pub type HeadingView = (u8, Seq<char>);

/// A link as plain values: destination and title.
pub type LinkView = (Seq<char>, Option<Seq<char>>);

/// The headings entered among the first `n` steps.
pub open spec fn outline_spec(events: Seq<MdEventView>, n: int) -> Seq<HeadingView>
    decreases n,
{
    if n <= 0 || n > events.len() {
        Seq::empty()
    } else {
        let before = outline_spec(events, n - 1);
        match events[n - 1] {
            MdEventView::Start(MdNodeView::Heading(level)) => before.push(
                (level, inner_text(events, n, 1)),
            ),
            _ => before,
        }
    }
}

/// The links entered among the first `n` steps; an empty title is no title.
pub open spec fn links_spec(events: Seq<MdEventView>, n: int) -> Seq<LinkView>
    decreases n,
{
    if n <= 0 || n > events.len() {
        Seq::empty()
    } else {
        let before = links_spec(events, n - 1);
        match events[n - 1] {
            MdEventView::Start(MdNodeView::Link { url, title }) => before.push(
                (
                    url,
                    if title.len() == 0 {
                        None
                    } else {
                        Some(title)
                    },
                ),
            ),
            _ => before,
        }
    }
}

/// The number of task items entered among the first `n` steps.
pub open spec fn task_total(events: Seq<MdEventView>, n: int) -> nat
    decreases n,
{
    if n <= 0 || n > events.len() {
        0
    } else {
        task_total(events, n - 1) + match events[n - 1] {
            MdEventView::Start(MdNodeView::TaskItem(_)) => 1nat,
            _ => 0nat,
        }
    }
}

/// The number of task items marked `x` or `X` among the first `n` steps.
pub open spec fn task_completed(events: Seq<MdEventView>, n: int) -> nat
    decreases n,
{
    if n <= 0 || n > events.len() {
        0
    } else {
        task_completed(events, n - 1) + match events[n - 1] {
            MdEventView::Start(MdNodeView::TaskItem(Some(c))) => if c == 'x' || c == 'X' {
                1nat
            } else {
                0nat
            },
            _ => 0nat,
        }
    }
}

/// The text of the first heading of level one.
pub open spec fn first_h1(outline: Seq<HeadingView>) -> Option<Seq<char>>
    decreases outline.len(),
{
    if outline.len() == 0 {
        None
    } else if outline[0].0 == 1 {
        Some(outline[0].1)
    } else {
        first_h1(outline.drop_first())
    }
}

pub open spec fn title_key() -> Seq<char> {
    "title"@
}

/// A document's title: the front matter's `title` field, else its first heading of level one.
pub open spec fn title_spec(
    events: Seq<MdEventView>,
    fields: Seq<(Seq<char>, Seq<char>)>,
) -> Option<Seq<char>> {
    match lookup(fields, title_key()) {
        Some(t) => Some(t),
        None => first_h1(outline_spec(events, events.len() as int)),
    }
}

pub open spec fn heading_views(outline: Seq<Heading>) -> Seq<HeadingView> {
    outline.map_values(|h: Heading| (h.level, h.text@))
}

pub open spec fn link_views(links: Seq<LinkRef>) -> Seq<LinkView> {
    links.map_values(|l: LinkRef| (l.url@, opt_text(l.title)))
}

/// Metadata is what the walk and the front matter give.
pub open spec fn metadata_matches(
    m: DocumentMetadata,
    events: Seq<MdEventView>,
    body: Seq<char>,
    fields: Seq<(Seq<char>, Seq<char>)>,
) -> bool {
    &&& opt_text(m.title) == title_spec(events, fields)
    &&& heading_views(m.outline@) == outline_spec(events, events.len() as int)
    &&& forall|i: int| 0 <= i < m.outline@.len() ==> (#[trigger] m.outline@[i]).anchor is None
    &&& link_views(m.links@) == links_spec(events, events.len() as int)
    &&& m.task_items.total == task_total(events, events.len() as int)
    &&& m.task_items.completed == task_completed(events, events.len() as int)
    &&& m.word_count == word_count_spec(body)
    &&& field_views(m.front_matter.fields@) == fields
}

proof fn lemma_task_bounds(events: Seq<MdEventView>, n: int)
    requires
        0 <= n <= events.len(),
    ensures
        task_completed(events, n) <= task_total(events, n) <= n,
    decreases n,
{
    if n > 0 {
        lemma_task_bounds(events, n - 1);
    }
}

/// The text inside the node entered at step `i`.
fn text_inside(events: &Vec<MdEvent>, i: usize) -> (out: String)
    requires
        i < events.len(),
    ensures
        out@ == inner_text(event_views(events@), i + 1, 1),
{
    let ghost evs = event_views(events@);
    let mut acc: Vec<char> = Vec::new();
    let mut depth: usize = 1;
    let mut j: usize = i + 1;
    proof {
        assert(acc@ + inner_text(evs, j as int, 1) =~= inner_text(evs, j as int, 1));
    }
    while j < events.len() && depth > 0
        invariant
            i < j <= events.len(),
            evs == event_views(events@),
            depth <= j - i,
            inner_text(evs, i + 1, 1) == acc@ + inner_text(evs, j as int, depth as int),
        decreases events.len() - j,
    {
        let ghost before = acc@;
        proof {
            assert(evs[j as int] == events@[j as int]@);
        }
        match &events[j] {
            MdEvent::End => {
                depth -= 1;
            },
            MdEvent::Start(MdNode::Text(t)) => {
                push_text(&mut acc, t.as_str());
                depth += 1;
                proof {
                    assert(before + (t@ + inner_text(evs, j + 1, depth as int)) =~= acc@
                        + inner_text(evs, j + 1, depth as int));
                }
            },
            MdEvent::Start(MdNode::Code(c)) => {
                push_text(&mut acc, c.as_str());
                depth += 1;
                proof {
                    assert(before + (c@ + inner_text(evs, j + 1, depth as int)) =~= acc@
                        + inner_text(evs, j + 1, depth as int));
                }
            },
            MdEvent::Start(_) => {
                depth += 1;
            },
        }
        j += 1;
    }
    proof {
        assert(inner_text(evs, j as int, depth as int) =~= Seq::<char>::empty());
        assert(acc@ + Seq::<char>::empty() =~= acc@);
    }
    from_chars(&acc)
}

/// The first heading of level one in an outline.
fn find_first_h1(outline: &Vec<Heading>) -> (out: Option<String>)
    ensures
        opt_text(out) == first_h1(heading_views(outline@)),
{
    let ghost hv = heading_views(outline@);
    let mut i: usize = 0;
    proof {
        assert(hv.skip(0) =~= hv);
    }
    while i < outline.len()
        invariant
            i <= outline.len(),
            hv == heading_views(outline@),
            first_h1(hv) == first_h1(hv.skip(i as int)),
        decreases outline.len() - i,
    {
        proof {
            assert(hv.skip(i as int)[0] == (outline@[i as int].level, outline@[i as int].text@));
            assert(hv.skip(i as int).drop_first() =~= hv.skip(i + 1));
        }
        if outline[i].level == 1 {
            return Some(outline[i].text.clone());
        }
        i += 1;
    }
    None
}

/// Builds a document's metadata from the walk over its parsed body, the
/// body's text and its front matter.
pub fn build_metadata(events: &Vec<MdEvent>, body_text: &str, front_matter: FrontMatter) -> (out:
    DocumentMetadata)
    ensures
        metadata_matches(
            out,
            event_views(events@),
            body_text@,
            field_views(front_matter.fields@),
        ),
        out.front_matter == front_matter,
{
    let ghost evs = event_views(events@);
    let mut outline: Vec<Heading> = Vec::new();
    let mut links: Vec<LinkRef> = Vec::new();
    let mut total: usize = 0;
    let mut completed: usize = 0;
    let mut i: usize = 0;
    proof {
        assert(heading_views(outline@) =~= Seq::empty());
        assert(link_views(links@) =~= Seq::empty());
    }
    while i < events.len()
        invariant
            i <= events.len(),
            evs == event_views(events@),
            heading_views(outline@) == outline_spec(evs, i as int),
            forall|k: int| 0 <= k < outline@.len() ==> (#[trigger] outline@[k]).anchor is None,
            link_views(links@) == links_spec(evs, i as int),
            total == task_total(evs, i as int),
            completed == task_completed(evs, i as int),
        decreases events.len() - i,
    {
        proof {
            assert(evs[i as int] == events@[i as int]@);
            lemma_task_bounds(evs, i as int);
        }
        let ghost old_outline = heading_views(outline@);
        let ghost old_links = link_views(links@);
        match &events[i] {
            MdEvent::Start(MdNode::Heading(level)) => {
                let text = text_inside(events, i);
                outline.push(Heading { level: *level, text, anchor: None });
                proof {
                    assert(heading_views(outline@) =~= old_outline.push(
                        (*level, inner_text(evs, i + 1, 1)),
                    ));
                }
            },
            MdEvent::Start(MdNode::Link { url, title }) => {
                let link_title = if title.as_str().is_empty() {
                    None
                } else {
                    Some(title.clone())
                };
                links.push(LinkRef { url: url.clone(), title: link_title });
                proof {
                    assert(link_views(links@) =~= old_links.push(
                        (
                            url@,
                            if title@.len() == 0 {
                                None
                            } else {
                                Some(title@)
                            },
                        ),
                    ));
                }
            },
            MdEvent::Start(MdNode::TaskItem(symbol)) => {
                total += 1;
                match symbol {
                    Some(c) => {
                        if *c == 'x' || *c == 'X' {
                            completed += 1;
                        }
                    },
                    None => {},
                }
            },
            _ => {},
        }
        i += 1;
    }
    let title = match front_matter.get("title") {
        Some(t) => Some(t.clone()),
        None => find_first_h1(&outline),
    };
    let word_count = estimate_word_count(body_text);
    DocumentMetadata {
        title,
        outline,
        links,
        task_items: TaskStats { total, completed },
        word_count,
        front_matter,
    }
}

/// The body that a profile parses: the text behind its front matter where
/// the profile reads front matter, the whole text where not.
pub open spec fn body_spec(text: Seq<char>, profile: MarkdownProfile) -> Seq<char> {
    if profile == MarkdownProfile::Extended {
        extract_spec(text).body
    } else {
        text
    }
}

/// The front matter fields that a profile reads.
pub open spec fn fields_spec(text: Seq<char>, profile: MarkdownProfile) -> Seq<
    (Seq<char>, Seq<char>),
> {
    if profile == MarkdownProfile::Extended {
        extract_spec(text).fields
    } else {
        Seq::empty()
    }
}

/// The walk over the body as the profile parses it.
pub open spec fn events_spec(text: Seq<char>, profile: MarkdownProfile) -> Seq<MdEventView> {
    markdown_events(body_spec(text, profile), features_spec(profile))
}

/// Metadata of a text under a profile.
pub open spec fn is_metadata_of(m: DocumentMetadata, text: Seq<char>, profile: MarkdownProfile) -> bool {
    metadata_matches(m, events_spec(text, profile), body_spec(text, profile), fields_spec(text, profile))
}

/// Splits a text into body and front matter as a profile reads it.
pub fn split_for_profile(text: &str, profile: MarkdownProfile) -> (out: (String, FrontMatter))
    ensures
        out.0@ == body_spec(text@, profile),
        field_views(out.1.fields@) == fields_spec(text@, profile),
        profile != MarkdownProfile::Extended ==> out.1.raw is None && out.1.format is None,
        profile == MarkdownProfile::Extended ==> opt_text(out.1.raw) == extract_spec(text@).raw
            && out.1.format == extract_spec(text@).format,
{
    if profile.supports_front_matter() {
        extract_front_matter(text)
    } else {
        let fields: Vec<(String, String)> = Vec::new();
        proof {
            assert(field_views(fields@) =~= Seq::empty());
        }
        (text.to_string(), FrontMatter { raw: None, format: None, fields })
    }
}

/// Extracts a document's metadata without rendering it. Never fails.
pub fn document_metadata(text: &str, profile: MarkdownProfile) -> (out: Result<
    DocumentMetadata,
    MarkdownError,
>)
    ensures
        out matches Ok(m) && is_metadata_of(m, text@, profile),
{
    let (body, front_matter) = split_for_profile(text, profile);
    let features = profile.features();
    let events = parse_events(body.as_str(), &features);
    Ok(build_metadata(&events, body.as_str(), front_matter))
}

/// The parser of front matter and metadata.
#[derive(Debug, Clone, Copy)]
pub struct MarkdownParser;

impl MarkdownParser {
    /// The scalar fields of YAML front matter, by key.
    pub fn parse_yaml_like_front_matter(content: &str) -> (out: Vec<(String, String)>)
        ensures
            field_views(out@) == crate::front_matter::yaml_front_matter_fields(content@),
    {
        crate::front_matter::parse_yaml_like_front_matter(content)
    }

    /// The scalar fields of TOML front matter, by key.
    pub fn parse_toml_like_front_matter(content: &str) -> (out: Vec<(String, String)>)
        ensures
            field_views(out@) == crate::front_matter::toml_front_matter_fields(content@),
    {
        crate::front_matter::parse_toml_like_front_matter(content)
    }

    /// Extracts front matter from the start of a document; see
    /// `front_matter::extract_front_matter`.
    pub fn extract_front_matter(text: &str) -> (out: (String, FrontMatter))
        ensures
            out.0@ == extract_spec(text@).body,
            opt_text(out.1.raw) == extract_spec(text@).raw,
            out.1.format == extract_spec(text@).format,
            field_views(out.1.fields@) == extract_spec(text@).fields,
    {
        extract_front_matter(text)
    }

    /// Builds a document's metadata from the walk over its parsed body,
    /// the body's text and its front matter.
    pub fn build_metadata(events: &Vec<MdEvent>, body_text: &str, front_matter: FrontMatter) -> (out:
        DocumentMetadata)
        ensures
            metadata_matches(
                out,
                event_views(events@),
                body_text@,
                field_views(front_matter.fields@),
            ),
            out.front_matter == front_matter,
    {
        build_metadata(events, body_text, front_matter)
    }
}

} // verus!
