use vstd::prelude::*;
use crate::chars::{
    find_from, from_chars, is_whitespace, matches_at, occurs_at, same_text, slice_chars, to_chars,
};
use crate::md_bridge::{
    toml_entries, toml_entries_of, toml_pair_views, yaml_entries, yaml_entries_of,
    yaml_pair_views,
};
use crate::md_types::{
    field_views, FieldValue, FieldValueView, FrontMatter, FrontMatterFormat,
};
use crate::model::opt_text;
use crate::text::{find_spec, lemma_find_spec, lemma_find_spec_none, skip_ws};

verus! {

/// The text of a scalar field value; `None` for what is no scalar.
pub open spec fn scalar_text(v: FieldValueView) -> Option<Seq<char>> {
    match v {
        FieldValueView::Null => Some("null"@),
        FieldValueView::Bool(b) => Some(
            if b {
                "true"@
            } else {
                "false"@
            },
        ),
        FieldValueView::Text(t) => Some(t),
        FieldValueView::Number(t) => Some(t),
        FieldValueView::Datetime(t) => Some(t),
        FieldValueView::Other => None,
    }
}

/// Index of the first field with the given key.
pub open spec fn key_index(fields: Seq<(Seq<char>, Seq<char>)>, key: Seq<char>) -> Option<int>
    decreases fields.len(),
{
    if fields.len() == 0 {
        None
    } else if fields.last().0 == key && key_index(fields.drop_last(), key) is None {
        Some(fields.len() - 1)
    } else {
        key_index(fields.drop_last(), key)
    }
}

/// The fields with `key` set to `value`: in place where the key is there, at the end where not.
pub open spec fn set_field(
    fields: Seq<(Seq<char>, Seq<char>)>,
    key: Seq<char>,
    value: Seq<char>,
) -> Seq<(Seq<char>, Seq<char>)> {
    match key_index(fields, key) {
        Some(i) => fields.update(i, (key, value)),
        None => fields.push((key, value)),
    }
}

/// The fields of the first `n` entries of a YAML mapping: entries with a
/// text key that is not empty and a scalar value, a later entry replacing
/// an earlier one of the same key.
pub open spec fn yaml_fields(entries: Seq<(FieldValueView, FieldValueView)>, n: int) -> Seq<
    (Seq<char>, Seq<char>),
>
    decreases n,
{
    if n <= 0 || n > entries.len() {
        Seq::empty()
    } else {
        let before = yaml_fields(entries, n - 1);
        match (entries[n - 1].0, scalar_text(entries[n - 1].1)) {
            (FieldValueView::Text(key), Some(value)) => if key.len() > 0 {
                set_field(before, key, value)
            } else {
                before
            },
            _ => before,
        }
    }
}

/// The fields of the first `n` entries of a TOML table: entries with a key
/// that is not empty and a scalar value.
pub open spec fn toml_fields(entries: Seq<(Seq<char>, FieldValueView)>, n: int) -> Seq<
    (Seq<char>, Seq<char>),
>
    decreases n,
{
    if n <= 0 || n > entries.len() {
        Seq::empty()
    } else {
        let before = toml_fields(entries, n - 1);
        match scalar_text(entries[n - 1].1) {
            Some(value) => if entries[n - 1].0.len() > 0 {
                set_field(before, entries[n - 1].0, value)
            } else {
                before
            },
            None => before,
        }
    }
}

/// The fields that YAML front matter holds; none where it does not parse to a mapping.
pub open spec fn yaml_front_matter_fields(content: Seq<char>) -> Seq<(Seq<char>, Seq<char>)> {
    match yaml_entries_of(content) {
        Some(entries) => yaml_fields(entries, entries.len() as int),
        None => Seq::empty(),
    }
}

/// The fields that TOML front matter holds; none where it does not parse.
pub open spec fn toml_front_matter_fields(content: Seq<char>) -> Seq<(Seq<char>, Seq<char>)> {
    match toml_entries_of(content) {
        Some(entries) => toml_fields(entries, entries.len() as int),
        None => Seq::empty(),
    }
}

/// The text of a scalar value.
pub fn scalar_to_string(value: &FieldValue) -> (out: Option<String>)
    ensures
        opt_text(out) == scalar_text(value@),
{
    match value {
        FieldValue::Null => Some("null".to_string()),
        FieldValue::Bool(b) => Some(
            if *b {
                "true".to_string()
            } else {
                "false".to_string()
            },
        ),
        FieldValue::Text(t) => Some(t.clone()),
        FieldValue::Number(t) => Some(t.clone()),
        FieldValue::Datetime(t) => Some(t.clone()),
        FieldValue::Other => None,
    }
}

/// Sets a field, replacing the value of a key that is already there.
pub fn insert_field(fields: &mut Vec<(String, String)>, key: String, value: String)
    ensures
        field_views(final(fields)@) == set_field(field_views(old(fields)@), key@, value@),
{
    let ghost before = field_views(fields@);
    let mut i: usize = 0;
    while i < fields.len()
        invariant
            i <= fields.len(),
            fields@ == old(fields)@,
            before == field_views(fields@),
            key_index(before.take(i as int), key@) is None,
        decreases fields.len() - i,
    {
        let ghost cur = before.take(i + 1);
        proof {
            assert(cur.drop_last() =~= before.take(i as int));
            assert(cur.last() == (fields@[i as int].0@, fields@[i as int].1@));
        }
        if same_text(fields[i].0.as_str(), key.as_str()) {
            proof {
                lemma_key_index_prefix(before, key@, i as int);
            }
            fields.set(i, (key, value));
            proof {
                assert(field_views(fields@) =~= before.update(i as int, (key@, value@)));
            }
            return ;
        }
        i += 1;
    }
    proof {
        assert(before.take(fields.len() as int) =~= before);
    }
    fields.push((key, value));
    proof {
        assert(field_views(fields@) =~= before.push((key@, value@)));
    }
}

proof fn lemma_key_index_prefix(fields: Seq<(Seq<char>, Seq<char>)>, key: Seq<char>, i: int)
    requires
        0 <= i < fields.len(),
        key_index(fields.take(i + 1), key) == Some(i),
    ensures
        key_index(fields, key) == Some(i),
{
    lemma_key_index_grow(fields, key, i, fields.len() as int);
    assert(fields.take(fields.len() as int) =~= fields);
}

proof fn lemma_key_index_grow(fields: Seq<(Seq<char>, Seq<char>)>, key: Seq<char>, i: int, n: int)
    requires
        0 <= i < n <= fields.len(),
        key_index(fields.take(i + 1), key) == Some(i),
    ensures
        key_index(fields.take(n), key) == Some(i),
    decreases n - i,
{
    if n > i + 1 {
        lemma_key_index_grow(fields, key, i, n - 1);
        assert(fields.take(n).drop_last() =~= fields.take(n - 1));
    }
}

/// Reads the scalar fields of YAML front matter.
pub fn fields_from_yaml(entries: &Vec<(FieldValue, FieldValue)>) -> (out: Vec<(String, String)>)
    ensures
        field_views(out@) == yaml_fields(yaml_pair_views(entries@), entries@.len() as int),
{
    let mut out: Vec<(String, String)> = Vec::new();
    let ghost views = yaml_pair_views(entries@);
    let mut i: usize = 0;
    proof {
        assert(field_views(out@) =~= Seq::empty());
    }
    while i < entries.len()
        invariant
            i <= entries.len(),
            views == yaml_pair_views(entries@),
            field_views(out@) == yaml_fields(views, i as int),
        decreases entries.len() - i,
    {
        proof {
            assert(views[i as int] == (entries@[i as int].0@, entries@[i as int].1@));
        }
        match &entries[i].0 {
            FieldValue::Text(key) => {
                match scalar_to_string(&entries[i].1) {
                    Some(value) => {
                        if !key.as_str().is_empty() {
                            insert_field(&mut out, key.clone(), value);
                        }
                    },
                    None => {},
                }
            },
            _ => {},
        }
        i += 1;
    }
    out
}

/// Reads the scalar fields of TOML front matter.
pub fn fields_from_toml(entries: &Vec<(String, FieldValue)>) -> (out: Vec<(String, String)>)
    ensures
        field_views(out@) == toml_fields(toml_pair_views(entries@), entries@.len() as int),
{
    let mut out: Vec<(String, String)> = Vec::new();
    let ghost views = toml_pair_views(entries@);
    let mut i: usize = 0;
    proof {
        assert(field_views(out@) =~= Seq::empty());
    }
    while i < entries.len()
        invariant
            i <= entries.len(),
            views == toml_pair_views(entries@),
            field_views(out@) == toml_fields(views, i as int),
        decreases entries.len() - i,
    {
        proof {
            assert(views[i as int] == (entries@[i as int].0@, entries@[i as int].1@));
        }
        match scalar_to_string(&entries[i].1) {
            Some(value) => {
                if !entries[i].0.as_str().is_empty() {
                    insert_field(&mut out, entries[i].0.clone(), value);
                }
            },
            None => {},
        }
        i += 1;
    }
    out
}

/// The scalar fields of YAML front matter, by key.
pub fn parse_yaml_like_front_matter(content: &str) -> (out: Vec<(String, String)>)
    ensures
        field_views(out@) == yaml_front_matter_fields(content@),
{
    match yaml_entries(content) {
        Some(entries) => fields_from_yaml(&entries),
        None => {
            let out: Vec<(String, String)> = Vec::new();
            proof {
                assert(field_views(out@) =~= Seq::empty());
            }
            out
        },
    }
}

/// The scalar fields of TOML front matter, by key.
pub fn parse_toml_like_front_matter(content: &str) -> (out: Vec<(String, String)>)
    ensures
        field_views(out@) == toml_front_matter_fields(content@),
{
    match toml_entries(content) {
        Some(entries) => fields_from_toml(&entries),
        None => {
            let out: Vec<(String, String)> = Vec::new();
            proof {
                assert(field_views(out@) =~= Seq::empty());
            }
            out
        },
    }
}

/// Raw front matter and body, where the text, after leading white space,
/// starts with the three delimiter characters and holds a later line that
/// starts with them: the raw text runs from behind the opening characters
/// to that line, and the body starts behind the closing characters and one
/// line feed.
pub open spec fn split_at_delimiter(text: Seq<char>, delim: Seq<char>) -> Option<
    (Seq<char>, Seq<char>),
> {
    let t = text.skip(skip_ws(text, 0));
    if !occurs_at(t, delim, 0) {
        None
    } else {
        let rest = t.skip(delim.len() as int);
        match find_spec(rest, seq!['\n'] + delim, 0) {
            None => None,
            Some(end) => {
                let after = rest.skip(end + 1 + delim.len());
                Some(
                    (
                        rest.take(end),
                        if after.len() > 0 && after[0] == '\n' {
                            after.skip(1)
                        } else {
                            after
                        },
                    ),
                )
            },
        }
    }
}

pub open spec fn yaml_delimiter() -> Seq<char> {
    seq!['-', '-', '-']
}

pub open spec fn toml_delimiter() -> Seq<char> {
    seq!['+', '+', '+']
}

/// What front matter extraction yields, as plain values.
pub struct FrontMatterSplit {
    pub body: Seq<char>,
    pub raw: Option<Seq<char>>,
    pub format: Option<FrontMatterFormat>,
    pub fields: Seq<(Seq<char>, Seq<char>)>,
}

/// Front matter extraction: YAML between `---` lines first, TOML between
/// `+++` lines second; a text with neither is all body.
pub open spec fn extract_spec(text: Seq<char>) -> FrontMatterSplit {
    match split_at_delimiter(text, yaml_delimiter()) {
        Some((raw, body)) => FrontMatterSplit {
            body,
            raw: Some(raw),
            format: Some(FrontMatterFormat::Yaml),
            fields: yaml_front_matter_fields(raw),
        },
        None => match split_at_delimiter(text, toml_delimiter()) {
            Some((raw, body)) => FrontMatterSplit {
                body,
                raw: Some(raw),
                format: Some(FrontMatterFormat::Toml),
                fields: toml_front_matter_fields(raw),
            },
            None => FrontMatterSplit {
                body: text,
                raw: None,
                format: None,
                fields: Seq::empty(),
            },
        },
    }
}

fn three(c: char) -> (out: Vec<char>)
    ensures
        out@ == seq![c, c, c],
{
    let mut v: Vec<char> = Vec::new();
    v.push(c);
    v.push(c);
    v.push(c);
    proof {
        assert(v@ =~= seq![c, c, c]);
    }
    v
}

/// Splits a text at front matter delimiters made of three `c`.
fn split_front_matter(text: &Vec<char>, c: char) -> (out: Option<(Vec<char>, Vec<char>)>)
    ensures
        match out {
            Some((raw, body)) => split_at_delimiter(text@, seq![c, c, c]) == Some((raw@, body@)),
            None => split_at_delimiter(text@, seq![c, c, c]) is None,
        },
{
    let n = text.len();
    let mut a: usize = 0;
    while a < n && is_whitespace(text[a])
        invariant
            a <= n,
            n == text.len(),
            skip_ws(text@, 0) == skip_ws(text@, a as int),
        decreases n - a,
    {
        a += 1;
    }
    let t = slice_chars(text, a, n);
    proof {
        assert(skip_ws(text@, 0) == a);
        assert(text@.subrange(a as int, n as int) =~= text@.skip(a as int));
    }
    let delim = three(c);
    if !matches_at(&t, &delim, 0) {
        return None;
    }
    let rest = slice_chars(&t, 3, t.len());
    proof {
        assert(t@.subrange(3, t.len() as int) =~= t@.skip(3));
    }
    let mut closing: Vec<char> = Vec::new();
    closing.push('\n');
    closing.push(c);
    closing.push(c);
    closing.push(c);
    proof {
        assert(closing@ =~= seq!['\n'] + seq![c, c, c]);
    }
    match find_from(&rest, &closing, 0) {
        None => {
            proof {
                lemma_find_spec_none(rest@, closing@, 0);
            }
            None
        },
        Some(end) => {
            proof {
                lemma_find_spec(rest@, closing@, 0, end as int);
            }
            let raw = slice_chars(&rest, 0, end);
            let mut start = end + 4;
            proof {
                assert(rest@.subrange(0, end as int) =~= rest@.take(end as int));
            }
            let ghost after = rest@.skip(end + 4);
            if start < rest.len() && rest[start] == '\n' {
                start += 1;
                proof {
                    assert(after[0] == '\n');
                    assert(after.skip(1) =~= rest@.skip(start as int));
                }
            } else {
                proof {
                    if after.len() > 0 {
                        assert(after[0] == rest@[end + 4]);
                    }
                }
            }
            let body = slice_chars(&rest, start, rest.len());
            proof {
                assert(rest@.subrange(start as int, rest.len() as int) =~= rest@.skip(start as int));
            }
            Some((raw, body))
        },
    }
}

/// Extracts front matter from the start of a document: YAML between `---`
/// lines or TOML between `+++` lines. Returns the body and the front matter;
/// a text without front matter is returned whole, with empty front matter.
pub fn extract_front_matter(text: &str) -> (out: (String, FrontMatter))
    ensures
        out.0@ == extract_spec(text@).body,
        opt_text(out.1.raw) == extract_spec(text@).raw,
        out.1.format == extract_spec(text@).format,
        field_views(out.1.fields@) == extract_spec(text@).fields,
{
    let chars = to_chars(text);
    match split_front_matter(&chars, '-') {
        Some((raw, body)) => {
            let raw_text = from_chars(&raw);
            let fields = parse_yaml_like_front_matter(raw_text.as_str());
            return (
                from_chars(&body),
                FrontMatter { raw: Some(raw_text), format: Some(FrontMatterFormat::Yaml), fields },
            );
        },
        None => {},
    }
    match split_front_matter(&chars, '+') {
        Some((raw, body)) => {
            let raw_text = from_chars(&raw);
            let fields = parse_toml_like_front_matter(raw_text.as_str());
            (
                from_chars(&body),
                FrontMatter { raw: Some(raw_text), format: Some(FrontMatterFormat::Toml), fields },
            )
        },
        None => {
            let fields: Vec<(String, String)> = Vec::new();
            proof {
                assert(field_views(fields@) =~= Seq::empty());
            }
            (text.to_string(), FrontMatter { raw: None, format: None, fields })
        },
    }
}

} // verus!
