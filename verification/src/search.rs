use vstd::prelude::*;
use crate::chars::{
    from_chars, is_whitespace, is_ws, lowercase_of, push_text, slice_chars, to_chars,
    to_lowercase,
};
use crate::model::{SearchFilters, SearchHit};
use crate::path::LocationId;
use crate::text::{
    extract_highlight_matches, highlight_spec, locate_query_position, locate_spec, skip_ws,
};

verus! {

/// A value bound to a placeholder of a query.
#[derive(Debug, Clone, PartialEq, Eq)]
pub enum SqlParam {
    Text(String),
    Integer(i64),
}

/// A bound value as plain values.
pub enum SqlParamView {
    Text(Seq<char>),
    Integer(i64),
}

impl View for SqlParam {
    type V = SqlParamView;

    open spec fn view(&self) -> SqlParamView {
        match *self {
            SqlParam::Text(t) => SqlParamView::Text(t@),
            SqlParam::Integer(i) => SqlParamView::Integer(i),
        }
    }
}

/// A search as the index engine takes it: the statement and the values
/// for its placeholders, in order.
#[derive(Debug, Clone, PartialEq, Eq)]
pub struct SearchQuery {
    pub sql: String,
    pub params: Vec<SqlParam>,
}

pub open spec fn param_views(params: Seq<SqlParam>) -> Seq<SqlParamView> {
    params.map_values(|p: SqlParam| p@)
}

/// The number of trailing white space characters.
pub open spec fn trailing_ws(s: Seq<char>) -> int
    decreases s.len(),
{
    if s.len() > 0 && is_ws(s.last()) {
        1 + trailing_ws(s.drop_last())
    } else {
        0
    }
}

/// The text without leading and trailing white space.
pub open spec fn trim_spec(s: Seq<char>) -> Seq<char> {
    let a = skip_ws(s, 0);
    if a >= s.len() {
        Seq::empty()
    } else {
        s.subrange(a, s.len() - trailing_ws(s))
    }
}

/// The number of leading dots.
pub open spec fn leading_dots(s: Seq<char>) -> int
    decreases s.len(),
{
    if s.len() > 0 && s[0] == '.' {
        1 + leading_dots(s.drop_first())
    } else {
        0
    }
}

/// A file type as the filter compares it: trimmed, without leading dots, in lowercase.
pub open spec fn file_type_spec(raw: Seq<char>) -> Seq<char> {
    let t = trim_spec(raw);
    lowercase_of(t.skip(leading_dots(t)))
}

pub open spec fn base_statement() -> Seq<char> {
    "SELECT
                d.location_id,
                d.rel_path,
                COALESCE(NULLIF(d.title, ''), d.filename, d.rel_path) AS title,
                snippet(docs_fts, 3, '<<', '>>', ' ... ', 12) AS snippet,
                docs_fts.content AS content
             FROM docs_fts
             JOIN documents d
               ON d.location_id = CAST(docs_fts.location_id AS INTEGER)
              AND d.rel_path = docs_fts.rel_path
             WHERE docs_fts MATCH ?"@
}

pub open spec fn order_clause() -> Seq<char> {
    " ORDER BY bm25(docs_fts), d.mtime DESC LIMIT ?"@
}

/// `n` placeholders separated by commas.
pub open spec fn placeholders(n: int) -> Seq<char>
    decreases n,
{
    if n <= 0 {
        Seq::empty()
    } else if n == 1 {
        "?"@
    } else {
        placeholders(n - 1) + ", ?"@
    }
}

/// `n` comparisons of the file name joined by `OR`.
pub open spec fn type_clauses(n: int) -> Seq<char>
    decreases n,
{
    if n <= 0 {
        Seq::empty()
    } else if n == 1 {
        "LOWER(d.filename) LIKE ?"@
    } else {
        type_clauses(n - 1) + " OR "@ + "LOWER(d.filename) LIKE ?"@
    }
}

/// The file types of a filter that are not empty, among the first `n`, in order.
pub open spec fn wanted_types(raw: Seq<Seq<char>>, n: int) -> Seq<Seq<char>>
    decreases n,
{
    if n <= 0 || n > raw.len() {
        Seq::empty()
    } else if file_type_spec(raw[n - 1]).len() > 0 {
        wanted_types(raw, n - 1).push(file_type_spec(raw[n - 1]))
    } else {
        wanted_types(raw, n - 1)
    }
}

/// The parts of a search that its filters decide.
pub struct FilterView {
    pub locations: Seq<i64>,
    pub file_types: Seq<Seq<char>>,
    pub from: Option<Seq<char>>,
    pub to: Option<Seq<char>>,
}

/// A bound that is there and not empty.
pub open spec fn bound_spec(b: Option<String>) -> Option<Seq<char>> {
    match b {
        Some(t) => if t@.len() > 0 {
            Some(t@)
        } else {
            None
        },
        None => None,
    }
}

/// What the filters of a search ask for.
pub open spec fn filter_view(filters: Option<SearchFilters>) -> FilterView {
    match filters {
        None => FilterView {
            locations: Seq::empty(),
            file_types: Seq::empty(),
            from: None,
            to: None,
        },
        Some(f) => FilterView {
            locations: match f.locations {
                Some(ids) => ids@.map_values(|id: LocationId| id.0),
                None => Seq::empty(),
            },
            file_types: match f.file_types {
                Some(types) => wanted_types(
                    types@.map_values(|t: String| t@),
                    types@.len() as int,
                ),
                None => Seq::empty(),
            },
            from: match f.date_range {
                Some(r) => bound_spec(r.from),
                None => None,
            },
            to: match f.date_range {
                Some(r) => bound_spec(r.to),
                None => None,
            },
        },
    }
}

/// The number of results asked for, held between 1 and 200.
pub open spec fn bounded_limit(limit: usize) -> i64 {
    if limit < 1 {
        1
    } else if limit > 200 {
        200
    } else {
        limit as i64
    }
}

/// The statement of a search with the given filters.
pub open spec fn statement_spec(f: FilterView) -> Seq<char> {
    base_statement() + (if f.locations.len() > 0 {
        " AND d.location_id IN ("@ + placeholders(f.locations.len() as int) + ")"@
    } else {
        Seq::empty()
    }) + (if f.file_types.len() > 0 {
        " AND ("@ + type_clauses(f.file_types.len() as int) + ")"@
    } else {
        Seq::empty()
    }) + (if f.from is Some {
        " AND d.updated_at >= ?"@
    } else {
        Seq::empty()
    }) + (if f.to is Some {
        " AND d.updated_at <= ?"@
    } else {
        Seq::empty()
    }) + order_clause()
}

/// The pattern that matches file names of a type.
pub open spec fn type_pattern(file_type: Seq<char>) -> Seq<char> {
    "%."@ + file_type
}

/// The values of a search, in the order of the statement's placeholders:
/// the query, the locations, a pattern for each file type, the bounds of
/// the date range, and the limit.
pub open spec fn params_spec(query: Seq<char>, f: FilterView, limit: usize) -> Seq<SqlParamView> {
    seq![SqlParamView::Text(query)] + f.locations.map_values(|id: i64| SqlParamView::Integer(id))
        + f.file_types.map_values(|t: Seq<char>| SqlParamView::Text(type_pattern(t))) + (match f.from {
        Some(b) => seq![SqlParamView::Text(b)],
        None => Seq::empty(),
    }) + (match f.to {
        Some(b) => seq![SqlParamView::Text(b)],
        None => Seq::empty(),
    }) + seq![SqlParamView::Integer(bounded_limit(limit))]
}

/// Strips leading and trailing white space.
pub fn trim(s: &Vec<char>) -> (out: Vec<char>)
    ensures
        out@ == trim_spec(s@),
{
    let n = s.len();
    let mut a: usize = 0;
    while a < n && is_whitespace(s[a])
        invariant
            a <= n,
            n == s.len(),
            skip_ws(s@, 0) == skip_ws(s@, a as int),
        decreases n - a,
    {
        a += 1;
    }
    if a >= n {
        return Vec::new();
    }
    let mut b: usize = n;
    proof {
        assert(s@.take(n as int) =~= s@);
    }
    while b > a && is_whitespace(s[b - 1])
        invariant
            a < b <= n,
            n == s.len(),
            !is_ws(s@[a as int]),
            trailing_ws(s@) == (n - b) + trailing_ws(s@.take(b as int)),
        decreases b,
    {
        proof {
            let head = s@.take(b as int);
            assert(head.last() == s@[b - 1]);
            assert(head.drop_last() =~= s@.take(b - 1));
        }
        b -= 1;
    }
    proof {
        let head = s@.take(b as int);
        assert(head.last() == s@[b - 1]);
        assert(trailing_ws(head) == 0);
    }
    slice_chars(s, a, b)
}

/// A file type as the filter compares it.
pub fn normalize_file_type(raw: &str) -> (out: String)
    ensures
        out@ == file_type_spec(raw@),
{
    let t = trim(&to_chars(raw));
    let n = t.len();
    let mut a: usize = 0;
    proof {
        assert(t@.skip(0) =~= t@);
    }
    while a < n && t[a] == '.'
        invariant
            a <= n,
            n == t.len(),
            leading_dots(t@) == a + leading_dots(t@.skip(a as int)),
        decreases n - a,
    {
        proof {
            let rest = t@.skip(a as int);
            assert(rest[0] == t@[a as int]);
            assert(rest.drop_first() =~= t@.skip(a + 1));
        }
        a += 1;
    }
    proof {
        let rest = t@.skip(a as int);
        if a < n {
            assert(rest[0] == t@[a as int]);
        }
        assert(leading_dots(rest) == 0);
        assert(t@.subrange(a as int, n as int) =~= t@.skip(a as int));
    }
    let stripped = slice_chars(&t, a, n);
    to_lowercase(from_chars(&stripped).as_str())
}

fn bound_of(b: &Option<String>) -> (out: Option<String>)
    ensures
        crate::model::opt_text(out) == bound_spec(*b),
{
    match b {
        Some(t) => if t.as_str().is_empty() {
            None
        } else {
            Some(t.clone())
        },
        None => None,
    }
}

fn clamp_limit(limit: usize) -> (out: i64)
    ensures
        out == bounded_limit(limit),
{
    if limit < 1 {
        1
    } else if limit > 200 {
        200
    } else {
        limit as i64
    }
}

/// Builds the search that the index engine runs for a query: the
/// statement with one placeholder for each value, and the values in the
/// same order. The query is trimmed; an empty query is no search and
/// has no results. Filters that name no location, no file type or no
/// bound add nothing. The limit is held between 1 and 200. Results are
/// ordered by relevance, then by time of modification, newest first.
pub fn build_search_query(query: &str, filters: Option<SearchFilters>, limit: usize) -> (out: Option<
    SearchQuery,
>)
    ensures
        match out {
            None => trim_spec(query@).len() == 0,
            Some(q) => trim_spec(query@).len() > 0 && q.sql@ == statement_spec(filter_view(filters))
                && param_views(q.params@) == params_spec(
                trim_spec(query@),
                filter_view(filters),
                limit,
            ),
        },
{
    let trimmed = trim(&to_chars(query));
    if trimmed.len() == 0 {
        return None;
    }
    let ghost fv = filter_view(filters);
    let mut sql: Vec<char> = Vec::new();
    let mut params: Vec<SqlParam> = Vec::new();
    push_text(
        &mut sql,
        "SELECT
                d.location_id,
                d.rel_path,
                COALESCE(NULLIF(d.title, ''), d.filename, d.rel_path) AS title,
                snippet(docs_fts, 3, '<<', '>>', ' ... ', 12) AS snippet,
                docs_fts.content AS content
             FROM docs_fts
             JOIN documents d
               ON d.location_id = CAST(docs_fts.location_id AS INTEGER)
              AND d.rel_path = docs_fts.rel_path
             WHERE docs_fts MATCH ?",
    );
    params.push(SqlParam::Text(from_chars(&trimmed)));
    proof {
        assert(sql@ =~= base_statement());
        assert(param_views(params@) =~= seq![SqlParamView::Text(trim_spec(query@))]);
    }
    let ghost bound0 = param_views(params@);
    let ghost s0 = sql@;
    let (locations, file_types, from, to) = match &filters {
        Some(f) => {
            let (from, to) = match &f.date_range {
                Some(r) => (bound_of(&r.from), bound_of(&r.to)),
                None => (None, None),
            };
            (f.locations.as_ref(), f.file_types.as_ref(), from, to)
        },
        None => (None, None, None, None),
    };
    match locations {
        Some(ids) => {
            if ids.len() > 0 {
                push_text(&mut sql, " AND d.location_id IN (");
                let ghost s_in = sql@;
                let mut i: usize = 0;
                while i < ids.len()
                    invariant
                        i <= ids.len(),
                        sql@ == s_in + placeholders(i as int),
                        param_views(params@) == bound0 + ids@.map_values(|id: LocationId| id.0).take(
                            i as int,
                        ).map_values(|id: i64| SqlParamView::Integer(id)),
                    decreases ids.len() - i,
                {
                    let ghost before = param_views(params@);
                    if i > 0 {
                        push_text(&mut sql, ", ?");
                    } else {
                        push_text(&mut sql, "?");
                    }
                    params.push(SqlParam::Integer(ids[i].0));
                    proof {
                        assert(param_views(params@) =~= before.push(
                            SqlParamView::Integer(ids@[i as int].0),
                        ));
                        assert(param_views(params@) =~= bound0 + ids@.map_values(
                            |id: LocationId| id.0,
                        ).take(i + 1).map_values(|id: i64| SqlParamView::Integer(id)));
                        assert(sql@ =~= s_in + placeholders(i + 1));
                    }
                    i += 1;
                }
                push_text(&mut sql, ")");
                proof {
                    assert(ids@.map_values(|id: LocationId| id.0).take(ids.len() as int)
                        =~= ids@.map_values(|id: LocationId| id.0));
                }
            } else {
                proof {
                    assert(param_views(params@) =~= bound0 + fv.locations.map_values(
                        |id: i64| SqlParamView::Integer(id),
                    ));
                }
            }
        },
        None => {
            proof {
                assert(param_views(params@) =~= bound0 + fv.locations.map_values(
                    |id: i64| SqlParamView::Integer(id),
                ));
            }
        },
    }
    let ghost s1 = sql@;
    let ghost bound1 = param_views(params@);
    proof {
        assert(s1 =~= s0 + (if fv.locations.len() > 0 {
            " AND d.location_id IN ("@ + placeholders(fv.locations.len() as int) + ")"@
        } else {
            Seq::empty()
        }));
        assert(bound1 =~= bound0 + fv.locations.map_values(|id: i64| SqlParamView::Integer(id)));
    }
    let mut wanted: Vec<String> = Vec::new();
    match file_types {
        Some(types) => {
            let ghost raw = types@.map_values(|t: String| t@);
            let mut i: usize = 0;
            proof {
                assert(wanted@.map_values(|t: String| t@) =~= wanted_types(raw, 0));
            }
            while i < types.len()
                invariant
                    i <= types.len(),
                    raw == types@.map_values(|t: String| t@),
                    wanted@.map_values(|t: String| t@) == wanted_types(raw, i as int),
                decreases types.len() - i,
            {
                let ghost before = wanted@.map_values(|t: String| t@);
                let t = normalize_file_type(types[i].as_str());
                proof {
                    assert(raw[i as int] == types@[i as int]@);
                }
                if !t.as_str().is_empty() {
                    wanted.push(t);
                    proof {
                        assert(wanted@.map_values(|t: String| t@) =~= before.push(
                            file_type_spec(raw[i as int]),
                        ));
                    }
                }
                i += 1;
            }
        },
        None => {
            proof {
                assert(wanted@.map_values(|t: String| t@) =~= Seq::empty());
            }
        },
    }
    proof {
        assert(wanted@.map_values(|t: String| t@) == fv.file_types);
    }
    if wanted.len() > 0 {
        push_text(&mut sql, " AND (");
        let ghost s_in = sql@;
        let mut i: usize = 0;
        while i < wanted.len()
            invariant
                i <= wanted.len(),
                sql@ == s_in + type_clauses(i as int),
                wanted@.map_values(|t: String| t@) == fv.file_types,
                param_views(params@) == bound1 + fv.file_types.take(i as int).map_values(
                    |t: Seq<char>| SqlParamView::Text(type_pattern(t)),
                ),
            decreases wanted.len() - i,
        {
            let ghost before = param_views(params@);
            if i > 0 {
                push_text(&mut sql, " OR ");
            }
            push_text(&mut sql, "LOWER(d.filename) LIKE ?");
            let mut pattern: Vec<char> = Vec::new();
            push_text(&mut pattern, "%.");
            push_text(&mut pattern, wanted[i].as_str());
            params.push(SqlParam::Text(from_chars(&pattern)));
            proof {
                assert(fv.file_types[i as int] == wanted@[i as int]@);
                assert(pattern@ =~= type_pattern(fv.file_types[i as int]));
                assert(param_views(params@) =~= before.push(
                    SqlParamView::Text(type_pattern(fv.file_types[i as int])),
                ));
                assert(param_views(params@) =~= bound1 + fv.file_types.take(i + 1).map_values(
                    |t: Seq<char>| SqlParamView::Text(type_pattern(t)),
                ));
                assert(sql@ =~= s_in + type_clauses(i + 1));
            }
            i += 1;
        }
        push_text(&mut sql, ")");
        proof {
            assert(fv.file_types.take(wanted.len() as int) =~= fv.file_types);
        }
    } else {
        proof {
            assert(param_views(params@) =~= bound1 + fv.file_types.map_values(
                |t: Seq<char>| SqlParamView::Text(type_pattern(t)),
            ));
        }
    }
    let ghost s2 = sql@;
    let ghost bound2 = param_views(params@);
    proof {
        assert(s2 =~= s1 + (if fv.file_types.len() > 0 {
            " AND ("@ + type_clauses(fv.file_types.len() as int) + ")"@
        } else {
            Seq::empty()
        }));
        assert(bound2 =~= bound1 + fv.file_types.map_values(
            |t: Seq<char>| SqlParamView::Text(type_pattern(t)),
        ));
    }
    match from {
        Some(b) => {
            push_text(&mut sql, " AND d.updated_at >= ?");
            params.push(SqlParam::Text(b));
            proof {
                assert(param_views(params@) =~= bound2 + seq![SqlParamView::Text(b@)]);
            }
        },
        None => {
            proof {
                assert(param_views(params@) =~= bound2 + Seq::<SqlParamView>::empty());
            }
        },
    }
    let ghost s3 = sql@;
    let ghost bound3 = param_views(params@);
    match to {
        Some(b) => {
            push_text(&mut sql, " AND d.updated_at <= ?");
            params.push(SqlParam::Text(b));
            proof {
                assert(param_views(params@) =~= bound3 + seq![SqlParamView::Text(b@)]);
            }
        },
        None => {
            proof {
                assert(param_views(params@) =~= bound3 + Seq::<SqlParamView>::empty());
            }
        },
    }
    let ghost s4 = sql@;
    let ghost bound4 = param_views(params@);
    push_text(&mut sql, " ORDER BY bm25(docs_fts), d.mtime DESC LIMIT ?");
    params.push(SqlParam::Integer(clamp_limit(limit)));
    proof {
        assert(s3 =~= s2 + (if fv.from is Some {
            " AND d.updated_at >= ?"@
        } else {
            Seq::empty()
        }));
        assert(s4 =~= s3 + (if fv.to is Some {
            " AND d.updated_at <= ?"@
        } else {
            Seq::empty()
        }));
        assert(sql@ =~= statement_spec(fv));
        assert(param_views(params@) =~= bound4 + seq![SqlParamView::Integer(bounded_limit(limit))]);
        assert(param_views(params@) =~= params_spec(trim_spec(query@), fv, limit));
    }
    Some(SearchQuery { sql: from_chars(&sql), params })
}

/// Builds a search hit from a row of the search's result: the snippet
/// without its markers and the ranges they enclosed, and line and column
/// of the query's first significant token in the document's text.
pub fn search_hit(
    location_id: i64,
    rel_path: String,
    title: String,
    snippet_marked: &str,
    full_content: &str,
    query: &str,
) -> (out: SearchHit)
    ensures
        out.location_id == LocationId(location_id),
        out.rel_path == rel_path,
        out.title == title,
        out.snippet@ == highlight_spec(snippet_marked@).plain,
        out.matches@ == highlight_spec(snippet_marked@).spans,
        (out.line, out.column) == locate_spec(full_content@, trim_spec(query@)),
{
    let (snippet, matches) = extract_highlight_matches(snippet_marked);
    let trimmed = from_chars(&trim(&to_chars(query)));
    let (line, column) = locate_query_position(full_content, trimmed.as_str());
    SearchHit { location_id: LocationId(location_id), rel_path, title, snippet, line, column, matches }
}

/// What a character becomes in a pattern that is to match it as it
/// stands: the wildcards and the escape character get the escape
/// character before them.
pub open spec fn escaped_char(c: char) -> Seq<char> {
    if c == '\\' || c == '%' || c == '_' {
        seq!['\\', c]
    } else {
        seq![c]
    }
}

/// A text as a pattern that matches it as it stands.
pub open spec fn escape_like_spec(s: Seq<char>) -> Seq<char>
    decreases s.len(),
{
    if s.len() == 0 {
        Seq::empty()
    } else {
        escaped_char(s[0]) + escape_like_spec(s.drop_first())
    }
}

/// The pattern that matches every path below a directory.
pub open spec fn directory_pattern_spec(dir: Seq<char>) -> Seq<char> {
    escape_like_spec(dir) + seq!['/', '%']
}

/// A pattern matches a text: `%` stands for any characters, `_` for any
/// one character, the escape character `\` makes the character behind it
/// stand for itself, and every other character stands for itself.
pub open spec fn like_matches(pattern: Seq<char>, text: Seq<char>) -> bool
    decreases pattern.len(), text.len(),
{
    if pattern.len() == 0 {
        text.len() == 0
    } else if pattern[0] == '\\' {
        pattern.len() >= 2 && text.len() > 0 && text[0] == pattern[1] && like_matches(
            pattern.skip(2),
            text.drop_first(),
        )
    } else if pattern[0] == '%' {
        like_matches(pattern.drop_first(), text) || (text.len() > 0 && like_matches(
            pattern,
            text.drop_first(),
        ))
    } else if pattern[0] == '_' {
        text.len() > 0 && like_matches(pattern.drop_first(), text.drop_first())
    } else {
        text.len() > 0 && text[0] == pattern[0] && like_matches(
            pattern.drop_first(),
            text.drop_first(),
        )
    }
}

/// Escapes the wildcards `%` and `_` and the escape character `\` of a
/// text, so that a pattern made of it matches the text as it stands.
pub fn escape_like(text: &str) -> (out: String)
    ensures
        out@ == escape_like_spec(text@),
{
    let chars = to_chars(text);
    let mut parts: Vec<char> = Vec::new();
    let mut k: usize = 0;
    proof {
        assert(chars@.skip(0) =~= chars@);
        assert(parts@ + escape_like_spec(chars@) =~= escape_like_spec(chars@));
    }
    while k < chars.len()
        invariant
            k <= chars.len(),
            chars@ == text@,
            escape_like_spec(chars@) == parts@ + escape_like_spec(chars@.skip(k as int)),
        decreases chars.len() - k,
    {
        let c = chars[k];
        let ghost rest = chars@.skip(k as int);
        let ghost before = parts@;
        proof {
            assert(rest[0] == c);
            assert(rest.drop_first() =~= chars@.skip(k + 1));
        }
        if c == '\\' || c == '%' || c == '_' {
            parts.push('\\');
        }
        parts.push(c);
        proof {
            assert(parts@ =~= before + escaped_char(c));
            assert(before + (escaped_char(c) + escape_like_spec(chars@.skip(k + 1))) =~= parts@
                + escape_like_spec(chars@.skip(k + 1)));
        }
        k += 1;
    }
    proof {
        assert(chars@.skip(chars.len() as int) =~= Seq::empty());
        assert(parts@ + Seq::<char>::empty() =~= parts@);
    }
    from_chars(&parts)
}

/// The pattern that matches every path below a directory, at the boundary `/`.
pub fn directory_like_pattern(dir: &str) -> (out: String)
    ensures
        out@ == directory_pattern_spec(dir@),
{
    let mut chars = to_chars(escape_like(dir).as_str());
    chars.push('/');
    chars.push('%');
    proof {
        assert(chars@ =~= directory_pattern_spec(dir@));
    }
    from_chars(&chars)
}

proof fn lemma_percent_matches_all(text: Seq<char>)
    ensures
        like_matches(seq!['%'], text),
    decreases text.len(),
{
    let p = seq!['%'];
    assert(p[0] == '%');
    if text.len() == 0 {
        assert(p.drop_first() =~= Seq::<char>::empty());
        assert(like_matches(p.drop_first(), text));
    } else {
        lemma_percent_matches_all(text.drop_first());
    }
}

proof fn lemma_escaped_prefix(literal: Seq<char>, tail: Seq<char>, text: Seq<char>)
    ensures
        like_matches(escape_like_spec(literal) + tail, text) <==> (literal.len() <= text.len()
            && text.take(literal.len() as int) == literal && like_matches(
            tail,
            text.skip(literal.len() as int),
        )),
    decreases literal.len(),
{
    if literal.len() == 0 {
        assert(escape_like_spec(literal) + tail =~= tail);
        assert(text.skip(0) =~= text);
        assert(text.take(0) =~= literal);
    } else {
        let c = literal[0];
        let rest = literal.drop_first();
        let pattern = escape_like_spec(literal) + tail;
        if text.len() > 0 {
            lemma_escaped_prefix(rest, tail, text.drop_first());
        }
        if c == '\\' || c == '%' || c == '_' {
            assert(pattern[0] == '\\' && pattern[1] == c);
            assert(pattern.skip(2) =~= escape_like_spec(rest) + tail);
        } else {
            assert(pattern[0] == c);
            assert(pattern.drop_first() =~= escape_like_spec(rest) + tail);
        }
        if text.len() > 0 {
            let t = text.drop_first();
            if literal.len() <= text.len() {
                assert(t.skip(rest.len() as int) =~= text.skip(literal.len() as int));
                assert(text.take(literal.len() as int) == literal <==> (text[0] == c && t.take(
                    rest.len() as int,
                ) == rest)) by {
                    let a = text.take(literal.len() as int);
                    let b = t.take(rest.len() as int);
                    if a == literal {
                        assert(a[0] == text[0]);
                        assert(b =~= a.drop_first());
                    }
                    if text[0] == c && b == rest {
                        assert(a =~= seq![c] + b);
                        assert(seq![c] + rest =~= literal);
                    }
                }
            }
        }
    }
}

/// The pattern of a directory matches a path exactly where the path lies
/// below the directory, at the boundary `/`: a wildcard in the directory's
/// name stands for itself and for nothing else.
pub proof fn lemma_directory_pattern_is_literal(dir: Seq<char>, path: Seq<char>)
    ensures
        like_matches(directory_pattern_spec(dir), path) <==> (path.len() > dir.len() && path.take(
            dir.len() as int,
        ) == dir && path[dir.len() as int] == '/'),
{
    let tail = seq!['/', '%'];
    lemma_escaped_prefix(dir, tail, path);
    if dir.len() <= path.len() {
        let rest = path.skip(dir.len() as int);
        assert(tail[0] == '/');
        assert(tail.drop_first() =~= seq!['%']);
        if rest.len() > 0 {
            assert(rest[0] == path[dir.len() as int]);
            lemma_percent_matches_all(rest.drop_first());
        }
    }
}

} // verus!
