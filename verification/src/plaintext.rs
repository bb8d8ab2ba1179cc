use vstd::prelude::*;
use crate::chars::{decimal, decimal_chars, from_chars, push_all, push_text, slice_chars, to_chars};
use crate::export::{
    behind, behind_index, close_at, close_index, doc_event_views, text_content, text_content_of,
    DocEvent, DocEventView, DocNode, DocNodeView, MarkdownTransformer, TextExportResult,
};
use crate::md_types::DocumentMetadata;
use crate::search::{trim, trim_spec};

verus! {

/// A text as a line of its own; nothing where the text is empty.
pub open spec fn line_or_empty(text: Seq<char>) -> Seq<char> {
    if text.len() == 0 {
        text
    } else {
        text + "\n"@
    }
}

/// The number of line feeds at the end of a text.
pub open spec fn trailing_newlines(s: Seq<char>) -> int
    decreases s.len(),
{
    if s.len() > 0 && s.last() == '\n' {
        1 + trailing_newlines(s.drop_last())
    } else {
        0
    }
}

/// A text without the line feeds at its end.
pub open spec fn without_trailing_newlines(s: Seq<char>) -> Seq<char> {
    s.take(s.len() - trailing_newlines(s))
}

/// The first index at or after `from` that holds a line feed; the length
/// of the text where there is none.
pub open spec fn line_end(s: Seq<char>, from: int) -> int
    decreases s.len() - from,
{
    if from < 0 || from >= s.len() {
        s.len() as int
    } else if s[from] == '\n' {
        from
    } else {
        line_end(s, from + 1)
    }
}

/// A line without the carriage return at its end, if it has one.
pub open spec fn without_return(line: Seq<char>) -> Seq<char> {
    if line.len() > 0 && line.last() == '\r' {
        line.drop_last()
    } else {
        line
    }
}

/// The lines of a text from index `from` on. A line ends with a line feed,
/// or with a carriage return and a line feed, which are not part of it;
/// the last line may end with the text. Nothing follows a last line feed.
pub open spec fn lines_from(s: Seq<char>, from: int) -> Seq<Seq<char>>
    decreases s.len() - from,
{
    if from < 0 || from >= s.len() {
        Seq::empty()
    } else {
        let k = line_end(s, from);
        if k >= s.len() {
            seq![s.subrange(from, s.len() as int)]
        } else if k < from {
            Seq::empty()
        } else {
            seq![without_return(s.subrange(from, k))] + lines_from(s, k + 1)
        }
    }
}

/// The lines of a text.
pub open spec fn lines_spec(s: Seq<char>) -> Seq<Seq<char>> {
    lines_from(s, 0)
}

/// The first `n` lines, each behind a mark of quotation, with a line feed
/// between one and the next.
pub open spec fn quoted_lines(lines: Seq<Seq<char>>, n: int) -> Seq<char>
    decreases n,
{
    if n <= 0 || n > lines.len() {
        Seq::empty()
    } else if n == 1 {
        "> "@ + lines[0]
    } else {
        quoted_lines(lines, n - 1) + "\n"@ + "> "@ + lines[n - 1]
    }
}

/// A quotation: each line of the text behind a mark, and a line feed at
/// the end; nothing where the text is empty.
pub open spec fn quoted(content: Seq<char>) -> Seq<char> {
    if content.len() == 0 {
        content
    } else {
        quoted_lines(lines_spec(content), lines_spec(content).len() as int) + "\n"@
    }
}

/// A text with one more block: blocks that are not empty stand one behind
/// the other with a line feed between them.
pub open spec fn join_block(acc: Seq<char>, block: Seq<char>) -> Seq<char> {
    if block.len() == 0 {
        acc
    } else if acc.len() == 0 {
        block
    } else {
        acc + "\n"@ + block
    }
}

/// What was joined so far with one more item, behind a separator where it
/// is not the first.
pub open spec fn joined(acc: Option<Seq<char>>, separator: Seq<char>, item: Seq<char>) -> Option<
    Seq<char>,
> {
    match acc {
        None => Some(item),
        Some(a) => Some(a + separator + item),
    }
}

/// Two spaces for each level of nesting.
pub open spec fn indent_spec(depth: nat) -> Seq<char>
    decreases depth,
{
    if depth == 0 {
        Seq::empty()
    } else {
        indent_spec((depth - 1) as nat) + "  "@
    }
}

fn push_line_or_empty(out: &mut Vec<char>, text: &Vec<char>)
    ensures
        final(out)@ == old(out)@ + line_or_empty(text@),
{
    if text.len() > 0 {
        push_all(out, text);
        push_text(out, "\n");
        proof {
            assert(out@ =~= old(out)@ + (text@ + "\n"@));
        }
    } else {
        proof {
            assert(out@ =~= old(out)@ + text@);
        }
    }
}

fn as_line(text: &Vec<char>) -> (out: Vec<char>)
    ensures
        out@ == line_or_empty(text@),
{
    let mut out: Vec<char> = Vec::new();
    push_line_or_empty(&mut out, text);
    proof {
        assert(Seq::<char>::empty() + line_or_empty(text@) =~= line_or_empty(text@));
    }
    out
}

fn trim_trailing_newlines(s: &Vec<char>) -> (out: Vec<char>)
    ensures
        out@ == without_trailing_newlines(s@),
{
    let n = s.len();
    let mut b: usize = n;
    proof {
        assert(s@.take(n as int) =~= s@);
    }
    while b > 0 && s[b - 1] == '\n'
        invariant
            b <= n,
            n == s.len(),
            trailing_newlines(s@) == (n - b) + trailing_newlines(s@.take(b as int)),
        decreases b,
    {
        proof {
            let head = s@.take(b as int);
            assert(head.last() == s@[b - 1]);
            assert(head.drop_last() =~= s@.take(b - 1));
        }
        b -= 1;
    }
    proof {
        let head = s@.take(b as int);
        if b > 0 {
            assert(head.last() == s@[b - 1]);
        }
        assert(trailing_newlines(head) == 0);
        assert(s@.subrange(0, b as int) =~= s@.take(b as int));
    }
    slice_chars(s, 0, b)
}

fn find_line_end(s: &Vec<char>, from: usize) -> (out: usize)
    requires
        from <= s.len(),
    ensures
        out == line_end(s@, from as int),
        from <= out <= s.len(),
{
    let mut k: usize = from;
    while k < s.len() && s[k] != '\n'
        invariant
            from <= k <= s.len(),
            line_end(s@, from as int) == line_end(s@, k as int),
        decreases s.len() - k,
    {
        k += 1;
    }
    k
}

/// Splits a text into its lines.
pub fn lines(s: &Vec<char>) -> (out: Vec<Vec<char>>)
    ensures
        views_of(out@) == lines_spec(s@),
{
    let mut out: Vec<Vec<char>> = Vec::new();
    let mut from: usize = 0;
    proof {
        assert(views_of(out@) =~= Seq::empty());
        assert(views_of(out@) + lines_from(s@, 0) =~= lines_from(s@, 0));
    }
    while from < s.len()
        invariant
            from <= s.len(),
            views_of(out@) + lines_from(s@, from as int) == lines_spec(s@),
        decreases s.len() - from,
    {
        let k = find_line_end(s, from);
        let ghost before = views_of(out@);
        if k >= s.len() {
            let line = slice_chars(s, from, s.len());
            out.push(line);
            proof {
                assert(views_of(out@) =~= before.push(line@));
                assert(before.push(line@) + Seq::<Seq<char>>::empty() =~= before + seq![line@]);
                assert(lines_from(s@, s.len() as int) =~= Seq::<Seq<char>>::empty());
            }
            from = s.len();
        } else {
            let mut end: usize = k;
            if end > from && s[end - 1] == '\r' {
                end -= 1;
            }
            let line = slice_chars(s, from, end);
            proof {
                let whole = s@.subrange(from as int, k as int);
                if k > from {
                    assert(whole.last() == s@[k - 1]);
                }
                assert(line@ =~= without_return(whole));
            }
            out.push(line);
            proof {
                let rest = lines_from(s@, k + 1);
                assert(views_of(out@) =~= before.push(line@));
                assert(before.push(line@) + rest =~= before + (seq![line@] + rest));
            }
            from = k + 1;
        }
    }
    proof {
        assert(views_of(out@) + Seq::<Seq<char>>::empty() =~= views_of(out@));
    }
    out
}

pub open spec fn views_of(lines: Seq<Vec<char>>) -> Seq<Seq<char>> {
    lines.map_values(|l: Vec<char>| l@)
}

fn quote(content: &Vec<char>) -> (out: Vec<char>)
    ensures
        out@ == quoted(content@),
{
    let mut out: Vec<char> = Vec::new();
    if content.len() == 0 {
        proof {
            assert(out@ =~= content@);
        }
        return out;
    }
    let all = lines(content);
    let ghost lv = views_of(all@);
    let mut i: usize = 0;
    while i < all.len()
        invariant
            i <= all.len(),
            lv == views_of(all@),
            out@ == quoted_lines(lv, i as int),
        decreases all.len() - i,
    {
        proof {
            assert(lv[i as int] == all@[i as int]@);
        }
        let ghost before = out@;
        if i > 0 {
            push_text(&mut out, "\n");
        }
        push_text(&mut out, "> ");
        push_all(&mut out, &all[i]);
        proof {
            if i == 0 {
                assert(out@ =~= "> "@ + lv[0]);
            } else {
                assert(out@ =~= before + "\n"@ + "> "@ + lv[i as int]);
            }
        }
        i += 1;
    }
    push_text(&mut out, "\n");
    out
}

fn make_indent(depth: usize) -> (out: Vec<char>)
    ensures
        out@ == indent_spec(depth as nat),
{
    let mut out: Vec<char> = Vec::new();
    let mut i: usize = 0;
    while i < depth
        invariant
            i <= depth,
            out@ == indent_spec(i as nat),
        decreases depth - i,
    {
        push_text(&mut out, "  ");
        i += 1;
    }
    out
}

fn push_block(out: &mut Vec<char>, block: &Vec<char>)
    ensures
        final(out)@ == join_block(old(out)@, block@),
{
    if block.len() > 0 {
        if out.len() > 0 {
            push_text(out, "\n");
        }
        push_all(out, block);
        proof {
            if old(out)@.len() == 0 {
                assert(out@ =~= block@);
            }
        }
    }
}

fn push_joined(acc: Option<Vec<char>>, separator: &str, item: &Vec<char>) -> (out: Option<Vec<char>>)
    ensures
        opt_chars(out) == joined(opt_chars(acc), separator@, item@),
{
    match acc {
        None => {
            let mut a: Vec<char> = Vec::new();
            push_all(&mut a, item);
            proof {
                assert(a@ =~= item@);
            }
            Some(a)
        },
        Some(mut a) => {
            push_text(&mut a, separator);
            push_all(&mut a, item);
            Some(a)
        },
    }
}

pub open spec fn opt_chars(v: Option<Vec<char>>) -> Option<Seq<char>> {
    match v {
        Some(a) => Some(a@),
        None => None,
    }
}

/// The cells of a table row, its steps running from `lo` to `hi`, with a
/// tab between one and the next, behind what was joined before; nodes that
/// are no cells are passed over.
pub open spec fn row_cells(v: Seq<DocEventView>, lo: int, hi: int, acc: Option<Seq<char>>) -> Option<
    Seq<char>,
>
    decreases hi - lo,
{
    if lo < 0 || lo >= hi || hi > v.len() {
        acc
    } else {
        match v[lo] {
            DocEventView::End => row_cells(v, lo + 1, hi, acc),
            DocEventView::Start(node) => {
                let e = close_at(v, lo + 1, hi, 0);
                if lo < e <= hi {
                    row_cells(
                        v,
                        behind(e, hi),
                        hi,
                        match node {
                            DocNodeView::TableCell => joined(acc, "\t"@, text_content(v, lo + 1, e)),
                            _ => acc,
                        },
                    )
                } else {
                    acc
                }
            },
        }
    }
}

/// The rows of a table that have a cell, with a line feed between one and
/// the next, behind what was joined before; nodes that are no rows are
/// passed over.
pub open spec fn table_rows(v: Seq<DocEventView>, lo: int, hi: int, acc: Option<Seq<char>>) -> Option<
    Seq<char>,
>
    decreases hi - lo,
{
    if lo < 0 || lo >= hi || hi > v.len() {
        acc
    } else {
        match v[lo] {
            DocEventView::End => table_rows(v, lo + 1, hi, acc),
            DocEventView::Start(node) => {
                let e = close_at(v, lo + 1, hi, 0);
                if lo < e <= hi {
                    table_rows(
                        v,
                        behind(e, hi),
                        hi,
                        match node {
                            DocNodeView::TableRow => match row_cells(v, lo + 1, e, None) {
                                Some(row) => joined(acc, "\n"@, row),
                                None => acc,
                            },
                            _ => acc,
                        },
                    )
                } else {
                    acc
                }
            },
        }
    }
}

/// A table as text: a line for each row, the cells parted by tabs.
pub open spec fn table_text(v: Seq<DocEventView>, lo: int, hi: int) -> Seq<char> {
    match table_rows(v, lo, hi, None) {
        Some(rows) => rows + "\n"@,
        None => Seq::empty(),
    }
}

/// The first `n` lines of a list item: the first behind the item's mark,
/// each later one that is not empty behind the indentation and two spaces
/// more, and a line feed behind each.
pub open spec fn item_lines(prefix: Seq<char>, indent: Seq<char>, lines: Seq<Seq<char>>, n: int) -> Seq<
    char,
>
    decreases n,
{
    if n <= 0 || n > lines.len() {
        Seq::empty()
    } else if n == 1 {
        prefix + lines[0] + "\n"@
    } else {
        item_lines(prefix, indent, lines, n - 1) + (if lines[n - 1].len() > 0 {
            indent + "  "@ + lines[n - 1]
        } else {
            Seq::empty()
        }) + "\n"@
    }
}

/// A list item as text, from the text of its blocks.
pub open spec fn item_block(prefix: Seq<char>, indent: Seq<char>, content: Seq<char>) -> Seq<char> {
    item_lines(prefix, indent, lines_spec(content), lines_spec(content).len() as int)
}

/// The mark of a list item: its number and a dot in an ordered list, a
/// dash in any other, behind the indentation.
pub open spec fn item_prefix(ordered: bool, depth: nat, number: nat) -> Seq<char> {
    indent_spec(depth) + (if ordered {
        decimal(number) + ". "@
    } else {
        "- "@
    })
}

/// An item of a task list as a line; nothing where it has no text.
pub open spec fn task_line(indent: Seq<char>, checked: bool, content: Seq<char>) -> Seq<char> {
    if content.len() == 0 {
        content
    } else {
        indent + (if checked {
            "[x] "@
        } else {
            "[ ] "@
        }) + content + "\n"@
    }
}

/// A list as text, its steps running from `lo` to `hi`, behind what was
/// written before. Items are numbered from `number` on, whether or not
/// they have text; nodes between the list and its items are looked
/// through, and what is found in them is numbered anew.
pub open spec fn list_text(
    v: Seq<DocEventView>,
    lo: int,
    hi: int,
    ordered: bool,
    depth: nat,
    number: nat,
    acc: Seq<char>,
) -> Seq<char>
    decreases hi - lo,
{
    if lo < 0 || lo >= hi || hi > v.len() {
        acc
    } else {
        match v[lo] {
            DocEventView::End => list_text(v, lo + 1, hi, ordered, depth, number, acc),
            DocEventView::Start(node) => {
                let e = close_at(v, lo + 1, hi, 0);
                if lo < e <= hi {
                    match node {
                        DocNodeView::Item => list_text(
                            v,
                            behind(e, hi),
                            hi,
                            ordered,
                            depth,
                            if ordered {
                                number + 1
                            } else {
                                number
                            },
                            acc + item_block(
                                item_prefix(ordered, depth, number),
                                indent_spec(depth),
                                item_blocks(v, lo + 1, e, depth, Seq::empty()),
                            ),
                        ),
                        DocNodeView::TaskItem { checked } => list_text(
                            v,
                            behind(e, hi),
                            hi,
                            ordered,
                            depth,
                            number,
                            acc + task_line(indent_spec(depth), checked, text_content(v, lo + 1, e)),
                        ),
                        _ => list_text(
                            v,
                            behind(e, hi),
                            hi,
                            ordered,
                            depth,
                            number,
                            acc + list_text(v, lo + 1, e, ordered, depth, 1, Seq::empty()),
                        ),
                    }
                } else {
                    acc
                }
            },
        }
    }
}

/// The blocks of a list item as text, behind what was joined before:
/// paragraphs, lists one level deeper, and quotations.
pub open spec fn item_blocks(v: Seq<DocEventView>, lo: int, hi: int, depth: nat, acc: Seq<char>) -> Seq<
    char,
>
    decreases hi - lo,
{
    if lo < 0 || lo >= hi || hi > v.len() {
        acc
    } else {
        match v[lo] {
            DocEventView::End => item_blocks(v, lo + 1, hi, depth, acc),
            DocEventView::Start(node) => {
                let e = close_at(v, lo + 1, hi, 0);
                if lo < e <= hi {
                    item_blocks(
                        v,
                        behind(e, hi),
                        hi,
                        depth,
                        join_block(
                            acc,
                            match node {
                                DocNodeView::Paragraph => line_or_empty(text_content(v, lo + 1, e)),
                                DocNodeView::List { ordered } => list_text(
                                    v,
                                    lo + 1,
                                    e,
                                    ordered,
                                    depth + 1,
                                    1,
                                    Seq::empty(),
                                ),
                                DocNodeView::BlockQuote => quoted(text_content(v, lo + 1, e)),
                                _ => Seq::empty(),
                            },
                        ),
                    )
                } else {
                    acc
                }
            },
        }
    }
}

/// A footnote as a line; nothing where it has no text.
pub open spec fn footnote_line(name: Seq<char>, content: Seq<char>) -> Seq<char> {
    if content.len() == 0 {
        content
    } else {
        "[^"@ + name + "]: "@ + content + "\n"@
    }
}

/// The blocks that the steps from `lo` to `hi` walk over, as text, behind
/// what was joined before. Headings and paragraphs are lines; a code block
/// is its literal text without the line feeds at its end; quotations have
/// a mark before each line; a break is three dashes; raw HTML is its text,
/// trimmed. Blocks that give no text leave no trace, and nodes of other
/// kinds are passed over.
pub open spec fn plain_blocks(v: Seq<DocEventView>, lo: int, hi: int, acc: Seq<char>) -> Seq<char>
    decreases hi - lo,
{
    if lo < 0 || lo >= hi || hi > v.len() {
        acc
    } else {
        match v[lo] {
            DocEventView::End => plain_blocks(v, lo + 1, hi, acc),
            DocEventView::Start(node) => {
                let e = close_at(v, lo + 1, hi, 0);
                if lo < e <= hi {
                    plain_blocks(
                        v,
                        behind(e, hi),
                        hi,
                        join_block(
                            acc,
                            match node {
                                DocNodeView::Document => plain_blocks(v, lo + 1, e, Seq::empty()),
                                DocNodeView::Heading(_) => line_or_empty(text_content(v, lo + 1, e)),
                                DocNodeView::Paragraph => line_or_empty(text_content(v, lo + 1, e)),
                                DocNodeView::CodeBlock { literal, .. } => line_or_empty(
                                    without_trailing_newlines(literal),
                                ),
                                DocNodeView::List { ordered } => list_text(
                                    v,
                                    lo + 1,
                                    e,
                                    ordered,
                                    0,
                                    1,
                                    Seq::empty(),
                                ),
                                DocNodeView::BlockQuote => quoted(text_content(v, lo + 1, e)),
                                DocNodeView::MultilineBlockQuote => quoted(
                                    text_content(v, lo + 1, e),
                                ),
                                DocNodeView::ThematicBreak => "---\n"@,
                                DocNodeView::FootnoteDefinition(name) => footnote_line(
                                    name,
                                    text_content(v, lo + 1, e),
                                ),
                                DocNodeView::HtmlBlock(literal) => line_or_empty(trim_spec(literal)),
                                DocNodeView::Table => table_text(v, lo + 1, e),
                                _ => Seq::empty(),
                            },
                        ),
                    )
                } else {
                    acc
                }
            },
        }
    }
}

/// A whole document as plain text, given as the steps of a walk over it.
pub open spec fn plaintext_spec(v: Seq<DocEventView>) -> Seq<char> {
    plain_blocks(v, 0, v.len() as int, Seq::empty())
}

fn row_cells_of(events: &Vec<DocEvent>, lo: usize, hi: usize) -> (out: Option<Vec<char>>)
    requires
        lo <= hi <= events.len(),
    ensures
        opt_chars(out) == row_cells(doc_event_views(events@), lo as int, hi as int, None),
{
    let ghost v = doc_event_views(events@);
    let mut acc: Option<Vec<char>> = None;
    let mut cur: usize = lo;
    while cur < hi
        invariant
            lo <= cur <= hi <= events.len(),
            v == doc_event_views(events@),
            row_cells(v, lo as int, hi as int, None) == row_cells(
                v,
                cur as int,
                hi as int,
                opt_chars(acc),
            ),
        decreases hi - cur,
    {
        proof {
            assert(v[cur as int] == events@[cur as int]@);
        }
        match &events[cur] {
            DocEvent::End => {
                cur += 1;
            },
            DocEvent::Start(node) => {
                let e = close_index(events, cur + 1, hi);
                match node {
                    DocNode::TableCell => {
                        let cell = text_content_of(events, cur + 1, e);
                        acc = push_joined(acc, "\t", &cell);
                    },
                    _ => {},
                }
                cur = behind_index(e, hi);
            },
        }
    }
    acc
}

fn table_text_of(events: &Vec<DocEvent>, lo: usize, hi: usize) -> (out: Vec<char>)
    requires
        lo <= hi <= events.len(),
    ensures
        out@ == table_text(doc_event_views(events@), lo as int, hi as int),
{
    let ghost v = doc_event_views(events@);
    let mut acc: Option<Vec<char>> = None;
    let mut cur: usize = lo;
    while cur < hi
        invariant
            lo <= cur <= hi <= events.len(),
            v == doc_event_views(events@),
            table_rows(v, lo as int, hi as int, None) == table_rows(
                v,
                cur as int,
                hi as int,
                opt_chars(acc),
            ),
        decreases hi - cur,
    {
        proof {
            assert(v[cur as int] == events@[cur as int]@);
        }
        match &events[cur] {
            DocEvent::End => {
                cur += 1;
            },
            DocEvent::Start(node) => {
                let e = close_index(events, cur + 1, hi);
                match node {
                    DocNode::TableRow => {
                        match row_cells_of(events, cur + 1, e) {
                            Some(row) => {
                                acc = push_joined(acc, "\n", &row);
                            },
                            None => {},
                        }
                    },
                    _ => {},
                }
                cur = behind_index(e, hi);
            },
        }
    }
    match acc {
        Some(mut rows) => {
            push_text(&mut rows, "\n");
            rows
        },
        None => Vec::new(),
    }
}

fn push_item_block(out: &mut Vec<char>, prefix: &Vec<char>, indent: &Vec<char>, content: &Vec<char>)
    ensures
        final(out)@ == old(out)@ + item_block(prefix@, indent@, content@),
{
    let all = lines(content);
    let ghost lv = views_of(all@);
    let ghost start = out@;
    let mut i: usize = 0;
    proof {
        assert(out@ =~= start + item_lines(prefix@, indent@, lv, 0));
    }
    while i < all.len()
        invariant
            i <= all.len(),
            lv == views_of(all@),
            out@ == start + item_lines(prefix@, indent@, lv, i as int),
        decreases all.len() - i,
    {
        proof {
            assert(lv[i as int] == all@[i as int]@);
        }
        let ghost before = item_lines(prefix@, indent@, lv, i as int);
        if i == 0 {
            push_all(out, prefix);
            push_all(out, &all[i]);
            push_text(out, "\n");
            proof {
                assert(out@ =~= start + (prefix@ + lv[0] + "\n"@));
            }
        } else {
            if all[i].len() > 0 {
                push_all(out, indent);
                push_text(out, "  ");
                push_all(out, &all[i]);
            }
            push_text(out, "\n");
            proof {
                let piece = if lv[i as int].len() > 0 {
                    indent@ + "  "@ + lv[i as int]
                } else {
                    Seq::empty()
                };
                assert(out@ =~= start + (before + piece + "\n"@));
            }
        }
        i += 1;
    }
}

fn make_prefix(ordered: bool, depth: usize, number: usize) -> (out: Vec<char>)
    ensures
        out@ == item_prefix(ordered, depth as nat, number as nat),
{
    let mut out = make_indent(depth);
    if ordered {
        let digits = decimal_chars(number);
        push_all(&mut out, &digits);
        push_text(&mut out, ". ");
        proof {
            assert(out@ =~= indent_spec(depth as nat) + (decimal(number as nat) + ". "@));
        }
    } else {
        push_text(&mut out, "- ");
    }
    out
}

fn push_task_line(out: &mut Vec<char>, indent: &Vec<char>, checked: bool, content: &Vec<char>)
    ensures
        final(out)@ == old(out)@ + task_line(indent@, checked, content@),
{
    if content.len() > 0 {
        push_all(out, indent);
        if checked {
            push_text(out, "[x] ");
        } else {
            push_text(out, "[ ] ");
        }
        push_all(out, content);
        push_text(out, "\n");
        proof {
            assert(out@ =~= old(out)@ + task_line(indent@, checked, content@));
        }
    } else {
        proof {
            assert(out@ =~= old(out)@ + content@);
        }
    }
}

fn list_text_of(events: &Vec<DocEvent>, lo: usize, hi: usize, ordered: bool, depth: usize) -> (out: Vec<
    char,
>)
    requires
        lo <= hi <= events.len(),
        depth < lo,
    ensures
        out@ == list_text(
            doc_event_views(events@),
            lo as int,
            hi as int,
            ordered,
            depth as nat,
            1,
            Seq::empty(),
        ),
    decreases hi - lo,
{
    let ghost v = doc_event_views(events@);
    let indent = make_indent(depth);
    let mut out: Vec<char> = Vec::new();
    let mut number: usize = 1;
    let mut cur: usize = lo;
    while cur < hi
        invariant
            lo <= cur <= hi <= events.len(),
            depth < lo,
            v == doc_event_views(events@),
            indent@ == indent_spec(depth as nat),
            1 <= number <= cur - lo + 1,
            list_text(v, lo as int, hi as int, ordered, depth as nat, 1, Seq::empty()) == list_text(
                v,
                cur as int,
                hi as int,
                ordered,
                depth as nat,
                number as nat,
                out@,
            ),
        decreases hi - cur,
    {
        proof {
            assert(v[cur as int] == events@[cur as int]@);
        }
        match &events[cur] {
            DocEvent::End => {
                cur += 1;
            },
            DocEvent::Start(node) => {
                let e = close_index(events, cur + 1, hi);
                match node {
                    DocNode::Item => {
                        let prefix = make_prefix(ordered, depth, number);
                        if ordered {
                            number += 1;
                        }
                        let content = item_blocks_of(events, cur + 1, e, depth);
                        push_item_block(&mut out, &prefix, &indent, &content);
                    },
                    DocNode::TaskItem { checked } => {
                        let content = text_content_of(events, cur + 1, e);
                        push_task_line(&mut out, &indent, *checked, &content);
                    },
                    _ => {
                        let inner = list_text_of(events, cur + 1, e, ordered, depth);
                        push_all(&mut out, &inner);
                    },
                }
                cur = behind_index(e, hi);
            },
        }
    }
    out
}

fn item_blocks_of(events: &Vec<DocEvent>, lo: usize, hi: usize, depth: usize) -> (out: Vec<char>)
    requires
        lo <= hi <= events.len(),
        depth < lo,
    ensures
        out@ == item_blocks(
            doc_event_views(events@),
            lo as int,
            hi as int,
            depth as nat,
            Seq::empty(),
        ),
    decreases hi - lo,
{
    let ghost v = doc_event_views(events@);
    let mut out: Vec<char> = Vec::new();
    let mut cur: usize = lo;
    while cur < hi
        invariant
            lo <= cur <= hi <= events.len(),
            depth < lo,
            v == doc_event_views(events@),
            item_blocks(v, lo as int, hi as int, depth as nat, Seq::empty()) == item_blocks(
                v,
                cur as int,
                hi as int,
                depth as nat,
                out@,
            ),
        decreases hi - cur,
    {
        proof {
            assert(v[cur as int] == events@[cur as int]@);
        }
        match &events[cur] {
            DocEvent::End => {
                cur += 1;
            },
            DocEvent::Start(node) => {
                let e = close_index(events, cur + 1, hi);
                let block = match node {
                    DocNode::Paragraph => as_line(&text_content_of(events, cur + 1, e)),
                    DocNode::List { ordered } => list_text_of(events, cur + 1, e, *ordered, depth + 1),
                    DocNode::BlockQuote => quote(&text_content_of(events, cur + 1, e)),
                    _ => Vec::new(),
                };
                push_block(&mut out, &block);
                cur = behind_index(e, hi);
            },
        }
    }
    out
}

fn footnote_line_of(name: &str, content: &Vec<char>) -> (out: Vec<char>)
    ensures
        out@ == footnote_line(name@, content@),
{
    let mut out: Vec<char> = Vec::new();
    if content.len() > 0 {
        push_text(&mut out, "[^");
        push_text(&mut out, name);
        push_text(&mut out, "]: ");
        push_all(&mut out, content);
        push_text(&mut out, "\n");
        proof {
            assert(out@ =~= footnote_line(name@, content@));
        }
    } else {
        proof {
            assert(out@ =~= content@);
        }
    }
    out
}

fn plain_blocks_of(events: &Vec<DocEvent>, lo: usize, hi: usize) -> (out: Vec<char>)
    requires
        lo <= hi <= events.len(),
    ensures
        out@ == plain_blocks(doc_event_views(events@), lo as int, hi as int, Seq::empty()),
    decreases hi - lo,
{
    let ghost v = doc_event_views(events@);
    let mut out: Vec<char> = Vec::new();
    let mut cur: usize = lo;
    while cur < hi
        invariant
            lo <= cur <= hi <= events.len(),
            v == doc_event_views(events@),
            plain_blocks(v, lo as int, hi as int, Seq::empty()) == plain_blocks(
                v,
                cur as int,
                hi as int,
                out@,
            ),
        decreases hi - cur,
    {
        proof {
            assert(v[cur as int] == events@[cur as int]@);
        }
        match &events[cur] {
            DocEvent::End => {
                cur += 1;
            },
            DocEvent::Start(node) => {
                let e = close_index(events, cur + 1, hi);
                let block = match node {
                    DocNode::Document => plain_blocks_of(events, cur + 1, e),
                    DocNode::Heading(_) => as_line(&text_content_of(events, cur + 1, e)),
                    DocNode::Paragraph => as_line(&text_content_of(events, cur + 1, e)),
                    DocNode::CodeBlock { literal, .. } => {
                        let chars = to_chars(literal.as_str());
                        as_line(&trim_trailing_newlines(&chars))
                    },
                    DocNode::List { ordered } => list_text_of(events, cur + 1, e, *ordered, 0),
                    DocNode::BlockQuote => quote(&text_content_of(events, cur + 1, e)),
                    DocNode::MultilineBlockQuote => quote(&text_content_of(events, cur + 1, e)),
                    DocNode::ThematicBreak => to_chars("---\n"),
                    DocNode::FootnoteDefinition(name) => footnote_line_of(
                        name.as_str(),
                        &text_content_of(events, cur + 1, e),
                    ),
                    DocNode::HtmlBlock(literal) => {
                        let chars = to_chars(literal.as_str());
                        as_line(&trim(&chars))
                    },
                    DocNode::Table => table_text_of(events, cur + 1, e),
                    _ => Vec::new(),
                };
                push_block(&mut out, &block);
                cur = behind_index(e, hi);
            },
        }
    }
    out
}

impl MarkdownTransformer {
    /// Writes a document as plain text, from the steps of a walk over it
    /// in tree order.
    pub fn transform_to_plaintext(events: &Vec<DocEvent>) -> (out: String)
        ensures
            out@ == plaintext_spec(doc_event_views(events@)),
    {
        from_chars(&plain_blocks_of(events, 0, events.len()))
    }
}

/// Puts together what an export to plain text answers: the text of the
/// document, and title and number of words as its metadata has them.
pub fn text_export_result(events: &Vec<DocEvent>, metadata: DocumentMetadata) -> (out: TextExportResult)
    ensures
        out.text@ == plaintext_spec(doc_event_views(events@)),
        out.title == metadata.title,
        out.word_count == metadata.word_count,
{
    TextExportResult {
        text: MarkdownTransformer::transform_to_plaintext(events),
        title: metadata.title,
        word_count: metadata.word_count,
    }
}

} // verus!
