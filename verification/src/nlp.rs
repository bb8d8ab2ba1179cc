use vstd::prelude::*;
use crate::chars::{lowercase_of, same_text, to_chars, to_lowercase};
use crate::listing::{text_before, text_less};
use crate::model::opt_text;
use crate::search::{trim, trim_spec};
use crate::text::{chars_in_bytes, utf8_len};

verus! {

/// The kinds of style pattern.
#[derive(Debug, Clone, Copy, PartialEq, Eq, Hash, Structural)]
pub enum PatternCategory {
    Filler,
    Redundancy,
    Cliche,
}

pub open spec fn category_text(c: PatternCategory) -> Seq<char> {
    match c {
        PatternCategory::Filler => "filler"@,
        PatternCategory::Redundancy => "redundancy"@,
        PatternCategory::Cliche => "cliche"@,
    }
}

impl PatternCategory {
    /// The category's name.
    pub fn as_str(self) -> (out: &'static str)
        ensures
            out@ == category_text(self),
    {
        match self {
            PatternCategory::Filler => "filler",
            PatternCategory::Redundancy => "redundancy",
            PatternCategory::Cliche => "cliche",
        }
    }

    /// The category of a name.
    pub fn from_raw(value: &str) -> (out: Option<Self>)
        ensures
            out == category_of(value@),
    {
        if same_text(value, "filler") {
            Some(PatternCategory::Filler)
        } else if same_text(value, "redundancy") {
            Some(PatternCategory::Redundancy)
        } else if same_text(value, "cliche") {
            Some(PatternCategory::Cliche)
        } else {
            None
        }
    }
}

/// The category that a name stands for.
pub open spec fn category_of(name: Seq<char>) -> Option<PatternCategory> {
    if name == "filler"@ {
        Some(PatternCategory::Filler)
    } else if name == "redundancy"@ {
        Some(PatternCategory::Redundancy)
    } else if name == "cliche"@ {
        Some(PatternCategory::Cliche)
    } else {
        None
    }
}

/// A phrase to look for, with its category and what to write instead.
#[derive(Debug, Clone, PartialEq, Eq)]
pub struct StylePattern {
    pub text: String,
    pub category: PatternCategory,
    pub replacement: Option<String>,
}

/// A pattern as a user writes it, with its category by name.
#[derive(Debug, Clone, PartialEq, Eq)]
pub struct StylePatternInput {
    pub text: String,
    pub category: String,
    pub replacement: Option<String>,
}

/// The categories of built-in patterns that are switched on.
#[derive(Debug, Clone, Copy, PartialEq, Eq, Structural)]
pub struct StyleCategorySettings {
    pub filler: bool,
    pub redundancy: bool,
    pub cliche: bool,
}

impl Default for StyleCategorySettings {
    fn default() -> (out: Self)
        ensures
            !out.filler && !out.redundancy && !out.cliche,
    {
        StyleCategorySettings { filler: false, redundancy: false, cliche: false }
    }
}

impl StyleCategorySettings {
    /// Whether a category is switched on.
    pub fn allows(&self, category: PatternCategory) -> (out: bool)
        ensures
            out == match category {
                PatternCategory::Filler => self.filler,
                PatternCategory::Redundancy => self.redundancy,
                PatternCategory::Cliche => self.cliche,
            },
    {
        match category {
            PatternCategory::Filler => self.filler,
            PatternCategory::Redundancy => self.redundancy,
            PatternCategory::Cliche => self.cliche,
        }
    }
}

/// A text to scan, with the categories and the user's patterns.
#[derive(Debug, Clone, PartialEq, Eq)]
pub struct StyleScanInput {
    pub text: String,
    pub categories: StyleCategorySettings,
    pub custom_patterns: Vec<StylePatternInput>,
}

/// A place where a pattern stands, in UTF-16 code units of the text.
#[derive(Debug, Clone, PartialEq, Eq)]
pub struct StyleMatch {
    pub from: usize,
    pub to: usize,
    pub category: PatternCategory,
    pub replacement: Option<String>,
}

/// A match as plain values.
pub struct MatchView {
    pub from: usize,
    pub to: usize,
    pub category: PatternCategory,
    pub replacement: Option<Seq<char>>,
}

impl View for StyleMatch {
    type V = MatchView;

    open spec fn view(&self) -> MatchView {
        MatchView {
            from: self.from,
            to: self.to,
            category: self.category,
            replacement: opt_text(self.replacement),
        }
    }
}

pub open spec fn match_views(ms: Seq<StyleMatch>) -> Seq<MatchView> {
    ms.map_values(|m: StyleMatch| m@)
}

/// A pattern as it is searched for: trimmed and in lowercase.
#[derive(Debug, Clone, PartialEq, Eq)]
pub struct IndexedPattern {
    pub normalized_text: String,
    pub category: PatternCategory,
    pub replacement: Option<String>,
}

/// A searched pattern as plain values.
pub struct IndexedView {
    pub normalized_text: Seq<char>,
    pub category: PatternCategory,
    pub replacement: Option<Seq<char>>,
}

impl View for IndexedPattern {
    type V = IndexedView;

    open spec fn view(&self) -> IndexedView {
        IndexedView {
            normalized_text: self.normalized_text@,
            category: self.category,
            replacement: opt_text(self.replacement),
        }
    }
}

pub open spec fn indexed_views(ps: Seq<IndexedPattern>) -> Seq<IndexedView> {
    ps.map_values(|p: IndexedPattern| p@)
}

/// A pattern as plain values.
pub struct PatternView {
    pub text: Seq<char>,
    pub category: PatternCategory,
    pub replacement: Option<Seq<char>>,
}

impl View for StylePattern {
    type V = PatternView;

    open spec fn view(&self) -> PatternView {
        PatternView {
            text: self.text@,
            category: self.category,
            replacement: opt_text(self.replacement),
        }
    }
}

pub open spec fn pattern_views(ps: Seq<StylePattern>) -> Seq<PatternView> {
    ps.map_values(|p: StylePattern| p@)
}

/// One match that the automaton reports: the pattern's number and the
/// bytes of the text that it takes.
#[derive(Debug, Clone, Copy, PartialEq, Eq, Structural)]
pub struct Found {
    pub pattern: usize,
    pub start: usize,
    pub end: usize,
}

/// All matches, overlapping ones too, of patterns in a text, in the
/// order in which the automaton of the crate aho-corasick reports them;
/// `None` where the automaton cannot be built or does not search.
pub uninterp spec fn overlapping_matches(patterns: Seq<Seq<char>>, text: Seq<char>) -> Option<Seq<Found>>;

/// Whether a character is a letter, as `char::is_alphabetic` tells.
pub uninterp spec fn is_alphabetic_char(c: char) -> bool;

/// Whether a character is a number, as `char::is_numeric` tells.
pub uninterp spec fn is_numeric_char(c: char) -> bool;

/// Asks `char::is_alphabetic`, which tells the characters with the Unicode
/// property `Alphabetic`. The contract names the result.
#[verifier::external_body]
pub(crate) fn char_is_alphabetic(c: char) -> (out: bool)
    ensures
        out == is_alphabetic_char(c),
{
    c.is_alphabetic()
}

/// Asks `char::is_numeric`, which tells the characters of the Unicode
/// categories of numbers. The contract names the result.
#[verifier::external_body]
pub(crate) fn char_is_numeric(c: char) -> (out: bool)
    ensures
        out == is_numeric_char(c),
{
    c.is_numeric()
}

/// The texts of searched patterns.
pub open spec fn texts_of(patterns: Seq<IndexedView>) -> Seq<Seq<char>> {
    patterns.map_values(|p: IndexedView| p.normalized_text)
}

/// Builds an automaton for the patterns with `AhoCorasickBuilder::build`
/// and searches the text with `try_find_overlapping_iter`, which reports
/// every match at every position. The contract names the result; it is
/// `None` where building or searching is refused.
#[verifier::external_body]
pub(crate) fn find_overlapping(patterns: &Vec<IndexedPattern>, text: &str) -> (out: Option<Vec<Found>>)
    ensures
        match out {
            Some(found) => overlapping_matches(texts_of(indexed_views(patterns@)), text@) == Some(
                found@,
            ),
            None => overlapping_matches(texts_of(indexed_views(patterns@)), text@) is None,
        },
{
    let texts: Vec<&str> = patterns.iter().map(|p| p.normalized_text.as_str()).collect();
    let automaton = aho_corasick::AhoCorasickBuilder::new().build(&texts).ok()?;
    let matches = automaton.try_find_overlapping_iter(text).ok()?;
    Some(
        matches.map(|m| Found { pattern: m.pattern().as_usize(), start: m.start(), end: m.end() })
            .collect(),
    )
}

/// A character of a word: a letter or a number.
pub open spec fn is_word_char_spec(c: char) -> bool {
    is_alphabetic_char(c) || is_numeric_char(c)
}

/// Whether a character belongs to a word.
pub fn is_word_char(ch: char) -> (out: bool)
    ensures
        out == is_word_char_spec(ch),
{
    char_is_alphabetic(ch) || char_is_numeric(ch)
}

/// The number of UTF-16 code units that a character takes.
pub open spec fn utf16_width(c: char) -> int {
    if (c as u32) < 0x10000 {
        1
    } else {
        2
    }
}

/// The number of UTF-16 code units that a text takes.
pub open spec fn utf16_len(s: Seq<char>) -> int
    decreases s.len(),
{
    if s.len() == 0 {
        0
    } else {
        utf16_len(s.drop_last()) + utf16_width(s.last())
    }
}

/// A text with the places of its characters: for every character, the
/// number of bytes and of UTF-16 code units before it.
pub struct TextIndex {
    pub chars: Vec<char>,
}

impl TextIndex {
    /// The number of the character that starts at a byte offset, or the
    /// number of characters for the offset of the text's end.
    pub open spec fn char_at_byte(&self, byte_offset: int) -> Option<int> {
        chars_in_bytes(self.chars@, 0, byte_offset)
    }

    /// Indexes a text.
    pub fn build(text: &str) -> (out: Self)
        ensures
            out.chars@ == text@,
    {
        TextIndex { chars: to_chars(text) }
    }

    fn locate(&self, byte_offset: usize) -> (out: Option<usize>)
        ensures
            match out {
                Some(k) => self.char_at_byte(byte_offset as int) == Some(k as int) && k
                    <= self.chars.len() && utf8_len(self.chars@.take(k as int)) == byte_offset,
                None => self.char_at_byte(byte_offset as int) is None,
            },
    {
        let n = self.chars.len();
        let target = byte_offset as u128;
        let mut acc: u128 = 0;
        let mut k: usize = 0;
        proof {
            assert(self.chars@.take(0).len() == 0);
        }
        while k < n && acc < target
            invariant
                k <= n,
                n == self.chars.len(),
                target == byte_offset,
                acc == utf8_len(self.chars@.take(k as int)),
                acc <= 4 * k,
                chars_in_bytes(self.chars@, 0, target as int) == chars_in_bytes(
                    self.chars@,
                    k as int,
                    target as int,
                ),
            decreases n - k,
        {
            proof {
                let next = self.chars@.take(k + 1);
                assert(next.drop_last() =~= self.chars@.take(k as int));
                assert(next.last() == self.chars@[k as int]);
            }
            let u = self.chars[k] as u32;
            let w: u128 = if u < 0x80 {
                1
            } else if u < 0x800 {
                2
            } else if u < 0x10000 {
                3
            } else {
                4
            };
            acc = acc + w;
            k += 1;
        }
        if acc == target {
            Some(k)
        } else {
            None
        }
    }

    /// The offset in UTF-16 code units of a byte offset that starts a
    /// character or ends the text.
    pub fn utf16_offset(&self, byte_offset: usize) -> (out: Option<usize>)
        ensures
            match self.char_at_byte(byte_offset as int) {
                Some(k) => out matches Some(u) && u == utf16_len(self.chars@.take(k)),
                None => out is None,
            },
    {
        match self.locate(byte_offset) {
            None => None,
            Some(k) => {
                let mut units: usize = 0;
                let mut i: usize = 0;
                proof {
                    assert(self.chars@.take(0).len() == 0);
                }
                while i < k
                    invariant
                        i <= k <= self.chars.len(),
                        units == utf16_len(self.chars@.take(i as int)),
                        units <= utf8_len(self.chars@.take(i as int)),
                        utf8_len(self.chars@.take(k as int)) == byte_offset,
                    decreases k - i,
                {
                    proof {
                        let next = self.chars@.take(i + 1);
                        assert(next.drop_last() =~= self.chars@.take(i as int));
                        assert(next.last() == self.chars@[i as int]);
                        lemma_utf8_len_grows(self.chars@, i + 1, k as int);
                    }
                    if (self.chars[i] as u32) < 0x10000 {
                        units += 1;
                    } else {
                        units += 2;
                    }
                    i += 1;
                }
                Some(units)
            },
        }
    }

    /// The character that ends at a byte offset.
    pub fn prev_char(&self, byte_offset: usize) -> (out: Option<char>)
        ensures
            out == match self.char_at_byte(byte_offset as int) {
                Some(k) => if k > 0 {
                    Some(self.chars@[k - 1])
                } else {
                    None
                },
                None => None,
            },
    {
        match self.locate(byte_offset) {
            Some(k) => if k > 0 {
                Some(self.chars[k - 1])
            } else {
                None
            },
            None => None,
        }
    }

    /// The character that starts at a byte offset.
    pub fn next_char(&self, byte_offset: usize) -> (out: Option<char>)
        ensures
            out == match self.char_at_byte(byte_offset as int) {
                Some(k) => if k < self.chars@.len() {
                    Some(self.chars@[k])
                } else {
                    None
                },
                None => None,
            },
    {
        match self.locate(byte_offset) {
            Some(k) => if k < self.chars.len() {
                Some(self.chars[k])
            } else {
                None
            },
            None => None,
        }
    }
}

proof fn lemma_utf8_len_grows(s: Seq<char>, a: int, b: int)
    requires
        0 <= a <= b <= s.len(),
    ensures
        utf8_len(s.take(a)) <= utf8_len(s.take(b)),
    decreases b - a,
{
    if a < b {
        lemma_utf8_len_grows(s, a, b - 1);
        assert(s.take(b).drop_last() =~= s.take(b - 1));
    }
}

/// No character of a word stands directly before the start or directly
/// behind the end. An offset that starts no character has no character
/// before or behind it.
pub open spec fn is_boundary_spec(chars: Seq<char>, start_byte: int, end_byte: int) -> bool {
    (match chars_in_bytes(chars, 0, start_byte) {
        Some(k) => k <= 0 || !is_word_char_spec(chars[k - 1]),
        None => true,
    }) && (match chars_in_bytes(chars, 0, end_byte) {
        Some(k) => k >= chars.len() || !is_word_char_spec(chars[k]),
        None => true,
    })
}

/// Whether a match stands between word boundaries.
pub fn is_word_boundary(index: &TextIndex, start_byte: usize, end_byte: usize) -> (out: bool)
    ensures
        out == is_boundary_spec(index.chars@, start_byte as int, end_byte as int),
{
    let start_boundary = match index.prev_char(start_byte) {
        Some(ch) => !is_word_char(ch),
        None => true,
    };
    let end_boundary = match index.next_char(end_byte) {
        Some(ch) => !is_word_char(ch),
        None => true,
    };
    start_boundary && end_boundary
}

/// The patterns among the first `n` as they are searched for: trimmed,
/// in lowercase, and without those that are empty then.
pub open spec fn indexed_spec(patterns: Seq<PatternView>, n: int) -> Seq<IndexedView>
    decreases n,
{
    if n <= 0 || n > patterns.len() {
        Seq::empty()
    } else {
        let before = indexed_spec(patterns, n - 1);
        let normalized = lowercase_of(trim_spec(patterns[n - 1].text));
        if normalized.len() == 0 {
            before
        } else {
            before.push(
                IndexedView {
                    normalized_text: normalized,
                    category: patterns[n - 1].category,
                    replacement: patterns[n - 1].replacement,
                },
            )
        }
    }
}

/// The match that the automaton's report stands for, where it stands
/// between word boundaries at the starts of characters.
pub open spec fn reported_match(
    patterns: Seq<IndexedView>,
    chars: Seq<char>,
    found: Found,
) -> Option<MatchView> {
    if found.pattern >= patterns.len() || !is_boundary_spec(
        chars,
        found.start as int,
        found.end as int,
    ) {
        None
    } else {
        match (chars_in_bytes(chars, 0, found.start as int), chars_in_bytes(chars, 0, found.end as int)) {
            (Some(a), Some(b)) => Some(
                MatchView {
                    from: utf16_len(chars.take(a)) as usize,
                    to: utf16_len(chars.take(b)) as usize,
                    category: patterns[found.pattern as int].category,
                    replacement: patterns[found.pattern as int].replacement,
                },
            ),
            _ => None,
        }
    }
}

/// The matches of the first `n` reports, each different match once, in
/// the order of the reports.
pub open spec fn collected(patterns: Seq<IndexedView>, chars: Seq<char>, found: Seq<Found>, n: int) -> Seq<
    MatchView,
>
    decreases n,
{
    if n <= 0 || n > found.len() {
        Seq::empty()
    } else {
        let before = collected(patterns, chars, found, n - 1);
        match reported_match(patterns, chars, found[n - 1]) {
            Some(m) => if before.contains(m) {
                before
            } else {
                before.push(m)
            },
            None => before,
        }
    }
}

/// `a` is listed before `b`: by start, then by end, then by the name of the category.
pub open spec fn match_before(a: MatchView, b: MatchView) -> bool {
    a.from < b.from || (a.from == b.from && (a.to < b.to || (a.to == b.to && text_less(
        category_text(a.category),
        category_text(b.category),
    ))))
}

pub open spec fn match_place(sorted: Seq<MatchView>, x: MatchView, from: int) -> int
    decreases sorted.len() - from,
{
    if from < 0 || from >= sorted.len() {
        sorted.len() as int
    } else if match_before(x, sorted[from]) {
        from
    } else {
        match_place(sorted, x, from + 1)
    }
}

/// The matches sorted by start, end and category; matches that these do
/// not tell apart stay in the order in which they were found.
pub open spec fn sorted_matches(ms: Seq<MatchView>) -> Seq<MatchView>
    decreases ms.len(),
{
    if ms.len() == 0 {
        Seq::empty()
    } else {
        let before = sorted_matches(ms.drop_last());
        before.insert(match_place(before, ms.last(), 0), ms.last())
    }
}

/// What a scan answers, given what the automaton reports for the
/// text's lowercase form: nothing where there are no patterns, the text
/// is empty or the automaton gave no report.
pub open spec fn scan_spec(patterns: Seq<IndexedView>, text: Seq<char>, found: Option<Seq<Found>>) -> Seq<
    MatchView,
> {
    match found {
        Some(f) => if text.len() == 0 || patterns.len() == 0 {
            Seq::empty()
        } else {
            sorted_matches(collected(patterns, lowercase_of(text), f, f.len() as int))
        },
        None => Seq::empty(),
    }
}

fn clone_opt(o: &Option<String>) -> (out: Option<String>)
    ensures
        opt_text(out) == opt_text(*o),
{
    match o {
        Some(s) => Some(s.clone()),
        None => None,
    }
}

fn same_opt(a: &Option<String>, b: &Option<String>) -> (out: bool)
    ensures
        out == (opt_text(*a) == opt_text(*b)),
{
    match (a, b) {
        (Some(x), Some(y)) => same_text(x.as_str(), y.as_str()),
        (None, None) => true,
        _ => false,
    }
}

fn precedes(a: &StyleMatch, b: &StyleMatch) -> (out: bool)
    ensures
        out == match_before(a@, b@),
{
    a.from < b.from || (a.from == b.from && (a.to < b.to || (a.to == b.to && text_before(
        a.category.as_str(),
        b.category.as_str(),
    ))))
}

fn clone_match(m: &StyleMatch) -> (out: StyleMatch)
    ensures
        out@ == m@,
{
    StyleMatch { from: m.from, to: m.to, category: m.category, replacement: clone_opt(&m.replacement) }
}

/// Sorts matches by start, end and category, keeping the given order
/// among matches that these do not tell apart.
pub fn sort_matches(ms: Vec<StyleMatch>) -> (out: Vec<StyleMatch>)
    ensures
        match_views(out@) == sorted_matches(match_views(ms@)),
{
    let ghost input = match_views(ms@);
    let mut sorted: Vec<StyleMatch> = Vec::new();
    let mut i: usize = 0;
    proof {
        assert(input.take(0) =~= Seq::empty());
        assert(match_views(sorted@) =~= Seq::empty());
    }
    while i < ms.len()
        invariant
            i <= ms.len(),
            input == match_views(ms@),
            match_views(sorted@) == sorted_matches(input.take(i as int)),
        decreases ms.len() - i,
    {
        let ghost before = match_views(sorted@);
        let x = clone_match(&ms[i]);
        proof {
            assert(input.take(i + 1).drop_last() =~= input.take(i as int));
            assert(input.take(i + 1).last() == ms@[i as int]@);
        }
        let mut pos: usize = 0;
        while pos < sorted.len() && !precedes(&x, &sorted[pos])
            invariant
                pos <= sorted.len(),
                before == match_views(sorted@),
                match_place(before, x@, 0) == match_place(before, x@, pos as int),
            decreases sorted.len() - pos,
        {
            proof {
                assert(before[pos as int] == sorted@[pos as int]@);
            }
            pos += 1;
        }
        proof {
            if pos < sorted.len() {
                assert(before[pos as int] == sorted@[pos as int]@);
            }
        }
        sorted.insert(pos, x);
        proof {
            assert(match_views(sorted@) =~= before.insert(pos as int, x@));
        }
        i += 1;
    }
    proof {
        assert(input.take(ms.len() as int) =~= input);
    }
    sorted
}

/// Turns what the automaton reported for a text into matches: reports
/// that do not stand between word boundaries are dropped, offsets are
/// counted in UTF-16 code units, each different match is kept once, and
/// the matches are sorted by start, end and category.
pub fn matches_from_reports(patterns: &Vec<IndexedPattern>, index: &TextIndex, found: &Vec<Found>) -> (out:
    Vec<StyleMatch>)
    ensures
        match_views(out@) == sorted_matches(
            collected(indexed_views(patterns@), index.chars@, found@, found@.len() as int),
        ),
{
    let ghost pv = indexed_views(patterns@);
    let mut matches: Vec<StyleMatch> = Vec::new();
    let mut i: usize = 0;
    proof {
        assert(match_views(matches@) =~= Seq::empty());
    }
    while i < found.len()
        invariant
            i <= found.len(),
            pv == indexed_views(patterns@),
            match_views(matches@) == collected(pv, index.chars@, found@, i as int),
        decreases found.len() - i,
    {
        let f = found[i];
        let ghost before = match_views(matches@);
        if f.pattern < patterns.len() && is_word_boundary(index, f.start, f.end) {
            let pattern = &patterns[f.pattern];
            proof {
                assert(pv[f.pattern as int] == pattern@);
            }
            match (index.utf16_offset(f.start), index.utf16_offset(f.end)) {
                (Some(from), Some(to)) => {
                    let candidate = StyleMatch {
                        from,
                        to,
                        category: pattern.category,
                        replacement: clone_opt(&pattern.replacement),
                    };
                    proof {
                        assert(reported_match(pv, index.chars@, f) == Some(candidate@));
                    }
                    let mut seen = false;
                    let mut k: usize = 0;
                    while k < matches.len()
                        invariant
                            k <= matches.len(),
                            before == match_views(matches@),
                            seen == (exists|m: int| 0 <= m < k && before[m] == candidate@),
                        decreases matches.len() - k,
                    {
                        proof {
                            assert(before[k as int] == matches@[k as int]@);
                        }
                        let m = &matches[k];
                        if m.from == candidate.from && m.to == candidate.to && m.category
                            == candidate.category && same_opt(&m.replacement, &candidate.replacement) {
                            seen = true;
                        }
                        k += 1;
                    }
                    proof {
                        assert(seen == before.contains(candidate@));
                    }
                    if !seen {
                        matches.push(candidate);
                        proof {
                            assert(match_views(matches@) =~= before.push(candidate@));
                        }
                    }
                },
                _ => {},
            }
        }
        i += 1;
    }
    sort_matches(matches)
}

/// Patterns prepared for searching.
pub struct PatternMatcher {
    pub patterns: Vec<IndexedPattern>,
}

impl PatternMatcher {
    /// Prepares patterns for searching: each is trimmed and lowercased,
    /// and those that are empty then are dropped.
    pub fn new(patterns: Vec<StylePattern>) -> (out: Self)
        ensures
            indexed_views(out.patterns@) == indexed_spec(
                pattern_views(patterns@),
                patterns@.len() as int,
            ),
    {
        let ghost pv = pattern_views(patterns@);
        let mut indexed: Vec<IndexedPattern> = Vec::new();
        let mut i: usize = 0;
        proof {
            assert(indexed_views(indexed@) =~= Seq::empty());
        }
        while i < patterns.len()
            invariant
                i <= patterns.len(),
                pv == pattern_views(patterns@),
                indexed_views(indexed@) == indexed_spec(pv, i as int),
            decreases patterns.len() - i,
        {
            let ghost before = indexed_views(indexed@);
            let p = &patterns[i];
            proof {
                assert(pv[i as int] == p@);
            }
            let trimmed = crate::chars::from_chars(&trim(&to_chars(p.text.as_str())));
            let normalized = to_lowercase(trimmed.as_str());
            if !normalized.as_str().is_empty() {
                let entry = IndexedPattern {
                    normalized_text: normalized,
                    category: p.category,
                    replacement: clone_opt(&p.replacement),
                };
                indexed.push(entry);
                proof {
                    assert(indexed_views(indexed@) =~= before.push(entry@));
                }
            }
            i += 1;
        }
        PatternMatcher { patterns: indexed }
    }

    /// Scans a text for the patterns, without regard to case and between
    /// word boundaries only. Matches are reported in UTF-16 code units of
    /// the text's lowercase form, each different match once, sorted by
    /// start, end and category. With no patterns, an empty text, or an
    /// automaton that cannot be had, there are no matches.
    pub fn scan(&self, text: &str) -> (out: Vec<StyleMatch>)
        ensures
            match_views(out@) == scan_spec(
                indexed_views(self.patterns@),
                text@,
                overlapping_matches(texts_of(indexed_views(self.patterns@)), lowercase_of(text@)),
            ),
    {
        if self.patterns.len() == 0 || text.is_empty() {
            let out: Vec<StyleMatch> = Vec::new();
            proof {
                assert(match_views(out@) =~= Seq::empty());
            }
            return out;
        }
        let normalized = to_lowercase(text);
        match find_overlapping(&self.patterns, normalized.as_str()) {
            None => {
                let out: Vec<StyleMatch> = Vec::new();
                proof {
                    assert(match_views(out@) =~= Seq::empty());
                }
                out
            },
            Some(found) => {
                let index = TextIndex::build(normalized.as_str());
                matches_from_reports(&self.patterns, &index, &found)
            },
        }
    }
}

pub open spec fn plain_pattern(text: Seq<char>, category: PatternCategory, replacement: Option<Seq<char>>) -> PatternView {
    PatternView { text, category, replacement }
}

fn pattern(text: &str, category: PatternCategory, replacement: Option<&str>) -> (out: StylePattern)
    ensures
        out@ == plain_pattern(
            text@,
            category,
            match replacement {
                Some(r) => Some(r@),
                None => None,
            },
        ),
{
    StylePattern {
        text: text.to_string(),
        category,
        replacement: match replacement {
            Some(r) => Some(r.to_string()),
            None => None,
        },
    }
}

/// The built-in builtin fillers.
pub open spec fn builtin_fillers() -> Seq<PatternView> {
    seq![
        plain_pattern("basically"@, PatternCategory::Filler, None),
        plain_pattern("actually"@, PatternCategory::Filler, None),
        plain_pattern("literally"@, PatternCategory::Filler, None),
        plain_pattern("really"@, PatternCategory::Filler, None),
        plain_pattern("very"@, PatternCategory::Filler, None),
        plain_pattern("just"@, PatternCategory::Filler, None),
        plain_pattern("quite"@, PatternCategory::Filler, None),
        plain_pattern("simply"@, PatternCategory::Filler, None),
        plain_pattern("honestly"@, PatternCategory::Filler, None),
        plain_pattern("obviously"@, PatternCategory::Filler, None),
        plain_pattern("kind of"@, PatternCategory::Filler, None),
        plain_pattern("sort of"@, PatternCategory::Filler, None),
    ]
}

fn builtin_fillers_list() -> (out: Vec<StylePattern>)
    ensures
        pattern_views(out@) == builtin_fillers(),
{
    let mut out: Vec<StylePattern> = Vec::new();
    out.push(pattern("basically", PatternCategory::Filler, None));
    out.push(pattern("actually", PatternCategory::Filler, None));
    out.push(pattern("literally", PatternCategory::Filler, None));
    out.push(pattern("really", PatternCategory::Filler, None));
    out.push(pattern("very", PatternCategory::Filler, None));
    out.push(pattern("just", PatternCategory::Filler, None));
    out.push(pattern("quite", PatternCategory::Filler, None));
    out.push(pattern("simply", PatternCategory::Filler, None));
    out.push(pattern("honestly", PatternCategory::Filler, None));
    out.push(pattern("obviously", PatternCategory::Filler, None));
    out.push(pattern("kind of", PatternCategory::Filler, None));
    out.push(pattern("sort of", PatternCategory::Filler, None));
    proof {
        assert(pattern_views(out@) =~= builtin_fillers());
    }
    out
}

/// The built-in builtin redundancies.
pub open spec fn builtin_redundancies() -> Seq<PatternView> {
    seq![
        plain_pattern("in order to"@, PatternCategory::Redundancy, Some("to"@)),
        plain_pattern("at this point in time"@, PatternCategory::Redundancy, Some("now"@)),
        plain_pattern("due to the fact that"@, PatternCategory::Redundancy, Some("because"@)),
        plain_pattern("in the event that"@, PatternCategory::Redundancy, Some("if"@)),
        plain_pattern("for the purpose of"@, PatternCategory::Redundancy, Some("for"@)),
        plain_pattern("each and every"@, PatternCategory::Redundancy, Some("every"@)),
        plain_pattern("end result"@, PatternCategory::Redundancy, Some("result"@)),
        plain_pattern("free gift"@, PatternCategory::Redundancy, Some("gift"@)),
        plain_pattern("past history"@, PatternCategory::Redundancy, Some("history"@)),
        plain_pattern("advance planning"@, PatternCategory::Redundancy, Some("planning"@)),
        plain_pattern("absolutely essential"@, PatternCategory::Redundancy, Some("essential"@)),
        plain_pattern("completely finished"@, PatternCategory::Redundancy, Some("finished"@)),
    ]
}

fn builtin_redundancies_list() -> (out: Vec<StylePattern>)
    ensures
        pattern_views(out@) == builtin_redundancies(),
{
    let mut out: Vec<StylePattern> = Vec::new();
    out.push(pattern("in order to", PatternCategory::Redundancy, Some("to")));
    out.push(pattern("at this point in time", PatternCategory::Redundancy, Some("now")));
    out.push(pattern("due to the fact that", PatternCategory::Redundancy, Some("because")));
    out.push(pattern("in the event that", PatternCategory::Redundancy, Some("if")));
    out.push(pattern("for the purpose of", PatternCategory::Redundancy, Some("for")));
    out.push(pattern("each and every", PatternCategory::Redundancy, Some("every")));
    out.push(pattern("end result", PatternCategory::Redundancy, Some("result")));
    out.push(pattern("free gift", PatternCategory::Redundancy, Some("gift")));
    out.push(pattern("past history", PatternCategory::Redundancy, Some("history")));
    out.push(pattern("advance planning", PatternCategory::Redundancy, Some("planning")));
    out.push(pattern("absolutely essential", PatternCategory::Redundancy, Some("essential")));
    out.push(pattern("completely finished", PatternCategory::Redundancy, Some("finished")));
    proof {
        assert(pattern_views(out@) =~= builtin_redundancies());
    }
    out
}

/// The built-in builtin cliches.
pub open spec fn builtin_cliches() -> Seq<PatternView> {
    seq![
        plain_pattern("at the end of the day"@, PatternCategory::Cliche, None),
        plain_pattern("beat around the bush"@, PatternCategory::Cliche, None),
        plain_pattern("think outside the box"@, PatternCategory::Cliche, None),
        plain_pattern("low-hanging fruit"@, PatternCategory::Cliche, None),
        plain_pattern("the tip of the iceberg"@, PatternCategory::Cliche, None),
        plain_pattern("a blessing in disguise"@, PatternCategory::Cliche, None),
        plain_pattern("better late than never"@, PatternCategory::Cliche, None),
        plain_pattern("time will tell"@, PatternCategory::Cliche, None),
        plain_pattern("only time will tell"@, PatternCategory::Cliche, None),
        plain_pattern("in the nick of time"@, PatternCategory::Cliche, None),
        plain_pattern("last but not least"@, PatternCategory::Cliche, None),
        plain_pattern("easier said than done"@, PatternCategory::Cliche, None),
    ]
}

fn builtin_cliches_list() -> (out: Vec<StylePattern>)
    ensures
        pattern_views(out@) == builtin_cliches(),
{
    let mut out: Vec<StylePattern> = Vec::new();
    out.push(pattern("at the end of the day", PatternCategory::Cliche, None));
    out.push(pattern("beat around the bush", PatternCategory::Cliche, None));
    out.push(pattern("think outside the box", PatternCategory::Cliche, None));
    out.push(pattern("low-hanging fruit", PatternCategory::Cliche, None));
    out.push(pattern("the tip of the iceberg", PatternCategory::Cliche, None));
    out.push(pattern("a blessing in disguise", PatternCategory::Cliche, None));
    out.push(pattern("better late than never", PatternCategory::Cliche, None));
    out.push(pattern("time will tell", PatternCategory::Cliche, None));
    out.push(pattern("only time will tell", PatternCategory::Cliche, None));
    out.push(pattern("in the nick of time", PatternCategory::Cliche, None));
    out.push(pattern("last but not least", PatternCategory::Cliche, None));
    out.push(pattern("easier said than done", PatternCategory::Cliche, None));
    proof {
        assert(pattern_views(out@) =~= builtin_cliches());
    }
    out
}

/// The built-in patterns: fillers first, then redundancies, then clichés.
pub open spec fn builtin_views() -> Seq<PatternView> {
    builtin_fillers() + builtin_redundancies() + builtin_cliches()
}

/// The built-in patterns.
pub fn builtin_patterns() -> (out: Vec<StylePattern>)
    ensures
        pattern_views(out@) == builtin_views(),
{
    let mut out = builtin_fillers_list();
    let mut second = builtin_redundancies_list();
    let mut third = builtin_cliches_list();
    let ghost a = pattern_views(out@);
    let ghost b = pattern_views(second@);
    let ghost c = pattern_views(third@);
    out.append(&mut second);
    proof {
        assert(pattern_views(out@) =~= a + b);
    }
    out.append(&mut third);
    proof {
        assert(pattern_views(out@) =~= a + b + c);
    }
    out
}

pub open spec fn allowed(settings: StyleCategorySettings, category: PatternCategory) -> bool {
    match category {
        PatternCategory::Filler => settings.filler,
        PatternCategory::Redundancy => settings.redundancy,
        PatternCategory::Cliche => settings.cliche,
    }
}

/// The built-in patterns among the first `n` whose category is switched on.
pub open spec fn enabled_builtins(builtins: Seq<PatternView>, settings: StyleCategorySettings, n: int) -> Seq<
    PatternView,
>
    decreases n,
{
    if n <= 0 || n > builtins.len() {
        Seq::empty()
    } else if allowed(settings, builtins[n - 1].category) {
        enabled_builtins(builtins, settings, n - 1).push(builtins[n - 1])
    } else {
        enabled_builtins(builtins, settings, n - 1)
    }
}

/// A user's pattern as plain values.
pub struct InputView {
    pub text: Seq<char>,
    pub category: Seq<char>,
    pub replacement: Option<Seq<char>>,
}

impl View for StylePatternInput {
    type V = InputView;

    open spec fn view(&self) -> InputView {
        InputView { text: self.text@, category: self.category@, replacement: opt_text(self.replacement) }
    }
}

pub open spec fn input_views(ps: Seq<StylePatternInput>) -> Seq<InputView> {
    ps.map_values(|p: StylePatternInput| p@)
}

/// The user's patterns among the first `n` whose category has a name
/// that is known, once trimmed and lowercased.
pub open spec fn custom_patterns(inputs: Seq<InputView>, n: int) -> Seq<PatternView>
    decreases n,
{
    if n <= 0 || n > inputs.len() {
        Seq::empty()
    } else {
        let before = custom_patterns(inputs, n - 1);
        match category_of(lowercase_of(trim_spec(inputs[n - 1].category))) {
            Some(category) => before.push(
                PatternView {
                    text: inputs[n - 1].text,
                    category,
                    replacement: inputs[n - 1].replacement,
                },
            ),
            None => before,
        }
    }
}

/// The patterns of a scan: the built-in ones of the categories that are
/// switched on, then the user's own, whatever is switched on.
pub fn patterns_for(
    builtins: &Vec<StylePattern>,
    categories: &StyleCategorySettings,
    custom: &Vec<StylePatternInput>,
) -> (out: Vec<StylePattern>)
    ensures
        pattern_views(out@) == enabled_builtins(
            pattern_views(builtins@),
            *categories,
            builtins@.len() as int,
        ) + custom_patterns(input_views(custom@), custom@.len() as int),
{
    let ghost bv = pattern_views(builtins@);
    let ghost cv = input_views(custom@);
    let mut out: Vec<StylePattern> = Vec::new();
    let mut i: usize = 0;
    proof {
        assert(pattern_views(out@) =~= Seq::empty());
    }
    while i < builtins.len()
        invariant
            i <= builtins.len(),
            bv == pattern_views(builtins@),
            pattern_views(out@) == enabled_builtins(bv, *categories, i as int),
        decreases builtins.len() - i,
    {
        let ghost before = pattern_views(out@);
        let p = &builtins[i];
        proof {
            assert(bv[i as int] == p@);
        }
        if categories.allows(p.category) {
            let copy = StylePattern {
                text: p.text.clone(),
                category: p.category,
                replacement: clone_opt(&p.replacement),
            };
            out.push(copy);
            proof {
                assert(pattern_views(out@) =~= before.push(p@));
            }
        }
        i += 1;
    }
    let ghost base = pattern_views(out@);
    let mut k: usize = 0;
    proof {
        assert(base + custom_patterns(cv, 0) =~= base);
    }
    while k < custom.len()
        invariant
            k <= custom.len(),
            cv == input_views(custom@),
            pattern_views(out@) == base + custom_patterns(cv, k as int),
        decreases custom.len() - k,
    {
        let ghost before = pattern_views(out@);
        let p = &custom[k];
        proof {
            assert(cv[k as int] == p@);
        }
        let trimmed = crate::chars::from_chars(&trim(&to_chars(p.category.as_str())));
        let name = to_lowercase(trimmed.as_str());
        match PatternCategory::from_raw(name.as_str()) {
            Some(category) => {
                let entry = StylePattern {
                    text: p.text.clone(),
                    category,
                    replacement: clone_opt(&p.replacement),
                };
                out.push(entry);
                proof {
                    assert(pattern_views(out@) =~= before.push(entry@));
                    assert(before.push(entry@) =~= base + custom_patterns(cv, k + 1));
                }
            },
            None => {},
        }
        k += 1;
    }
    out
}

/// The patterns of a scan, as they are searched for.
pub open spec fn scan_patterns(categories: StyleCategorySettings, custom: Seq<InputView>) -> Seq<IndexedView> {
    let all = enabled_builtins(builtin_views(), categories, builtin_views().len() as int)
        + custom_patterns(custom, custom.len() as int);
    indexed_spec(all, all.len() as int)
}

/// What a style scan answers.
pub open spec fn style_scan_spec(text: Seq<char>, categories: StyleCategorySettings, custom: Seq<InputView>) -> Seq<
    MatchView,
> {
    let patterns = scan_patterns(categories, custom);
    scan_spec(patterns, text, overlapping_matches(texts_of(patterns), lowercase_of(text)))
}

/// Scans a text for style patterns: the built-in patterns of the
/// categories that are switched on, and the user's own patterns, whatever
/// is switched on.
pub fn scan_style_matches(input: &StyleScanInput) -> (out: Vec<StyleMatch>)
    ensures
        match_views(out@) == style_scan_spec(
            input.text@,
            input.categories,
            input_views(input.custom_patterns@),
        ),
{
    let builtins = builtin_patterns();
    let patterns = patterns_for(&builtins, &input.categories, &input.custom_patterns);
    let matcher = PatternMatcher::new(patterns);
    matcher.scan(input.text.as_str())
}

} // verus!
