use vstd::prelude::*;
use crate::chars::{concat, contains, contains_seq, first_occurrence, from_chars, is_whitespace, is_ws, lowercase_of, matches_at, occurs_at, push_all, push_char, push_text, same_chars, slice_chars, to_chars, to_lowercase};
use vstd::utf8::{decode_utf8, valid_utf8};
use crate::error::{AppError, ErrorCode};
use crate::model::{opt_text, Encoding, LineEnding, SearchMatch};
use crate::path::{is_cur_dir, is_parent_dir, segment_kind, segments, split_segments, views};

verus! {

/// A word starts at `i`: a character that is no white space, at the start or
/// after white space.
pub open spec fn is_word_start(s: Seq<char>, i: int) -> bool {
    0 <= i < s.len() && !is_ws(s[i]) && (i == 0 || is_ws(s[i - 1]))
}

/// The number of words that start before index `n`.
pub open spec fn word_starts(s: Seq<char>, n: int) -> nat
    decreases n,
{
    if n <= 0 {
        0
    } else {
        word_starts(s, n - 1) + if is_word_start(s, n - 1) {
            1nat
        } else {
            0nat
        }
    }
}

/// The number of runs of characters that are no white space.
pub open spec fn word_count_spec(s: Seq<char>) -> nat {
    word_starts(s, s.len() as int)
}

proof fn lemma_word_starts_bound(s: Seq<char>, n: int)
    requires
        0 <= n,
    ensures
        word_starts(s, n) <= n,
    decreases n,
{
    if n > 0 {
        lemma_word_starts_bound(s, n - 1);
    }
}

/// Counts the words of a text: its runs of characters that are no white space.
pub fn estimate_word_count(text: &str) -> (out: usize)
    ensures
        out == word_count_spec(text@),
{
    let chars = to_chars(text);
    let mut count: usize = 0;
    let mut in_word = false;
    let mut i: usize = 0;
    while i < chars.len()
        invariant
            i <= chars.len(),
            chars@ == text@,
            count == word_starts(chars@, i as int),
            in_word == (i > 0 && !is_ws(chars@[i - 1])),
        decreases chars.len() - i,
    {
        proof {
            lemma_word_starts_bound(chars@, i as int);
        }
        let ws = is_whitespace(chars[i]);
        if !ws && !in_word {
            count += 1;
        }
        in_word = !ws;
        i += 1;
    }
    count
}

/// What one character becomes in HTML text.
pub open spec fn escape_char(c: char) -> Seq<char> {
    if c == '&' {
        "&amp;"@
    } else if c == '<' {
        "&lt;"@
    } else if c == '>' {
        "&gt;"@
    } else if c == '"' {
        "&quot;"@
    } else if c == '\'' {
        "&#x27;"@
    } else {
        seq![c]
    }
}

/// The text with each character replaced by what it becomes in HTML.
pub open spec fn html_escape_spec(s: Seq<char>) -> Seq<char>
    decreases s.len(),
{
    if s.len() == 0 {
        Seq::empty()
    } else {
        html_escape_spec(s.drop_last()) + escape_char(s.last())
    }
}

/// Escapes the characters `&`, `<`, `>`, `"` and `'` for HTML.
pub fn html_escape(text: &str) -> (out: String)
    ensures
        out@ == html_escape_spec(text@),
{
    let chars = to_chars(text);
    let mut out: Vec<char> = Vec::new();
    let mut i: usize = 0;
    while i < chars.len()
        invariant
            i <= chars.len(),
            chars@ == text@,
            out@ == html_escape_spec(chars@.take(i as int)),
        decreases chars.len() - i,
    {
        let c = chars[i];
        proof {
            let next = chars@.take(i + 1);
            assert(next.drop_last() =~= chars@.take(i as int));
            assert(next.last() == c);
        }
        if c == '&' {
            push_text(&mut out, "&amp;");
        } else if c == '<' {
            push_text(&mut out, "&lt;");
        } else if c == '>' {
            push_text(&mut out, "&gt;");
        } else if c == '"' {
            push_text(&mut out, "&quot;");
        } else if c == '\'' {
            push_text(&mut out, "&#x27;");
        } else {
            out.push(c);
        }
        i += 1;
    }
    proof {
        assert(chars@.take(chars.len() as int) =~= chars@);
    }
    from_chars(&out)
}

/// The last segment that names something, unless the path ends in a step upwards.
pub open spec fn last_component(segs: Seq<Seq<char>>) -> Option<Seq<char>>
    decreases segs.len(),
{
    if segs.len() == 0 {
        None
    } else if is_cur_dir(segs.last()) {
        last_component(segs.drop_last())
    } else if is_parent_dir(segs.last()) {
        None
    } else {
        Some(segs.last())
    }
}

/// The file name of a path: its last component, where that names something.
pub open spec fn file_name_spec(path: Seq<char>) -> Option<Seq<char>> {
    last_component(segments(path))
}

/// Index of the last dot of `name`, or -1.
pub open spec fn last_dot(name: Seq<char>) -> int
    decreases name.len(),
{
    if name.len() == 0 {
        -1
    } else if name.last() == '.' {
        name.len() - 1
    } else {
        last_dot(name.drop_last())
    }
}

/// The extension of a file name: what follows its last dot, unless that dot
/// is the first character.
pub open spec fn extension_of_name(name: Seq<char>) -> Option<Seq<char>> {
    let d = last_dot(name);
    if d <= 0 {
        None
    } else {
        Some(name.skip(d + 1))
    }
}

/// The stem of a file name: what precedes its last dot, or the whole name
/// where it has no extension.
pub open spec fn stem_of_name(name: Seq<char>) -> Seq<char> {
    let d = last_dot(name);
    if d <= 0 {
        name
    } else {
        name.take(d)
    }
}

pub open spec fn extension_spec(path: Seq<char>) -> Option<Seq<char>> {
    match file_name_spec(path) {
        None => None,
        Some(name) => extension_of_name(name),
    }
}

pub open spec fn file_stem_spec(path: Seq<char>) -> Option<Seq<char>> {
    match file_name_spec(path) {
        None => None,
        Some(name) => Some(stem_of_name(name)),
    }
}

/// The file name of a path, as characters.
pub fn file_name_chars(path: &Vec<char>) -> (out: Option<Vec<char>>)
    ensures
        match out {
            Some(name) => file_name_spec(path@) == Some(name@),
            None => file_name_spec(path@) is None,
        },
{
    let segs = split_segments(path);
    let mut k: usize = segs.len();
    proof {
        assert(views(segs@).take(k as int) =~= views(segs@));
    }
    while k > 0
        invariant
            k <= segs.len(),
            views(segs@) == segments(path@),
            last_component(segments(path@)) == last_component(views(segs@).take(k as int)),
        decreases k,
    {
        let seg = &segs[k - 1];
        let ghost cur = views(segs@).take(k as int);
        proof {
            assert(cur.last() == seg@);
            assert(cur.drop_last() =~= views(segs@).take(k - 1));
        }
        let (is_cur, is_parent) = segment_kind(seg);
        if is_cur {
            k -= 1;
        } else if is_parent {
            return None;
        } else {
            return Some(slice_chars(seg, 0, seg.len()));
        }
    }
    proof {
        assert(views(segs@).take(0).len() == 0);
    }
    None
}

/// Index of the last dot of a name, if it has one.
pub fn find_last_dot(name: &Vec<char>) -> (out: Option<usize>)
    ensures
        match out {
            Some(d) => last_dot(name@) == d && d < name.len(),
            None => last_dot(name@) == -1,
        },
{
    let mut k: usize = name.len();
    proof {
        assert(name@.take(k as int) =~= name@);
    }
    while k > 0
        invariant
            k <= name.len(),
            last_dot(name@) == last_dot(name@.take(k as int)),
        decreases k,
    {
        let ghost cur = name@.take(k as int);
        proof {
            assert(cur.last() == name@[k - 1]);
            assert(cur.drop_last() =~= name@.take(k - 1));
        }
        if name[k - 1] == '.' {
            return Some(k - 1);
        }
        k -= 1;
    }
    proof {
        assert(name@.take(0).len() == 0);
    }
    None
}

/// The file name of a path.
pub fn file_name(path: &str) -> (out: Option<String>)
    ensures
        opt_text(out) == file_name_spec(path@),
{
    let chars = to_chars(path);
    match file_name_chars(&chars) {
        Some(name) => Some(from_chars(&name)),
        None => None,
    }
}

/// The extension of a path's file name.
pub fn extension(path: &str) -> (out: Option<String>)
    ensures
        opt_text(out) == extension_spec(path@),
{
    let chars = to_chars(path);
    match file_name_chars(&chars) {
        None => None,
        Some(name) => match find_last_dot(&name) {
            None => None,
            Some(d) => if d == 0 {
                None
            } else {
                let ext = slice_chars(&name, d + 1, name.len());
                Some(from_chars(&ext))
            },
        },
    }
}

/// The stem of a path's file name.
pub fn file_stem(path: &str) -> (out: Option<String>)
    ensures
        opt_text(out) == file_stem_spec(path@),
{
    let chars = to_chars(path);
    match file_name_chars(&chars) {
        None => None,
        Some(name) => match find_last_dot(&name) {
            None => Some(from_chars(&name)),
            Some(d) => if d == 0 {
                Some(from_chars(&name))
            } else {
                let stem = slice_chars(&name, 0, d);
                Some(from_chars(&stem))
            },
        },
    }
}

/// The extensions of files whose text is indexed.
pub open spec fn is_indexable_extension(ext: Seq<char>) -> bool {
    ext == "md"@ || ext == "markdown"@ || ext == "mdx"@ || ext == "txt"@
}

/// A path whose extension, in lowercase, is one of the indexed ones.
pub open spec fn is_indexable_spec(path: Seq<char>) -> bool {
    match extension_spec(path) {
        None => false,
        Some(ext) => is_indexable_extension(lowercase_of(ext)),
    }
}

/// Whether a file's text is indexed, judged by its extension without regard to case.
pub fn is_indexable_text_path(path: &str) -> (out: bool)
    ensures
        out == is_indexable_spec(path@),
{
    match extension(path) {
        None => false,
        Some(ext) => {
            let lower = to_chars(to_lowercase(ext.as_str()).as_str());
            same_chars(&lower, &to_chars("md")) || same_chars(&lower, &to_chars("markdown"))
                || same_chars(&lower, &to_chars("mdx")) || same_chars(&lower, &to_chars("txt"))
        },
    }
}

/// The marks that synchronisation clients leave in the names of conflicted copies.
pub open spec fn has_conflict_mark(lower: Seq<char>) -> bool {
    contains_seq(lower, "(conflict)"@) || contains_seq(lower, "'s conflicted copy"@)
        || contains_seq(lower, ".conflicted copy"@) || contains_seq(lower, " (conflicted copy"@)
        || contains_seq(lower, " conflicted copy)"@) || contains_seq(lower, "(conflicted copy"@)
        || contains_seq(lower, "conflicted copy"@)
}

/// A file name that, in lowercase, carries a conflict mark.
pub open spec fn is_conflicted_spec(filename: Seq<char>) -> bool {
    has_conflict_mark(lowercase_of(filename))
}

/// Whether lowercase text carries a conflict mark.
pub fn carries_conflict_mark(lower: &str) -> (out: bool)
    ensures
        out == has_conflict_mark(lower@),
{
    let l = to_chars(lower);
    contains(&l, &to_chars("(conflict)")) || contains(&l, &to_chars("'s conflicted copy"))
        || contains(&l, &to_chars(".conflicted copy")) || contains(
        &l,
        &to_chars(" (conflicted copy"),
    ) || contains(&l, &to_chars(" conflicted copy)")) || contains(&l, &to_chars("(conflicted copy"))
        || contains(&l, &to_chars("conflicted copy"))
}

/// Whether a file name marks a conflicted copy made by a synchronisation client.
pub fn is_conflicted_filename(filename: &str) -> (out: bool)
    ensures
        out == is_conflicted_spec(filename@),
{
    let lower = to_lowercase(filename);
    carries_conflict_mark(lower.as_str())
}

/// A line feed at `i` that follows a carriage return.
pub open spec fn is_crlf_at(s: Seq<char>, i: int) -> bool {
    0 < i < s.len() && s[i] == '\n' && s[i - 1] == '\r'
}

/// A line feed at `i` that follows no carriage return.
pub open spec fn is_bare_lf_at(s: Seq<char>, i: int) -> bool {
    0 <= i < s.len() && s[i] == '\n' && (i == 0 || s[i - 1] != '\r')
}

pub open spec fn crlf_count(s: Seq<char>, n: int) -> nat
    decreases n,
{
    if n <= 0 {
        0
    } else {
        crlf_count(s, n - 1) + if is_crlf_at(s, n - 1) {
            1nat
        } else {
            0nat
        }
    }
}

pub open spec fn bare_lf_count(s: Seq<char>, n: int) -> nat
    decreases n,
{
    if n <= 0 {
        0
    } else {
        bare_lf_count(s, n - 1) + if is_bare_lf_at(s, n - 1) {
            1nat
        } else {
            0nat
        }
    }
}

/// The style that prevails: `CrLf` where line feeds after a carriage return
/// outnumber the bare ones, `Lf` otherwise.
pub open spec fn detect_line_ending_spec(s: Seq<char>) -> LineEnding {
    if crlf_count(s, s.len() as int) > bare_lf_count(s, s.len() as int) {
        LineEnding::CrLf
    } else {
        LineEnding::Lf
    }
}

proof fn lemma_line_counts_bound(s: Seq<char>, n: int)
    requires
        0 <= n,
    ensures
        crlf_count(s, n) <= n,
        bare_lf_count(s, n) <= n,
    decreases n,
{
    if n > 0 {
        lemma_line_counts_bound(s, n - 1);
    }
}

impl LineEnding {
    /// Detects the line-ending style of a text by counting both kinds.
    pub fn detect(text: &str) -> (out: LineEnding)
        ensures
            out == detect_line_ending_spec(text@),
    {
        let chars = to_chars(text);
        let mut crlf: usize = 0;
        let mut lf: usize = 0;
        let mut i: usize = 0;
        while i < chars.len()
            invariant
                i <= chars.len(),
                chars@ == text@,
                crlf == crlf_count(chars@, i as int),
                lf == bare_lf_count(chars@, i as int),
            decreases chars.len() - i,
        {
            proof {
                lemma_line_counts_bound(chars@, i as int);
            }
            if chars[i] == '\n' {
                if i > 0 && chars[i - 1] == '\r' {
                    crlf += 1;
                } else {
                    lf += 1;
                }
            }
            i += 1;
        }
        if crlf > lf {
            LineEnding::CrLf
        } else {
            LineEnding::Lf
        }
    }
}

/// The 64-bit hash that std's default hasher gives a text.
pub uninterp spec fn text_hash64(s: Seq<char>) -> u64;

/// Hashes a text with `std::collections::hash_map::DefaultHasher`, created
/// with its fixed keys. The contract names the result.
#[verifier::external_body]
pub(crate) fn default_hash(text: &str) -> (out: u64)
    ensures
        out == text_hash64(text@),
{
    let mut hasher = std::collections::hash_map::DefaultHasher::new();
    std::hash::Hash::hash(text, &mut hasher);
    std::hash::Hasher::finish(&hasher)
}

/// The lowercase hexadecimal digit for a value below sixteen.
pub open spec fn hex_digit(d: int) -> char {
    if d == 0 {
        '0'
    } else if d == 1 {
        '1'
    } else if d == 2 {
        '2'
    } else if d == 3 {
        '3'
    } else if d == 4 {
        '4'
    } else if d == 5 {
        '5'
    } else if d == 6 {
        '6'
    } else if d == 7 {
        '7'
    } else if d == 8 {
        '8'
    } else if d == 9 {
        '9'
    } else if d == 10 {
        'a'
    } else if d == 11 {
        'b'
    } else if d == 12 {
        'c'
    } else if d == 13 {
        'd'
    } else if d == 14 {
        'e'
    } else {
        'f'
    }
}

/// The last `n` hexadecimal digits of `v`, most significant first.
pub open spec fn hex_digits(v: int, n: nat) -> Seq<char>
    decreases n,
{
    if n == 0 {
        Seq::empty()
    } else {
        hex_digits(v / 16, (n - 1) as nat).push(hex_digit(v % 16))
    }
}

fn hex_digit_char(d: u64) -> (out: char)
    requires
        d < 16,
    ensures
        out == hex_digit(d as int),
{
    if d == 0 {
        '0'
    } else if d == 1 {
        '1'
    } else if d == 2 {
        '2'
    } else if d == 3 {
        '3'
    } else if d == 4 {
        '4'
    } else if d == 5 {
        '5'
    } else if d == 6 {
        '6'
    } else if d == 7 {
        '7'
    } else if d == 8 {
        '8'
    } else if d == 9 {
        '9'
    } else if d == 10 {
        'a'
    } else if d == 11 {
        'b'
    } else if d == 12 {
        'c'
    } else if d == 13 {
        'd'
    } else if d == 14 {
        'e'
    } else {
        'f'
    }
}

fn hex_digits_of(v: u64, n: u8) -> (out: Vec<char>)
    ensures
        out@ == hex_digits(v as int, n as nat),
    decreases n,
{
    if n == 0 {
        Vec::new()
    } else {
        let mut head = hex_digits_of(v / 16, n - 1);
        head.push(hex_digit_char(v % 16));
        head
    }
}

/// A value as sixteen lowercase hexadecimal digits.
pub fn hex16(v: u64) -> (out: String)
    ensures
        out@ == hex_digits(v as int, 16),
{
    let digits = hex_digits_of(v, 16);
    from_chars(&digits)
}

/// The content hash of a text: its 64-bit hash as sixteen hexadecimal digits.
pub fn hash_text(text: &str) -> (out: String)
    ensures
        out@ == hex_digits(text_hash64(text@) as int, 16),
{
    hex16(default_hash(text))
}

/// The text that lossy UTF-8 decoding gives for some bytes.
pub uninterp spec fn utf8_lossy_of(bytes: Seq<u8>) -> Seq<char>;

/// The text that UTF-16 decoding gives for some code units, where they are valid.
pub uninterp spec fn utf16_of(units: Seq<u16>) -> Option<Seq<char>>;

#[verifier::external_type_specification]
#[verifier::external_body]
pub struct ExFromUtf16Error(std::string::FromUtf16Error);

/// Lenient decoding of bytes as UTF-8: valid bytes decode to the text that
/// they encode, and for other bytes the result has a name only.
pub open spec fn lossy_text(bytes: Seq<u8>) -> Seq<char> {
    if valid_utf8(bytes) {
        decode_utf8(bytes)
    } else {
        utf8_lossy_of(bytes)
    }
}

/// Decodes bytes with `String::from_utf8_lossy`. Valid UTF-8 decodes to the
/// text it encodes; for other bytes the contract names the result.
#[verifier::external_body]
pub(crate) fn decode_utf8_lossy(bytes: &[u8]) -> (out: String)
    ensures
        valid_utf8(bytes@) ==> out@ == decode_utf8(bytes@),
        !valid_utf8(bytes@) ==> out@ == utf8_lossy_of(bytes@),
{
    String::from_utf8_lossy(bytes).into_owned()
}

/// Decodes bytes with `std::str::from_utf8`, which accepts exactly the
/// valid UTF-8 and yields the text that the bytes encode.
#[verifier::external_body]
pub(crate) fn decode_utf8_strict(bytes: &[u8]) -> (out: Option<String>)
    ensures
        match out {
            Some(s) => valid_utf8(bytes@) && s@ == decode_utf8(bytes@),
            None => !valid_utf8(bytes@),
        },
{
    std::str::from_utf8(bytes).ok().map(|s| s.to_string())
}

/// Decodes code units with `String::from_utf16`, which fails on an unpaired
/// surrogate. The contract names the result.
#[verifier::external_body]
pub(crate) fn decode_utf16(units: &Vec<u16>) -> (out: Result<String, std::string::FromUtf16Error>)
    ensures
        match out {
            Ok(s) => utf16_of(units@) == Some(s@),
            Err(_) => utf16_of(units@) is None,
        },
{
    String::from_utf16(units)
}

/// The text of a UTF-16 decoding error, as its `Display` writes it.
#[verifier::external_body]
pub(crate) fn utf16_error_text(err: &std::string::FromUtf16Error) -> (out: String) {
    err.to_string()
}

pub open spec fn has_utf8_bom(b: Seq<u8>) -> bool {
    b.len() >= 3 && b[0] == 0xef && b[1] == 0xbb && b[2] == 0xbf
}

pub open spec fn has_utf16_le_bom(b: Seq<u8>) -> bool {
    b.len() >= 2 && b[0] == 0xff && b[1] == 0xfe
}

pub open spec fn has_utf16_be_bom(b: Seq<u8>) -> bool {
    b.len() >= 2 && b[0] == 0xfe && b[1] == 0xff
}

/// The encoding that the first bytes announce.
pub open spec fn detect_encoding_spec(b: Seq<u8>) -> Encoding {
    if has_utf8_bom(b) {
        Encoding::Utf8WithBom
    } else if has_utf16_le_bom(b) {
        Encoding::Utf16Le
    } else if has_utf16_be_bom(b) {
        Encoding::Utf16Be
    } else {
        Encoding::Utf8
    }
}

/// The code units of bytes taken in pairs, low byte first; an odd last byte is dropped.
pub open spec fn le_units(b: Seq<u8>) -> Seq<u16> {
    Seq::new((b.len() / 2) as nat, |i: int| (b[2 * i] as int + 256 * (b[2 * i + 1] as int)) as u16)
}

/// The code units of bytes taken in pairs, high byte first; an odd last byte is dropped.
pub open spec fn be_units(b: Seq<u8>) -> Seq<u16> {
    Seq::new((b.len() / 2) as nat, |i: int| (256 * (b[2 * i] as int) + b[2 * i + 1] as int) as u16)
}

/// The text of a file's bytes, or `None` where they announce UTF-16 and are not valid UTF-16.
pub open spec fn decode_spec(b: Seq<u8>) -> Option<Seq<char>> {
    match detect_encoding_spec(b) {
        Encoding::Utf8WithBom => Some(lossy_text(b.skip(3))),
        Encoding::Utf16Le => utf16_of(le_units(b.skip(2))),
        Encoding::Utf16Be => utf16_of(be_units(b.skip(2))),
        Encoding::Utf8 => Some(lossy_text(b)),
    }
}

/// Detects the encoding that the first bytes of a file announce.
pub fn detect_encoding(bytes: &[u8]) -> (out: Encoding)
    ensures
        out == detect_encoding_spec(bytes@),
{
    let n = bytes.len();
    if n >= 3 && bytes[0] == 0xef && bytes[1] == 0xbb && bytes[2] == 0xbf {
        Encoding::Utf8WithBom
    } else if n >= 2 && bytes[0] == 0xff && bytes[1] == 0xfe {
        Encoding::Utf16Le
    } else if n >= 2 && bytes[0] == 0xfe && bytes[1] == 0xff {
        Encoding::Utf16Be
    } else {
        Encoding::Utf8
    }
}

/// Copies `bytes[from..]`.
fn bytes_from(bytes: &[u8], from: usize) -> (out: Vec<u8>)
    requires
        from <= bytes.len(),
    ensures
        out@ == bytes@.skip(from as int),
{
    let mut out: Vec<u8> = Vec::new();
    let mut i: usize = from;
    while i < bytes.len()
        invariant
            from <= i <= bytes.len(),
            out@ == bytes@.subrange(from as int, i as int),
        decreases bytes.len() - i,
    {
        out.push(bytes[i]);
        i += 1;
    }
    proof {
        assert(bytes@.subrange(from as int, bytes.len() as int) =~= bytes@.skip(from as int));
    }
    out
}

/// Pairs bytes into 16-bit code units.
fn pair_units(bytes: &Vec<u8>, little_endian: bool) -> (out: Vec<u16>)
    ensures
        out@ == if little_endian {
            le_units(bytes@)
        } else {
            be_units(bytes@)
        },
{
    let count = bytes.len() / 2;
    let mut out: Vec<u16> = Vec::new();
    let mut i: usize = 0;
    while i < count
        invariant
            i <= count,
            count == bytes.len() / 2,
            out.len() == i,
            forall|k: int|
                0 <= k < i ==> out@[k] == if little_endian {
                    le_units(bytes@)[k]
                } else {
                    be_units(bytes@)[k]
                },
        decreases count - i,
    {
        let a = bytes[2 * i] as u16;
        let b = bytes[2 * i + 1] as u16;
        let unit: u16 = if little_endian {
            a + 256 * b
        } else {
            256 * a + b
        };
        out.push(unit);
        i += 1;
    }
    proof {
        if little_endian {
            assert(out@ =~= le_units(bytes@));
        } else {
            assert(out@ =~= be_units(bytes@));
        }
    }
    out
}

pub open spec fn utf16_le_error_prefix() -> Seq<char> {
    "Invalid UTF-16 LE: "@
}

pub open spec fn utf16_be_error_prefix() -> Seq<char> {
    "Invalid UTF-16 BE: "@
}

/// Detects the encoding of a file's bytes from its first bytes and decodes
/// them. UTF-8 is decoded leniently and never fails; UTF-16 fails with an
/// `Io` error on code units that are no valid UTF-16.
pub fn detect_and_decode(bytes: &[u8]) -> (result: Result<(String, Encoding), AppError>)
    ensures
        match result {
            Ok((text, encoding)) => decode_spec(bytes@) == Some(text@) && encoding
                == detect_encoding_spec(bytes@),
            Err(e) => decode_spec(bytes@) is None && e.code == ErrorCode::Io && e.context is None
                && (if detect_encoding_spec(bytes@) == Encoding::Utf16Le {
                utf16_le_error_prefix()
            } else {
                utf16_be_error_prefix()
            }).is_prefix_of(e.message@),
        },
{
    let encoding = detect_encoding(bytes);
    match encoding {
        Encoding::Utf8WithBom => {
            let rest = bytes_from(bytes, 3);
            let text = decode_utf8_lossy(rest.as_slice());
            Ok((text, Encoding::Utf8WithBom))
        },
        Encoding::Utf16Le => {
            let rest = bytes_from(bytes, 2);
            let units = pair_units(&rest, true);
            match decode_utf16(&units) {
                Ok(text) => Ok((text, Encoding::Utf16Le)),
                Err(e) => {
                    let detail = utf16_error_text(&e);
                    let message = concat("Invalid UTF-16 LE: ", detail.as_str());
                    Err(AppError::io(message.as_str()))
                },
            }
        },
        Encoding::Utf16Be => {
            let rest = bytes_from(bytes, 2);
            let units = pair_units(&rest, false);
            match decode_utf16(&units) {
                Ok(text) => Ok((text, Encoding::Utf16Be)),
                Err(e) => {
                    let detail = utf16_error_text(&e);
                    let message = concat("Invalid UTF-16 BE: ", detail.as_str());
                    Err(AppError::io(message.as_str()))
                },
            }
        },
        Encoding::Utf8 => {
            let text = decode_utf8_lossy(bytes);
            Ok((text, Encoding::Utf8))
        },
    }
}

/// Where a scan of a marked snippet stands: the plain text so far, the
/// highlights closed so far, and the start of one that is open.
pub struct MarkerScan {
    pub plain: Seq<char>,
    pub spans: Seq<SearchMatch>,
    pub open: Option<usize>,
}

pub open spec fn opens_at(s: Seq<char>, i: int) -> bool {
    0 <= i && i + 1 < s.len() && s[i] == '<' && s[i + 1] == '<'
}

pub open spec fn closes_at(s: Seq<char>, i: int) -> bool {
    0 <= i && i + 1 < s.len() && s[i] == '>' && s[i + 1] == '>'
}

/// The scan of `s` from index `i` on. `<<` opens a highlight at the end of
/// the plain text, `>>` closes the open one, and every other character is
/// plain text.
pub open spec fn scan_markers(s: Seq<char>, i: int, st: MarkerScan) -> MarkerScan
    decreases s.len() - i,
{
    if i < 0 || i >= s.len() {
        st
    } else if opens_at(s, i) {
        scan_markers(
            s,
            i + 2,
            MarkerScan { plain: st.plain, spans: st.spans, open: Some(st.plain.len() as usize) },
        )
    } else if closes_at(s, i) {
        match st.open {
            Some(start) => scan_markers(
                s,
                i + 2,
                MarkerScan {
                    plain: st.plain,
                    spans: st.spans.push(SearchMatch { start, end: st.plain.len() as usize }),
                    open: None,
                },
            ),
            None => scan_markers(s, i + 2, st),
        }
    } else {
        scan_markers(
            s,
            i + 1,
            MarkerScan { plain: st.plain.push(s[i]), spans: st.spans, open: st.open },
        )
    }
}

/// The whole scan of a marked snippet.
pub open spec fn highlight_spec(s: Seq<char>) -> MarkerScan {
    scan_markers(s, 0, MarkerScan { plain: Seq::empty(), spans: Seq::empty(), open: None })
}

/// Strips the markers `<<` and `>>` from a snippet and returns the plain
/// text with the ranges that they enclosed, counted in characters of the
/// plain text. A `>>` with no `<<` before it is dropped; a `<<` that is
/// never closed opens nothing.
pub fn extract_highlight_matches(snippet: &str) -> (out: (String, Vec<SearchMatch>))
    ensures
        out.0@ == highlight_spec(snippet@).plain,
        out.1@ == highlight_spec(snippet@).spans,
{
    let s = to_chars(snippet);
    let n = s.len();
    let mut plain: Vec<char> = Vec::new();
    let mut spans: Vec<SearchMatch> = Vec::new();
    let mut open: Option<usize> = None;
    let mut i: usize = 0;
    while i < n
        invariant
            i <= n,
            n == s.len(),
            s@ == snippet@,
            plain.len() <= i,
            highlight_spec(s@) == scan_markers(
                s@,
                i as int,
                MarkerScan { plain: plain@, spans: spans@, open },
            ),
        decreases n - i,
    {
        if i + 1 < n && s[i] == '<' && s[i + 1] == '<' {
            open = Some(plain.len());
            i += 2;
        } else if i + 1 < n && s[i] == '>' && s[i + 1] == '>' {
            match open {
                Some(start) => {
                    spans.push(SearchMatch { start, end: plain.len() });
                    open = None;
                },
                None => {},
            }
            i += 2;
        } else {
            plain.push(s[i]);
            i += 1;
        }
    }
    (from_chars(&plain), spans)
}

/// The ASCII capital of a character.
pub open spec fn ascii_upper(c: char) -> char {
    if 'a' <= c <= 'z' {
        ((c as u8) - 32) as char
    } else {
        c
    }
}

/// A token that is one of the query operators `AND`, `OR`, `NOT`, in any ASCII case.
pub open spec fn is_operator(tok: Seq<char>) -> bool {
    let up = tok.map_values(|c: char| ascii_upper(c));
    up == seq!['A', 'N', 'D'] || up == seq!['O', 'R'] || up == seq!['N', 'O', 'T']
}

/// The first index at or after `i` that holds no white space.
pub open spec fn skip_ws(s: Seq<char>, i: int) -> int
    decreases s.len() - i,
{
    if 0 <= i < s.len() && is_ws(s[i]) {
        skip_ws(s, i + 1)
    } else {
        i
    }
}

/// The first index at or after `i` that holds white space.
pub open spec fn skip_word(s: Seq<char>, i: int) -> int
    decreases s.len() - i,
{
    if 0 <= i < s.len() && !is_ws(s[i]) {
        skip_word(s, i + 1)
    } else {
        i
    }
}

/// The first token at or after `i`, tokens being separated by white space,
/// that is no operator.
pub open spec fn first_term_from(s: Seq<char>, i: int) -> Option<Seq<char>>
    decreases s.len() - i,
{
    let a = skip_ws(s, i);
    let b = skip_word(s, a);
    if i < 0 || a < i || a >= s.len() || b <= a || b > s.len() {
        None
    } else if is_operator(s.subrange(a, b)) {
        first_term_from(s, b)
    } else {
        Some(s.subrange(a, b))
    }
}

/// The number of leading double quotes.
pub open spec fn leading_quotes(s: Seq<char>) -> int
    decreases s.len(),
{
    if s.len() > 0 && s[0] == '"' {
        1 + leading_quotes(s.drop_first())
    } else {
        0
    }
}

/// The number of trailing double quotes.
pub open spec fn trailing_quotes(s: Seq<char>) -> int
    decreases s.len(),
{
    if s.len() > 0 && s.last() == '"' {
        1 + trailing_quotes(s.drop_last())
    } else {
        0
    }
}

/// The text without its leading and trailing double quotes.
pub open spec fn trim_quotes(s: Seq<char>) -> Seq<char> {
    let a = leading_quotes(s);
    if a >= s.len() {
        Seq::empty()
    } else {
        s.subrange(a, s.len() - trailing_quotes(s))
    }
}

/// The term that a query is located by: its first token that is no
/// operator, or the whole query where there is none, without the double
/// quotes around it.
pub open spec fn significant_term_spec(query: Seq<char>) -> Seq<char> {
    match first_term_from(query, 0) {
        Some(tok) => trim_quotes(tok),
        None => trim_quotes(query),
    }
}

proof fn lemma_skip_bounds(s: Seq<char>, i: int)
    requires
        0 <= i <= s.len(),
    ensures
        i <= skip_ws(s, i) <= s.len(),
        i <= skip_word(s, i) <= s.len(),
        skip_ws(s, i) < s.len() ==> !is_ws(s[skip_ws(s, i)]),
        skip_word(s, i) < s.len() ==> is_ws(s[skip_word(s, i)]),
        forall|j: int| i <= j < skip_ws(s, i) ==> is_ws(s[j]),
        forall|j: int| i <= j < skip_word(s, i) ==> !is_ws(s[j]),
    decreases s.len() - i,
{
    if i < s.len() {
        lemma_skip_bounds(s, i + 1);
    }
}

fn is_operator_token(s: &Vec<char>, a: usize, b: usize) -> (out: bool)
    requires
        a <= b <= s.len(),
    ensures
        out == is_operator(s@.subrange(a as int, b as int)),
{
    let ghost tok = s@.subrange(a as int, b as int);
    let ghost up = tok.map_values(|c: char| ascii_upper(c));
    let len = b - a;
    proof {
        assert(up.len() == len);
        assert forall|k: int| 0 <= k < len implies up[k] == ascii_upper(s@[a + k]) by {
            assert(tok[k] == s@[a + k]);
        }
    }
    if len == 2 {
        let r = upper_char(s[a]) == 'O' && upper_char(s[a + 1]) == 'R';
        proof {
            if r {
                assert(up =~= seq!['O', 'R']);
            } else {
                assert(up != seq!['O', 'R']) by {
                    if up == seq!['O', 'R'] {
                        assert(up[0] == 'O' && up[1] == 'R');
                    }
                }
            }
            assert(up != seq!['A', 'N', 'D']) by {
                assert(seq!['A', 'N', 'D'].len() == 3);
            }
            assert(up != seq!['N', 'O', 'T']) by {
                assert(seq!['N', 'O', 'T'].len() == 3);
            }
        }
        r
    } else if len == 3 {
        let x = upper_char(s[a]);
        let y = upper_char(s[a + 1]);
        let z = upper_char(s[a + 2]);
        let r1 = x == 'A' && y == 'N' && z == 'D';
        let r2 = x == 'N' && y == 'O' && z == 'T';
        proof {
            if r1 {
                assert(up =~= seq!['A', 'N', 'D']);
            } else {
                assert(up != seq!['A', 'N', 'D']) by {
                    if up == seq!['A', 'N', 'D'] {
                        assert(up[0] == 'A' && up[1] == 'N' && up[2] == 'D');
                    }
                }
            }
            if r2 {
                assert(up =~= seq!['N', 'O', 'T']);
            } else {
                assert(up != seq!['N', 'O', 'T']) by {
                    if up == seq!['N', 'O', 'T'] {
                        assert(up[0] == 'N' && up[1] == 'O' && up[2] == 'T');
                    }
                }
            }
            assert(up != seq!['O', 'R']) by {
                assert(seq!['O', 'R'].len() == 2);
            }
        }
        r1 || r2
    } else {
        proof {
            assert(seq!['A', 'N', 'D'].len() == 3);
            assert(seq!['N', 'O', 'T'].len() == 3);
            assert(seq!['O', 'R'].len() == 2);
        }
        false
    }
}

fn upper_char(c: char) -> (out: char)
    ensures
        out == ascii_upper(c),
{
    if 'a' <= c && c <= 'z' {
        ((c as u8) - 32) as char
    } else {
        c
    }
}

/// Strips leading and trailing double quotes.
fn trim_quote_chars(s: &Vec<char>) -> (out: Vec<char>)
    ensures
        out@ == trim_quotes(s@),
{
    let n = s.len();
    let mut a: usize = 0;
    proof {
        assert(s@.skip(0) =~= s@);
        assert(s@.take(n as int) =~= s@);
    }
    while a < n && s[a] == '"'
        invariant
            a <= n,
            n == s.len(),
            leading_quotes(s@) == a + leading_quotes(s@.skip(a as int)),
        decreases n - a,
    {
        proof {
            let rest = s@.skip(a as int);
            assert(rest[0] == s@[a as int]);
            assert(rest.drop_first() =~= s@.skip(a + 1));
        }
        a += 1;
    }
    proof {
        let rest = s@.skip(a as int);
        if a < n {
            assert(rest[0] == s@[a as int]);
        }
        assert(leading_quotes(rest) == 0);
    }
    if a >= n {
        return Vec::new();
    }
    let mut b: usize = n;
    while b > a && s[b - 1] == '"'
        invariant
            a < b <= n,
            n == s.len(),
            s@[a as int] != '"',
            trailing_quotes(s@) == (n - b) + trailing_quotes(s@.take(b as int)),
        decreases b,
    {
        proof {
            let head = s@.take(b as int);
            assert(head.last() == s@[b - 1]);
            assert(head.drop_last() =~= s@.take(b - 1));
        }
        b -= 1;
    }
    proof {
        let head = s@.take(b as int);
        assert(a < n && s@[a as int] != '"');
        assert(b > a);
        assert(head.last() == s@[b - 1]);
        assert(trailing_quotes(head) == 0);
    }
    slice_chars(s, a, b)
}

/// The term that a query is located by, before it is lowercased.
pub fn significant_term(query: &str) -> (out: String)
    ensures
        out@ == significant_term_spec(query@),
{
    let s = to_chars(query);
    let n = s.len();
    let mut i: usize = 0;
    loop
        invariant
            i <= n,
            n == s.len(),
            s@ == query@,
            first_term_from(s@, 0) == first_term_from(s@, i as int),
        decreases n - i,
    {
        proof {
            lemma_skip_bounds(s@, i as int);
        }
        let mut a: usize = i;
        while a < n && is_whitespace(s[a])
            invariant
                i <= a <= n,
                n == s.len(),
                skip_ws(s@, i as int) == skip_ws(s@, a as int),
            decreases n - a,
        {
            a += 1;
        }
        proof {
            lemma_skip_bounds(s@, a as int);
        }
        if a >= n {
            let t = trim_quote_chars(&s);
            return from_chars(&t);
        }
        let mut b: usize = a;
        while b < n && !is_whitespace(s[b])
            invariant
                a <= b <= n,
                n == s.len(),
                skip_word(s@, a as int) == skip_word(s@, b as int),
            decreases n - b,
        {
            b += 1;
        }
        proof {
            assert(skip_word(s@, a as int) == b);
            assert(b > a);
        }
        if is_operator_token(&s, a, b) {
            i = b;
        } else {
            let tok = slice_chars(&s, a, b);
            let t = trim_quote_chars(&tok);
            return from_chars(&t);
        }
    }
}

/// The number of bytes that a character takes in UTF-8.
pub open spec fn utf8_width(c: char) -> int {
    let u = c as u32;
    if u < 0x80 {
        1
    } else if u < 0x800 {
        2
    } else if u < 0x10000 {
        3
    } else {
        4
    }
}

/// The number of bytes that a text takes in UTF-8.
pub open spec fn utf8_len(s: Seq<char>) -> int
    decreases s.len(),
{
    if s.len() == 0 {
        0
    } else {
        utf8_len(s.drop_last()) + utf8_width(s.last())
    }
}

/// The first index at or after `from` where `needle` stands in `hay`.
pub open spec fn find_spec(hay: Seq<char>, needle: Seq<char>, from: int) -> Option<int>
    decreases hay.len() - from,
{
    if from < 0 || from + needle.len() > hay.len() {
        None
    } else if occurs_at(hay, needle, from) {
        Some(from)
    } else if from >= hay.len() {
        None
    } else {
        find_spec(hay, needle, from + 1)
    }
}

/// The number of leading characters of `s`, at least `k`, that take exactly
/// `bytes` bytes in UTF-8; `None` where `bytes` falls inside a character or
/// beyond the text.
pub open spec fn chars_in_bytes(s: Seq<char>, k: int, bytes: int) -> Option<int>
    decreases s.len() - k,
{
    if k < 0 || k > s.len() {
        None
    } else if utf8_len(s.take(k)) == bytes {
        Some(k)
    } else if k == s.len() || utf8_len(s.take(k)) > bytes {
        None
    } else {
        chars_in_bytes(s, k + 1, bytes)
    }
}

/// The number of line feeds in a text.
pub open spec fn newline_count(s: Seq<char>) -> int
    decreases s.len(),
{
    if s.len() == 0 {
        0
    } else {
        newline_count(s.drop_last()) + if s.last() == '\n' {
            1int
        } else {
            0int
        }
    }
}

/// The number of characters after the last line feed of a text.
pub open spec fn tail_len(s: Seq<char>) -> int
    decreases s.len(),
{
    if s.len() == 0 || s.last() == '\n' {
        0
    } else {
        1 + tail_len(s.drop_last())
    }
}

/// What a character becomes in lowercase: one character or more.
pub open spec fn fold_char(c: char) -> Seq<char> {
    lowercase_of(seq![c])
}

/// A text with each of its characters put in lowercase by itself.
pub open spec fn folded(s: Seq<char>) -> Seq<char>
    decreases s.len(),
{
    if s.len() == 0 {
        Seq::empty()
    } else {
        folded(s.drop_last()) + fold_char(s.last())
    }
}

/// `term` stands in the folded form of `content`, starting where the folding
/// of the character at index `i` starts.
pub open spec fn matches_folded_at(content: Seq<char>, term: Seq<char>, i: int) -> bool {
    0 <= i < content.len() && occurs_at(
        folded(content),
        term,
        folded(content.take(i)).len() as int,
    )
}

/// The first index of `content`, at or after `from`, at which `term` matches
/// without regard to case.
pub open spec fn first_match(content: Seq<char>, term: Seq<char>, from: int) -> Option<int>
    decreases content.len() - from,
{
    if from < 0 || from >= content.len() {
        None
    } else if matches_folded_at(content, term, from) {
        Some(from)
    } else {
        first_match(content, term, from + 1)
    }
}

/// Line and column, both counted from one, of the first character of
/// `content` at which the folded `term` matches without regard to case: one
/// more than the line feeds before it, and one more than the characters
/// between the last of them and it. The answer is (1, 1) where the term is
/// empty or matches nowhere.
pub open spec fn position_spec(content: Seq<char>, term: Seq<char>) -> (usize, usize) {
    if term.len() == 0 {
        (1, 1)
    } else {
        match first_match(content, term, 0) {
            None => (1, 1),
            Some(i) => (
                (1 + newline_count(content.take(i))) as usize,
                (1 + tail_len(content.take(i))) as usize,
            ),
        }
    }
}

/// What `first_match` finds is the least index at which the term matches.
pub proof fn lemma_first_match_is_least(content: Seq<char>, term: Seq<char>, from: int)
    requires
        0 <= from,
    ensures
        match first_match(content, term, from) {
            Some(i) => from <= i && matches_folded_at(content, term, i) && forall|j: int|
                from <= j < i ==> !matches_folded_at(content, term, j),
            None => forall|j: int| from <= j ==> !matches_folded_at(content, term, j),
        },
    decreases content.len() - from,
{
    if from < content.len() && !matches_folded_at(content, term, from) {
        lemma_first_match_is_least(content, term, from + 1);
    }
}

pub proof fn lemma_find_spec(hay: Seq<char>, needle: Seq<char>, from: int, at: int)
    requires
        0 <= from,
        first_occurrence(hay, needle, from, at),
    ensures
        find_spec(hay, needle, from) == Some(at),
    decreases at - from,
{
    if from < at {
        lemma_find_spec(hay, needle, from + 1, at);
    }
}

pub proof fn lemma_find_spec_none(hay: Seq<char>, needle: Seq<char>, from: int)
    requires
        0 <= from,
        forall|j: int| from <= j ==> !occurs_at(hay, needle, j),
    ensures
        find_spec(hay, needle, from) is None,
    decreases hay.len() - from,
{
    if from + needle.len() <= hay.len() && from < hay.len() {
        lemma_find_spec_none(hay, needle, from + 1);
    }
}

proof fn lemma_counts_bounds(s: Seq<char>)
    ensures
        0 <= newline_count(s) <= s.len(),
        0 <= tail_len(s) <= s.len(),
    decreases s.len(),
{
    if s.len() > 0 {
        lemma_counts_bounds(s.drop_last());
    }
}

/// The lowercase form of one character.
fn fold_one(c: char) -> (out: Vec<char>)
    ensures
        out@ == fold_char(c),
{
    let mut s = String::new();
    push_char(&mut s, c);
    proof {
        assert(s@ =~= seq![c]);
    }
    let lower = to_lowercase(s.as_str());
    to_chars(lower.as_str())
}

/// The folded form of a text, and for each of its characters the index in
/// the folded form at which that character's folding starts.
fn fold_with_starts(c: &Vec<char>) -> (out: (Vec<char>, Vec<usize>))
    ensures
        out.0@ == folded(c@),
        out.1.len() == c.len(),
        forall|k: int| 0 <= k < c.len() ==> out.1[k] == folded(c@.take(k)).len(),
{
    let mut all: Vec<char> = Vec::new();
    let mut starts: Vec<usize> = Vec::new();
    let mut i: usize = 0;
    while i < c.len()
        invariant
            i <= c.len(),
            all@ == folded(c@.take(i as int)),
            starts.len() == i,
            forall|k: int| 0 <= k < i ==> starts[k] == folded(c@.take(k)).len(),
        decreases c.len() - i,
    {
        starts.push(all.len());
        let piece = fold_one(c[i]);
        push_all(&mut all, &piece);
        proof {
            let next = c@.take(i + 1);
            assert(next.drop_last() =~= c@.take(i as int));
            assert(next.last() == c@[i as int]);
        }
        i += 1;
    }
    proof {
        assert(c@.take(c.len() as int) =~= c@);
    }
    (all, starts)
}

/// Puts each character of a text in lowercase by itself.
pub fn fold_case(text: &str) -> (out: String)
    ensures
        out@ == folded(text@),
{
    let c = to_chars(text);
    let pair = fold_with_starts(&c);
    from_chars(&pair.0)
}

/// Locates a folded term in a text without regard to case: line and column,
/// both counted from one, of the first character at which it matches, and
/// (1, 1) where the term is empty or matches nowhere.
pub fn position_in(content: &str, term: &str) -> (out: (usize, usize))
    ensures
        out == position_spec(content@, term@),
{
    let c = to_chars(content);
    let t = to_chars(term);
    if t.len() == 0 {
        return (1, 1);
    }
    let pair = fold_with_starts(&c);
    let all = pair.0;
    let starts = pair.1;
    let n = c.len();
    let mut lines: usize = 0;
    let mut tail: usize = 0;
    let mut i: usize = 0;
    while i < n
        invariant
            i <= n,
            n == c.len(),
            c@ == content@,
            t@ == term@,
            t.len() > 0,
            all@ == folded(c@),
            starts.len() == n,
            forall|k: int| 0 <= k < n ==> starts[k] == folded(c@.take(k)).len(),
            lines == newline_count(c@.take(i as int)),
            tail == tail_len(c@.take(i as int)),
            first_match(c@, t@, 0) == first_match(c@, t@, i as int),
        decreases n - i,
    {
        proof {
            lemma_counts_bounds(c@.take(i as int));
        }
        let here = starts[i];
        assert(here == folded(c@.take(i as int)).len());
        if matches_at(&all, &t, here) {
            assert(matches_folded_at(c@, t@, i as int));
            return (lines + 1, tail + 1);
        }
        assert(!matches_folded_at(c@, t@, i as int));
        proof {
            let next = c@.take(i + 1);
            assert(next.drop_last() =~= c@.take(i as int));
            assert(next.last() == c@[i as int]);
        }
        if c[i] == '\n' {
            lines += 1;
            tail = 0;
        } else {
            tail += 1;
        }
        i += 1;
    }
    (1, 1)
}

/// Line and column in a text of the first place at which a query's first
/// significant token matches without regard to case.
pub open spec fn locate_spec(content: Seq<char>, query: Seq<char>) -> (usize, usize) {
    position_spec(content, folded(significant_term_spec(query)))
}

/// Finds where a query's first significant token first occurs in a text,
/// without regard to case. Returns line and column, both counted from one,
/// and (1, 1) where there is nothing to find.
pub fn locate_query_position(content: &str, query: &str) -> (out: (usize, usize))
    ensures
        out == locate_spec(content@, query@),
{
    let term = significant_term(query);
    let term_folded = fold_case(term.as_str());
    position_in(content, term_folded.as_str())
}

} // verus!
