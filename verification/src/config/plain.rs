//! Which texts the KDL parser can be handed without overflowing the stack.
//!
//! The parser recurses in four places: into each `{`; into a `/-` that stands
//! directly behind a `/-`; over each `*` and `/` of a block comment; and once
//! more over the whole document for each character it could make nothing of.
//! A fault makes this worse: the parser resumes somewhere behind it and may
//! then take what was written as a string for nodes and blocks.
//!
//! So a text is followed as far as it is plain, which is as far as the parser
//! takes it without a fault: nodes, their names and entries, types, strings of
//! every kind, numbers, keywords, comments, blocks and what a `/-` takes out.
//! What comes after the first character that is not plain is only weighed,
//! each character by the most the parser could recurse on it, and handed over
//! no further than there is room for. A text that is plain to its end weighs
//! nothing, and a block comment of it is handed over without the `*` and `/`
//! inside: it is white space to the parser either way.
//!
//! Behind a fault the parser goes over the document once more for each place
//! where it has to stop. It stops at no white space and at no word that
//! begins with a letter, and at most once inside any other word, since it
//! takes the rest of that for the name of a node.

use vstd::prelude::*;
use vstd::utf8::char_is_scalar;

use crate::config::bounds::{MAX_BYTES, MAX_NESTING};
use crate::dbus_wire::signature::char_at;
use crate::text::{chars_of, same_chars, text_of, utf8};

verus! {

/// What may be used of the stack, in units of a kibibyte. A spawned thread
/// has 2048 of them.
pub const BUDGET: u64 = 1900;

/// What one level of `{` uses in an unoptimised build.
pub const NEST_COST: u64 = 35;

/// What one `/-` counts for. The parser reads what follows one more than once
/// over, so that only a few may stand inside one another.
pub const DASH_COST: u64 = 190;

/// What one `*` or `/` of a block comment uses, with the text before it.
pub const MARK_COST: u64 = 9;

/// What going over the document once more uses.
pub const STRAY_COST: u64 = 5;

/// How many blocks that a `/-` takes out may stand inside one another. The
/// parser goes over each of them more than once.
pub const MAX_CUTS: usize = 4;

/// Longest decimal number that is plain: one of any more digits may be past
/// what the parser can hold.
pub const MAX_DECIMAL: usize = 38;

/// Longest hexadecimal number that is plain.
pub const MAX_HEX: usize = 31;

/// Longest octal number that is plain.
pub const MAX_OCTAL: usize = 42;

/// Longest binary number that is plain.
pub const MAX_BINARY: usize = 126;

/// Whether a character is white space inside a line.
#[verifier::allow_in_spec]
pub fn space(c: char) -> (r: bool)
    returns
        c == '\t' || c == ' ' || c == '\u{a0}' || c == '\u{1680}' || '\u{2000}' <= c && c
            <= '\u{200a}' || c == '\u{202f}' || c == '\u{205f}' || c == '\u{3000}',
{
    c == '\t' || c == ' ' || c == '\u{a0}' || c == '\u{1680}' || '\u{2000}' <= c && c
        <= '\u{200a}' || c == '\u{202f}' || c == '\u{205f}' || c == '\u{3000}'
}

/// Whether a character ends a line.
#[verifier::allow_in_spec]
pub fn line_end(c: char) -> (r: bool)
    returns
        '\n' <= c && c <= '\r' || c == '\u{85}' || c == '\u{2028}' || c == '\u{2029}',
{
    '\n' <= c && c <= '\r' || c == '\u{85}' || c == '\u{2028}' || c == '\u{2029}'
}

/// Whether a character may stand in a comment only: a control character, a
/// mark of writing direction or a byte-order mark.
#[verifier::allow_in_spec]
pub fn barred(c: char) -> (r: bool)
    returns
        c <= '\u{8}' || '\u{e}' <= c && c <= '\u{1f}' || c == '\u{200e}' || c == '\u{200f}'
            || '\u{202a}' <= c && c <= '\u{202e}' || '\u{2066}' <= c && c <= '\u{2069}' || c
            == '\u{feff}',
{
    c <= '\u{8}' || '\u{e}' <= c && c <= '\u{1f}' || c == '\u{200e}' || c == '\u{200f}'
        || '\u{202a}' <= c && c <= '\u{202e}' || '\u{2066}' <= c && c <= '\u{2069}' || c
        == '\u{feff}'
}

/// Whether a character is a decimal digit.
#[verifier::allow_in_spec]
pub fn decimal_char(c: char) -> (r: bool)
    returns
        '0' <= c && c <= '9',
{
    '0' <= c && c <= '9'
}

/// Whether a character is a hexadecimal digit.
#[verifier::allow_in_spec]
pub fn hex_char(c: char) -> (r: bool)
    returns
        '0' <= c && c <= '9' || 'a' <= c && c <= 'f' || 'A' <= c && c <= 'F',
{
    '0' <= c && c <= '9' || 'a' <= c && c <= 'f' || 'A' <= c && c <= 'F'
}

/// Whether a character may stand in a word.
#[verifier::allow_in_spec]
pub fn word_char(c: char) -> (r: bool)
    returns
        !space(c) && !line_end(c) && !barred(c) && c != '\\' && c != '/' && c != '(' && c != ')'
            && c != '{' && c != '}' && c != '[' && c != ']' && c != ';' && c != '"' && c != '#'
            && c != '=',
{
    !space(c) && !line_end(c) && !barred(c) && c != '\\' && c != '/' && c != '(' && c != ')' && c
        != '{' && c != '}' && c != '[' && c != ']' && c != ';' && c != '"' && c != '#' && c != '='
}

/// Whether a word that begins with a character is no number whatever follows.
#[verifier::allow_in_spec]
pub fn word_start(c: char) -> (r: bool)
    returns
        word_char(c) && !decimal_char(c) && c != '+' && c != '-' && c != '.',
{
    word_char(c) && !decimal_char(c) && c != '+' && c != '-' && c != '.'
}

/// Whether `\` and a character are an escape of one character.
#[verifier::allow_in_spec]
pub fn escape_char(c: char) -> (r: bool)
    returns
        c == '"' || c == '\\' || c == 'b' || c == 'f' || c == 'n' || c == 'r' || c == 's' || c
            == 't',
{
    c == '"' || c == '\\' || c == 'b' || c == 'f' || c == 'n' || c == 'r' || c == 's' || c == 't'
}

/// What a run of characters is made of.
#[derive(Debug, Clone, Copy, PartialEq, Eq, Structural)]
pub enum Run {
    /// White space inside a line.
    Space,
    /// White space and the ends of lines.
    Blank,
    /// What may stand in a word.
    Word,
    /// Anything up to the end of the line.
    Line,
    /// `#`.
    Hash,
    /// Digits of a decimal number.
    Decimal,
    /// Digits of a hexadecimal number.
    Hex,
    /// Digits of an octal number.
    Octal,
    /// Digits of a binary number.
    Binary,
    /// Hexadecimal digits alone, without a `_` among them.
    Code,
}

/// Whether a character belongs to a run.
#[verifier::allow_in_spec]
pub fn of_run(c: char, run: Run) -> (r: bool)
    returns
        match run {
            Run::Space => space(c),
            Run::Blank => space(c) || line_end(c),
            Run::Word => word_char(c),
            Run::Line => !line_end(c),
            Run::Hash => c == '#',
            Run::Decimal => decimal_char(c) || c == '_',
            Run::Hex => hex_char(c) || c == '_',
            Run::Octal => '0' <= c && c <= '7' || c == '_',
            Run::Binary => c == '0' || c == '1' || c == '_',
            Run::Code => hex_char(c),
        },
{
    match run {
        Run::Space => space(c),
        Run::Blank => space(c) || line_end(c),
        Run::Word => word_char(c),
        Run::Line => !line_end(c),
        Run::Hash => c == '#',
        Run::Decimal => decimal_char(c) || c == '_',
        Run::Hex => hex_char(c) || c == '_',
        Run::Octal => '0' <= c && c <= '7' || c == '_',
        Run::Binary => c == '0' || c == '1' || c == '_',
        Run::Code => hex_char(c),
    }
}

/// Where a run that `i` is inside of ends.
pub open spec fn run_stop(s: Seq<char>, i: int, run: Run) -> int
    decreases s.len() - i,
{
    if 0 <= i < s.len() && of_run(s[i], run) {
        run_stop(s, i + 1, run)
    } else {
        i
    }
}

/// How many characters the end of a line is: two where it is a carriage return
/// and a line feed.
pub open spec fn end_len(s: Seq<char>, i: int) -> int {
    if char_at(s, i, '\r') && char_at(s, i + 1, '\n') {
        2
    } else {
        1
    }
}

/// Whether three `"` stand at `i`.
pub open spec fn triple(s: Seq<char>, i: int) -> bool {
    char_at(s, i, '"') && char_at(s, i + 1, '"') && char_at(s, i + 2, '"')
}

/// Whether hexadecimal digits from `i` to `end` are the number of a character.
pub open spec fn scalar_digits(s: Seq<char>, i: int, end: int) -> bool {
    let n = end - i;
    ||| 1 <= n <= 3
    ||| n == 4 && s[i] != 'd' && s[i] != 'D'
    ||| n == 5 && s[i] != '0'
    ||| n == 6 && (s[i] == '1' && s[i + 1] == '0' || s[i] == '0' && s[i + 1] != '0')
}

/// Where the escape of one character that begins with the `\` at `i` ends.
pub open spec fn escape_stop(s: Seq<char>, i: int) -> Option<int> {
    if i + 1 >= s.len() {
        None
    } else if escape_char(s[i + 1]) {
        Some(i + 2)
    } else if s[i + 1] == 'u' && char_at(s, i + 2, '{') {
        let end = run_stop(s, i + 3, Run::Code);
        if char_at(s, end, '}') && scalar_digits(s, i + 3, end) {
            Some(end + 1)
        } else {
            None
        }
    } else {
        None
    }
}

/// Where the quoted string that `i` is inside of is closed. A `\` and white
/// space, the ends of lines among it, stand for nothing.
pub open spec fn quoted_close(s: Seq<char>, i: int) -> Option<int>
    decreases s.len() - i,
{
    if i < 0 || i >= s.len() {
        None
    } else if s[i] == '"' {
        Some(i + 1)
    } else if s[i] == '\\' {
        let end = match escape_stop(s, i) {
            Some(end) => end,
            None => run_stop(s, i + 1, Run::Blank),
        };
        if i + 1 < end <= s.len() {
            quoted_close(s, end)
        } else {
            None
        }
    } else if line_end(s[i]) || barred(s[i]) {
        None
    } else {
        quoted_close(s, i + 1)
    }
}

/// Where the raw string that `i` is inside of is closed: at its first `"` that
/// as many `#` follow as opened it.
pub open spec fn raw_close(s: Seq<char>, i: int, hashes: nat) -> Option<int>
    decreases s.len() - i,
{
    if i < 0 || i >= s.len() || line_end(s[i]) || barred(s[i]) {
        None
    } else if s[i] == '"' && run_stop(s, i + 1, Run::Hash) >= i + 1 + hashes {
        Some(i + 1 + hashes)
    } else {
        raw_close(s, i + 1, hashes)
    }
}

/// Whether the quotes that close a string of several lines stand at `i`.
pub open spec fn closes_lines(s: Seq<char>, i: int, hashes: nat) -> bool {
    triple(s, i) && run_stop(s, i + 3, Run::Hash) >= i + 3 + hashes
}

/// Where the line of a string of several lines that `i` is inside of ends. A
/// raw one has no escapes; in any other a `\` and white space, the ends of
/// lines among it, stand for nothing.
pub open spec fn string_line(s: Seq<char>, i: int, hashes: nat) -> Option<int>
    decreases s.len() - i,
{
    if i < 0 || i >= s.len() || barred(s[i]) || closes_lines(s, i, hashes) {
        None
    } else if line_end(s[i]) {
        Some(i)
    } else if s[i] == '\\' && hashes == 0 {
        let end = match escape_stop(s, i) {
            Some(end) => end,
            None => run_stop(s, i + 1, Run::Blank),
        };
        if i + 1 < end <= s.len() {
            string_line(s, end, hashes)
        } else {
            None
        }
    } else {
        string_line(s, i + 1, hashes)
    }
}

/// Where the last line of a string of several lines begins, and where its
/// quotes do, from the line that begins at `i` on: the first line on which
/// white space alone stands before them.
pub open spec fn last_line(s: Seq<char>, i: int, hashes: nat) -> Option<(int, int)>
    decreases s.len() - i,
{
    let quotes = run_stop(s, i, Run::Space);
    if i < 0 || i >= s.len() {
        None
    } else if closes_lines(s, quotes, hashes) {
        Some((i, quotes))
    } else {
        match string_line(s, i, hashes) {
            Some(end) => if i <= end < s.len() {
                last_line(s, end + end_len(s, end), hashes)
            } else {
                None
            },
            None => None,
        }
    }
}

/// Whether every line from `i` up to the last begins with the white space the
/// last one has, or is white space.
pub open spec fn lines_fit(
    s: Seq<char>,
    i: int,
    last: int,
    prefix: Seq<char>,
    hashes: nat,
) -> bool
    decreases s.len() - i,
{
    if i < 0 || i >= last || last > s.len() {
        true
    } else {
        match string_line(s, i, hashes) {
            Some(end) => {
                &&& run_stop(s, i, Run::Space) == end || i + prefix.len() <= s.len() && s.subrange(
                    i,
                    i + prefix.len(),
                ) == prefix
                &&& !(i <= end < s.len()) || lines_fit(
                    s,
                    end + end_len(s, end),
                    last,
                    prefix,
                    hashes,
                )
            },
            None => false,
        }
    }
}

/// Where the string of several lines is closed that was opened just before
/// `i`.
pub open spec fn lines_close(s: Seq<char>, i: int, hashes: nat) -> Option<int> {
    if i < s.len() && line_end(s[i]) {
        let first = i + end_len(s, i);
        match last_line(s, first, hashes) {
            Some((last, quotes)) => if first <= last <= quotes && quotes + 3 + hashes <= s.len()
                && lines_fit(s, first, last, s.subrange(last, quotes), hashes) {
                Some(quotes + 3 + hashes)
            } else {
                None
            },
            None => None,
        }
    } else {
        None
    }
}

/// Where the string that begins at `i` is closed.
pub open spec fn string_close(s: Seq<char>, i: int) -> Option<int> {
    let open = run_stop(s, i, Run::Hash);
    let hashes = (open - i) as nat;
    if open < i || !char_at(s, open, '"') {
        None
    } else if triple(s, open) && (hashes == 0 || open + 3 < s.len() && line_end(s[open + 3])) {
        lines_close(s, open + 3, hashes)
    } else if hashes == 0 {
        quoted_close(s, open + 1)
    } else {
        match raw_close(s, open + 1, hashes) {
            // One quote between quotes looks like the longer ones.
            Some(end) => if triple(s, open) && end == open + 3 + hashes {
                None
            } else {
                Some(end)
            },
            None => None,
        }
    }
}

/// Where the block comment that is `open` deep at `i` is closed.
pub open spec fn comment_close(s: Seq<char>, i: int, open: nat) -> Option<int>
    decreases s.len() - i,
{
    if i < 0 || i + 1 >= s.len() {
        None
    } else if s[i] == '/' && s[i + 1] == '*' {
        comment_close(s, i + 2, open + 1)
    } else if s[i] == '*' && s[i + 1] == '/' {
        if open <= 1 {
            Some(i + 2)
        } else {
            comment_close(s, i + 2, (open - 1) as nat)
        }
    } else {
        comment_close(s, i + 1, open)
    }
}

/// Where the line begins that the `\` at `i` joins to its own. A comment may
/// stand behind it.
pub open spec fn joined_line(s: Seq<char>, i: int) -> Option<int> {
    let end = run_stop(s, i + 1, Run::Space);
    let stop = if char_at(s, end, '/') && char_at(s, end + 1, '/') {
        run_stop(s, end, Run::Line)
    } else {
        end
    };
    if stop >= s.len() {
        Some(stop)
    } else if line_end(s[stop]) {
        Some(stop + end_len(s, stop))
    } else {
        None
    }
}

/// Where what stands between parts of a node and begins at `i` ends: white
/// space, a block comment or a line that is joined; where lines may end too,
/// that or a comment of one line.
pub open spec fn filler_at(s: Seq<char>, i: int, lines: bool) -> Option<int> {
    if space(s[i]) {
        Some(i + 1)
    } else if s[i] == '\\' {
        joined_line(s, i)
    } else if s[i] == '/' && char_at(s, i + 1, '*') {
        comment_close(s, i + 2, 1)
    } else if lines && line_end(s[i]) {
        Some(i + 1)
    } else if lines && s[i] == '/' && char_at(s, i + 1, '/') {
        Some(run_stop(s, i, Run::Line))
    } else {
        None
    }
}

/// Whether a word, a string or a number may end at `i`.
pub open spec fn ender(s: Seq<char>, i: int) -> bool {
    i >= s.len() || line_end(s[i]) || s[i] == ';' || s[i] == '{' || s[i] == '}' || s[i] == '='
        || s[i] == '/' && char_at(s, i + 1, '/') || filler_at(s, i, false) is Some
}

/// Whether a word is one that is written with a `#` before it.
pub open spec fn reserved(word: Seq<char>) -> bool {
    word == "true"@ || word == "false"@ || word == "null"@ || word == "inf"@ || word == "nan"@
}

/// Where the word that begins at `i` ends: one that no number begins with.
pub open spec fn word_at(s: Seq<char>, i: int) -> Option<int> {
    let end = run_stop(s, i, Run::Word);
    let dot = if s[i] == '+' || s[i] == '-' {
        i + 1
    } else {
        i
    };
    let digit = if char_at(s, dot, '.') {
        dot + 1
    } else {
        dot
    };
    if word_start(s[i]) {
        if reserved(s.subrange(i, end)) {
            None
        } else {
            Some(end)
        }
    } else if i < digit && (digit >= s.len() || !decimal_char(s[digit])) {
        Some(end)
    } else {
        None
    }
}

/// Where the word or string that begins at `i` ends.
pub open spec fn text_at(s: Seq<char>, i: int) -> Option<int> {
    if s[i] == '"' || s[i] == '#' {
        string_close(s, i)
    } else {
        word_at(s, i)
    }
}

/// Where digits that begin at `i` end: a digit, and then digits and `_`, no
/// more than some number of them.
pub open spec fn digits_at(s: Seq<char>, i: int, run: Run, most: nat) -> Option<int> {
    let end = run_stop(s, i, run);
    if i < end <= i + most && s[i] != '_' {
        Some(end)
    } else {
        None
    }
}

/// Where the part of a number behind a character ends that is there or not:
/// the fraction behind a `.`, or the exponent behind an `e` and its sign.
pub open spec fn fraction_at(s: Seq<char>, i: int) -> Option<int> {
    if char_at(s, i, '.') {
        digits_at(s, i + 1, Run::Decimal, MAX_DECIMAL as nat)
    } else {
        Some(i)
    }
}

/// Where the exponent of a number ends, if it has one.
pub open spec fn exponent_at(s: Seq<char>, i: int) -> Option<int> {
    if char_at(s, i, 'e') || char_at(s, i, 'E') {
        let from = if char_at(s, i + 1, '+') || char_at(s, i + 1, '-') {
            i + 2
        } else {
            i + 1
        };
        digits_at(s, from, Run::Decimal, MAX_DECIMAL as nat)
    } else {
        Some(i)
    }
}

/// Where the number that begins at `i` ends.
pub open spec fn number_end(s: Seq<char>, i: int) -> Option<int> {
    let from = if s[i] == '+' || s[i] == '-' {
        i + 1
    } else {
        i
    };
    let radix = char_at(s, from, '0');
    if radix && (char_at(s, from + 1, 'x') || char_at(s, from + 1, 'X')) {
        digits_at(s, from + 2, Run::Hex, MAX_HEX as nat)
    } else if radix && (char_at(s, from + 1, 'o') || char_at(s, from + 1, 'O')) {
        digits_at(s, from + 2, Run::Octal, MAX_OCTAL as nat)
    } else if radix && (char_at(s, from + 1, 'b') || char_at(s, from + 1, 'B')) {
        digits_at(s, from + 2, Run::Binary, MAX_BINARY as nat)
    } else {
        match digits_at(s, from, Run::Decimal, MAX_DECIMAL as nat) {
            Some(whole) => match fraction_at(s, whole) {
                Some(end) => exponent_at(s, end),
                None => None,
            },
            None => None,
        }
    }
}

/// Whether a word is a keyword.
pub open spec fn keyword(word: Seq<char>) -> bool {
    word == "#true"@ || word == "#false"@ || word == "#null"@ || word == "#nan"@ || word == "#inf"@
        || word == "#-inf"@
}

/// Where the number or keyword that begins at `i` ends.
pub open spec fn literal_at(s: Seq<char>, i: int) -> Option<int> {
    if s[i] == '#' {
        let end = run_stop(s, i + 1, Run::Word);
        if keyword(s.subrange(i, end)) {
            Some(end)
        } else {
            None
        }
    } else {
        number_end(s, i)
    }
}

/// Where the type that begins with the `(` at `i` is closed.
pub open spec fn type_close(s: Seq<char>, i: int) -> Option<int> {
    let from = run_stop(s, i + 1, Run::Space);
    if from >= s.len() {
        None
    } else {
        match text_at(s, from) {
            Some(end) => {
                let close = run_stop(s, end, Run::Space);
                if char_at(s, close, ')') {
                    Some(close + 1)
                } else {
                    None
                }
            },
            None => None,
        }
    }
}

/// What a block belongs to.
#[derive(Debug, Clone, Copy, PartialEq, Eq, Structural)]
pub enum Open {
    /// The block of a node.
    Own,
    /// A block that a `/-` takes out, before the node's own.
    Before,
    /// One behind it.
    After,
}

/// A block that is open, and whether its node was taken out by a `/-`.
#[derive(Debug, Clone, Copy, PartialEq, Eq, Structural)]
pub struct Level {
    pub open: Open,
    pub dashed: bool,
}

/// How many of the first `n` blocks a `/-` takes out.
pub open spec fn cuts(levels: Seq<Level>, n: int) -> nat
    decreases n,
{
    if n <= 0 {
        0
    } else {
        cuts(levels, n - 1) + (if levels[n - 1].dashed || levels[n - 1].open != Open::Own {
            1nat
        } else {
            0nat
        })
    }
}

/// Where in a node a text has come to.
#[derive(Debug, Clone, Copy, PartialEq, Eq, Structural)]
pub enum Place {
    /// Where a node may begin.
    Node,
    /// Past a `/-`: before the node that it takes out.
    Dash,
    /// Past the type of a node: before its name.
    NodeType,
    /// At the end of a node's name.
    Name,
    /// At the end of an entry that may be the name of a property.
    Key,
    /// At the end of an entry that may not.
    Value,
    /// Past white space behind an entry that may be the name of a property.
    KeyGap,
    /// Past white space behind any other, or behind the name.
    Gap,
    /// Past a `/-`: before the entry or the block that it takes out.
    Cut,
    /// Past the type of a value.
    Type,
    /// Past the `=` of a property.
    Equals,
    /// Past a block that was taken out before the node's own.
    CutBlock,
    /// Past the `}` of a node's own block.
    Block,
    /// Past a `/-` behind the node's own block.
    BlockCut,
    /// Past a block that was taken out behind the node's own.
    End,
}

/// What is known of a plain text at some character.
pub struct ScanView {
    pub place: Place,
    /// Whether the node was taken out by a `/-`.
    pub dashed: bool,
    /// The blocks that are open.
    pub levels: Seq<Level>,
}

/// Before the first node of a text.
pub open spec fn text_start() -> ScanView {
    ScanView { place: Place::Node, dashed: false, levels: Seq::empty() }
}

/// A text at another place.
pub open spec fn at_place(scan: ScanView, place: Place) -> ScanView {
    ScanView { place, ..scan }
}

/// Past a node.
pub open spec fn node_over(scan: ScanView) -> ScanView {
    ScanView { place: Place::Node, dashed: false, ..scan }
}

/// Inside a block.
pub open spec fn block_opened(scan: ScanView, open: Open) -> Option<ScanView> {
    let levels = scan.levels.push(Level { open, dashed: scan.dashed });
    if levels.len() > MAX_NESTING || cuts(levels, levels.len() as int) > MAX_CUTS {
        None
    } else {
        Some(ScanView { place: Place::Node, dashed: false, levels })
    }
}

/// Past a block.
pub open spec fn block_closed(scan: ScanView) -> Option<ScanView> {
    if scan.levels.len() == 0 {
        None
    } else {
        let level = scan.levels.last();
        Some(
            ScanView {
                place: match level.open {
                    Open::Own => Place::Block,
                    Open::Before => Place::CutBlock,
                    Open::After => Place::End,
                },
                dashed: level.dashed,
                levels: scan.levels.drop_last(),
            },
        )
    }
}

/// A step of the scan: where it ends, and what is known there.
pub type Step = Option<(int, ScanView)>;

/// A step to an end that may not be.
pub open spec fn step_past(end: Option<int>, next: ScanView) -> Step {
    match end {
        Some(end) => Some((end, next)),
        None => None,
    }
}

/// A step over one character to what may not be.
pub open spec fn step_into(end: int, next: Option<ScanView>) -> Step {
    match next {
        Some(next) => Some((end, next)),
        None => None,
    }
}

/// The end of a word, a string or a number, where one may end.
pub open spec fn ended(s: Seq<char>, end: Option<int>) -> Option<int> {
    match end {
        Some(end) if ender(s, end) => Some(end),
        _ => None,
    }
}

/// An entry at `i`, which may be the name of a property where `key` is where
/// it leads.
pub open spec fn entry_step(s: Seq<char>, i: int, scan: ScanView, key: Place) -> Step {
    if s[i] == '(' {
        step_past(type_close(s, i), at_place(scan, Place::Type))
    } else {
        value_step(s, i, scan, key)
    }
}

/// A word, a string, a number or a keyword at `i`.
pub open spec fn value_step(s: Seq<char>, i: int, scan: ScanView, key: Place) -> Step {
    match ended(s, text_at(s, i)) {
        Some(end) => Some((end, at_place(scan, key))),
        None => step_past(ended(s, literal_at(s, i)), at_place(scan, Place::Value)),
    }
}

/// The name of a node at `i`, or its type.
pub open spec fn name_step(s: Seq<char>, i: int, scan: ScanView, typed: bool) -> Step {
    if s[i] == '(' && !typed {
        step_past(type_close(s, i), at_place(scan, Place::NodeType))
    } else {
        step_past(ended(s, text_at(s, i)), at_place(scan, Place::Name))
    }
}

/// Whether the place is one of those behind a name or an entry.
pub open spec fn behind(place: Place) -> bool {
    place == Place::Name || place == Place::Key || place == Place::Value || place == Place::KeyGap
        || place == Place::Gap
}

/// The place behind white space.
pub open spec fn spaced(place: Place) -> Place {
    match place {
        Place::Name | Place::Value | Place::Gap => Place::Gap,
        Place::Key | Place::KeyGap => Place::KeyGap,
        other => other,
    }
}

/// What comes behind the name, an entry or a block of a node, other than
/// white space. A node that was taken out ends with its line.
pub open spec fn rest_step(s: Seq<char>, i: int, scan: ScanView) -> Step {
    let place = scan.place;
    let gap = place == Place::Gap || place == Place::KeyGap;
    let c = s[i];
    if line_end(c) {
        Some((i + 1, node_over(scan)))
    } else if c == ';' {
        if scan.dashed {
            None
        } else {
            Some((i + 1, node_over(scan)))
        }
    } else if c == '/' && char_at(s, i + 1, '/') {
        Some((run_stop(s, i, Run::Line), node_over(scan)))
    } else if c == '/' && char_at(s, i + 1, '-') {
        if gap {
            Some((i + 2, at_place(scan, Place::Cut)))
        } else if place == Place::Block {
            Some((i + 2, at_place(scan, Place::BlockCut)))
        } else {
            None
        }
    } else if c == '{' {
        if behind(place) || place == Place::CutBlock {
            step_into(i + 1, block_opened(scan, Open::Own))
        } else {
            None
        }
    } else if c == '}' {
        step_into(i + 1, block_closed(scan))
    } else if c == '=' {
        if place == Place::Key || place == Place::KeyGap {
            Some((i + 1, at_place(scan, Place::Equals)))
        } else {
            None
        }
    } else if gap {
        entry_step(s, i, scan, Place::Key)
    } else {
        None
    }
}

/// What comes next in a plain text, and where it ends; none where the text is
/// not plain.
pub open spec fn plain_step(s: Seq<char>, i: int, scan: ScanView) -> Step {
    let place = scan.place;
    let lines = place == Place::Node || place == Place::Dash || place == Place::Cut || place
        == Place::BlockCut;
    match filler_at(s, i, lines) {
        Some(end) => Some((end, at_place(scan, spaced(place)))),
        None => match place {
            Place::Node => if s[i] == '/' && char_at(s, i + 1, '-') {
                Some((i + 2, ScanView { place: Place::Dash, dashed: true, ..scan }))
            } else if s[i] == '}' {
                step_into(i + 1, block_closed(scan))
            } else {
                name_step(s, i, scan, false)
            },
            Place::Dash => name_step(s, i, scan, false),
            Place::NodeType => name_step(s, i, scan, true),
            Place::Cut => if s[i] == '{' {
                step_into(i + 1, block_opened(scan, Open::Before))
            } else {
                entry_step(s, i, scan, Place::Key)
            },
            Place::BlockCut => if s[i] == '{' {
                step_into(i + 1, block_opened(scan, Open::After))
            } else {
                None
            },
            Place::Type => value_step(s, i, scan, Place::Value),
            Place::Equals => entry_step(s, i, scan, Place::Value),
            _ => rest_step(s, i, scan),
        },
    }
}

/// Where the nodes of a text begin: behind its byte-order mark, if it has one.
pub open spec fn nodes_from(s: Seq<char>) -> int {
    if char_at(s, 0, '\u{feff}') {
        1
    } else {
        0
    }
}

/// The first character from `i` on that is not plain, and how many blocks are
/// open there.
pub open spec fn first_odd(s: Seq<char>, i: int, scan: ScanView) -> Option<(int, nat)>
    decreases s.len() - i,
{
    if i < 0 || i >= s.len() {
        None
    } else {
        match plain_step(s, i, scan) {
            Some((end, next)) => if i < end <= s.len() {
                first_odd(s, end, next)
            } else {
                Some((i, scan.levels.len()))
            },
            None => Some((i, scan.levels.len())),
        }
    }
}

/// A text with the `*` and `/` from `i` to `end` left blank.
pub open spec fn muted(s: Seq<char>, i: int, end: int) -> Seq<char> {
    Seq::new(
        s.len(),
        |k: int|
            if i <= k < end && (s[k] == '*' || s[k] == '/') {
                ' '
            } else {
                s[k]
            },
    )
}

/// A text with what is inside its block comments muted, as far as it is plain
/// from `i` on; `out` is the text with those before `i` muted.
pub open spec fn hushed_from(s: Seq<char>, i: int, scan: ScanView, out: Seq<char>) -> Seq<char>
    decreases s.len() - i,
{
    if i < 0 || i >= s.len() {
        out
    } else {
        match plain_step(s, i, scan) {
            Some((end, next)) => if i < end <= s.len() {
                hushed_from(
                    s,
                    end,
                    next,
                    if s[i] == '/' && char_at(s, i + 1, '*') {
                        muted(out, i + 2, end - 2)
                    } else {
                        out
                    },
                )
            } else {
                out
            },
            None => out,
        }
    }
}

/// What is counted of a text that is not plain.
#[derive(Debug, Clone, Copy, PartialEq, Eq, Structural)]
pub enum Count {
    /// `{`.
    Opens,
    /// `/-`.
    Dashes,
    /// `*` and `/`.
    Marks,
    /// Where the parser may stop and go over the document once more: at any
    /// character but white space, what a word may begin with, and what stands
    /// inside one.
    Strays,
    /// Ends of lines, by which lines are numbered.
    Lines,
}

/// Whether the character at `i` is one that is counted.
pub open spec fn counted(s: Seq<char>, i: int, what: Count) -> bool {
    match what {
        Count::Opens => s[i] == '{',
        Count::Dashes => s[i] == '/' && char_at(s, i + 1, '-'),
        Count::Marks => s[i] == '*' || s[i] == '/',
        Count::Strays => !(space(s[i]) || line_end(s[i]) || word_start(s[i]) || word_char(s[i]) && i
            > 0 && word_char(s[i - 1])),
        Count::Lines => s[i] == '\n',
    }
}

/// How many characters are counted from `i` up to `end`.
pub open spec fn count(s: Seq<char>, i: int, end: int, what: Count) -> nat
    decreases end - i,
{
    if i < 0 || i >= end || end > s.len() {
        0
    } else {
        count(s, i + 1, end, what) + (if counted(s, i, what) {
            1nat
        } else {
            0nat
        })
    }
}

/// Where the first `/*` from `i` on is, or the end of the text.
pub open spec fn comment_from(s: Seq<char>, i: int) -> int
    decreases s.len() - i,
{
    if i < 0 || i >= s.len() {
        s.len() as int
    } else if s[i] == '/' && char_at(s, i + 1, '*') {
        i
    } else {
        comment_from(s, i + 1)
    }
}

/// What the parser may use of the stack from `i` on, inside `depth` blocks,
/// whatever it makes of the text there.
pub open spec fn weight(s: Seq<char>, i: int, depth: nat) -> nat {
    let end = s.len() as int;
    (NEST_COST * (depth + count(s, i, end, Count::Opens)) + DASH_COST * count(
        s,
        i,
        end,
        Count::Dashes,
    ) + MARK_COST * count(s, comment_from(s, i), end, Count::Marks) + STRAY_COST * count(
        s,
        i,
        end,
        Count::Strays,
    )) as nat
}

/// How much of a text that is not plain from `i` on, inside `depth` blocks, is
/// handed over: up to `end`, or half of what is left until that weighs no more
/// than there is room for.
pub open spec fn cut_end(s: Seq<char>, i: int, end: int, depth: nat) -> int
    decreases end - i,
{
    if end <= i || weight(s.take(end), i, depth) <= BUDGET {
        end
    } else {
        cut_end(s, i, i + (end - i) / 2, depth)
    }
}

/// Where a text stops being plain and where it is cut off, where what follows
/// is too much.
pub open spec fn cut_of(s: Seq<char>) -> Option<(int, int)> {
    match first_odd(s, nodes_from(s), text_start()) {
        Some((i, depth)) => if cut_end(s, i, s.len() as int, depth) < s.len() {
            Some((i, cut_end(s, i, s.len() as int, depth)))
        } else {
            None
        },
        None => None,
    }
}

/// The line on which a text stops being plain that is cut off.
pub open spec fn tangled_line(s: Seq<char>) -> Option<nat> {
    match cut_of(s) {
        Some((i, _)) => Some(count(s, 0, i, Count::Lines) + 1),
        None => None,
    }
}

/// What the parser is handed of a text: the text, with the `*` and `/` inside
/// its block comments left blank as far as it is plain, and cut off where more
/// would be too much.
pub open spec fn handed(text: Seq<char>) -> Seq<char> {
    if utf8(text).len() > MAX_BYTES {
        text
    } else {
        let all = hushed_from(text, nodes_from(text), text_start(), text);
        match cut_of(text) {
            Some((_, end)) => all.take(end),
            None => all,
        }
    }
}

/// A place, as its spec function gives it.
pub open spec fn place_of(at: Option<usize>) -> Option<int> {
    match at {
        Some(i) => Some(i as int),
        None => None,
    }
}

fn is_at(s: &[char], i: usize, c: char) -> (r: bool)
    ensures
        r == char_at(s@, i as int, c),
{
    i < s.len() && s[i] == c
}

fn run_end(s: &[char], at: usize, run: Run) -> (r: usize)
    requires
        at <= s@.len(),
    ensures
        r == run_stop(s@, at as int, run),
        at <= r <= s@.len(),
        at < s@.len() && of_run(s@[at as int], run) ==> at < r,
{
    let mut i: usize = at;
    while i < s.len() && of_run(s[i], run)
        invariant
            at <= i <= s@.len(),
            run_stop(s@, at as int, run) == run_stop(s@, i as int, run),
        decreases s@.len() - i,
    {
        i = i + 1;
    }
    i
}

fn end_width(s: &[char], i: usize) -> (r: usize)
    requires
        i < s@.len() <= MAX_BYTES,
    ensures
        r == end_len(s@, i as int),
        1 <= r <= 2,
        i + r <= s@.len(),
{
    if is_at(s, i, '\r') && is_at(s, i + 1, '\n') {
        2
    } else {
        1
    }
}

fn is_triple(s: &[char], i: usize) -> (r: bool)
    requires
        i <= s@.len() <= MAX_BYTES,
    ensures
        r == triple(s@, i as int),
        r ==> i + 3 <= s@.len(),
{
    is_at(s, i, '"') && is_at(s, i + 1, '"') && is_at(s, i + 2, '"')
}

fn escape_end(s: &[char], at: usize) -> (r: Option<usize>)
    requires
        at < s@.len() <= MAX_BYTES,
    ensures
        place_of(r) == escape_stop(s@, at as int),
        r matches Some(end) ==> at + 1 < end <= s@.len(),
{
    if at + 1 >= s.len() {
        return None;
    }
    if escape_char(s[at + 1]) {
        return Some(at + 2);
    }
    if s[at + 1] == 'u' && is_at(s, at + 2, '{') {
        let from = at + 3;
        let end = run_end(s, from, Run::Code);
        if is_at(s, end, '}') {
            let n = end - from;
            let fits = if n == 4 {
                s[from] != 'd' && s[from] != 'D'
            } else if n == 5 {
                s[from] != '0'
            } else if n == 6 {
                s[from] == '1' && s[from + 1] == '0' || s[from] == '0' && s[from + 1] != '0'
            } else {
                1 <= n && n <= 3
            };
            if fits {
                return Some(end + 1);
            }
        }
    }
    None
}

fn quoted_end(s: &[char], at: usize) -> (r: Option<usize>)
    requires
        at <= s@.len() <= MAX_BYTES,
    ensures
        place_of(r) == quoted_close(s@, at as int),
        r matches Some(end) ==> at < end <= s@.len(),
{
    let mut i: usize = at;
    while i < s.len()
        invariant
            at <= i <= s@.len() <= MAX_BYTES,
            quoted_close(s@, at as int) == quoted_close(s@, i as int),
        decreases s@.len() - i,
    {
        let c = s[i];
        if c == '"' {
            return Some(i + 1);
        }
        if c == '\\' {
            let end = match escape_end(s, i) {
                Some(end) => end,
                None => run_end(s, i + 1, Run::Blank),
            };
            if end == i + 1 {
                return None;
            }
            i = end;
        } else {
            if line_end(c) || barred(c) {
                return None;
            }
            i = i + 1;
        }
    }
    None
}

fn raw_end(s: &[char], at: usize, hashes: usize) -> (r: Option<usize>)
    requires
        at <= s@.len() <= MAX_BYTES,
        hashes <= s@.len(),
    ensures
        place_of(r) == raw_close(s@, at as int, hashes as nat),
        r matches Some(end) ==> at < end <= s@.len(),
{
    let mut i: usize = at;
    while i < s.len()
        invariant
            at <= i <= s@.len() <= MAX_BYTES,
            hashes <= s@.len(),
            raw_close(s@, at as int, hashes as nat) == raw_close(s@, i as int, hashes as nat),
        decreases s@.len() - i,
    {
        if line_end(s[i]) || barred(s[i]) {
            return None;
        }
        if s[i] == '"' && run_end(s, i + 1, Run::Hash) >= i + 1 + hashes {
            return Some(i + 1 + hashes);
        }
        i = i + 1;
    }
    None
}

fn ends_lines(s: &[char], i: usize, hashes: usize) -> (r: bool)
    requires
        i <= s@.len() <= MAX_BYTES,
        hashes <= s@.len(),
    ensures
        r == closes_lines(s@, i as int, hashes as nat),
        r ==> i + 3 + hashes <= s@.len(),
{
    is_triple(s, i) && run_end(s, i + 3, Run::Hash) >= i + 3 + hashes
}

fn string_line_end(s: &[char], at: usize, hashes: usize) -> (r: Option<usize>)
    requires
        at <= s@.len() <= MAX_BYTES,
        hashes <= s@.len(),
    ensures
        place_of(r) == string_line(s@, at as int, hashes as nat),
        r matches Some(end) ==> at <= end < s@.len(),
{
    let mut i: usize = at;
    while i < s.len()
        invariant
            at <= i <= s@.len() <= MAX_BYTES,
            hashes <= s@.len(),
            string_line(s@, at as int, hashes as nat) == string_line(s@, i as int, hashes as nat),
        decreases s@.len() - i,
    {
        if barred(s[i]) || ends_lines(s, i, hashes) {
            return None;
        }
        if line_end(s[i]) {
            return Some(i);
        }
        if s[i] == '\\' && hashes == 0 {
            let end = match escape_end(s, i) {
                Some(end) => end,
                None => run_end(s, i + 1, Run::Blank),
            };
            if end == i + 1 {
                return None;
            }
            i = end;
        } else {
            i = i + 1;
        }
    }
    None
}

fn find_last_line(s: &[char], at: usize, hashes: usize) -> (r: Option<(usize, usize)>)
    requires
        at <= s@.len() <= MAX_BYTES,
        hashes <= s@.len(),
    ensures
        match r {
            Some((last, quotes)) => last_line(s@, at as int, hashes as nat) == Some(
                (last as int, quotes as int),
            ) && at <= last <= quotes && quotes + 3 + hashes <= s@.len(),
            None => last_line(s@, at as int, hashes as nat) is None,
        },
{
    let mut i: usize = at;
    while i < s.len()
        invariant
            at <= i <= s@.len() <= MAX_BYTES,
            hashes <= s@.len(),
            last_line(s@, at as int, hashes as nat) == last_line(s@, i as int, hashes as nat),
        decreases s@.len() - i,
    {
        let quotes = run_end(s, i, Run::Space);
        if ends_lines(s, quotes, hashes) {
            return Some((i, quotes));
        }
        match string_line_end(s, i, hashes) {
            Some(end) => {
                i = end + end_width(s, end);
            },
            None => {
                return None;
            },
        }
    }
    None
}

fn do_lines_fit(s: &[char], at: usize, last: usize, prefix: &[char], hashes: usize) -> (r: bool)
    requires
        at <= s@.len() <= MAX_BYTES,
        last < s@.len(),
        prefix@.len() <= s@.len(),
        hashes <= s@.len(),
    ensures
        r == lines_fit(s@, at as int, last as int, prefix@, hashes as nat),
{
    let mut i: usize = at;
    while i < last
        invariant
            at <= i <= s@.len() <= MAX_BYTES,
            last < s@.len(),
            prefix@.len() <= s@.len(),
            hashes <= s@.len(),
            lines_fit(s@, at as int, last as int, prefix@, hashes as nat) == lines_fit(
                s@,
                i as int,
                last as int,
                prefix@,
                hashes as nat,
            ),
        decreases s@.len() - i,
    {
        let end = match string_line_end(s, i, hashes) {
            Some(end) => end,
            None => {
                return false;
            },
        };
        if run_end(s, i, Run::Space) != end {
            if prefix.len() > s.len() - i {
                return false;
            }
            let begins = vstd::slice::slice_subrange(s, i, i + prefix.len());
            if !same_chars(begins, prefix) {
                return false;
            }
        }
        i = end + end_width(s, end);
    }
    true
}

fn lines_end(s: &[char], at: usize, hashes: usize) -> (r: Option<usize>)
    requires
        at <= s@.len() <= MAX_BYTES,
        hashes <= s@.len(),
    ensures
        place_of(r) == lines_close(s@, at as int, hashes as nat),
        r matches Some(end) ==> at < end <= s@.len(),
{
    if at >= s.len() || !line_end(s[at]) {
        return None;
    }
    let first = at + end_width(s, at);
    match find_last_line(s, first, hashes) {
        Some((last, quotes)) => {
            let prefix = vstd::slice::slice_subrange(s, last, quotes);
            if do_lines_fit(s, first, last, prefix, hashes) {
                Some(quotes + 3 + hashes)
            } else {
                None
            }
        },
        None => None,
    }
}

fn closed_string(s: &[char], at: usize) -> (r: Option<usize>)
    requires
        at < s@.len() <= MAX_BYTES,
    ensures
        place_of(r) == string_close(s@, at as int),
        r matches Some(end) ==> at < end <= s@.len(),
{
    let open = run_end(s, at, Run::Hash);
    let hashes = open - at;
    if !is_at(s, open, '"') {
        return None;
    }
    let three = is_triple(s, open);
    if three && (hashes == 0 || open + 3 < s.len() && line_end(s[open + 3])) {
        return lines_end(s, open + 3, hashes);
    }
    if hashes == 0 {
        return quoted_end(s, open + 1);
    }
    match raw_end(s, open + 1, hashes) {
        Some(end) => {
            if three && end == open + 3 + hashes {
                None
            } else {
                Some(end)
            }
        },
        None => None,
    }
}

fn closed_comment(s: &[char], at: usize) -> (r: Option<usize>)
    requires
        at <= s@.len() <= MAX_BYTES,
    ensures
        place_of(r) == comment_close(s@, at as int, 1),
        r matches Some(end) ==> at + 2 <= end <= s@.len(),
{
    let mut open: usize = 1;
    let mut i: usize = at;
    while i + 1 < s.len()
        invariant
            at <= i <= s@.len() <= MAX_BYTES,
            1 <= open <= i + 1,
            comment_close(s@, at as int, 1) == comment_close(s@, i as int, open as nat),
        decreases s@.len() - i,
    {
        if s[i] == '/' && s[i + 1] == '*' {
            open = open + 1;
            i = i + 2;
        } else if s[i] == '*' && s[i + 1] == '/' {
            if open == 1 {
                return Some(i + 2);
            }
            open = open - 1;
            i = i + 2;
        } else {
            i = i + 1;
        }
    }
    None
}

fn joined_end(s: &[char], at: usize) -> (r: Option<usize>)
    requires
        at < s@.len() <= MAX_BYTES,
    ensures
        place_of(r) == joined_line(s@, at as int),
        r matches Some(end) ==> at < end <= s@.len(),
{
    let end = run_end(s, at + 1, Run::Space);
    let stop = if is_at(s, end, '/') && is_at(s, end + 1, '/') {
        run_end(s, end, Run::Line)
    } else {
        end
    };
    if stop >= s.len() {
        Some(stop)
    } else if line_end(s[stop]) {
        Some(stop + end_width(s, stop))
    } else {
        None
    }
}

fn filler_end(s: &[char], at: usize, lines: bool) -> (r: Option<usize>)
    requires
        at < s@.len() <= MAX_BYTES,
    ensures
        place_of(r) == filler_at(s@, at as int, lines),
        r matches Some(end) ==> at < end <= s@.len(),
        r matches Some(end) ==> s@[at as int] == '/' && char_at(s@, at + 1, '*') ==> at + 4 <= end,
{
    let c = s[at];
    if space(c) {
        Some(at + 1)
    } else if c == '\\' {
        joined_end(s, at)
    } else if c == '/' && is_at(s, at + 1, '*') {
        closed_comment(s, at + 2)
    } else if lines && line_end(c) {
        Some(at + 1)
    } else if lines && c == '/' && is_at(s, at + 1, '/') {
        Some(run_end(s, at, Run::Line))
    } else {
        None
    }
}

fn ends(s: &[char], i: usize) -> (r: bool)
    requires
        i <= s@.len() <= MAX_BYTES,
    ensures
        r == ender(s@, i as int),
{
    if i >= s.len() {
        return true;
    }
    let c = s[i];
    line_end(c) || c == ';' || c == '{' || c == '}' || c == '=' || c == '/' && is_at(s, i + 1, '/')
        || filler_end(s, i, false).is_some()
}

fn is_text(s: &[char], from: usize, end: usize, text: &str) -> (r: bool)
    requires
        from <= end <= s@.len(),
    ensures
        r == (s@.subrange(from as int, end as int) == text@),
{
    let word = vstd::slice::slice_subrange(s, from, end);
    same_chars(word, &chars_of(text))
}

fn word_end(s: &[char], at: usize) -> (r: Option<usize>)
    requires
        at < s@.len() <= MAX_BYTES,
    ensures
        place_of(r) == word_at(s@, at as int),
        r matches Some(end) ==> at < end <= s@.len(),
{
    let c = s[at];
    let end = run_end(s, at, Run::Word);
    if word_start(c) {
        if end - at <= 5 && (is_text(s, at, end, "true") || is_text(s, at, end, "false") || is_text(
            s,
            at,
            end,
            "null",
        ) || is_text(s, at, end, "inf") || is_text(s, at, end, "nan")) {
            return None;
        }
        proof {
            lemma_reserved_lengths();
        }
        return Some(end);
    }
    let dot = if c == '+' || c == '-' {
        at + 1
    } else {
        at
    };
    let digit = if is_at(s, dot, '.') {
        dot + 1
    } else {
        dot
    };
    if at < digit && (digit >= s.len() || !decimal_char(s[digit])) {
        Some(end)
    } else {
        None
    }
}

proof fn lemma_reserved_lengths()
    ensures
        "true"@.len() == 4,
        "false"@.len() == 5,
        "null"@.len() == 4,
        "inf"@.len() == 3,
        "nan"@.len() == 3,
        "#true"@.len() == 5,
        "#false"@.len() == 6,
        "#null"@.len() == 5,
        "#nan"@.len() == 4,
        "#inf"@.len() == 4,
        "#-inf"@.len() == 5,
{
    reveal_strlit("true");
    reveal_strlit("false");
    reveal_strlit("null");
    reveal_strlit("inf");
    reveal_strlit("nan");
    reveal_strlit("#true");
    reveal_strlit("#false");
    reveal_strlit("#null");
    reveal_strlit("#nan");
    reveal_strlit("#inf");
    reveal_strlit("#-inf");
}

fn text_end(s: &[char], at: usize) -> (r: Option<usize>)
    requires
        at < s@.len() <= MAX_BYTES,
    ensures
        place_of(r) == text_at(s@, at as int),
        r matches Some(end) ==> at < end <= s@.len(),
{
    if s[at] == '"' || s[at] == '#' {
        closed_string(s, at)
    } else {
        word_end(s, at)
    }
}

fn digits_end(s: &[char], at: usize, run: Run, most: usize) -> (r: Option<usize>)
    requires
        at <= s@.len() <= MAX_BYTES,
    ensures
        place_of(r) == digits_at(s@, at as int, run, most as nat),
        r matches Some(end) ==> at < end <= s@.len(),
{
    let end = run_end(s, at, run);
    if at < end && end - at <= most && s[at] != '_' {
        Some(end)
    } else {
        None
    }
}

fn fraction_end(s: &[char], at: usize) -> (r: Option<usize>)
    requires
        at <= s@.len() <= MAX_BYTES,
    ensures
        place_of(r) == fraction_at(s@, at as int),
        r matches Some(end) ==> at <= end <= s@.len(),
{
    if is_at(s, at, '.') {
        digits_end(s, at + 1, Run::Decimal, MAX_DECIMAL)
    } else {
        Some(at)
    }
}

fn exponent_end(s: &[char], at: usize) -> (r: Option<usize>)
    requires
        at <= s@.len() <= MAX_BYTES,
    ensures
        place_of(r) == exponent_at(s@, at as int),
        r matches Some(end) ==> at <= end <= s@.len(),
{
    if is_at(s, at, 'e') || is_at(s, at, 'E') {
        let from = if is_at(s, at + 1, '+') || is_at(s, at + 1, '-') {
            at + 2
        } else {
            at + 1
        };
        digits_end(s, from, Run::Decimal, MAX_DECIMAL)
    } else {
        Some(at)
    }
}

fn number_stop(s: &[char], at: usize) -> (r: Option<usize>)
    requires
        at < s@.len() <= MAX_BYTES,
    ensures
        place_of(r) == number_end(s@, at as int),
        r matches Some(end) ==> at < end <= s@.len(),
{
    let from = if s[at] == '+' || s[at] == '-' {
        at + 1
    } else {
        at
    };
    let radix = is_at(s, from, '0');
    if radix && (is_at(s, from + 1, 'x') || is_at(s, from + 1, 'X')) {
        digits_end(s, from + 2, Run::Hex, MAX_HEX)
    } else if radix && (is_at(s, from + 1, 'o') || is_at(s, from + 1, 'O')) {
        digits_end(s, from + 2, Run::Octal, MAX_OCTAL)
    } else if radix && (is_at(s, from + 1, 'b') || is_at(s, from + 1, 'B')) {
        digits_end(s, from + 2, Run::Binary, MAX_BINARY)
    } else {
        match digits_end(s, from, Run::Decimal, MAX_DECIMAL) {
            Some(whole) => match fraction_end(s, whole) {
                Some(end) => exponent_end(s, end),
                None => None,
            },
            None => None,
        }
    }
}

fn literal_end(s: &[char], at: usize) -> (r: Option<usize>)
    requires
        at < s@.len() <= MAX_BYTES,
    ensures
        place_of(r) == literal_at(s@, at as int),
        r matches Some(end) ==> at < end <= s@.len(),
{
    if s[at] != '#' {
        return number_stop(s, at);
    }
    let end = run_end(s, at + 1, Run::Word);
    proof {
        lemma_reserved_lengths();
    }
    if end - at <= 6 && (is_text(s, at, end, "#true") || is_text(s, at, end, "#false") || is_text(
        s,
        at,
        end,
        "#null",
    ) || is_text(s, at, end, "#nan") || is_text(s, at, end, "#inf") || is_text(
        s,
        at,
        end,
        "#-inf",
    )) {
        Some(end)
    } else {
        None
    }
}

fn type_end(s: &[char], at: usize) -> (r: Option<usize>)
    requires
        at < s@.len() <= MAX_BYTES,
    ensures
        place_of(r) == type_close(s@, at as int),
        r matches Some(end) ==> at < end <= s@.len(),
{
    let from = run_end(s, at + 1, Run::Space);
    if from >= s.len() {
        return None;
    }
    match text_end(s, from) {
        Some(end) => {
            let close = run_end(s, end, Run::Space);
            if is_at(s, close, ')') {
                Some(close + 1)
            } else {
                None
            }
        },
        None => None,
    }
}

/// What is known of a plain text at some character.
pub struct Scan {
    pub place: Place,
    /// Whether the node was taken out by a `/-`.
    pub dashed: bool,
    /// The blocks that are open.
    pub levels: Vec<Level>,
}

impl View for Scan {
    type V = ScanView;

    open spec fn view(&self) -> ScanView {
        ScanView { place: self.place, dashed: self.dashed, levels: self.levels@ }
    }
}

/// What a step of the scan leaves behind.
spec fn stepped(r: Option<usize>, len: nat, i: int, after: ScanView, step: Step) -> bool {
    match r {
        Some(end) => step == Some((end as int, after)) && i < end <= len && after.levels.len()
            <= MAX_NESTING,
        None => step is None,
    }
}

fn opened(scan: &mut Scan, open: Open) -> (r: bool)
    requires
        old(scan)@.levels.len() <= MAX_NESTING,
    ensures
        match block_opened(old(scan)@, open) {
            Some(next) => r && final(scan)@ == next && next.levels.len() <= MAX_NESTING,
            None => !r,
        },
{
    scan.levels.push(Level { open, dashed: scan.dashed });
    let n = scan.levels.len();
    if n > MAX_NESTING {
        return false;
    }
    let mut found: usize = 0;
    let mut k: usize = 0;
    while k < n
        invariant
            n == scan.levels@.len(),
            k <= n,
            found <= k,
            found == cuts(scan.levels@, k as int),
        decreases n - k,
    {
        if scan.levels[k].dashed || scan.levels[k].open != Open::Own {
            found = found + 1;
        }
        k = k + 1;
    }
    if found > MAX_CUTS {
        return false;
    }
    scan.place = Place::Node;
    scan.dashed = false;
    true
}

fn closed(scan: &mut Scan) -> (r: bool)
    ensures
        match block_closed(old(scan)@) {
            Some(next) => r && final(scan)@ == next,
            None => !r,
        },
{
    match scan.levels.pop() {
        Some(level) => {
            scan.place = match level.open {
                Open::Own => Place::Block,
                Open::Before => Place::CutBlock,
                Open::After => Place::End,
            };
            scan.dashed = level.dashed;
            true
        },
        None => false,
    }
}

fn ended_at(s: &[char], end: Option<usize>) -> (r: Option<usize>)
    requires
        s@.len() <= MAX_BYTES,
        end matches Some(end) ==> end <= s@.len(),
    ensures
        place_of(r) == ended(s@, place_of(end)),
        r is Some ==> r == end,
{
    match end {
        Some(at) => {
            if ends(s, at) {
                Some(at)
            } else {
                None
            }
        },
        None => None,
    }
}

fn take_value(s: &[char], i: usize, scan: &mut Scan, key: Place) -> (r: Option<usize>)
    requires
        i < s@.len() <= MAX_BYTES,
        old(scan)@.levels.len() <= MAX_NESTING,
    ensures
        stepped(r, s@.len(), i as int, final(scan)@, value_step(s@, i as int, old(scan)@, key)),
{
    match ended_at(s, text_end(s, i)) {
        Some(end) => {
            scan.place = key;
            Some(end)
        },
        None => {
            scan.place = Place::Value;
            ended_at(s, literal_end(s, i))
        },
    }
}

fn take_entry(s: &[char], i: usize, scan: &mut Scan, key: Place) -> (r: Option<usize>)
    requires
        i < s@.len() <= MAX_BYTES,
        old(scan)@.levels.len() <= MAX_NESTING,
    ensures
        stepped(r, s@.len(), i as int, final(scan)@, entry_step(s@, i as int, old(scan)@, key)),
{
    if s[i] == '(' {
        scan.place = Place::Type;
        type_end(s, i)
    } else {
        take_value(s, i, scan, key)
    }
}

fn take_name(s: &[char], i: usize, scan: &mut Scan, typed: bool) -> (r: Option<usize>)
    requires
        i < s@.len() <= MAX_BYTES,
        old(scan)@.levels.len() <= MAX_NESTING,
    ensures
        stepped(r, s@.len(), i as int, final(scan)@, name_step(s@, i as int, old(scan)@, typed)),
{
    if s[i] == '(' && !typed {
        scan.place = Place::NodeType;
        type_end(s, i)
    } else {
        scan.place = Place::Name;
        ended_at(s, text_end(s, i))
    }
}

fn take_rest(s: &[char], i: usize, scan: &mut Scan) -> (r: Option<usize>)
    requires
        i < s@.len() <= MAX_BYTES,
        old(scan)@.levels.len() <= MAX_NESTING,
    ensures
        stepped(r, s@.len(), i as int, final(scan)@, rest_step(s@, i as int, old(scan)@)),
{
    let place = scan.place;
    let gap = place == Place::Gap || place == Place::KeyGap;
    let c = s[i];
    if line_end(c) || c == ';' {
        if c == ';' && scan.dashed {
            return None;
        }
        scan.place = Place::Node;
        scan.dashed = false;
        Some(i + 1)
    } else if c == '/' && is_at(s, i + 1, '/') {
        scan.place = Place::Node;
        scan.dashed = false;
        Some(run_end(s, i, Run::Line))
    } else if c == '/' && is_at(s, i + 1, '-') {
        if gap {
            scan.place = Place::Cut;
        } else if place == Place::Block {
            scan.place = Place::BlockCut;
        } else {
            return None;
        }
        Some(i + 2)
    } else if c == '{' {
        let may = place == Place::Name || place == Place::Key || place == Place::Value || gap
            || place == Place::CutBlock;
        if may && opened(scan, Open::Own) {
            Some(i + 1)
        } else {
            None
        }
    } else if c == '}' {
        if closed(scan) {
            Some(i + 1)
        } else {
            None
        }
    } else if c == '=' {
        if place == Place::Key || place == Place::KeyGap {
            scan.place = Place::Equals;
            Some(i + 1)
        } else {
            None
        }
    } else if gap {
        take_entry(s, i, scan, Place::Key)
    } else {
        None
    }
}

fn take_step(s: &[char], i: usize, scan: &mut Scan) -> (r: Option<usize>)
    requires
        i < s@.len() <= MAX_BYTES,
        old(scan)@.levels.len() <= MAX_NESTING,
    ensures
        stepped(r, s@.len(), i as int, final(scan)@, plain_step(s@, i as int, old(scan)@)),
        r matches Some(end) ==> s@[i as int] == '/' && char_at(s@, i + 1, '*') ==> i + 4 <= end,
{
    let place = scan.place;
    let lines = place == Place::Node || place == Place::Dash || place == Place::Cut || place
        == Place::BlockCut;
    match filler_end(s, i, lines) {
        Some(end) => {
            scan.place = match place {
                Place::Name | Place::Value | Place::Gap => Place::Gap,
                Place::Key | Place::KeyGap => Place::KeyGap,
                other => other,
            };
            return Some(end);
        },
        None => {},
    }
    match place {
        Place::Node => {
            if s[i] == '/' && is_at(s, i + 1, '-') {
                scan.place = Place::Dash;
                scan.dashed = true;
                Some(i + 2)
            } else if s[i] == '}' {
                if closed(scan) {
                    Some(i + 1)
                } else {
                    None
                }
            } else {
                take_name(s, i, scan, false)
            }
        },
        Place::Dash => take_name(s, i, scan, false),
        Place::NodeType => take_name(s, i, scan, true),
        Place::Cut => {
            if s[i] == '{' {
                if opened(scan, Open::Before) {
                    Some(i + 1)
                } else {
                    None
                }
            } else {
                take_entry(s, i, scan, Place::Key)
            }
        },
        Place::BlockCut => {
            if s[i] == '{' && opened(scan, Open::After) {
                Some(i + 1)
            } else {
                None
            }
        },
        Place::Type => take_value(s, i, scan, Place::Value),
        Place::Equals => take_entry(s, i, scan, Place::Value),
        _ => take_rest(s, i, scan),
    }
}

fn count_from(s: &[char], at: usize, end: usize, what: Count) -> (r: usize)
    requires
        at <= end <= s@.len() <= MAX_BYTES,
    ensures
        r == count(s@, at as int, end as int, what),
        r <= s@.len(),
{
    let mut n: usize = 0;
    let mut i: usize = at;
    while i < end
        invariant
            at <= i <= end <= s@.len() <= MAX_BYTES,
            n <= i,
            count(s@, at as int, end as int, what) == n + count(s@, i as int, end as int, what),
        decreases end - i,
    {
        let c = s[i];
        let is = match what {
            Count::Opens => c == '{',
            Count::Dashes => c == '/' && is_at(s, i + 1, '-'),
            Count::Marks => c == '*' || c == '/',
            Count::Strays => {
                let inside = word_char(c) && i > 0 && word_char(s[i - 1]);
                !(space(c) || line_end(c) || word_start(c) || inside)
            },
            Count::Lines => c == '\n',
        };
        if is {
            n = n + 1;
        }
        i = i + 1;
    }
    n
}

fn first_comment(s: &[char], at: usize) -> (r: usize)
    requires
        at <= s@.len() <= MAX_BYTES,
    ensures
        r == comment_from(s@, at as int),
        at <= r <= s@.len(),
{
    let mut i: usize = at;
    while i < s.len()
        invariant
            at <= i <= s@.len() <= MAX_BYTES,
            comment_from(s@, at as int) == comment_from(s@, i as int),
        decreases s@.len() - i,
    {
        if s[i] == '/' && is_at(s, i + 1, '*') {
            return i;
        }
        i = i + 1;
    }
    i
}

fn weigh(s: &[char], at: usize, depth: usize) -> (r: u64)
    requires
        at <= s@.len() <= MAX_BYTES,
        depth <= MAX_NESTING,
    ensures
        r == weight(s@, at as int, depth as nat),
{
    let end = s.len();
    let opens = count_from(s, at, end, Count::Opens) as u64;
    let dashes = count_from(s, at, end, Count::Dashes) as u64;
    let inner = count_from(s, first_comment(s, at), end, Count::Marks) as u64;
    let strays = count_from(s, at, end, Count::Strays) as u64;
    NEST_COST * (depth as u64 + opens) + DASH_COST * dashes + MARK_COST * inner + STRAY_COST
        * strays
}

fn start() -> (r: Scan)
    ensures
        r@ == text_start(),
{
    let r = Scan { place: Place::Node, dashed: false, levels: Vec::new() };
    assert(r.levels@ =~= Seq::empty());
    r
}

fn nodes_start(s: &[char]) -> (r: usize)
    ensures
        r == nodes_from(s@),
        r <= s@.len(),
{
    if is_at(s, 0, '\u{feff}') {
        1
    } else {
        0
    }
}

/// Where a text is cut off that is not plain from `at` on.
fn find_cut(s: &[char], at: usize, depth: usize) -> (r: usize)
    requires
        at <= s@.len() <= MAX_BYTES,
        depth <= MAX_NESTING,
    ensures
        r == cut_end(s@, at as int, s@.len() as int, depth as nat),
        at <= r <= s@.len(),
{
    let mut end: usize = s.len();
    while end > at
        invariant
            at <= end <= s@.len() <= MAX_BYTES,
            depth <= MAX_NESTING,
            cut_end(s@, at as int, s@.len() as int, depth as nat) == cut_end(
                s@,
                at as int,
                end as int,
                depth as nat,
            ),
        decreases end - at,
    {
        let part = vstd::slice::slice_subrange(s, 0, end);
        assert(part@ =~= s@.take(end as int));
        if weigh(part, at, depth) <= BUDGET {
            return end;
        }
        end = at + (end - at) / 2;
    }
    end
}

fn mute(out: &mut Vec<char>, from: usize, end: usize)
    requires
        from <= end <= old(out)@.len(),
    ensures
        final(out)@ == muted(old(out)@, from as int, end as int),
{
    let ghost first = out@;
    let mut k: usize = from;
    assert(out@ =~= muted(first, from as int, from as int));
    while k < end
        invariant
            from <= k <= end <= out@.len(),
            out@ == muted(first, from as int, k as int),
            first.len() == out@.len(),
        decreases end - k,
    {
        if out[k] == '*' || out[k] == '/' {
            out.set(k, ' ');
        }
        k = k + 1;
        assert(out@ =~= muted(first, from as int, k as int));
    }
}

/// What the parser is handed of a text, and the line from which it is not
/// plain where it is cut off.
pub fn hand_over(text: &str) -> (r: (String, Option<u32>))
    requires
        utf8(text@).len() <= MAX_BYTES,
    ensures
        r.0@ == handed(text@),
        match r.1 {
            Some(line) => tangled_line(text@) == Some(line as nat),
            None => tangled_line(text@) is None,
        },
{
    proof {
        lemma_chars_fit(text@);
    }
    let s = chars_of(text);
    let mut out = chars_of(text);
    let mut scan = start();
    let mut i: usize = nodes_start(&s);
    while i < s.len()
        invariant
            s@ == text@,
            utf8(text@).len() <= MAX_BYTES,
            i <= s@.len() <= MAX_BYTES,
            out@.len() == s@.len(),
            scan@.levels.len() <= MAX_NESTING,
            first_odd(s@, nodes_from(s@), text_start()) == first_odd(s@, i as int, scan@),
            hushed_from(s@, nodes_from(s@), text_start(), s@) == hushed_from(
                s@,
                i as int,
                scan@,
                out@,
            ),
        decreases s@.len() - i,
    {
        let comment = s[i] == '/' && is_at(&s, i + 1, '*');
        let depth = scan.levels.len();
        match take_step(&s, i, &mut scan) {
            Some(end) => {
                if comment {
                    mute(&mut out, i + 2, end - 2);
                }
                i = end;
            },
            None => {
                let end = find_cut(&s, i, depth);
                if end < s.len() {
                    let part = vstd::slice::slice_subrange(&out, 0, end);
                    assert(part@ =~= out@.take(end as int));
                    let line = count_from(&s, 0, i, Count::Lines) + 1;
                    return (text_of(part), Some(line as u32));
                }
                return (text_of(&out), None);
            },
        }
    }
    (text_of(&out), None)
}

/// A text has no more characters than bytes.
pub proof fn lemma_chars_fit(text: Seq<char>)
    ensures
        text.len() <= utf8(text).len(),
    decreases text.len(),
{
    if text.len() > 0 {
        lemma_chars_fit(text.drop_first());
        char_is_scalar(text[0]);
    }
}

} // verus!
