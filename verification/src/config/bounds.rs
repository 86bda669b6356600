//! The bounds put on the KDL parser: how large a text it is handed, and how
//! deeply nested.
//!
//! The parser descends into `{` by recursion, so a file nested deeply enough
//! overflows the stack and aborts the process instead of returning an error,
//! and the text is measured before the parser is handed it. The measurement
//! is a pre-check and not a parser: it counts `{` and `}` outside strings and
//! comments and decides nothing about what the document means. How much the
//! parser is handed of a text that is not KDL is for [`crate::config::plain`].

use vstd::prelude::*;
use vstd::utf8::*;

use crate::error::{ConfigError, ConfigErrorView};
use crate::text::utf8;

verus! {

/// Largest configuration handed to the KDL parser. A profile or a
/// `config.kdl` is a screenful of grants; a megabyte is already far past
/// anything a person writes.
pub const MAX_BYTES: usize = 1048576;

/// Deepest `{`...`}` nesting handed to the KDL parser. The deepest node there
/// is takes two levels (`network { dns }`), so this is room to spare for a
/// config that means something, and it is under what the parser survives on
/// the 2 MiB stack of a spawned thread in an unoptimised build.
pub const MAX_NESTING: usize = 32;

/// `\n`.
pub const NEWLINE: u8 = 10;

/// `\r`.
pub const RETURN: u8 = 13;

/// `"`.
pub const QUOTE: u8 = 34;

/// `#`.
pub const HASH: u8 = 35;

/// `*`.
pub const STAR: u8 = 42;

/// `/`.
pub const SLASH: u8 = 47;

/// `\`.
pub const BACKSLASH: u8 = 92;

/// `{`.
pub const OPEN: u8 = 123;

/// `}`.
pub const CLOSE: u8 = 125;

/// Whether the byte at `i` is there and is `c`.
pub open spec fn byte_at(b: Seq<u8>, i: int, c: u8) -> bool {
    0 <= i < b.len() && b[i] == c
}

/// How many `#` there are from `i` on.
pub open spec fn hash_run(b: Seq<u8>, i: int) -> nat
    decreases b.len() - i,
{
    if byte_at(b, i, HASH) {
        hash_run(b, i + 1) + 1
    } else {
        0
    }
}

/// Index of the newline that ends a `//` comment, or the end of the text.
pub open spec fn line_comment_stop(b: Seq<u8>, i: int) -> int
    decreases b.len() - i,
{
    if i >= b.len() {
        b.len() as int
    } else if b[i] == NEWLINE {
        i
    } else {
        line_comment_stop(b, i + 1)
    }
}

/// Index just past the `/* */` comment that is `open` deep at `i`. KDL nests
/// them, so the first `*/` does not always end one.
pub open spec fn block_comment_stop(b: Seq<u8>, i: int, open: nat) -> int
    decreases b.len() - i,
{
    if i + 1 >= b.len() {
        b.len() as int
    } else if b[i] == SLASH && b[i + 1] == STAR {
        block_comment_stop(b, i + 2, open + 1)
    } else if b[i] == STAR && b[i + 1] == SLASH {
        if open <= 1 {
            i + 2
        } else {
            block_comment_stop(b, i + 2, (open - 1) as nat)
        }
    } else {
        block_comment_stop(b, i + 1, open)
    }
}

/// Index just past the string that `i` is inside of, opened by `hashes` `#`.
/// A quoted string ends at the first `"` that is not escaped; a raw string
/// has no escapes and ends at a `"` followed by at least as many `#` as
/// opened it.
pub open spec fn string_stop(b: Seq<u8>, i: int, hashes: nat) -> int
    decreases b.len() - i,
{
    if i < 0 || i >= b.len() {
        b.len() as int
    } else if b[i] == BACKSLASH && hashes == 0 {
        if i + 1 == b.len() {
            b.len() as int
        } else {
            string_stop(b, i + 2, hashes)
        }
    } else if b[i] == QUOTE && hash_run(b, i + 1) >= hashes {
        i + 1 + hashes
    } else {
        string_stop(b, i + 1, hashes)
    }
}

/// Whether the string of several lines is opened at `i`: three `"` and the
/// end of the line.
pub open spec fn opens_lines(b: Seq<u8>, i: int) -> bool {
    byte_at(b, i, QUOTE) && byte_at(b, i + 1, QUOTE) && byte_at(b, i + 2, QUOTE) && (byte_at(
        b,
        i + 3,
        NEWLINE,
    ) || byte_at(b, i + 3, RETURN))
}

/// Index just past the string of several lines that `i` is inside of, opened
/// by `hashes` `#`: it ends at the first three `"` that are not escaped, or
/// where it is raw at three with at least as many `#` as opened it.
pub open spec fn lines_stop(b: Seq<u8>, i: int, hashes: nat) -> int
    decreases b.len() - i,
{
    if i < 0 || i >= b.len() {
        b.len() as int
    } else if b[i] == BACKSLASH && hashes == 0 {
        if i + 1 == b.len() {
            b.len() as int
        } else {
            lines_stop(b, i + 2, hashes)
        }
    } else if b[i] == QUOTE && byte_at(b, i + 1, QUOTE) && byte_at(b, i + 2, QUOTE) && hash_run(
        b,
        i + 3,
    ) >= hashes {
        i + 3 + hashes
    } else {
        lines_stop(b, i + 1, hashes)
    }
}

/// Where the token at `i` ends: a comment, a string, or one byte.
pub open spec fn token_stop(b: Seq<u8>, i: int) -> int {
    if b[i] == SLASH && byte_at(b, i + 1, SLASH) {
        line_comment_stop(b, i)
    } else if b[i] == SLASH && byte_at(b, i + 1, STAR) {
        block_comment_stop(b, i + 2, 1)
    } else if opens_lines(b, i) {
        lines_stop(b, i + 3, 0)
    } else if b[i] == QUOTE {
        string_stop(b, i + 1, 0)
    } else if b[i] == HASH {
        let after = i + hash_run(b, i);
        if opens_lines(b, after) {
            lines_stop(b, after + 3, hash_run(b, i))
        } else if byte_at(b, after, QUOTE) {
            string_stop(b, after + 1, hash_run(b, i))
        } else {
            after
        }
    } else {
        i + 1
    }
}

/// Where the first `{` stands that is nested deeper than the bound, from `i`
/// on, `depth` deep. A `}` too many says nothing about how deep a file goes.
pub open spec fn first_too_deep(b: Seq<u8>, i: int, depth: nat) -> Option<int>
    decreases b.len() - i,
{
    if i < 0 || i >= b.len() {
        None
    } else if b[i] == OPEN {
        if depth >= MAX_NESTING {
            Some(i)
        } else {
            first_too_deep(b, i + 1, depth + 1)
        }
    } else if b[i] == CLOSE {
        first_too_deep(b, i + 1, if depth == 0 { 0 } else { (depth - 1) as nat })
    } else if !(i < token_stop(b, i) <= b.len()) {
        None
    } else {
        first_too_deep(b, token_stop(b, i), depth)
    }
}

/// How many newlines there are.
pub open spec fn newlines(b: Seq<u8>) -> nat
    decreases b.len(),
{
    if b.len() == 0 {
        0
    } else {
        newlines(b.drop_last()) + (if b.last() == NEWLINE {
            1nat
        } else {
            0nat
        })
    }
}

/// Line number, counting from one, of the byte at `offset`.
pub open spec fn line_of(text: Seq<char>, offset: nat) -> Option<u32> {
    let b = utf8(text);
    if !is_char_boundary(b, offset as int) || newlines(b.take(offset as int)) >= u32::MAX {
        None
    } else {
        Some((newlines(b.take(offset as int)) + 1) as u32)
    }
}

/// What is wrong with a text before it is parsed.
pub open spec fn bounds_fault(text: Seq<char>) -> Option<ConfigErrorView> {
    let b = utf8(text);
    if b.len() > MAX_BYTES {
        Some(ConfigErrorView::TooLarge { bytes: b.len(), max: MAX_BYTES as nat })
    } else {
        match first_too_deep(b, 0, 0) {
            Some(at) => Some(
                ConfigErrorView::TooDeep {
                    line: (newlines(b.take(at)) + 1) as u32,
                    max: MAX_NESTING as nat,
                },
            ),
            None => None,
        }
    }
}

proof fn lemma_newlines_bound(b: Seq<u8>)
    ensures
        newlines(b) <= b.len(),
    decreases b.len(),
{
    if b.len() > 0 {
        lemma_newlines_bound(b.drop_last());
    }
}

pub fn hashes_at(b: &[u8], at: usize) -> (r: usize)
    requires
        at <= b@.len(),
    ensures
        r == hash_run(b@, at as int),
        at + r <= b@.len(),
{
    let mut i: usize = at;
    while i < b.len() && b[i] == HASH
        invariant
            at <= i <= b@.len(),
            hash_run(b@, at as int) == (i - at) + hash_run(b@, i as int),
        decreases b@.len() - i,
    {
        i = i + 1;
    }
    i - at
}

/// Index of the newline that ends the `//` comment at `at`, or the end of
/// the text.
pub fn line_comment_end(b: &[u8], at: usize) -> (r: usize)
    requires
        at <= b@.len(),
    ensures
        r == line_comment_stop(b@, at as int),
        at <= r <= b@.len(),
        at < b@.len() && b@[at as int] != NEWLINE ==> at < r,
{
    let mut i: usize = at;
    while i < b.len() && b[i] != NEWLINE
        invariant
            at <= i <= b@.len(),
            i == at || b@[at as int] != NEWLINE,
            line_comment_stop(b@, at as int) == line_comment_stop(b@, i as int),
        decreases b@.len() - i,
    {
        i = i + 1;
    }
    i
}

/// Index just past the `/* */` comment at `at`. KDL nests them, so the first
/// `*/` does not always end one.
pub fn block_comment_end(b: &[u8], at: usize) -> (r: usize)
    requires
        at + 2 <= b@.len(),
    ensures
        r == block_comment_stop(b@, at + 2, 1),
        at + 2 <= r <= b@.len(),
{
    let len = b.len();
    let mut open: usize = 1;
    let mut i: usize = at + 2;
    while i < len && len - i > 1
        invariant
            len == b@.len(),
            at + 2 <= i <= len,
            1 <= open <= i,
            block_comment_stop(b@, at + 2, 1) == block_comment_stop(b@, i as int, open as nat),
        decreases len - i,
    {
        if b[i] == SLASH && b[i + 1] == STAR {
            open = open + 1;
            i = i + 2;
        } else if b[i] == STAR && b[i + 1] == SLASH {
            i = i + 2;
            if open == 1 {
                return i;
            }
            open = open - 1;
        } else {
            i = i + 1;
        }
    }
    len
}

/// Index just past the string whose opening quote is at `quote`, opened by
/// `hashes` `#` before it.
pub fn string_end(b: &[u8], quote: usize, hashes: usize) -> (r: usize)
    requires
        quote < b@.len(),
    ensures
        r == string_stop(b@, quote + 1, hashes as nat),
        quote < r <= b@.len(),
{
    let len = b.len();
    let mut i: usize = quote + 1;
    while i < len
        invariant
            len == b@.len(),
            quote < i <= len,
            string_stop(b@, quote + 1, hashes as nat) == string_stop(b@, i as int, hashes as nat),
        decreases len - i,
    {
        if b[i] == BACKSLASH && hashes == 0 {
            if len - i == 1 {
                return len;
            }
            i = i + 2;
        } else if b[i] == QUOTE {
            let run = hashes_at(b, i + 1);
            if run >= hashes {
                return i + 1 + hashes;
            }
            i = i + 1;
        } else {
            i = i + 1;
        }
    }
    len
}

/// Whether the string of several lines is opened at `at`.
fn is_lines(b: &[u8], at: usize) -> (r: bool)
    requires
        at <= b@.len(),
    ensures
        r == opens_lines(b@, at as int),
{
    b.len() - at > 3 && b[at] == QUOTE && b[at + 1] == QUOTE && b[at + 2] == QUOTE && (b[at + 3]
        == NEWLINE || b[at + 3] == RETURN)
}

/// Index just past the string of several lines whose opening quotes are at
/// `quote`, opened by `hashes` `#` before them.
pub fn lines_end(b: &[u8], quote: usize, hashes: usize) -> (r: usize)
    requires
        quote + 3 <= b@.len(),
    ensures
        r == lines_stop(b@, quote + 3, hashes as nat),
        quote < r <= b@.len(),
{
    let len = b.len();
    let mut i: usize = quote + 3;
    while i < len
        invariant
            len == b@.len(),
            quote + 3 <= i <= len,
            lines_stop(b@, quote + 3, hashes as nat) == lines_stop(b@, i as int, hashes as nat),
        decreases len - i,
    {
        if b[i] == BACKSLASH && hashes == 0 {
            if len - i == 1 {
                return len;
            }
            i = i + 2;
        } else if b[i] == QUOTE && len - i > 2 && b[i + 1] == QUOTE && b[i + 2] == QUOTE {
            let run = hashes_at(b, i + 3);
            if run >= hashes {
                return i + 3 + hashes;
            }
            i = i + 1;
        } else {
            i = i + 1;
        }
    }
    len
}

fn count_newlines(b: &[u8]) -> (r: usize)
    ensures
        r == newlines(b@),
{
    let mut n: usize = 0;
    let mut i: usize = 0;
    assert(b@.take(0) =~= Seq::empty());
    while i < b.len()
        invariant
            i <= b@.len(),
            n <= i,
            n == newlines(b@.take(i as int)),
        decreases b@.len() - i,
    {
        assert(b@.take(i + 1).drop_last() =~= b@.take(i as int));
        if b[i] == NEWLINE {
            n = n + 1;
        }
        i = i + 1;
    }
    assert(b@.take(i as int) =~= b@);
    n
}

/// Line number, counting from one, of the byte at `offset` in `text`; none
/// where the offset is not the start of a character of the text.
pub fn line_at(text: &str, offset: usize) -> (r: Option<u32>)
    ensures
        r == line_of(text@, offset as nat),
{
    let b = text.as_bytes();
    if !text.is_char_boundary(offset) {
        return None;
    }
    assert(offset <= b@.len()) by {
        encode_utf8_valid_utf8(text@);
        lemma_boundary_inside(b@, offset as int);
    }
    let before = vstd::slice::slice_subrange(b, 0, offset);
    assert(before@ =~= b@.take(offset as int));
    let n = count_newlines(before);
    if n as u64 >= u32::MAX as u64 {
        return None;
    }
    Some((n + 1) as u32)
}

/// A place between characters is inside the text.
pub proof fn lemma_boundary_inside(b: Seq<u8>, i: int)
    requires
        valid_utf8(b),
        is_char_boundary(b, i),
    ensures
        0 <= i <= b.len(),
    decreases b.len(),
{
}

fn line_number(b: &[u8], at: usize) -> (r: u32)
    requires
        at <= b@.len() <= MAX_BYTES,
    ensures
        r == (newlines(b@.take(at as int)) + 1) as u32,
{
    let before = vstd::slice::slice_subrange(b, 0, at);
    assert(before@ =~= b@.take(at as int));
    proof {
        lemma_newlines_bound(before@);
    }
    (count_newlines(before) + 1) as u32
}

/// Refuse text past [`MAX_BYTES`] or [`MAX_NESTING`]. Counting the braces by
/// hand is the point: the parser would recurse into them.
pub fn check_bounds(text: &str) -> (r: Result<(), ConfigError>)
    ensures
        match r {
            Ok(()) => bounds_fault(text@) is None,
            Err(e) => bounds_fault(text@) == Some(e@),
        },
{
    let b = text.as_bytes();
    if b.len() > MAX_BYTES {
        return Err(ConfigError::TooLarge { bytes: b.len(), max: MAX_BYTES });
    }
    let mut depth: usize = 0;
    let mut i: usize = 0;
    while i < b.len()
        invariant
            b@ == utf8(text@),
            b@.len() <= MAX_BYTES,
            i <= b@.len(),
            depth <= MAX_NESTING,
            first_too_deep(b@, 0, 0) == first_too_deep(b@, i as int, depth as nat),
        decreases b@.len() - i,
    {
        let c = b[i];
        if c == OPEN {
            if depth >= MAX_NESTING {
                return Err(ConfigError::TooDeep { line: line_number(b, i), max: MAX_NESTING });
            }
            depth = depth + 1;
            i = i + 1;
        } else if c == CLOSE {
            if depth > 0 {
                depth = depth - 1;
            }
            i = i + 1;
        } else if c == SLASH && i + 1 < b.len() && b[i + 1] == SLASH {
            // The `/` at `i` is no newline, so the comment ends past it.
            i = line_comment_end(b, i);
        } else if c == SLASH && i + 1 < b.len() && b[i + 1] == STAR {
            i = block_comment_end(b, i);
        } else if is_lines(b, i) {
            i = lines_end(b, i, 0);
        } else if c == QUOTE {
            i = string_end(b, i, 0);
        } else if c == HASH {
            // `#` opens a raw string (`#"..."#`) and also the keywords
            // `#true`, `#null` and their kin, which hold no braces.
            let hashes = hashes_at(b, i);
            let after = i + hashes;
            if is_lines(b, after) {
                i = lines_end(b, after, hashes);
            } else if after < b.len() && b[after] == QUOTE {
                i = string_end(b, after, hashes);
            } else {
                i = after;
            }
        } else {
            i = i + 1;
        }
    }
    Ok(())
}

} // verus!
