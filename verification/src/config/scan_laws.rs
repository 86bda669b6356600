//! Where a token of a document ends, and how deep its braces stand.

use vstd::prelude::*;

use crate::config::bounds::{
    block_comment_stop, bounds_fault, first_too_deep, hash_run, line_comment_stop, line_of,
    lines_stop, newlines, string_stop, token_stop,
};
use crate::error::ConfigErrorView;
use crate::text::utf8;

verus! {

/// A run of `#` is as long as there are some, one after another.
pub proof fn a_run_of_hashes_is_all_of_them(b: Seq<u8>, i: int)
    requires
        0 <= i <= b.len(),
    ensures
        i + hash_run(b, i) <= b.len(),
        forall|k: int| i <= k < i + hash_run(b, i) ==> #[trigger] b[k] == 35,
        i + hash_run(b, i) < b.len() ==> b[i + hash_run(b, i)] != 35,
    decreases b.len() - i,
{
    if i < b.len() && b[i] == 35 {
        a_run_of_hashes_is_all_of_them(b, i + 1);
    }
}

/// A line comment ends at the first line feed, or with the text.
pub proof fn a_line_comment_ends_at_the_line_feed(b: Seq<u8>, i: int)
    requires
        0 <= i <= b.len(),
    ensures
        i <= line_comment_stop(b, i) <= b.len(),
        forall|k: int| i <= k < line_comment_stop(b, i) ==> #[trigger] b[k] != 10,
        line_comment_stop(b, i) < b.len() ==> b[line_comment_stop(b, i)] == 10,
    decreases b.len() - i,
{
    if i < b.len() && b[i] != 10 {
        a_line_comment_ends_at_the_line_feed(b, i + 1);
    }
}

/// Whether a raw string can end at a place: a quote and as many hashes as it
/// began with.
pub open spec fn raw_end(b: Seq<u8>, p: int, hashes: nat) -> bool {
    0 <= p < b.len() && b[p] == 34 && hash_run(b, p + 1) >= hashes
}

/// A raw string ends at the first quote with as many hashes after it as it
/// began with, a backslash is like any other character in it, and one that
/// does not end ends with the text.
pub proof fn a_raw_string_ends_with_its_hashes(b: Seq<u8>, i: int, hashes: nat)
    requires
        0 <= i <= b.len(),
        hashes > 0,
    ensures
        ({
            let stop = string_stop(b, i, hashes);
            ||| stop == b.len() && forall|p: int|
                i <= p < b.len() ==> !#[trigger] raw_end(b, p, hashes)
            ||| i <= stop - 1 - hashes && raw_end(b, stop - 1 - hashes, hashes) && forall|p: int|
                i <= p < stop - 1 - hashes ==> !#[trigger] raw_end(b, p, hashes)
        }),
    decreases b.len() - i,
{
    if i < b.len() && !raw_end(b, i, hashes) {
        a_raw_string_ends_with_its_hashes(b, i + 1, hashes);
    }
}

/// A string without a backslash ends after its first quote.
pub proof fn a_string_ends_at_its_quote(b: Seq<u8>, i: int, end: int)
    requires
        0 <= i <= end < b.len(),
        b[end] == 34,
        forall|k: int| i <= k < end ==> #[trigger] b[k] != 34 && b[k] != 92,
    ensures
        string_stop(b, i, 0) == end + 1,
    decreases end - i,
{
    if i < end {
        a_string_ends_at_its_quote(b, i + 1, end);
    }
}

/// What follows a backslash is in the string, whatever it is, a quote or
/// another backslash too; so a string goes on after it as from there.
pub proof fn an_escaped_character_ends_no_string(b: Seq<u8>, i: int)
    requires
        0 <= i,
        i + 1 < b.len(),
        b[i] == 92,
    ensures
        string_stop(b, i, 0) == string_stop(b, i + 2, 0),
        lines_stop(b, i, 0) == lines_stop(b, i + 2, 0),
{
}

/// Whether a string of lines can end at a place.
pub open spec fn lines_end(b: Seq<u8>, p: int, hashes: nat) -> bool {
    &&& 0 <= p
    &&& p + 2 < b.len()
    &&& b[p] == 34 && b[p + 1] == 34 && b[p + 2] == 34
    &&& hash_run(b, p + 3) >= hashes
}

/// A raw string of lines ends at the first three quotes with its hashes.
pub proof fn raw_lines_end_with_their_hashes(b: Seq<u8>, i: int, hashes: nat)
    requires
        0 <= i <= b.len(),
        hashes > 0,
    ensures
        ({
            let stop = lines_stop(b, i, hashes);
            ||| stop == b.len() && forall|p: int|
                i <= p < b.len() ==> !#[trigger] lines_end(b, p, hashes)
            ||| i <= stop - 3 - hashes && lines_end(b, stop - 3 - hashes, hashes) && forall|p: int|
                i <= p < stop - 3 - hashes ==> !#[trigger] lines_end(b, p, hashes)
        }),
    decreases b.len() - i,
{
    if i < b.len() && !lines_end(b, i, hashes) {
        raw_lines_end_with_their_hashes(b, i + 1, hashes);
    }
}

/// A block comment without another in it ends after its first `*/`.
pub proof fn a_block_comment_ends_at_its_close(b: Seq<u8>, i: int, end: int)
    requires
        0 <= i <= end,
        end + 1 < b.len(),
        b[end] == 42,
        b[end + 1] == 47,
        forall|k: int| i <= k < end ==> #[trigger] b[k] != 47 && b[k] != 42,
    ensures
        block_comment_stop(b, i, 1) == end + 2,
    decreases end - i,
{
    if i < end {
        a_block_comment_ends_at_its_close(b, i + 1, end);
    }
}

/// A comment inside a comment ends before the one it is in.
pub proof fn a_comment_in_a_comment_ends_first(b: Seq<u8>, i: int, open: nat, end: int)
    requires
        0 <= i <= end,
        end + 1 < b.len(),
        b[end] == 42,
        b[end + 1] == 47,
        forall|k: int| i <= k < end ==> #[trigger] b[k] != 47 && b[k] != 42,
    ensures
        block_comment_stop(b, i, open + 2) == block_comment_stop(b, end + 2, open + 1),
    decreases end - i,
{
    if i < end {
        a_comment_in_a_comment_ends_first(b, i + 1, open, end);
    }
}

/// Whether a text has no string, comment or hash in it.
pub open spec fn no_tokens(b: Seq<u8>) -> bool {
    forall|k: int| 0 <= k < b.len() ==> #[trigger] b[k] != 34 && b[k] != 47 && b[k] != 35
}

/// How many braces are open before a place.
pub open spec fn open_before(b: Seq<u8>, k: int) -> nat
    decreases k,
{
    if k <= 0 {
        0
    } else if b[k - 1] == 123 {
        open_before(b, k - 1) + 1
    } else if b[k - 1] == 125 && open_before(b, k - 1) > 0 {
        (open_before(b, k - 1) - 1) as nat
    } else {
        open_before(b, k - 1)
    }
}

proof fn lemma_too_deep(b: Seq<u8>, i: int)
    requires
        no_tokens(b),
        0 <= i <= b.len(),
    ensures
        match first_too_deep(b, i, open_before(b, i)) {
            None => forall|k: int|
                i <= k < b.len() ==> !(#[trigger] b[k] == 123 && open_before(b, k) >= 32),
            Some(at) => i <= at < b.len() && b[at] == 123 && open_before(b, at) >= 32 && forall|
                k: int,
            |
                i <= k < at ==> !(#[trigger] b[k] == 123 && open_before(b, k) >= 32),
        },
    decreases b.len() - i,
{
    if i < b.len() {
        assert(b[i] != 34 && b[i] != 47 && b[i] != 35);
        if !(b[i] == 123 && open_before(b, i) >= 32) {
            lemma_too_deep(b, i + 1);
        }
    }
}

/// Braces stand too deep exactly where one is opened with 32 open before it,
/// and the first such is told; this of a text with no string and no comment.
pub proof fn braces_are_too_deep_where_thirty_two_are_open(b: Seq<u8>)
    requires
        no_tokens(b),
    ensures
        match first_too_deep(b, 0, 0) {
            None => forall|k: int|
                0 <= k < b.len() ==> !(#[trigger] b[k] == 123 && open_before(b, k) >= 32),
            Some(at) => 0 <= at < b.len() && b[at] == 123 && open_before(b, at) >= 32 && forall|
                k: int,
            |
                0 <= k < at ==> !(#[trigger] b[k] == 123 && open_before(b, k) >= 32),
        },
{
    lemma_too_deep(b, 0);
}

/// What stands in a token opens no brace: a scan goes on behind it as deep as
/// it was.
pub proof fn a_token_opens_no_brace(b: Seq<u8>, i: int, depth: nat)
    requires
        0 <= i < b.len(),
        b[i] == 34 || b[i] == 47 || b[i] == 35,
        i < token_stop(b, i) <= b.len(),
    ensures
        first_too_deep(b, i, depth) == first_too_deep(b, token_stop(b, i), depth),
{
}

/// Lines are counted by their line feeds: of two texts one after the other
/// there are as many as of both.
pub proof fn line_feeds_are_counted_once_each(a: Seq<u8>, b: Seq<u8>)
    ensures
        newlines(a + b) == newlines(a) + newlines(b),
        newlines(seq![10u8]) == 1,
        !a.contains(10u8) ==> newlines(a) == 0,
    decreases a.len() + b.len(),
{
    assert(seq![10u8].drop_last() =~= Seq::empty());
    assert(newlines(Seq::<u8>::empty()) == 0);
    if b.len() > 0 {
        line_feeds_are_counted_once_each(a, b.drop_last());
        assert((a + b).drop_last() =~= a + b.drop_last());
        assert((a + b).last() == b.last());
    } else {
        assert(a + b =~= a);
        if a.len() > 0 {
            line_feeds_are_counted_once_each(a.drop_last(), b);
            if !a.contains(10u8) {
                assert(a.contains(a.last()));
                assert(!a.drop_last().contains(10u8)) by {
                    if a.drop_last().contains(10u8) {
                        let k = a.drop_last().index_of(10u8);
                        assert(a[k] == 10u8);
                    }
                }
            }
        }
    }
}

/// The line of an offset counts from one: it is the number of line feeds
/// before it and one more, wherever that can be told.
pub proof fn a_line_is_counted_from_one(text: Seq<char>, offset: nat)
    ensures
        line_of(text, offset) matches Some(line) ==> line == newlines(
            utf8(text).take(offset as int),
        ) + 1,
        line_of(text, 0) matches Some(line) ==> line == 1,
{
    assert(utf8(text).take(0) =~= Seq::empty());
}

/// A text is refused for its size before anything else, with its size; and for
/// its depth with the line of the brace.
pub proof fn a_text_is_refused_with_what_it_is(text: Seq<char>)
    ensures
        ({
            let b = utf8(text);
            &&& b.len() > 1048576 ==> bounds_fault(text) == Some(
                ConfigErrorView::TooLarge { bytes: b.len(), max: 1048576 },
            )
            &&& b.len() <= 1048576 ==> match first_too_deep(b, 0, 0) {
                None => bounds_fault(text) is None,
                Some(at) => bounds_fault(text) == Some(
                    ConfigErrorView::TooDeep {
                        line: (newlines(b.take(at)) + 1) as u32,
                        max: 32,
                    },
                ),
            }
        }),
{
}

} // verus!
