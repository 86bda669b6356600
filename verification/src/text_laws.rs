//! What holds of every text that is cut.

use vstd::prelude::*;

use crate::split::{join_with, lemma_split_parts, split_on};
use crate::text::{trimmed, trimmed_end, trimmed_start, white_space};

verus! {

/// Whether a text is white space alone.
pub open spec fn blank(s: Seq<char>) -> bool {
    forall|i: int| 0 <= i < s.len() ==> white_space(#[trigger] s[i])
}

pub proof fn lemma_trimmed_start(s: Seq<char>)
    ensures
        trimmed_start(s).len() <= s.len(),
        trimmed_start(s) == s.skip(s.len() - trimmed_start(s).len()),
        blank(s.take(s.len() - trimmed_start(s).len())),
        trimmed_start(s).len() > 0 ==> !white_space(trimmed_start(s)[0]),
    decreases s.len(),
{
    if s.len() > 0 && white_space(s[0]) {
        let rest = s.drop_first();
        lemma_trimmed_start(rest);
        let n = s.len() - trimmed_start(s).len();
        assert(s.skip(n) =~= rest.skip(n - 1));
        assert forall|i: int| 0 <= i < n implies white_space(#[trigger] s.take(n)[i]) by {
            if i > 0 {
                assert(rest.take(n - 1)[i - 1] == s[i]);
            }
        }
    } else {
        assert(s.skip(0) =~= s);
    }
}

pub proof fn lemma_trimmed_end(s: Seq<char>)
    ensures
        trimmed_end(s).len() <= s.len(),
        trimmed_end(s) == s.take(trimmed_end(s).len() as int),
        blank(s.skip(trimmed_end(s).len() as int)),
        trimmed_end(s).len() > 0 ==> !white_space(trimmed_end(s).last()),
    decreases s.len(),
{
    if s.len() > 0 && white_space(s.last()) {
        let rest = s.drop_last();
        lemma_trimmed_end(rest);
        let n = trimmed_end(s).len() as int;
        assert(s.take(n) =~= rest.take(n));
        assert forall|i: int| 0 <= i < s.len() - n implies white_space(#[trigger] s.skip(n)[i]) by {
            if i < rest.len() - n {
                assert(rest.skip(n)[i] == s[n + i]);
            }
        }
    } else {
        assert(s.take(s.len() as int) =~= s);
    }
}

/// Trimming takes the white space around a text and nothing else: what is left
/// begins and ends in none, and what was taken on either side is nothing but
/// that.
pub proof fn trimming_takes_the_white_space_around(s: Seq<char>)
    ensures
        exists|before: Seq<char>, after: Seq<char>|
            s == #[trigger] (before + trimmed(s) + after) && blank(before) && blank(after),
        trimmed(s).len() > 0 ==> !white_space(trimmed(s)[0]) && !white_space(trimmed(s).last()),
        trimmed(s).len() == 0 <==> blank(s),
{
    lemma_trimmed_start(s);
    let mid = trimmed_start(s);
    lemma_trimmed_end(mid);
    let before = s.take(s.len() - mid.len());
    let after = mid.skip(trimmed(s).len() as int);
    assert(s =~= before + trimmed(s) + after);
    if trimmed(s).len() > 0 {
        assert(trimmed(s)[0] == mid[0]);
        assert(s[before.len() as int] == trimmed(s)[0]);
    } else {
        assert forall|i: int| 0 <= i < s.len() implies white_space(#[trigger] s[i]) by {
            if i < before.len() {
                assert(before[i] == s[i]);
            } else {
                assert(after[i - before.len()] == s[i]);
            }
        }
    }
}

proof fn lemma_join_last<T>(parts: Seq<Seq<T>>, sep: T, t: T)
    requires
        parts.len() > 0,
    ensures
        join_with(parts.update(parts.len() - 1, parts.last().push(t)), sep) == join_with(
            parts,
            sep,
        ).push(t),
{
    let more = parts.update(parts.len() - 1, parts.last().push(t));
    assert(more.drop_last() =~= parts.drop_last());
    assert(join_with(more, sep) =~= join_with(parts, sep).push(t));
}

/// What is cut at a separator, put together with it, is what it was, and no
/// part has the separator in it: nothing is lost, and every separator is one.
pub proof fn what_is_split_can_be_joined<T>(s: Seq<T>, sep: T)
    ensures
        join_with(split_on(s, sep), sep) == s,
        split_on(s, sep).len() >= 1,
        forall|i: int|
            0 <= i < split_on(s, sep).len() ==> !(#[trigger] split_on(s, sep)[i]).contains(sep),
    decreases s.len(),
{
    lemma_split_parts(s, sep);
    if s.len() > 0 {
        let rest = s.drop_last();
        let parts = split_on(rest, sep);
        what_is_split_can_be_joined(rest, sep);
        if s.last() == sep {
            assert(split_on(s, sep).drop_last() =~= parts);
            assert(join_with(split_on(s, sep), sep) =~= s);
        } else {
            lemma_join_last(parts, sep, s.last());
            assert(join_with(split_on(s, sep), sep) =~= s);
        }
    } else {
        assert(join_with(split_on(s, sep), sep) =~= s);
    }
}

} // verus!
