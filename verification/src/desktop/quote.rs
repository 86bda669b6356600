//! The program an `Exec` value runs, and a program written as one argument of
//! such a value.

use vstd::prelude::*;

use crate::desktop::entry::trim_left;
use crate::text::{chars_of, maybe, text_of, trimmed_start};

verus! {

/// What is left of a quoted argument from `i` on, where `out` was read
/// already: a backslash takes the character after it as it is, a quote ends
/// the argument, and one that is never ended is no command line anything can
/// run.
pub open spec fn unquoted(s: Seq<char>, i: int, escaped: bool, out: Seq<char>) -> Option<Seq<char>>
    decreases s.len() - i,
{
    if i < 0 || i >= s.len() {
        None
    } else if !escaped && s[i] == '\\' {
        unquoted(s, i + 1, true, out)
    } else if !escaped && s[i] == '"' {
        Some(out)
    } else {
        unquoted(s, i + 1, false, out.push(s[i]))
    }
}

/// Whether a character ends a word: the white space of ASCII.
pub open spec fn ends_word(c: char) -> bool {
    c == ' ' || c == '\t' || c == '\n' || c == '\x0c' || c == '\r'
}

/// The index of the first white space of ASCII from `i` on, or the length.
pub open spec fn word_end(s: Seq<char>, i: int) -> int
    decreases s.len() - i,
{
    if i < 0 || i >= s.len() {
        s.len() as int
    } else if ends_word(s[i]) {
        i
    } else {
        word_end(s, i + 1)
    }
}

/// The program a command line runs, unquoted: its first argument.
pub open spec fn program_of(value: Seq<char>) -> Option<Seq<char>> {
    let s = trimmed_start(value);
    if s.len() == 0 {
        None
    } else if s[0] == '"' {
        unquoted(s, 1, false, Seq::empty())
    } else {
        Some(s.take(word_end(s, 0)))
    }
}

/// The program an `Exec` value runs, unquoted. Only the first argument is
/// read, which is the one a launcher has to find on `PATH` before it will
/// show the entry at all.
pub fn exec_program(value: &str) -> (r: Option<String>)
    ensures
        maybe(r) == program_of(value@),
{
    let given = chars_of(value);
    let trimmed = trim_left(&given);
    let s = chars_of(&trimmed);
    let ghost all = trimmed_start(value@);
    if s.len() == 0 {
        return None;
    }
    if s[0] == '"' {
        let mut out = String::new();
        let mut escaped = false;
        let mut i: usize = 1;
        assert(out@ =~= Seq::empty());
        while i < s.len()
            invariant
                s@ == all,
                all == trimmed_start(value@),
                all[0] == '"',
                1 <= i <= s@.len(),
                unquoted(all, 1, false, Seq::empty()) == unquoted(all, i as int, escaped, out@),
            decreases s@.len() - i,
        {
            let c = s[i];
            if !escaped && c == '\\' {
                escaped = true;
            } else if !escaped && c == '"' {
                return Some(out);
            } else {
                out.push(c);
                escaped = false;
            }
            i = i + 1;
        }
        return None;
    }
    let mut end: usize = 0;
    while end < s.len() && !is_word_end(s[end])
        invariant
            s@ == all,
            end <= s@.len(),
            word_end(all, 0) == word_end(all, end as int),
        decreases s@.len() - end,
    {
        end = end + 1;
    }
    let cut = vstd::slice::slice_subrange(s.as_slice(), 0, end);
    assert(cut@ =~= all.take(end as int));
    Some(text_of(cut))
}

fn is_word_end(c: char) -> (r: bool)
    ensures
        r == ends_word(c),
{
    c == ' ' || c == '\t' || c == '\n' || c == '\x0c' || c == '\r'
}

/// Whether a character is one an argument has to be quoted for.
pub open spec fn reserved(c: char) -> bool {
    ||| c == ' '
    ||| c == '\t'
    ||| c == '\n'
    ||| c == '"'
    ||| c == '\''
    ||| c == '\\'
    ||| c == '>'
    ||| c == '<'
    ||| c == '~'
    ||| c == '|'
    ||| c == '&'
    ||| c == ';'
    ||| c == '$'
    ||| c == '*'
    ||| c == '?'
    ||| c == '#'
    ||| c == '('
    ||| c == ')'
    ||| c == '`'
}

/// Whether a text holds a character it has to be quoted for.
pub open spec fn has_reserved(s: Seq<char>) -> bool {
    exists|i: int| 0 <= i < s.len() && reserved(#[trigger] s[i])
}

/// Whether a character is written with a backslash between quotes.
pub open spec fn needs_escape(c: char) -> bool {
    c == '"' || c == '`' || c == '$' || c == '\\'
}

/// A text with every percent sign twice.
pub open spec fn doubled(s: Seq<char>) -> Seq<char>
    decreases s.len(),
{
    if s.len() == 0 {
        Seq::empty()
    } else if s.last() == '%' {
        doubled(s.drop_last()).push('%').push('%')
    } else {
        doubled(s.drop_last()).push(s.last())
    }
}

/// A text with a backslash before every character that needs one.
pub open spec fn escaped(s: Seq<char>) -> Seq<char>
    decreases s.len(),
{
    if s.len() == 0 {
        Seq::empty()
    } else if needs_escape(s.last()) {
        escaped(s.drop_last()).push('\\').push(s.last())
    } else {
        escaped(s.drop_last()).push(s.last())
    }
}

/// A text as one argument of a command line.
pub open spec fn quoted_arg(value: Seq<char>) -> Seq<char> {
    let plain = doubled(value);
    if has_reserved(plain) {
        seq!['"'] + escaped(plain) + seq!['"']
    } else {
        plain
    }
}

fn is_reserved(c: char) -> (r: bool)
    ensures
        r == reserved(c),
{
    match c {
        ' ' | '\t' | '\n' | '"' | '\'' | '\\' | '>' | '<' | '~' | '|' | '&' | ';' | '$' | '*'
        | '?' | '#' | '(' | ')' | '`' => true,
        _ => false,
    }
}

/// `value` as one argument of an `Exec` value: quoted only where it holds a
/// reserved character, since a quoted argument is also where a field code
/// would stop expanding. A literal percent is written `%%`; a single one is
/// the start of a field code, and a launcher would expand or drop it.
pub fn exec_quote(value: &str) -> (r: String)
    ensures
        r@ == quoted_arg(value@),
{
    let given = chars_of(value);
    let mut plain: Vec<char> = Vec::new();
    let mut found = false;
    let mut i: usize = 0;
    assert(given@.take(0) =~= Seq::empty());
    assert(plain@ =~= Seq::empty());
    while i < given.len()
        invariant
            i <= given@.len(),
            plain@ == doubled(given@.take(i as int)),
            found == has_reserved(plain@),
        decreases given@.len() - i,
    {
        let c = given[i];
        let ghost before = plain@;
        assert(given@.take(i + 1).drop_last() =~= given@.take(i as int));
        assert(given@.take(i + 1).last() == c);
        plain.push(c);
        if c == '%' {
            plain.push('%');
        }
        assert(has_reserved(plain@) == (has_reserved(before) || reserved(c))) by {
            assert(plain@[before.len() as int] == c);
            if has_reserved(before) {
                let j = choose|j: int| 0 <= j < before.len() && reserved(#[trigger] before[j]);
                assert(plain@[j] == before[j]);
            }
            assert forall|j: int| 0 <= j < plain@.len() && reserved(#[trigger] plain@[j]) implies
                has_reserved(before) || reserved(c) by {
                if j < before.len() {
                    assert(plain@[j] == before[j]);
                }
            }
        }
        if is_reserved(c) {
            found = true;
        }
        i = i + 1;
    }
    assert(given@.take(i as int) =~= value@);
    if !found {
        return text_of(&plain);
    }
    let mut out = String::new();
    out.push('"');
    i = 0;
    assert(plain@.take(0) =~= Seq::empty());
    assert(out@ =~= seq!['"'] + escaped(plain@.take(0)));
    while i < plain.len()
        invariant
            i <= plain@.len(),
            out@ == seq!['"'] + escaped(plain@.take(i as int)),
        decreases plain@.len() - i,
    {
        let c = plain[i];
        assert(plain@.take(i + 1).drop_last() =~= plain@.take(i as int));
        assert(plain@.take(i + 1).last() == c);
        if c == '"' || c == '`' || c == '$' || c == '\\' {
            out.push('\\');
        }
        out.push(c);
        i = i + 1;
        assert(out@ =~= seq!['"'] + escaped(plain@.take(i as int)));
    }
    assert(plain@.take(i as int) =~= plain@);
    out.push('"');
    assert(out@ =~= quoted_arg(value@));
    out
}

proof fn lemma_unquoted(s: Seq<char>, plain: Seq<char>, n: int)
    requires
        0 <= n <= plain.len(),
        s == seq!['"'] + escaped(plain) + seq!['"'],
    ensures
        unquoted(s, 1, false, Seq::empty()) == unquoted(
            s,
            1 + escaped(plain.take(n)).len() as int,
            false,
            plain.take(n),
        ),
        escaped(plain.take(n)).len() <= escaped(plain).len(),
        escaped(plain).take(escaped(plain.take(n)).len() as int) == escaped(plain.take(n)),
    decreases n,
{
    lemma_escaped_prefix(plain, n);
    if n > 0 {
        lemma_unquoted(s, plain, n - 1);
        lemma_escaped_prefix(plain, n - 1);
        let c = plain[n - 1];
        let at = 1 + escaped(plain.take(n - 1)).len() as int;
        let now = escaped(plain.take(n));
        assert(plain.take(n).drop_last() =~= plain.take(n - 1));
        assert(plain.take(n).last() == c);
        assert(plain.take(n) =~= plain.take(n - 1).push(c));
        assert forall|j: int| 0 <= j < now.len() implies #[trigger] s[1 + j] == now[j] by {
            assert(escaped(plain).take(now.len() as int)[j] == escaped(plain)[j]);
        }
        if needs_escape(c) {
            assert(s[at] == '\\') by {
                assert(s[1 + (at - 1)] == now[at - 1]);
            }
            assert(s[at + 1] == c) by {
                assert(s[1 + at] == now[at]);
            }
            reveal_with_fuel(unquoted, 3);
        } else {
            assert(s[at] == c) by {
                assert(s[1 + (at - 1)] == now[at - 1]);
            }
        }
    } else {
        assert(plain.take(0) =~= Seq::empty());
        assert(escaped(plain.take(0)) =~= Seq::empty());
    }
}

proof fn lemma_escaped_prefix(s: Seq<char>, n: int)
    requires
        0 <= n <= s.len(),
    ensures
        escaped(s.take(n)).len() <= escaped(s).len(),
        escaped(s).take(escaped(s.take(n)).len() as int) == escaped(s.take(n)),
    decreases s.len(),
{
    if n == s.len() {
        assert(s.take(n) =~= s);
        assert(escaped(s).take(escaped(s).len() as int) =~= escaped(s));
    } else {
        let rest = s.drop_last();
        lemma_escaped_prefix(rest, n);
        assert(rest.take(n) =~= s.take(n));
        let short = escaped(s.take(n));
        assert(escaped(s).take(short.len() as int) =~= escaped(rest).take(short.len() as int));
    }
}

proof fn lemma_word_end(s: Seq<char>, i: int)
    requires
        0 <= i <= s.len(),
        forall|j: int| i <= j < s.len() ==> !ends_word(#[trigger] s[j]),
    ensures
        word_end(s, i) == s.len(),
    decreases s.len() - i,
{
    if i < s.len() {
        lemma_word_end(s, i + 1);
    }
}

/// A program written as one argument is the program the command line runs,
/// but that its percent signs are doubled, which is how a command line spells
/// them. Left out are the programs no command line can name without quotes
/// they are not given: none at all, and one without a reserved character that
/// begins with white space or holds a carriage return or a form feed. A space,
/// a tab and a line feed are reserved, so a program that begins with one is
/// quoted and runs.
pub proof fn a_quoted_program_is_the_one_that_runs(program: Seq<char>)
    requires
        program.len() > 0,
        has_reserved(program) || !crate::text::white_space(program[0]) && !program.contains('\r')
            && !program.contains('\x0c'),
    ensures
        program_of(quoted_arg(program)) == Some(doubled(program)),
{
    let plain = doubled(program);
    let arg = quoted_arg(program);
    lemma_doubled(program);
    if has_reserved(program) {
        let i = choose|i: int| 0 <= i < program.len() && reserved(#[trigger] program[i]);
        lemma_kept(program, i);
        let j = choose|j: int| 0 <= j < plain.len() && plain[j] == program[i];
        assert(reserved(plain[j]));
    }
    if has_reserved(plain) {
        lemma_unquoted(arg, plain, plain.len() as int);
        assert(plain.take(plain.len() as int) =~= plain);
        assert(trimmed_start(arg) == arg) by {
            assert(arg[0] == '"');
        }
        assert(arg[1 + escaped(plain).len() as int] == '"');
    } else {
        assert(trimmed_start(arg) == arg);
        assert forall|j: int| 0 <= j < plain.len() implies !ends_word(#[trigger] plain[j]) by {
            assert(!reserved(plain[j]));
            assert(plain.contains(plain[j]));
        }
        assert(plain[0] != '"') by {
            assert(!reserved(plain[0]));
        }
        lemma_word_end(plain, 0);
        assert(plain.take(plain.len() as int) =~= plain);
    }
}

/// Doubling percent signs drops no character.
pub proof fn lemma_kept(s: Seq<char>, i: int)
    requires
        0 <= i < s.len(),
    ensures
        doubled(s).contains(s[i]),
    decreases s.len(),
{
    let all = doubled(s);
    let rest = doubled(s.drop_last());
    if i == s.len() - 1 {
        assert(all.last() == s[i]);
        assert(all[all.len() - 1] == s[i]);
    } else {
        lemma_kept(s.drop_last(), i);
        let j = choose|j: int| 0 <= j < rest.len() && rest[j] == s[i];
        assert(all[j] == rest[j]);
    }
}

proof fn lemma_doubled(s: Seq<char>)
    requires
        s.len() > 0,
    ensures
        doubled(s).len() > 0,
        doubled(s)[0] == s[0],
        forall|j: int| 0 <= j < doubled(s).len() ==> s.contains(#[trigger] doubled(s)[j]),
    decreases s.len(),
{
    let rest = s.drop_last();
    let all = doubled(s);
    if rest.len() > 0 {
        lemma_doubled(rest);
        assert forall|j: int| 0 <= j < all.len() implies s.contains(#[trigger] all[j]) by {
            if j < doubled(rest).len() {
                assert(all[j] == doubled(rest)[j]);
                let k = choose|k: int| 0 <= k < rest.len() && rest[k] == all[j];
                assert(s[k] == all[j]);
            } else {
                assert(s[s.len() - 1] == all[j]);
            }
        }
    } else {
        assert(doubled(rest) =~= Seq::empty());
        assert forall|j: int| 0 <= j < all.len() implies s.contains(#[trigger] all[j]) by {
            assert(s[0] == all[j]);
        }
    }
}

} // verus!
