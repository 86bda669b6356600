//! A generated entry says whose it is.

use vstd::prelude::*;

use crate::dbus::identity::instance_name;
use crate::dbus_wire::encode::word_char;
use crate::desktop::entry::{
    entry_header, entry_lines, head_of, header_of, index_from, key_base, key_value, lemma_contains,
    lemma_entry_header, lemma_index_from, lemma_next_header, lemma_value_skip, lines_of,
    next_header, value_of, without_cr, ENTRY_GROUP, MARKER,
};
use crate::desktop::laws::{
    bodies, has_key, lemma_cr_key, lemma_key, lemma_keys, lemma_not_a_name, lemma_one_line_concat,
    lemma_prefix, lemma_raw_lines, lemma_source_group, lemma_trimmed_end, lemma_written, one_line,
};
use crate::desktop::patch::{
    added_lines, group_end, has_crlf, has_final_newline, in_entry, launch_of, line_end, lines_for,
    lines_until, patch_of, patched_line, patched_lines, patched_text, patching, raw_lines,
    rewritten, state_at, SUFFIX,
};
use crate::desktop::quote::{doubled, escaped, lemma_kept, needs_escape, reserved};
use crate::error::DesktopErrorView;
use crate::split::{join_with, lemma_split_concat, lemma_split_parts, lemma_split_plain, split_on};
use crate::text::{trimmed_end, trimmed_start, white_space};

verus! {

/// How far a reader that looks for the marker of the first main group has
/// come.
pub enum Seen {
    /// No main group yet.
    Before,
    /// In the first one.
    Inside,
    /// The marker, and its value.
    Found(Seq<char>),
    /// Behind the first one.
    Past,
}

/// What a reader knows once it has read a line.
pub open spec fn see(seen: Seen, line: Seq<char>) -> Seen {
    match seen {
        Seen::Before => if header_of(line) == Some(ENTRY_GROUP@) {
            Seen::Inside
        } else {
            Seen::Before
        },
        Seen::Inside => if header_of(line) is Some {
            Seen::Past
        } else {
            match key_value(line) {
                Some((key, value)) if key == MARKER@ => Seen::Found(value),
                _ => Seen::Inside,
            }
        },
        other => other,
    }
}

/// What a reader knows once it has read some lines.
pub open spec fn see_all(seen: Seen, lines: Seq<Seq<char>>) -> Seen
    decreases lines.len(),
{
    if lines.len() == 0 {
        seen
    } else {
        see(see_all(seen, lines.drop_last()), lines.last())
    }
}

/// Whether a line is nothing to such a reader: it opens no group and does not
/// set the marker.
pub open spec fn calm(line: Seq<char>) -> bool {
    header_of(line) is None && match key_value(line) {
        Some((key, _)) => key != MARKER@,
        None => true,
    }
}

proof fn lemma_see_more(seen: Seen, a: Seq<Seq<char>>, b: Seq<Seq<char>>)
    ensures
        see_all(seen, a + b) == see_all(see_all(seen, a), b),
    decreases b.len(),
{
    if b.len() == 0 {
        assert(a + b =~= a);
    } else {
        assert((a + b).drop_last() =~= a + b.drop_last());
        assert((a + b).last() == b.last());
        lemma_see_more(seen, a, b.drop_last());
    }
}

proof fn lemma_see_calm(seen: Seen, lines: Seq<Seq<char>>)
    requires
        forall|i: int| 0 <= i < lines.len() ==> calm(#[trigger] lines[i]),
    ensures
        see_all(seen, lines) == seen,
    decreases lines.len(),
{
    if lines.len() > 0 {
        let rest = lines.drop_last();
        assert forall|i: int| 0 <= i < rest.len() implies calm(#[trigger] rest[i]) by {
            assert(rest[i] == lines[i]);
        }
        lemma_see_calm(seen, rest);
        assert(calm(lines[lines.len() - 1]));
    }
}

proof fn lemma_see_before(lines: Seq<Seq<char>>)
    requires
        forall|i: int|
            0 <= i < lines.len() ==> header_of(#[trigger] lines[i]) != Some(ENTRY_GROUP@),
    ensures
        see_all(Seen::Before, lines) == Seen::Before,
    decreases lines.len(),
{
    if lines.len() > 0 {
        let rest = lines.drop_last();
        assert forall|i: int| 0 <= i < rest.len() implies header_of(#[trigger] rest[i]) != Some(
            ENTRY_GROUP@,
        ) by {
            assert(rest[i] == lines[i]);
        }
        lemma_see_before(rest);
        assert(header_of(lines[lines.len() - 1]) != Some(ENTRY_GROUP@));
    }
}

proof fn lemma_see_found(value: Seq<char>, lines: Seq<Seq<char>>)
    ensures
        see_all(Seen::Found(value), lines) == Seen::Found(value),
    decreases lines.len(),
{
    if lines.len() > 0 {
        lemma_see_found(value, lines.drop_last());
    }
}

/// What is known of lines once the first of them were read.
spec fn seen_so(lines: Seq<Seq<char>>, seen: Seen) -> bool {
    match seen {
        Seen::Before => forall|j: int|
            0 <= j < lines.len() ==> header_of(#[trigger] lines[j]) != Some(ENTRY_GROUP@),
        Seen::Inside => exists|a: int| #[trigger] group_so_far(lines, a, lines.len() as int),
        Seen::Found(value) => exists|a: int, m: int|
            #[trigger] group_so_far(lines, a, m) && m < lines.len() && header_of(lines[m]) is None
                && key_value(lines[m]) == Some((MARKER@, value)),
        Seen::Past => true,
    }
}

/// Whether the first main group begins at `a` and holds only calm lines up to
/// `n`.
spec fn group_so_far(lines: Seq<Seq<char>>, a: int, n: int) -> bool {
    &&& 0 <= a < n <= lines.len()
    &&& header_of(lines[a]) == Some(ENTRY_GROUP@)
    &&& forall|j: int| 0 <= j < a ==> header_of(#[trigger] lines[j]) != Some(ENTRY_GROUP@)
    &&& forall|j: int| a < j < n ==> calm(#[trigger] lines[j])
}

proof fn lemma_group_grows(lines: Seq<Seq<char>>, line: Seq<char>, a: int, n: int)
    requires
        group_so_far(lines, a, n),
    ensures
        group_so_far(lines.push(line), a, n),
        n == lines.len() && calm(line) ==> group_so_far(lines.push(line), a, n + 1),
{
    let all = lines.push(line);
    assert forall|j: int| 0 <= j < a implies header_of(#[trigger] all[j]) != Some(
        ENTRY_GROUP@,
    ) by {
        assert(all[j] == lines[j]);
    }
    assert forall|j: int| a < j < n implies calm(#[trigger] all[j]) by {
        assert(all[j] == lines[j]);
    }
    if n == lines.len() && calm(line) {
        assert forall|j: int| a < j < n + 1 implies calm(#[trigger] all[j]) by {
            if j < n {
                assert(all[j] == lines[j]);
            }
        }
    }
}

proof fn lemma_seen_so(lines: Seq<Seq<char>>)
    ensures
        seen_so(lines, see_all(Seen::Before, lines)),
    decreases lines.len(),
{
    if lines.len() > 0 {
        let rest = lines.drop_last();
        let line = lines.last();
        lemma_seen_so(rest);
        assert(rest.push(line) =~= lines);
        match see_all(Seen::Before, rest) {
            Seen::Before => {
                assert forall|j: int| 0 <= j < rest.len() implies header_of(#[trigger] lines[j])
                    != Some(ENTRY_GROUP@) by {
                    assert(lines[j] == rest[j]);
                }
                if header_of(line) == Some(ENTRY_GROUP@) {
                    assert(group_so_far(lines, rest.len() as int, lines.len() as int));
                }
            },
            Seen::Inside => {
                let a = choose|a: int| #[trigger] group_so_far(rest, a, rest.len() as int);
                lemma_group_grows(rest, line, a, rest.len() as int);
            },
            Seen::Found(value) => {
                let (a, m) = choose|a: int, m: int|
                    #[trigger] group_so_far(rest, a, m) && m < rest.len() && header_of(rest[m])
                        is None && key_value(rest[m]) == Some((MARKER@, value));
                lemma_group_grows(rest, line, a, m);
                assert(lines[m] == rest[m]);
            },
            Seen::Past => {},
        }
    }
}

/// What such a reader finds is the marker of the first main group.
proof fn lemma_found(lines: Seq<Seq<char>>, value: Seq<char>)
    requires
        see_all(Seen::Before, lines) == Seen::Found(value),
    ensures
        value_of(entry_lines(lines), MARKER@) == Some(value),
{
    lemma_seen_so(lines);
    let (a, m) = choose|a: int, m: int|
        #[trigger] group_so_far(lines, a, m) && m < lines.len() && header_of(lines[m]) is None
            && key_value(lines[m]) == Some((MARKER@, value));
    lemma_entry_header(lines, 0);
    let at = entry_header(lines, 0);
    assert(at == a) by {
        if at < a {
            assert(header_of(lines[at]) == Some(ENTRY_GROUP@));
        } else if at > a {
            assert(header_of(lines[a]) != Some(ENTRY_GROUP@));
        }
    }
    lemma_next_header(lines, a + 1);
    let end = next_header(lines, a + 1);
    assert(end > m) by {
        if end < m {
            assert(header_of(lines[end]) is Some);
            assert(calm(lines[end]));
        } else if end == m {
            assert(header_of(lines[end]) is Some);
        }
    }
    let group = entry_lines(lines);
    assert(group == lines.subrange(a + 1, end));
    assert forall|k: int| 0 <= k < m - a - 1 implies match key_value(#[trigger] group[k]) {
        Some((key, _)) => key != MARKER@,
        None => true,
    } by {
        assert(group[k] == lines[k + a + 1]);
        assert(calm(lines[k + a + 1]));
    }
    lemma_value_skip(group, MARKER@, 0, m - a - 1);
    assert(group[m - a - 1] == lines[m]);
}

/// The lines that texts with line feeds in them are, one after the other.
pub open spec fn flat(texts: Seq<Seq<char>>, n: int) -> Seq<Seq<char>>
    decreases n,
{
    if n <= 0 {
        Seq::empty()
    } else {
        flat(texts, n - 1) + split_on(texts[n - 1], '\n')
    }
}

proof fn lemma_flat_prefix(a: Seq<Seq<char>>, b: Seq<Seq<char>>, n: int)
    requires
        n <= a.len(),
        n <= b.len(),
        forall|i: int| 0 <= i < n ==> #[trigger] a[i] == b[i],
    ensures
        flat(a, n) == flat(b, n),
    decreases n,
{
    if n > 0 {
        lemma_flat_prefix(a, b, n - 1);
        assert(a[n - 1] == b[n - 1]);
    }
}

proof fn lemma_flat_more(a: Seq<Seq<char>>, b: Seq<Seq<char>>, n: int)
    requires
        0 <= n <= b.len(),
    ensures
        flat(a + b, a.len() + n) == flat(a, a.len() as int) + flat(b, n),
    decreases n,
{
    let all = a + b;
    if n == 0 {
        assert forall|i: int| 0 <= i < a.len() implies #[trigger] all[i] == a[i] by {}
        lemma_flat_prefix(all, a, a.len() as int);
        assert(flat(a, a.len() as int) + flat(b, 0) =~= flat(a, a.len() as int));
    } else {
        lemma_flat_more(a, b, n - 1);
        assert(all[a.len() + n - 1] == b[n - 1]);
        assert(flat(all, a.len() + n) =~= flat(a, a.len() as int) + flat(b, n));
    }
}

proof fn lemma_split_joined(texts: Seq<Seq<char>>)
    requires
        texts.len() > 0,
    ensures
        split_on(join_with(texts, '\n'), '\n') == flat(texts, texts.len() as int),
    decreases texts.len(),
{
    let n = texts.len() as int;
    if n == 1 {
        reveal_with_fuel(flat, 2);
        assert(flat(texts, 1) =~= split_on(texts[0], '\n'));
    } else {
        let rest = texts.drop_last();
        lemma_split_joined(rest);
        lemma_split_concat(join_with(rest, '\n'), '\n', texts.last());
        assert forall|i: int| 0 <= i < n - 1 implies #[trigger] rest[i] == texts[i] by {}
        lemma_flat_prefix(rest, texts, n - 1);
    }
}

proof fn lemma_bodies_more(a: Seq<Seq<char>>, b: Seq<Seq<char>>)
    ensures
        bodies(a + b) == bodies(a) + bodies(b),
{
    assert(bodies(a + b) =~= bodies(a) + bodies(b));
}

/// Text behind the last line of another.
proof fn lemma_split_append(a: Seq<char>, b: Seq<char>)
    requires
        one_line(b),
    ensures
        split_on(a + b, '\n') == split_on(a, '\n').update(
            split_on(a, '\n').len() - 1,
            split_on(a, '\n').last() + b,
        ),
    decreases b.len(),
{
    let parts = split_on(a, '\n');
    lemma_split_parts(a, '\n');
    let n = parts.len() - 1;
    if b.len() == 0 {
        assert(a + b =~= a);
        assert(parts.last() + b =~= parts.last());
        assert(parts.update(n, parts.last() + b) =~= parts);
    } else {
        let rest = b.drop_last();
        assert forall|i: int| 0 <= i < rest.len() implies rest[i] != '\n' by {
            assert(b.contains(b[i]));
        }
        assert(b.contains(b[b.len() - 1]));
        lemma_split_append(a, rest);
        assert((a + b).drop_last() =~= a + rest);
        let so_far = split_on(a + rest, '\n');
        assert((parts.last() + rest).push(b.last()) =~= parts.last() + b);
        assert(split_on(a + b, '\n') =~= parts.update(n, parts.last() + b));
    }
}

/// Text before the first line of another.
proof fn lemma_split_prepend(a: Seq<char>, b: Seq<char>)
    requires
        one_line(a),
    ensures
        split_on(a + b, '\n') == split_on(b, '\n').update(0, a + split_on(b, '\n')[0]),
    decreases b.len(),
{
    let parts = split_on(b, '\n');
    lemma_split_parts(b, '\n');
    if b.len() == 0 {
        lemma_split_plain(a, '\n');
        assert(a + b =~= a);
        assert(a + parts[0] =~= a);
        assert(split_on(a + b, '\n') =~= parts.update(0, a + parts[0]));
    } else {
        let rest = b.drop_last();
        lemma_split_prepend(a, rest);
        lemma_split_parts(rest, '\n');
        assert((a + b).drop_last() =~= a + rest);
        let so_far = split_on(rest, '\n');
        let n = so_far.len() - 1;
        if b.last() == '\n' {
            assert(split_on(a + b, '\n') =~= parts.update(0, a + parts[0]));
        } else {
            if n == 0 {
                assert((a + so_far[0]).push(b.last()) =~= a + so_far[0].push(b.last()));
            }
            assert(split_on(a + b, '\n') =~= parts.update(0, a + parts[0]));
        }
    }
}

/// A text as it stands between quotes on a command line.
spec fn enc(s: Seq<char>) -> Seq<char> {
    escaped(doubled(s))
}

/// One character of it.
spec fn code(c: char) -> Seq<char> {
    if c == '%' {
        seq!['%', '%']
    } else if needs_escape(c) {
        seq!['\\', c]
    } else {
        seq![c]
    }
}

proof fn lemma_enc_push(s: Seq<char>, c: char)
    ensures
        enc(s.push(c)) == enc(s) + code(c),
{
    let all = s.push(c);
    assert(all.drop_last() =~= s);
    let d = doubled(s);
    if c == '%' {
        assert(d.push('%').push('%').drop_last() =~= d.push('%'));
        assert(d.push('%').drop_last() =~= d);
        reveal_with_fuel(escaped, 3);
        assert(enc(all) =~= enc(s) + code(c));
    } else {
        assert(d.push(c).drop_last() =~= d);
        assert(enc(all) =~= enc(s) + code(c));
    }
}

proof fn lemma_enc_join(a: Seq<char>, b: Seq<char>)
    ensures
        enc(a + b) == enc(a) + enc(b),
    decreases b.len(),
{
    if b.len() == 0 {
        assert(a + b =~= a);
        assert(enc(b) =~= Seq::empty());
        assert(enc(a) + enc(b) =~= enc(a));
    } else {
        let rest = b.drop_last();
        lemma_enc_join(a, rest);
        lemma_enc_push(a + rest, b.last());
        lemma_enc_push(rest, b.last());
        assert((a + rest).push(b.last()) =~= a + b);
        assert(rest.push(b.last()) =~= b);
        assert(enc(a + b) =~= enc(a) + enc(b));
    }
}

/// The lines of what stands between quotes are the program's lines, each as it
/// stands there.
proof fn lemma_enc_lines(s: Seq<char>)
    ensures
        split_on(enc(s), '\n').len() == split_on(s, '\n').len(),
        forall|r: int|
            0 <= r < split_on(s, '\n').len() ==> #[trigger] split_on(enc(s), '\n')[r] == enc(
                split_on(s, '\n')[r],
            ),
    decreases s.len(),
{
    let parts = split_on(s, '\n');
    let out = split_on(enc(s), '\n');
    if s.len() == 0 {
        assert(enc(s) =~= Seq::empty());
        assert(s =~= Seq::empty());
    } else {
        let rest = s.drop_last();
        let c = s.last();
        lemma_enc_lines(rest);
        lemma_enc_push(rest, c);
        assert(rest.push(c) =~= s);
        lemma_split_parts(rest, '\n');
        lemma_split_parts(enc(rest), '\n');
        let before = split_on(rest, '\n');
        let encoded = split_on(enc(rest), '\n');
        let n = before.len() - 1;
        if c == '\n' {
            assert((enc(rest) + code(c)).drop_last() =~= enc(rest));
            assert(enc(Seq::<char>::empty()) =~= Seq::empty());
            assert forall|r: int| 0 <= r < parts.len() implies #[trigger] out[r] == enc(
                parts[r],
            ) by {
                if r < before.len() {
                    assert(out[r] == encoded[r]);
                    assert(parts[r] == before[r]);
                }
            }
        } else {
            assert(one_line(code(c)));
            lemma_split_append(enc(rest), code(c));
            lemma_enc_push(before[n], c);
            assert forall|r: int| 0 <= r < parts.len() implies #[trigger] out[r] == enc(
                parts[r],
            ) by {
                assert(encoded[r] == enc(before[r]));
            }
        }
    }
}

/// What can be said of how a text between quotes begins and ends.
proof fn lemma_enc_ends(s: Seq<char>)
    requires
        s.len() > 0,
    ensures
        enc(s).len() > 0,
        enc(s)[0] == s[0] || enc(s)[0] == '\\',
        enc(s).last() == s.last(),
{
    let first = seq![s[0]];
    let rest = s.drop_first();
    assert(s =~= first + rest);
    lemma_enc_join(first, rest);
    assert(first =~= Seq::<char>::empty().push(s[0]));
    lemma_enc_push(Seq::empty(), s[0]);
    assert(enc(Seq::<char>::empty()) =~= Seq::empty());
    assert(enc(s)[0] == code(s[0])[0]);
    lemma_enc_push(s.drop_last(), s.last());
    assert(s.drop_last().push(s.last()) =~= s);
}

/// What stands between quotes without a mark of it is the text itself.
proof fn lemma_enc_plain(s: Seq<char>)
    requires
        !enc(s).contains('\\'),
        !enc(s).contains('%'),
    ensures
        enc(s) == s,
    decreases s.len(),
{
    if s.len() > 0 {
        let rest = s.drop_last();
        let c = s.last();
        lemma_enc_push(rest, c);
        assert(rest.push(c) =~= s);
        let all = enc(s);
        let n = enc(rest).len() as int;
        assert(all[n] == code(c)[0]);
        assert(all.contains(all[n]));
        assert forall|i: int| 0 <= i < n implies enc(rest)[i] != '\\' && enc(rest)[i] != '%' by {
            assert(all[i] == enc(rest)[i]);
            assert(all.contains(all[i]));
        }
        lemma_enc_plain(rest);
        assert(code(c) == seq![c]);
        assert(all =~= s);
    } else {
        assert(enc(s) =~= s);
    }
}

/// A character that stands for itself between quotes stands there only for
/// itself.
proof fn lemma_enc_holds(s: Seq<char>, c: char)
    requires
        c != '\\',
        c != '%',
        !needs_escape(c),
    ensures
        enc(s).contains(c) == s.contains(c),
    decreases s.len(),
{
    if s.len() > 0 {
        let rest = s.drop_last();
        let d = s.last();
        lemma_enc_holds(rest, c);
        lemma_enc_push(rest, d);
        assert(rest.push(d) =~= s);
        crate::text::lemma_joined(enc(rest), code(d), c);
        crate::text::lemma_joined(rest, seq![d], c);
        assert(rest + seq![d] =~= s);
        assert(code(d).contains(c) == (d == c)) by {
            if d == c {
                assert(code(d)[0] == c);
            }
        }
        assert(seq![d].contains(c) == (d == c)) by {
            if d == c {
                assert(seq![d][0] == c);
            }
        }
    } else {
        assert(enc(s) =~= s);
    }
}

proof fn lemma_trimmed_tail(s: Seq<char>, i: int)
    requires
        trimmed_end(s).len() <= i < s.len(),
    ensures
        white_space(s[i]),
    decreases s.len(),
{
    if i < s.len() - 1 {
        lemma_trimmed_tail(s.drop_last(), i);
    }
}

/// Where a line's key ends.
proof fn lemma_key_of(before: Seq<char>, after: Seq<char>)
    requires
        !before.contains('='),
    ensures
        key_value(before + seq!['='] + after) is Some,
        (key_value(before + seq!['='] + after)->Some_0).0 == trimmed_end(before),
{
    let line = before + seq!['='] + after;
    let at = before.len() as int;
    lemma_index_from(line, '=', 0);
    lemma_contains(line, '=');
    assert(line[at] == '=');
    let found = index_from(line, '=', 0);
    assert(found == at) by {
        if found < at {
            assert(line[found] == before[found]);
            assert(before.contains(before[found]));
        }
    }
    assert(line.take(at) =~= before);
    assert(line.contains('='));
}

/// A text with an `=` in it, parted at the first.
proof fn lemma_parted(s: Seq<char>) -> (at: int)
    requires
        s.contains('='),
    ensures
        0 <= at < s.len(),
        !s.take(at).contains('='),
        s == s.take(at) + seq!['='] + s.skip(at + 1),
{
    lemma_index_from(s, '=', 0);
    lemma_contains(s, '=');
    let at = index_from(s, '=', 0);
    assert forall|i: int| 0 <= i < at implies s.take(at)[i] != '=' by {
        assert(s[i] != '=');
    }
    assert(s =~= s.take(at) + seq!['='] + s.skip(at + 1));
    at
}

proof fn lemma_marker_plain()
    ensures
        !MARKER@.contains('\\'),
        !MARKER@.contains('%'),
        !MARKER@.contains('"'),
{
    reveal_strlit("X-Bubbler-Instance");
}

/// A key that is the marker between quotes is the marker without.
proof fn lemma_enc_key(q: Seq<char>, tail: Seq<char>)
    requires
        q.contains('='),
        match key_value(q) {
            Some((key, _)) => key != MARKER@,
            None => true,
        },
    ensures
        match key_value(enc(q) + tail) {
            Some((key, _)) => key != MARKER@,
            None => true,
        },
{
    let at = lemma_parted(q);
    let before = q.take(at);
    let after = q.skip(at + 1);
    lemma_key_of(before, after);
    let eq = seq!['='];
    lemma_enc_join(before, eq);
    lemma_enc_join(before + eq, after);
    assert(eq =~= Seq::<char>::empty().push('='));
    lemma_enc_push(Seq::empty(), '=');
    assert(enc(Seq::<char>::empty()) =~= Seq::empty());
    assert(enc(eq) =~= eq);
    lemma_enc_holds(before, '=');
    assert(enc(q) + tail =~= enc(before) + eq + (enc(after) + tail));
    lemma_key_of(enc(before), enc(after) + tail);
    let key = trimmed_end(enc(before));
    if key == MARKER@ {
        lemma_marker_plain();
        lemma_trimmed_end(enc(before));
        assert forall|i: int| 0 <= i < enc(before).len() implies enc(before)[i] != '\\' && enc(
            before,
        )[i] != '%' by {
            if i < key.len() {
                assert(enc(before)[i] == key[i]);
                assert(key.contains(key[i]));
            } else {
                lemma_trimmed_tail(enc(before), i);
            }
        }
        lemma_enc_plain(before);
    }
}

/// A calm line is calm between quotes.
proof fn lemma_enc_calm(q: Seq<char>)
    requires
        calm(without_cr(q)),
    ensures
        calm(without_cr(enc(q))),
{
    let w = without_cr(q);
    if q.len() == 0 {
        assert(enc(q) =~= Seq::empty());
        assert(!enc(q).contains('='));
    } else {
        lemma_enc_ends(q);
        let body = without_cr(enc(q));
        assert(body == enc(w)) by {
            if q.last() == '\r' {
                lemma_enc_push(w, '\r');
                assert(w.push('\r') =~= q);
                assert((enc(w) + code('\r')).drop_last() =~= enc(w));
            }
        }
        if w.len() == 0 {
            assert(enc(w) =~= Seq::empty());
            assert(!enc(w).contains('='));
        } else {
            lemma_enc_ends(w);
            if header_of(enc(w)) is Some {
                assert(w[0] == '[' && w.last() == ']');
                assert(w.len() >= 2);
            }
            lemma_enc_holds(w, '=');
            if w.contains('=') {
                lemma_enc_key(w, Seq::empty());
                assert(enc(w) + Seq::<char>::empty() =~= enc(w));
            }
        }
    }
}

/// A line that begins with a key other than the marker is calm.
proof fn lemma_keyed_calm(key: Seq<char>, rest: Seq<char>)
    requires
        !key.contains('='),
        trimmed_end(key) == key,
        key.len() > 0,
        key[0] != '[',
        key != MARKER@,
    ensures
        calm(without_cr(key + "="@ + rest)),
{
    lemma_keys();
    let line = key + "="@ + rest;
    lemma_written(key, rest);
    lemma_cr_key(line);
    let body = without_cr(line);
    if body.len() > 0 {
        assert(body[0] == line[0]);
    }
}

/// Whether the lines of a program after its first open no group and do not
/// set the marker.
pub open spec fn calm_program(program: Seq<char>) -> bool {
    forall|r: int|
        1 <= r < split_on(program, '\n').len() ==> calm(
            without_cr(#[trigger] split_on(program, '\n')[r]),
        )
}

/// Whether a line is a command line that ends in `]`.
pub open spec fn ends_in_bracket(line: Seq<char>) -> bool {
    let body = without_cr(line);
    &&& header_of(body) is None
    &&& key_value(body) is Some
    &&& (key_value(body)->Some_0).0 == "Exec"@
    &&& body.len() > 0 && body.last() == ']'
}

/// Whether a program of several lines has a last one that begins with `[`.
pub open spec fn opens_bracket(program: Seq<char>) -> bool {
    let lines = split_on(program, '\n');
    lines.len() > 1 && lines.last().len() > 0 && lines.last()[0] == '['
}

/// Whether the last line of a program begins with `[` and a command line of
/// the main group ends in `]`: the two then stand on one line, which opens a
/// group.
pub open spec fn bracketed(text: Seq<char>, program: Seq<char>) -> bool {
    let lines = raw_lines(text);
    let from = entry_header(bodies(lines), 0);
    &&& opens_bracket(program)
    &&& exists|i: int|
        from < i < next_header(bodies(lines), from + 1) && ends_in_bracket(#[trigger] lines[i])
}

/// The lines of a key that is set to a program.
proof fn lemma_program_calm(key: Seq<char>, program: Seq<char>, tail: Seq<char>)
    requires
        !key.contains('='),
        trimmed_end(key) == key,
        key.len() > 0,
        key[0] != '[',
        key != MARKER@,
        one_line(key),
        calm_program(program),
        tail == Seq::<char>::empty() || tail == seq!['\r'],
    ensures
        forall|r: int|
            0 <= r < split_on(key + "="@ + program + tail, '\n').len() ==> calm(
                without_cr(#[trigger] split_on(key + "="@ + program + tail, '\n')[r]),
            ),
{
    lemma_keys();
    let head = key + "="@;
    lemma_one_line_concat(key, "="@);
    assert(one_line(tail));
    let parts = split_on(program, '\n');
    lemma_split_parts(program, '\n');
    lemma_split_prepend(head, program);
    let with_head = split_on(head + program, '\n');
    lemma_split_append(head + program, tail);
    let all = split_on(head + program + tail, '\n');
    assert forall|r: int| 0 <= r < all.len() implies calm(without_cr(#[trigger] all[r])) by {
        if r == 0 {
            let rest = if all.len() == 1 {
                parts[0] + tail
            } else {
                parts[0]
            };
            assert(all[0] =~= key + "="@ + rest);
            lemma_keyed_calm(key, rest);
        } else if r < all.len() - 1 {
            assert(all[r] == parts[r]);
        } else {
            let line = parts[r];
            assert(all[r] == line + tail);
            assert(calm(without_cr(line)));
            lemma_cr_key(line);
            if tail.len() == 0 {
                assert(line + tail =~= line);
            } else {
                assert((line + tail).drop_last() =~= line);
                assert(without_cr(line + tail) == line);
            }
        }
    }
}

/// The last line of a command line that a program with line feeds begins.
proof fn lemma_launch_end(q: Seq<char>, rest: Seq<char>, value: Seq<char>, tail: Seq<char>)
    requires
        calm(without_cr(q)),
        rest.len() > 0,
        rest[0] == '"',
        rest.last() == ' ',
        tail == Seq::<char>::empty() || tail == seq!['\r'],
        tail.len() == 0 ==> value.len() == 0 || value.last() != '\r',
    ensures
        ({
            let body = without_cr(enc(q) + (rest + value + tail));
            &&& header_of(body) != Some(ENTRY_GROUP@)
            &&& !(q.len() > 0 && q[0] == '[' && value.len() > 0 && value.last() == ']') ==> calm(
                body,
            )
        }),
{
    let after = rest + value + tail;
    let line = enc(q) + after;
    let body = without_cr(line);
    lemma_cr_key(line);
    if q.len() > 0 {
        lemma_enc_ends(q);
        assert(line[0] == enc(q)[0]);
    } else {
        assert(enc(q) =~= Seq::empty());
        assert(line[0] == '"');
    }
    assert(body == enc(q) + (rest + value)) by {
        if tail.len() > 0 {
            assert(line.drop_last() =~= enc(q) + (rest + value));
        } else {
            assert(line =~= enc(q) + (rest + value));
            assert(line.last() != '\r') by {
                if value.len() > 0 {
                    assert(line.last() == value.last());
                } else {
                    assert(line.last() == rest.last());
                }
            }
        }
    }
    if header_of(body) is Some {
        assert(body[0] == line[0]);
        assert(q.len() > 0 && q[0] == '[');
        if value.len() > 0 {
            assert(body.last() == value.last());
        } else {
            assert(body.last() == rest.last());
        }
        let n = enc(q).len() as int;
        let name = header_of(body)->Some_0;
        assert(body[n] == '"');
        assert(name[n - 1] == '"');
        assert(name.contains(name[n - 1]));
        assert(!ENTRY_GROUP@.contains('"')) by {
            reveal_strlit("Desktop Entry");
        }
    }
    lemma_enc_holds(q, '=');
    if q.contains('=') {
        lemma_cr_key(q);
        lemma_enc_key(q, after);
    } else if line.contains('=') {
        let at = lemma_parted(line);
        let before = line.take(at);
        lemma_key_of(before, line.skip(at + 1));
        let n = enc(q).len() as int;
        assert(line[n] == '"');
        assert(at > n) by {
            if at < n {
                assert(enc(q)[at] == line[at]);
                assert(enc(q).contains(enc(q)[at]));
            }
        }
        lemma_trimmed_end(before);
        let key = trimmed_end(before);
        assert(key.len() > n) by {
            if key.len() <= n {
                lemma_trimmed_tail(before, n);
            }
        }
        assert(key[n] == before[n]);
        assert(key.contains(key[n]));
        lemma_marker_plain();
    }
}

/// The lines of a command line.
proof fn lemma_command_calm(
    instance: Seq<char>,
    program: Seq<char>,
    value: Seq<char>,
    tail: Seq<char>,
)
    requires
        one_line(instance),
        one_line(value),
        calm_program(program),
        tail == Seq::<char>::empty() || tail == seq!['\r'],
        tail.len() == 0 ==> value.len() == 0 || value.last() != '\r',
    ensures
        ({
            let parts = split_on(
                "Exec"@ + "="@ + launch_of(instance, program) + value + tail,
                '\n',
            );
            &&& forall|r: int|
                0 <= r < parts.len() ==> header_of(without_cr(#[trigger] parts[r])) != Some(
                    ENTRY_GROUP@,
                )
            &&& !(opens_bracket(program) && value.len() > 0 && value.last() == ']') ==> forall|
                r: int,
            |
                0 <= r < parts.len() ==> calm(without_cr(#[trigger] parts[r]))
        }),
{
    lemma_keys();
    reveal_strlit("Exec");
    reveal_strlit(" open ");
    reveal_strlit(" -- ");
    let key = "Exec"@;
    let line = key + "="@ + launch_of(instance, program) + value + tail;
    let parts = split_on(program, '\n');
    lemma_split_parts(program, '\n');
    if parts.len() == 1 {
        assert(one_line(program)) by {
            if program.contains('\n') {
                lemma_line_feed_splits(program);
            }
        }
        lemma_whole_launch(instance, program);
        lemma_one_line_concat(key, "="@);
        lemma_one_line_concat(key + "="@, launch_of(instance, program));
        lemma_one_line_concat(key + "="@ + launch_of(instance, program), value);
        assert(one_line(tail));
        lemma_one_line_concat(key + "="@ + launch_of(instance, program) + value, tail);
        lemma_split_plain(line, '\n');
        assert(line =~= key + "="@ + (launch_of(instance, program) + value + tail));
        lemma_keyed_calm(key, launch_of(instance, program) + value + tail);
    } else {
        assert(program.contains('\n')) by {
            if !program.contains('\n') {
                lemma_split_plain(program, '\n');
            }
        }
        let at = choose|i: int| 0 <= i < program.len() && program[i] == '\n';
        lemma_kept(program, at);
        let k = choose|k: int| 0 <= k < doubled(program).len() && doubled(program)[k] == '\n';
        assert(reserved(doubled(program)[k]));
        let quote = seq!['"'];
        let head = key + "="@ + quote;
        let rest = quote + " open "@ + instance + " -- "@;
        let after = rest + value + tail;
        assert(line =~= head + enc(program) + after);
        assert(one_line(quote));
        lemma_one_line_concat(key, "="@);
        lemma_one_line_concat(key + "="@, quote);
        assert(one_line(" open "@) && one_line(" -- "@) && one_line(tail));
        lemma_one_line_concat(quote, " open "@);
        lemma_one_line_concat(quote + " open "@, instance);
        lemma_one_line_concat(quote + " open "@ + instance, " -- "@);
        lemma_one_line_concat(rest, value);
        lemma_one_line_concat(rest + value, tail);
        lemma_enc_lines(program);
        let coded = split_on(enc(program), '\n');
        lemma_split_prepend(head, enc(program));
        lemma_split_append(head + enc(program), after);
        let all = split_on(line, '\n');
        assert forall|r: int| 0 <= r < all.len() implies header_of(without_cr(#[trigger] all[r]))
            != Some(ENTRY_GROUP@) && (!(opens_bracket(program) && value.len() > 0 && value.last()
            == ']') ==> calm(without_cr(all[r]))) by {
            if r == 0 {
                assert(all[0] =~= key + "="@ + (quote + coded[0]));
                lemma_keyed_calm(key, quote + coded[0]);
            } else if r < all.len() - 1 {
                assert(all[r] == coded[r]);
                assert(coded[r] == enc(parts[r]));
                lemma_enc_calm(parts[r]);
            } else {
                assert(all[r] == coded[r] + after);
                assert(coded[r] == enc(parts[r]));
                lemma_launch_end(parts[r], rest, value, tail);
            }
        }
    }
}

proof fn lemma_line_feed_splits(s: Seq<char>)
    requires
        s.contains('\n'),
    ensures
        split_on(s, '\n').len() > 1,
    decreases s.len(),
{
    let i = choose|i: int| 0 <= i < s.len() && s[i] == '\n';
    lemma_split_parts(s.drop_last(), '\n');
    if s.last() != '\n' {
        assert(s.drop_last()[i] == '\n');
        lemma_line_feed_splits(s.drop_last());
    }
}

/// What a command line begins with is on one line where the program is.
proof fn lemma_whole_launch(instance: Seq<char>, program: Seq<char>)
    requires
        one_line(instance),
        one_line(program),
    ensures
        one_line(launch_of(instance, program)),
{
    crate::desktop::laws::lemma_launch(instance, program);
}

/// What one line of a source becomes is calm where it is changed.
proof fn lemma_patched_calm(
    text: Seq<char>,
    instance: Seq<char>,
    program: Seq<char>,
    entry: bool,
    line: Seq<char>,
)
    requires
        one_line(instance),
        one_line(line),
        header_of(without_cr(line)) is None,
        calm_program(program),
    ensures
        ({
            let new = patched_line(entry, line, patching(text, instance, program));
            let parts = split_on(new, '\n');
            new != line ==> {
                &&& forall|r: int|
                    0 <= r < parts.len() ==> header_of(without_cr(#[trigger] parts[r])) != Some(
                        ENTRY_GROUP@,
                    )
                &&& !(opens_bracket(program) && ends_in_bracket(line)) ==> forall|r: int|
                    0 <= r < parts.len() ==> calm(without_cr(#[trigger] parts[r]))
            }
        }),
{
    lemma_keys();
    let with = patching(text, instance, program);
    let new = patched_line(entry, line, with);
    let body = without_cr(line);
    if new != line {
        let (key, value) = key_value(body)->Some_0;
        assert(one_line(body)) by {
            assert forall|i: int| 0 <= i < body.len() implies body[i] != '\n' by {
                assert(line.contains(line[i]));
            }
        }
        lemma_key(body);
        let tail = line_end(line);
        let done = rewritten(entry, key, value, with)->Some_0;
        assert(new == done + tail);
        if entry && key_base(key) == "Name"@ {
            lemma_index_from(key, '[', 0);
            assert(key_base(key)[0] == key[0]);
            let rest = value + SUFFIX@ + tail;
            assert(new =~= key + "="@ + rest);
            assert(one_line(tail));
            lemma_one_line_concat(key, "="@);
            lemma_one_line_concat(value, SUFFIX@);
            lemma_one_line_concat(value + SUFFIX@, tail);
            lemma_one_line_concat(key + "="@, rest);
            lemma_split_plain(new, '\n');
            lemma_keyed_calm(key, rest);
        } else if key == "Exec"@ {
            assert(tail.len() == 0 ==> value.len() == 0 || value.last() != '\r') by {
                lemma_value_end(body);
            }
            assert(value.len() > 0 && value.last() == ']' ==> ends_in_bracket(line)) by {
                lemma_value_end(body);
            }
            lemma_command_calm(instance, program, value, tail);
        } else if entry && key == "TryExec"@ {
            lemma_not_a_name(key);
            lemma_program_calm(key, program, tail);
        } else {
            assert(new =~= key + "="@ + ("false"@ + tail));
            assert(one_line("false"@)) by {
                reveal_strlit("false");
            }
            assert(one_line(tail));
            lemma_one_line_concat(key, "="@);
            lemma_one_line_concat("false"@, tail);
            lemma_one_line_concat(key + "="@, "false"@ + tail);
            lemma_split_plain(new, '\n');
            lemma_keyed_calm(key, "false"@ + tail);
        }
    }
}

/// A value ends as its line does.
proof fn lemma_value_end(line: Seq<char>)
    requires
        key_value(line) is Some,
    ensures
        (key_value(line)->Some_0).1.len() > 0 ==> line.len() > 0 && (key_value(
            line,
        )->Some_0).1.last() == line.last(),
{
    let at = lemma_parted(line);
    lemma_index_from(line, '=', 0);
    let rest = line.skip(index_from(line, '=', 0) + 1);
    lemma_start_end(rest);
}

proof fn lemma_start_end(s: Seq<char>)
    ensures
        trimmed_start(s).len() <= s.len(),
        trimmed_start(s).len() > 0 ==> trimmed_start(s).last() == s.last(),
    decreases s.len(),
{
    if s.len() > 0 && white_space(s[0]) {
        lemma_start_end(s.drop_first());
    }
}

/// What a reader knows of what lines with line feeds in them become.
spec fn reads(texts: Seq<Seq<char>>) -> Seen {
    see_all(Seen::Before, bodies(flat(texts, texts.len() as int)))
}

/// One more text whose lines are calm, or that is one line.
proof fn lemma_reads_push(texts: Seq<Seq<char>>, line: Seq<char>)
    ensures
        (forall|r: int|
            0 <= r < split_on(line, '\n').len() ==> calm(
                without_cr(#[trigger] split_on(line, '\n')[r]),
            )) ==> reads(texts.push(line)) == reads(texts),
        reads(texts) == Seen::Before && (forall|r: int|
            0 <= r < split_on(line, '\n').len() ==> header_of(
                without_cr(#[trigger] split_on(line, '\n')[r]),
            ) != Some(ENTRY_GROUP@)) ==> reads(texts.push(line)) == Seen::Before,
        one_line(line) ==> reads(texts.push(line)) == see(reads(texts), without_cr(line)),
{
    let all = texts.push(line);
    let n = texts.len() as int;
    assert forall|i: int| 0 <= i < n implies #[trigger] all[i] == texts[i] by {}
    lemma_flat_prefix(all, texts, n);
    let parts = split_on(line, '\n');
    assert(flat(all, n + 1) == flat(texts, n) + parts);
    lemma_bodies_more(flat(texts, n), parts);
    lemma_see_more(Seen::Before, bodies(flat(texts, n)), bodies(parts));
    if forall|r: int| 0 <= r < parts.len() ==> calm(without_cr(#[trigger] parts[r])) {
        assert forall|r: int| 0 <= r < bodies(parts).len() implies calm(
            #[trigger] bodies(parts)[r],
        ) by {
            assert(bodies(parts)[r] == without_cr(parts[r]));
        }
        lemma_see_calm(reads(texts), bodies(parts));
    }
    if reads(texts) == Seen::Before && forall|r: int|
        0 <= r < parts.len() ==> header_of(without_cr(#[trigger] parts[r])) != Some(
            ENTRY_GROUP@,
        ) {
        assert forall|r: int| 0 <= r < bodies(parts).len() implies header_of(
            #[trigger] bodies(parts)[r],
        ) != Some(ENTRY_GROUP@) by {
            assert(bodies(parts)[r] == without_cr(parts[r]));
        }
        lemma_see_before(bodies(parts));
    }
    if one_line(line) {
        lemma_split_plain(line, '\n');
        let one = bodies(parts);
        assert(one.drop_last() =~= Seq::empty());
        assert(one.last() == without_cr(line));
        assert(see_all(reads(texts), one.drop_last()) == reads(texts));
    }
}

/// The lines that are added end in the marker.
proof fn lemma_reads_added(
    texts: Seq<Seq<char>>,
    lines: Seq<Seq<char>>,
    n: int,
    text: Seq<char>,
    instance: Seq<char>,
    program: Seq<char>,
)
    requires
        instance_name(instance),
        calm_program(program),
        reads(texts) == Seen::Inside,
    ensures
        ({
            let with = patching(text, instance, program);
            let more = added_lines(state_at(lines, n).present, with);
            reads(texts + more) == Seen::Found(instance)
        }),
{
    lemma_keys();
    let with = patching(text, instance, program);
    let present = state_at(lines, n).present;
    let more = added_lines(present, with);
    let first = "TryExec="@ + with.program + with.eol;
    let second = "DBusActivatable=false"@ + with.eol;
    let third = MARKER@ + "="@ + instance + with.eol;
    assert(one_line("TryExec"@)) by {
        reveal_strlit("TryExec");
    }
    assert("TryExec"@ != MARKER@);
    assert("DBusActivatable"@ != MARKER@);
    assert(first =~= "TryExec"@ + "="@ + program + with.eol);
    lemma_program_calm("TryExec"@, program, with.eol);
    let a = if present.try_exec {
        texts
    } else {
        texts.push(first)
    };
    lemma_reads_push(texts, first);
    assert(reads(a) == Seen::Inside);
    assert(one_line(with.eol));
    lemma_one_line_concat("DBusActivatable=false"@, with.eol);
    lemma_split_plain(second, '\n');
    assert(second =~= "DBusActivatable"@ + "="@ + ("false"@ + with.eol));
    lemma_keyed_calm("DBusActivatable"@, "false"@ + with.eol);
    lemma_reads_push(a, second);
    let b = if present.dbus_activatable {
        a
    } else {
        a.push(second)
    };
    assert(reads(b) == Seen::Inside);
    assert(one_line(instance)) by {
        assert forall|i: int| 0 <= i < instance.len() implies instance[i] != '\n' by {
            assert(word_char(instance[i]) || instance[i] == '.' || instance[i] == '-');
        }
    }
    lemma_marker_line(instance, with.eol);
    lemma_reads_push(b, third);
    assert(texts + more =~= b.push(third));
}

/// The line that names the instance.
proof fn lemma_marker_line(instance: Seq<char>, eol: Seq<char>)
    requires
        instance_name(instance),
        eol == Seq::<char>::empty() || eol == seq!['\r'],
    ensures
        ({
            let line = MARKER@ + "="@ + instance + eol;
            &&& one_line(line)
            &&& header_of(without_cr(line)) is None
            &&& key_value(without_cr(line)) == Some((MARKER@, instance))
            &&& eol.len() == 0 ==> without_cr(line) == line
            &&& line.len() > 0
        }),
{
    lemma_keys();
    assert(one_line(instance)) by {
        assert forall|i: int| 0 <= i < instance.len() implies instance[i] != '\n' by {
            assert(word_char(instance[i]) || instance[i] == '.' || instance[i] == '-');
        }
    }
    crate::desktop::laws::lemma_added_line(MARKER@, instance, eol);
    assert(word_char(instance[0]) || instance[0] == '.' || instance[0] == '-');
    assert(trimmed_start(instance) == instance);
    let last = instance[instance.len() - 1];
    assert(word_char(last) || last == '.' || last == '-');
    let line = MARKER@ + "="@ + instance + eol;
    if eol.len() == 0 {
        assert(line.last() == last);
    }
}

/// Nothing behind the marker matters.
proof fn lemma_reads_more(texts: Seq<Seq<char>>, more: Seq<Seq<char>>, instance: Seq<char>)
    requires
        reads(texts) == Seen::Found(instance),
    ensures
        reads(texts + more) == Seen::Found(instance),
{
    let n = texts.len() as int;
    lemma_flat_more(texts, more, more.len() as int);
    let first = flat(texts, n);
    let rest = flat(more, more.len() as int);
    lemma_bodies_more(first, rest);
    lemma_see_more(Seen::Before, bodies(first), bodies(rest));
    lemma_see_found(instance, bodies(rest));
}

/// Where the first main group of a source stands, and that it has no marker.
spec fn source_group(lines: Seq<Seq<char>>, a: int, e: int) -> bool {
    &&& 0 <= a < e <= lines.len()
    &&& header_of(without_cr(lines[a])) == Some(ENTRY_GROUP@)
    &&& forall|j: int|
        0 <= j < a ==> header_of(without_cr(#[trigger] lines[j])) != Some(ENTRY_GROUP@)
    &&& forall|j: int| a < j < e ==> header_of(without_cr(#[trigger] lines[j])) is None
    &&& e < lines.len() ==> header_of(without_cr(lines[e])) is Some
    &&& !has_key(lines, a + 1, e, MARKER@)
}

/// What a reader knows of the lines the first `n` lines of a source become.
proof fn lemma_reads_until(
    text: Seq<char>,
    instance: Seq<char>,
    program: Seq<char>,
    a: int,
    e: int,
    n: int,
)
    requires
        instance_name(instance),
        calm_program(program),
        !bracketed(text, program),
        a == entry_header(bodies(raw_lines(text)), 0),
        e == next_header(bodies(raw_lines(text)), a + 1),
        source_group(raw_lines(text), a, e),
        0 <= n <= raw_lines(text).len(),
    ensures
        ({
            let lines = raw_lines(text);
            let seen = reads(lines_until(lines, n, patching(text, instance, program)));
            &&& n <= a ==> seen == Seen::Before && !in_entry(state_at(lines, n))
            &&& a < n <= e ==> seen == Seen::Inside && in_entry(state_at(lines, n))
            &&& n > e ==> seen == Seen::Found(instance)
        }),
    decreases n,
{
    let lines = raw_lines(text);
    let with = patching(text, instance, program);
    if n == 0 {
        assert(flat(lines_until(lines, 0, with), 0) =~= Seq::empty());
        assert(bodies(Seq::<Seq<char>>::empty()) =~= Seq::empty());
    } else {
        lemma_reads_until(text, instance, program, a, e, n - 1);
        lemma_raw_lines(text);
        let line = lines[n - 1];
        let state = state_at(lines, n - 1);
        let before = lines_until(lines, n - 1, with);
        assert(one_line(line));
        assert(one_line(instance)) by {
            assert forall|i: int| 0 <= i < instance.len() implies instance[i] != '\n' by {
                assert(word_char(instance[i]) || instance[i] == '.' || instance[i] == '-');
            }
        }
        if n - 1 > e {
            let more = lines_for(state, line, with);
            lemma_reads_more(before, more, instance);
        } else if header_of(without_cr(line)) is Some {
            if n - 1 < a {
                assert(group_end(state, with) =~= Seq::empty());
                assert(before + lines_for(state, line, with) =~= before.push(line));
                lemma_reads_push(before, line);
            } else if n - 1 == a {
                assert(!in_entry(state));
                assert(group_end(state, with) =~= Seq::empty());
                assert(before + lines_for(state, line, with) =~= before.push(line));
                lemma_reads_push(before, line);
            } else {
                assert(n - 1 == e);
                let more = group_end(state, with);
                lemma_reads_added(before, lines, n - 1, text, instance, program);
                assert(before + lines_for(state, line, with) =~= (before + more) + seq![line]);
                lemma_reads_more(before + more, seq![line], instance);
            }
        } else {
            let new = patched_line(in_entry(state), line, with);
            assert(n - 1 != a && n - 1 != e);
            assert(before + lines_for(state, line, with) =~= before.push(new));
            lemma_reads_push(before, new);
            if new == line {
                if a < n - 1 {
                    assert(calm(without_cr(line))) by {
                        assert(!has_key(lines, a + 1, e, MARKER@));
                    }
                }
            } else {
                lemma_patched_calm(text, instance, program, in_entry(state), line);
                if n - 1 > a {
                    assert(a < n - 1 < e);
                    assert(ends_in_bracket(line) ==> ends_in_bracket(lines[n - 1]));
                }
            }
        }
    }
}

/// Whether a generated entry's last line is the added one that names the
/// instance, and ends in a carriage return without a line feed: the source
/// has CRLF lines, the last of them is not ended, and no group follows the
/// main one.
pub open spec fn ends_in_bare_cr(text: Seq<char>) -> bool {
    let lines = bodies(raw_lines(text));
    &&& has_crlf(text)
    &&& !has_final_newline(text)
    &&& next_header(lines, entry_header(lines, 0) + 1) == lines.len()
}

proof fn lemma_flat_len(texts: Seq<Seq<char>>, n: int)
    requires
        0 <= n <= texts.len(),
    ensures
        flat(texts, n).len() >= n,
    decreases n,
{
    if n > 0 {
        lemma_flat_len(texts, n - 1);
        lemma_split_parts(texts[n - 1], '\n');
    }
}

/// The lines of a generated entry up to the one that names the instance.
proof fn lemma_lines_found(
    text: Seq<char>,
    instance: Seq<char>,
    program: Seq<char>,
    pre: Seq<Seq<char>>,
    rest: Seq<Seq<char>>,
)
    requires
        instance_name(instance),
        !ends_in_bare_cr(text),
        ({
            let lines = raw_lines(text);
            let a = entry_header(bodies(lines), 0);
            rest.len() == 0 ==> next_header(bodies(lines), a + 1) == lines.len()
        }),
        ({
            let with = patching(text, instance, program);
            &&& patched_lines(raw_lines(text), with) == pre + rest
            &&& pre.len() > 0
            &&& pre.last() == MARKER@ + "="@ + instance + with.eol
        }),
    ensures
        ({
            let found = lines_of(patched_text(text, instance, program));
            let first = bodies(flat(pre, pre.len() as int));
            &&& first.len() <= found.len()
            &&& found.take(first.len() as int) == first
        }),
{
    let with = patching(text, instance, program);
    let all = pre + rest;
    let out = patched_text(text, instance, program);
    let n = pre.len() as int;
    lemma_split_joined(all);
    lemma_flat_more(pre, rest, rest.len() as int);
    lemma_flat_len(rest, rest.len() as int);
    let first = flat(pre, n);
    let whole = flat(all, all.len() as int);
    let joined = join_with(all, '\n');
    let parts = split_on(out, '\n');
    if has_final_newline(text) {
        let empty = Seq::<char>::empty();
        lemma_split_concat(joined, '\n', empty);
        assert(joined.push('\n') + empty =~= out);
        assert(split_on(empty, '\n') == seq![empty]);
    } else {
        assert(parts == whole);
    }
    assert forall|i: int| 0 <= i < first.len() implies #[trigger] parts[i] == first[i] by {}
    let found = lines_of(out);
    let bodies_first = bodies(first);
    if first.len() < parts.len() {
        assert(found.take(first.len() as int) =~= bodies_first);
    } else {
        assert(rest.len() == 0);
        let line = pre.last();
        lemma_marker_line(instance, with.eol);
        lemma_split_plain(line, '\n');
        assert(flat(pre, n) == flat(pre, n - 1) + seq![line]);
        assert(first.last() == line);
        assert(parts.last() == line);
        assert(with.eol.len() == 0);
        assert(found.take(first.len() as int) =~= bodies_first);
    }
}

/// A generated entry says whose it is, and is refused as the source of
/// another one. Left out are the entry whose last line keeps a carriage return
/// that no line feed follows, which would be read as a part of the name, and
/// a program with line feeds of which a later line opens a group or sets the
/// marker, by itself or with the end of a command line.
pub proof fn a_generated_entry_names_its_instance(
    text: Seq<char>,
    instance: Seq<char>,
    program: Seq<u8>,
)
    requires
        instance_name(instance),
        calm_program(vstd::utf8::decode_utf8(program)),
        !bracketed(text, vstd::utf8::decode_utf8(program)),
        !ends_in_bare_cr(text),
    ensures
        patch_of(text, instance, program) matches Ok(out) ==> {
            &&& head_of(out).marker == Some(instance)
            &&& forall|other: Seq<char>, with: Seq<u8>|
                #[trigger] patch_of(out, other, with) == Err::<Seq<char>, DesktopErrorView>(
                    DesktopErrorView::Generated(instance),
                )
        },
{
    if patch_of(text, instance, program) is Ok {
        let name = vstd::utf8::decode_utf8(program);
        let with = patching(text, instance, name);
        let lines = raw_lines(text);
        lemma_source_group(text, instance, program);
        let a = entry_header(bodies(lines), 0);
        let e = next_header(bodies(lines), a + 1);
        assert(source_group(lines, a, e));
        lemma_reads_until(text, instance, name, a, e, e);
        let state = state_at(lines, e);
        let more = added_lines(state.present, with);
        let before = lines_until(lines, e, with);
        let pre = before + more;
        lemma_reads_added(before, lines, e, text, instance, name);
        assert(pre.last() == more.last());
        let all = patched_lines(lines, with);
        let n = lines.len() as int;
        if e < n {
            lemma_prefix(lines, e + 1, n, with);
            let until = lines_until(lines, e + 1, with);
            assert(until =~= pre.push(lines[e]));
            assert(all.take(until.len() as int) =~= until) by {
                let body = lines_until(lines, n, with);
                assert(body.take(until.len() as int) == until);
            }
            assert(all.take(pre.len() as int) =~= pre) by {
                assert forall|i: int| 0 <= i < pre.len() implies all[i] == pre[i] by {
                    assert(all.take(until.len() as int)[i] == all[i]);
                    assert(until[i] == pre[i]);
                }
            }
        } else {
            assert(all =~= pre);
            assert(all.take(pre.len() as int) =~= pre);
        }
        let rest = all.skip(pre.len() as int);
        assert(all =~= pre + rest);
        assert(e < n ==> rest.len() > 0);
        lemma_lines_found(text, instance, name, pre, rest);
        let out = patched_text(text, instance, name);
        let found = lines_of(out);
        let first = bodies(flat(pre, pre.len() as int));
        let k = first.len() as int;
        assert(found =~= found.take(k) + found.skip(k));
        lemma_see_more(Seen::Before, found.take(k), found.skip(k));
        lemma_see_found(instance, found.skip(k));
        lemma_found(found, instance);
        assert(head_of(out).marker == Some(instance));
    }
}

} // verus!
