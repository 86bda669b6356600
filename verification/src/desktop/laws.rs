//! What holds of every generated entry.

use vstd::prelude::*;

use crate::dbus::identity::instance_name;
use crate::dbus_wire::encode::word_char;
use crate::desktop::entry::{
    entry_header, entry_lines, header_of, index_from, key_base, key_value, lemma_contains,
    lemma_entry_header, lemma_index_from, lemma_next_header, lines_of, next_header, value_from,
    value_of, without_cr, ENTRY_GROUP, MARKER,
};
use crate::desktop::patch::{
    added_lines, group_end, has_final_newline, in_entry, launch_of, line_end, lines_for,
    lines_until, patch_of, patched_line, patched_lines, patched_text, patching, raw_lines,
    rewritten, state_at, Patching, Present, SUFFIX,
};
use crate::desktop::quote::{doubled, escaped, quoted_arg};
use crate::split::{
    join_with, lemma_split_concat, lemma_split_join, lemma_split_last, lemma_split_parts, split_on,
};
use crate::text::{begins, trimmed_end, trimmed_start, white_space};

verus! {

/// Trimming the end leaves a part of the text that does not end in white
/// space.
pub proof fn lemma_trimmed_end(s: Seq<char>)
    ensures
        trimmed_end(s).len() <= s.len(),
        trimmed_end(s) == s.take(trimmed_end(s).len() as int),
        trimmed_end(trimmed_end(s)) == trimmed_end(s),
        s.len() > 0 && !white_space(s[0]) ==> trimmed_end(s).len() > 0,
    decreases s.len(),
{
    if s.len() > 0 && white_space(s.last()) {
        let rest = s.drop_last();
        lemma_trimmed_end(rest);
        assert(s.take(trimmed_end(s).len() as int) =~= rest.take(trimmed_end(s).len() as int));
    } else {
        assert(s.take(s.len() as int) =~= s);
    }
}

/// Trimming the start leaves a part of the text.
proof fn lemma_trimmed_start(s: Seq<char>)
    ensures
        forall|c: char| !s.contains(c) ==> !(#[trigger] trimmed_start(s).contains(c)),
        trimmed_start(s).len() <= s.len(),
    decreases s.len(),
{
    if s.len() > 0 && white_space(s[0]) {
        let rest = s.drop_first();
        lemma_trimmed_start(rest);
        assert forall|c: char| !s.contains(c) implies !(#[trigger] trimmed_start(s).contains(
            c,
        )) by {
            assert(!rest.contains(c)) by {
                assert forall|i: int| 0 <= i < rest.len() implies rest[i] != c by {
                    assert(s.contains(s[i + 1]));
                }
            }
        }
    }
}

/// What a key is made of: no `=`, no white space at its end, and nothing the
/// line does not hold.
pub proof fn lemma_key(line: Seq<char>)
    requires
        key_value(line) is Some,
    ensures
        ({
            let (key, value) = key_value(line)->Some_0;
            &&& !key.contains('=')
            &&& trimmed_end(key) == key
            &&& forall|c: char| !line.contains(c) ==> !(#[trigger] key.contains(c))
            &&& forall|c: char| !line.contains(c) ==> !(#[trigger] value.contains(c))
            &&& key.len() > 0 ==> key[0] == line[0]
        }),
{
    let at = index_from(line, '=', 0);
    lemma_index_from(line, '=', 0);
    lemma_contains(line, '=');
    let first = line.take(at);
    let second = line.skip(at + 1);
    lemma_trimmed_end(first);
    lemma_trimmed_start(second);
    let (key, value) = key_value(line)->Some_0;
    assert(key == first.take(key.len() as int));
    assert forall|i: int| 0 <= i < key.len() implies #[trigger] key[i] == line[i] by {}
    assert forall|c: char| !line.contains(c) implies !(#[trigger] key.contains(c)) by {
        assert forall|i: int| 0 <= i < key.len() implies key[i] != c by {
            assert(line.contains(line[i]));
        }
    }
    assert forall|c: char| !line.contains(c) implies !(#[trigger] value.contains(c)) by {
        assert(!second.contains(c)) by {
            assert forall|i: int| 0 <= i < second.len() implies second[i] != c by {
                assert(line.contains(line[i + at + 1]));
            }
        }
    }
}

/// A line written as a key, an `=` and the rest has that key and the trimmed
/// rest as its value.
pub proof fn lemma_written(key: Seq<char>, rest: Seq<char>)
    requires
        !key.contains('='),
        trimmed_end(key) == key,
    ensures
        key_value(key + "="@ + rest) == Some((key, trimmed_start(rest))),
{
    reveal_strlit("=");
    let line = key + "="@ + rest;
    lemma_index_from(line, '=', 0);
    let at = key.len() as int;
    assert(line[at] == '=');
    assert(index_from(line, '=', 0) == at) by {
        let found = index_from(line, '=', 0);
        if found < at {
            assert(line[found] == key[found]);
            assert(key.contains(key[found]));
        }
    }
    assert(line.contains('='));
    assert(line.take(at) =~= key);
    assert(line.skip(at + 1) =~= rest);
}

/// The key of a line is the same with and without a carriage return at its
/// end, and so is whether it has one.
pub proof fn lemma_cr_key(line: Seq<char>)
    ensures
        key_value(line) is Some <==> key_value(without_cr(line)) is Some,
        key_value(line) is Some ==> (key_value(line)->Some_0).0 == (key_value(
            without_cr(line),
        )->Some_0).0,
{
    let body = without_cr(line);
    lemma_contains(line, '=');
    lemma_contains(body, '=');
    lemma_index_from(line, '=', 0);
    lemma_index_from(body, '=', 0);
    let a = index_from(line, '=', 0);
    let b = index_from(body, '=', 0);
    assert forall|i: int| 0 <= i < body.len() implies #[trigger] body[i] == line[i] by {}
    if a < line.len() {
        assert(a < body.len()) by {
            if a >= body.len() {
                assert(line.last() == '\r');
                assert(a == line.len() - 1);
            }
        }
        assert(body[a] == line[a]);
        assert(a == b) by {
            if b < a {
                assert(line[b] == body[b]);
            }
        }
        assert(line.take(a) =~= body.take(b));
    } else if b < body.len() {
        assert(line[b] == body[b]);
    }
}

/// Whether a text holds no line feed.
pub open spec fn one_line(s: Seq<char>) -> bool {
    !s.contains('\n')
}

pub proof fn lemma_one_line_concat(a: Seq<char>, b: Seq<char>)
    requires
        one_line(a),
        one_line(b),
    ensures
        one_line(a + b),
{
    let s = a + b;
    assert forall|i: int| 0 <= i < s.len() implies s[i] != '\n' by {
        if i < a.len() {
            assert(a.contains(a[i]));
        } else {
            assert(b.contains(b[i - a.len()]));
        }
    }
}

proof fn lemma_doubled_one_line(s: Seq<char>)
    requires
        one_line(s),
    ensures
        one_line(doubled(s)),
    decreases s.len(),
{
    if s.len() > 0 {
        let rest = s.drop_last();
        assert forall|i: int| 0 <= i < rest.len() implies rest[i] != '\n' by {
            assert(s.contains(s[i]));
        }
        lemma_doubled_one_line(rest);
        assert(s.contains(s[s.len() - 1]));
        let before = doubled(rest);
        let all = doubled(s);
        assert forall|i: int| 0 <= i < all.len() implies all[i] != '\n' by {
            if i < before.len() {
                assert(before.contains(before[i]));
            }
        }
    }
}

proof fn lemma_escaped_one_line(s: Seq<char>)
    requires
        one_line(s),
    ensures
        one_line(escaped(s)),
    decreases s.len(),
{
    if s.len() > 0 {
        let rest = s.drop_last();
        assert forall|i: int| 0 <= i < rest.len() implies rest[i] != '\n' by {
            assert(s.contains(s[i]));
        }
        lemma_escaped_one_line(rest);
        assert(s.contains(s[s.len() - 1]));
        let before = escaped(rest);
        let all = escaped(s);
        assert forall|i: int| 0 <= i < all.len() implies all[i] != '\n' by {
            if i < before.len() {
                assert(before.contains(before[i]));
            }
        }
    }
}

/// What every command line begins with is on one line, and ends in a space.
pub proof fn lemma_launch(instance: Seq<char>, program: Seq<char>)
    requires
        one_line(instance),
        one_line(program),
    ensures
        one_line(launch_of(instance, program)),
        launch_of(instance, program).len() > 0,
        launch_of(instance, program).last() == ' ',
{
    reveal_strlit(" open ");
    reveal_strlit(" -- ");
    let plain = doubled(program);
    lemma_doubled_one_line(program);
    lemma_escaped_one_line(plain);
    let quote = seq!['"'];
    assert(one_line(quote));
    lemma_one_line_concat(quote, escaped(plain));
    lemma_one_line_concat(quote + escaped(plain), quote);
    let arg = quoted_arg(program);
    assert(one_line(" open "@));
    assert(one_line(" -- "@));
    lemma_one_line_concat(arg, " open "@);
    lemma_one_line_concat(arg + " open "@, instance);
    lemma_one_line_concat(arg + " open "@ + instance, " -- "@);
}

/// Whether an entry can be patched with something: all of it is on one line,
/// and a command line begins with something.
spec fn sound_patching(with: Patching) -> bool {
    &&& one_line(with.instance)
    &&& one_line(with.program)
    &&& one_line(with.launch)
    &&& with.launch.len() > 0
    &&& with.launch.last() != '\r'
    &&& with.eol == Seq::<char>::empty() || with.eol == seq!['\r']
}

/// The keys that are rewritten, told apart.
pub proof fn lemma_keys()
    ensures
        "Exec"@.len() == 4,
        "Exec"@[0] == 'E',
        "TryExec"@.len() == 7,
        "TryExec"@[0] == 'T',
        "DBusActivatable"@.len() == 15,
        "DBusActivatable"@[0] == 'D',
        "Name"@.len() == 4,
        "Name"@[0] == 'N',
        MARKER@.len() == 18,
        MARKER@[0] == 'X',
        "="@ == seq!['='],
        "=false"@ == "="@ + "false"@,
        "false"@.len() == 5,
        "false"@[0] == 'f',
        "false"@[4] == 'e',
        one_line("="@),
        one_line("=false"@),
        one_line(SUFFIX@),
        SUFFIX@.len() > 0,
        SUFFIX@.last() == ')',
        one_line("TryExec="@),
        one_line("DBusActivatable=false"@),
        one_line(MARKER@),
        "TryExec="@ == "TryExec"@ + "="@,
        "DBusActivatable=false"@ == "DBusActivatable"@ + "="@ + "false"@,
        !"TryExec"@.contains('='),
        !"DBusActivatable"@.contains('='),
        !MARKER@.contains('='),
        trimmed_end("TryExec"@) == "TryExec"@,
        trimmed_end("DBusActivatable"@) == "DBusActivatable"@,
        trimmed_end(MARKER@) == MARKER@,
        trimmed_start("false"@) == "false"@,
{
    reveal_strlit("Exec");
    reveal_strlit("TryExec");
    reveal_strlit("DBusActivatable");
    reveal_strlit("Name");
    reveal_strlit("X-Bubbler-Instance");
    reveal_strlit("=");
    reveal_strlit("=false");
    reveal_strlit("false");
    reveal_strlit(" (Bubbler)");
    reveal_strlit("TryExec=");
    reveal_strlit("DBusActivatable=false");
    assert("="@ =~= seq!['=']);
    assert("=false"@ =~= "="@ + "false"@);
    assert("TryExec="@ =~= "TryExec"@ + "="@);
    assert("DBusActivatable=false"@ =~= "DBusActivatable"@ + "="@ + "false"@);
}

/// What is kept of a line that is no header, and what it is changed to.
proof fn lemma_patched_line(entry: bool, line: Seq<char>, with: Patching)
    requires
        sound_patching(with),
        one_line(line),
        header_of(without_cr(line)) is None,
    ensures
        ({
            let new = patched_line(entry, line, with);
            let body = without_cr(new);
            let was = key_value(without_cr(line));
            &&& one_line(new)
            &&& line.len() > 0 ==> new.len() > 0
            &&& header_of(body) is None
            &&& key_value(body) is Some <==> was is Some
            &&& was is Some ==> {
                let key = (was->Some_0).0;
                &&& (key_value(body)->Some_0).0 == key
                &&& key == "Exec"@ ==> begins(new, "Exec"@ + "="@ + with.launch)
                &&& entry && key == "DBusActivatable"@ ==> key_value(body) == Some(
                    (key, "false"@),
                )
                &&& entry && key == "TryExec"@ && (with.program.len() > 0 ==> with.program.last()
                    != '\r') ==> key_value(body) == Some((key, trimmed_start(with.program)))
            }
        }),
{
    lemma_keys();
    let plain = without_cr(line);
    let new = patched_line(entry, line, with);
    let body = without_cr(new);
    if key_value(plain) is Some {
        let (key, value) = key_value(plain)->Some_0;
        assert(one_line(plain)) by {
            assert forall|i: int| 0 <= i < plain.len() implies plain[i] != '\n' by {
                assert(line.contains(line[i]));
            }
        }
        lemma_key(plain);
        match rewritten(entry, key, value, with) {
            Some(text) => {
                lemma_rewritten(entry, key, value, with);
                let end = line_end(line);
                assert(one_line(end));
                lemma_one_line_concat(text, end);
                lemma_cr_key(new);
                assert(new[0] == key[0]);
                if body.len() > 0 {
                    assert(body[0] == new[0]);
                }
                lemma_rewritten_key(entry, key, value, with, end);
                if key[0] != 'N' {
                    lemma_not_a_name(key);
                }
                if key == "Exec"@ {
                    let head = "Exec"@ + "="@ + with.launch;
                    assert(new.take(head.len() as int) =~= head);
                }
                if end.len() > 0 {
                    assert(body =~= text);
                } else {
                    assert(new =~= text);
                    if entry && key == "DBusActivatable"@ {
                        assert(text.last() == 'e');
                        assert(body == text);
                    }
                    if entry && key == "TryExec"@ && (with.program.len() > 0
                        ==> with.program.last() != '\r') {
                        assert(text.last() != '\r');
                        assert(body == text);
                    }
                }
            },
            None => {},
        }
    }
}

/// A rewritten line is on one line and begins with its key.
proof fn lemma_rewritten(entry: bool, key: Seq<char>, value: Seq<char>, with: Patching)
    requires
        sound_patching(with),
        one_line(key),
        one_line(value),
        rewritten(entry, key, value, with) is Some,
    ensures
        one_line(rewritten(entry, key, value, with)->Some_0),
        key.len() > 0,
        key[0] != '[',
        rewritten(entry, key, value, with)->Some_0.len() > 0,
        rewritten(entry, key, value, with)->Some_0[0] == key[0],
{
    lemma_keys();
    lemma_one_line_concat(key, "="@);
    lemma_one_line_concat(key + "="@, value);
    lemma_one_line_concat(key + "="@ + value, SUFFIX@);
    lemma_one_line_concat(key + "="@, with.launch);
    lemma_one_line_concat(key + "="@ + with.launch, value);
    lemma_one_line_concat(key + "="@, with.program);
    lemma_one_line_concat(key, "=false"@);
    if key_base(key) == "Name"@ {
        lemma_index_from(key, '[', 0);
        assert(key_base(key)[0] == key[0]);
    }
}

/// The key of a rewritten line is the one it had.
proof fn lemma_rewritten_key(
    entry: bool,
    key: Seq<char>,
    value: Seq<char>,
    with: Patching,
    end: Seq<char>,
)
    requires
        !key.contains('='),
        trimmed_end(key) == key,
        rewritten(entry, key, value, with) is Some,
    ensures
        ({
            let text = rewritten(entry, key, value, with)->Some_0;
            &&& key_value(text + end) is Some
            &&& (key_value(text + end)->Some_0).0 == key
            &&& key_value(text) is Some
            &&& entry && key == "DBusActivatable"@ ==> key_value(text) == Some((key, "false"@))
            &&& entry && key == "TryExec"@ ==> key_value(text) == Some(
                (key, trimmed_start(with.program)),
            )
        }),
{
    lemma_keys();
    let text = rewritten(entry, key, value, with)->Some_0;
    if key == "TryExec"@ || key == "DBusActivatable"@ {
        lemma_not_a_name(key);
    }
    if entry && key_base(key) == "Name"@ {
        assert(text + end =~= key + "="@ + (value + SUFFIX@ + end));
        assert(text =~= key + "="@ + (value + SUFFIX@));
        lemma_written(key, value + SUFFIX@ + end);
        lemma_written(key, value + SUFFIX@);
    } else if key == "Exec"@ {
        assert(text + end =~= key + "="@ + (with.launch + value + end));
        assert(text =~= key + "="@ + (with.launch + value));
        lemma_written(key, with.launch + value + end);
        lemma_written(key, with.launch + value);
    } else if entry && key == "TryExec"@ {
        assert(text + end =~= key + "="@ + (with.program + end));
        lemma_written(key, with.program + end);
        lemma_written(key, with.program);
    } else {
        assert(text + end =~= key + "="@ + ("false"@ + end));
        assert(text =~= key + "="@ + "false"@);
        lemma_written(key, "false"@ + end);
        lemma_written(key, "false"@);
    }
}

/// A key with another first letter is no name.
pub proof fn lemma_not_a_name(key: Seq<char>)
    requires
        key.len() > 0,
        key[0] != 'N',
    ensures
        key_base(key) != "Name"@,
{
    lemma_keys();
    lemma_index_from(key, '[', 0);
    if key_base(key) == "Name"@ {
        assert(key_base(key)[0] == key[0]);
    }
}

/// Whether a line, where it is a command line, is one that starts through
/// bubbler.
pub open spec fn wrapped(line: Seq<char>, launch: Seq<char>) -> bool {
    let body = without_cr(line);
    match key_value(body) {
        Some((key, _)) => header_of(body) is None && key == "Exec"@ ==> begins(
            line,
            "Exec"@ + "="@ + launch,
        ),
        None => true,
    }
}

/// What an added line is: a key and its value, and none of them a command
/// line.
pub proof fn lemma_added_line(key: Seq<char>, value: Seq<char>, eol: Seq<char>)
    requires
        !key.contains('='),
        trimmed_end(key) == key,
        key.len() > 0,
        key[0] != '[',
        one_line(key),
        one_line(value),
        eol == Seq::<char>::empty() || eol == seq!['\r'],
    ensures
        ({
            let line = key + "="@ + value + eol;
            let body = without_cr(line);
            &&& one_line(line)
            &&& line.len() > 0
            &&& header_of(line) is None
            &&& header_of(body) is None
            &&& key_value(line) is Some
            &&& (key_value(line)->Some_0).0 == key
            &&& key_value(body) is Some
            &&& (key_value(body)->Some_0).0 == key
            &&& (value.len() > 0 ==> value.last() != '\r') ==> key_value(body) == Some(
                (key, trimmed_start(value)),
            )
            &&& eol.len() == 0 ==> key_value(line) == Some((key, trimmed_start(value)))
        }),
{
    lemma_keys();
    let line = key + "="@ + value + eol;
    let body = without_cr(line);
    assert(one_line(eol));
    lemma_one_line_concat(key, "="@);
    lemma_one_line_concat(key + "="@, value);
    lemma_one_line_concat(key + "="@ + value, eol);
    assert(line =~= key + "="@ + (value + eol));
    lemma_written(key, value + eol);
    lemma_written(key, value);
    lemma_cr_key(line);
    assert(line[0] == key[0]);
    if body.len() > 0 {
        assert(body[0] == line[0]);
    }
    if eol.len() == 0 {
        assert(value + eol =~= value);
        if value.len() > 0 {
            assert(line.last() == value.last());
        } else {
            assert(line.last() == '=');
        }
    } else {
        assert(line.last() == '\r');
        assert(body =~= key + "="@ + value);
    }
}

/// What the added lines are.
proof fn lemma_added(present: Present, with: Patching)
    requires
        sound_patching(with),
    ensures
        ({
            let all = added_lines(present, with);
            let last = all.len() - 1;
            &&& 1 <= all.len() <= 3
            &&& all[last] == MARKER@ + "="@ + with.instance + with.eol
            &&& forall|i: int|
                0 <= i < all.len() ==> {
                    let line = #[trigger] all[i];
                    let body = without_cr(line);
                    &&& one_line(line)
                    &&& line.len() > 0
                    &&& header_of(line) is None
                    &&& header_of(body) is None
                    &&& key_value(body) is Some
                    &&& (key_value(body)->Some_0).0 != "Exec"@
                    &&& i < last ==> (key_value(body)->Some_0).0 != MARKER@
                    &&& i == last ==> (key_value(body)->Some_0).0 == MARKER@
                    &&& (key_value(body)->Some_0).0 == "DBusActivatable"@ ==> key_value(body)
                        == Some(("DBusActivatable"@, "false"@))
                    &&& (key_value(body)->Some_0).0 == "TryExec"@ && (with.program.len() > 0
                        ==> with.program.last() != '\r') ==> key_value(body) == Some(
                        ("TryExec"@, trimmed_start(with.program)),
                    )
                }
            &&& !present.try_exec ==> (key_value(without_cr(all[0]))->Some_0).0 == "TryExec"@
                && last > 0
            &&& !present.dbus_activatable ==> last > 0 && (key_value(
                without_cr(all[last - 1]),
            )->Some_0).0 == "DBusActivatable"@
        }),
{
    lemma_keys();
    let all = added_lines(present, with);
    let a = "TryExec="@ + with.program + with.eol;
    let b = "DBusActivatable=false"@ + with.eol;
    let c = MARKER@ + "="@ + with.instance + with.eol;
    assert(a =~= "TryExec"@ + "="@ + with.program + with.eol);
    assert(b =~= "DBusActivatable"@ + "="@ + "false"@ + with.eol);
    assert(one_line("TryExec"@)) by {
        reveal_strlit("TryExec");
    }
    assert(one_line("DBusActivatable"@)) by {
        reveal_strlit("DBusActivatable");
    }
    assert(one_line("false"@)) by {
        reveal_strlit("false");
    }
    lemma_added_line("TryExec"@, with.program, with.eol);
    lemma_added_line("DBusActivatable"@, "false"@, with.eol);
    lemma_added_line(MARKER@, with.instance, with.eol);
    assert("false"@.last() == 'e');
    assert("TryExec"@ != "DBusActivatable"@);
    assert("TryExec"@ != MARKER@);
    assert("DBusActivatable"@ != MARKER@);
    assert forall|i: int| 0 <= i < all.len() implies #[trigger] all[i] == a && i < all.len() - 1
        && !present.try_exec || all[i] == b && i < all.len() - 1 || all[i] == c && i == all.len()
        - 1 by {}
}

/// What the lines an entry becomes are: each on one line, and every command
/// line wrapped.
proof fn lemma_lines_until(lines: Seq<Seq<char>>, n: int, with: Patching)
    requires
        0 <= n <= lines.len(),
        sound_patching(with),
        forall|i: int| 0 <= i < lines.len() ==> one_line(#[trigger] lines[i]),
    ensures
        lines_until(lines, n, with).len() >= n,
        forall|j: int|
            0 <= j < lines_until(lines, n, with).len() ==> one_line(
                #[trigger] lines_until(lines, n, with)[j],
            ) && wrapped(lines_until(lines, n, with)[j], with.launch),
    decreases n,
{
    if n > 0 {
        lemma_lines_until(lines, n - 1, with);
        let state = state_at(lines, n - 1);
        let line = lines[n - 1];
        let before = lines_until(lines, n - 1, with);
        let more = lines_for(state, line, with);
        lemma_group_end(state, with);
        if header_of(without_cr(line)) is None {
            lemma_patched_line(in_entry(state), line, with);
        }
        assert forall|j: int| 0 <= j < more.len() implies one_line(#[trigger] more[j]) && wrapped(
            more[j],
            with.launch,
        ) by {
            if header_of(without_cr(line)) is Some {
                if j < more.len() - 1 {
                    assert(more[j] == group_end(state, with)[j]);
                } else {
                    assert(more[j] == line);
                }
            } else {
                assert(more[j] == patched_line(in_entry(state), line, with));
                if key_value(without_cr(line)) is Some {
                    assert((key_value(without_cr(more[j]))->Some_0).0 == (key_value(
                        without_cr(line),
                    )->Some_0).0);
                }
            }
        }
        let all = lines_until(lines, n, with);
        assert forall|j: int| 0 <= j < all.len() implies one_line(#[trigger] all[j]) && wrapped(
            all[j],
            with.launch,
        ) by {
            if j < before.len() {
                assert(all[j] == before[j]);
            } else {
                assert(all[j] == more[j - before.len()]);
            }
        }
    }
}

proof fn lemma_group_end(state: crate::desktop::patch::PatchState, with: Patching)
    requires
        sound_patching(with),
    ensures
        forall|j: int|
            0 <= j < group_end(state, with).len() ==> one_line(
                #[trigger] group_end(state, with)[j],
            ) && wrapped(group_end(state, with)[j], with.launch) && group_end(
                state,
                with,
            )[j].len() > 0,
{
    lemma_added(state.present, with);
}

/// What an entry is patched with is sound.
proof fn lemma_sound(text: Seq<char>, instance: Seq<char>, program: Seq<char>)
    requires
        one_line(instance),
        one_line(program),
    ensures
        sound_patching(patching(text, instance, program)),
{
    lemma_launch(instance, program);
}

/// The lines of a text as they stand are on one line each, and there is one
/// at least.
pub proof fn lemma_raw_lines(text: Seq<char>)
    ensures
        raw_lines(text).len() >= 1,
        forall|i: int| 0 <= i < raw_lines(text).len() ==> one_line(#[trigger] raw_lines(text)[i]),
        text.len() > 0 && !has_final_newline(text) ==> raw_lines(text).last().len() > 0,
{
    lemma_split_parts(text, '\n');
    lemma_split_last(text, '\n');
    let parts = split_on(text, '\n');
    assert forall|i: int| 0 <= i < raw_lines(text).len() implies one_line(
        #[trigger] raw_lines(text)[i],
    ) by {
        assert(raw_lines(text)[i] == parts[i]);
    }
}

/// The lines of a generated entry are the patched ones.
proof fn lemma_out_lines(text: Seq<char>, instance: Seq<char>, program: Seq<char>)
    requires
        text.len() > 0,
        one_line(instance),
        one_line(program),
    ensures
        ({
            let with = patching(text, instance, program);
            let out = patched_text(text, instance, program);
            let all = patched_lines(raw_lines(text), with);
            &&& all.len() >= 1
            &&& raw_lines(out) == all
            &&& has_final_newline(out) == has_final_newline(text)
            &&& split_on(out, '\n') == (if has_final_newline(text) {
                all.push(Seq::empty())
            } else {
                all
            })
            &&& !has_final_newline(text) ==> all.last().len() > 0
            &&& forall|j: int|
                0 <= j < all.len() ==> one_line(#[trigger] all[j]) && wrapped(all[j], with.launch)
        }),
{
    let with = patching(text, instance, program);
    let lines = raw_lines(text);
    let n = lines.len() as int;
    lemma_sound(text, instance, program);
    lemma_raw_lines(text);
    lemma_lines_until(lines, n, with);
    let body = lines_until(lines, n, with);
    let end = group_end(state_at(lines, n), with);
    lemma_group_end(state_at(lines, n), with);
    let all = patched_lines(lines, with);
    assert forall|j: int| 0 <= j < all.len() implies one_line(#[trigger] all[j]) && wrapped(
        all[j],
        with.launch,
    ) by {
        if j < body.len() {
            assert(all[j] == body[j]);
        } else {
            assert(all[j] == end[j - body.len()]);
        }
    }
    lemma_split_join(all, '\n');
    let joined = join_with(all, '\n');
    let out = patched_text(text, instance, program);
    if has_final_newline(text) {
        let empty = Seq::<char>::empty();
        lemma_split_concat(joined, '\n', empty);
        assert(joined.push('\n') + empty =~= out);
        assert(split_on(empty, '\n') == seq![empty]);
        assert(split_on(out, '\n') =~= all.push(empty));
        assert(all.push(empty).drop_last() =~= all);
    } else {
        assert(all.last().len() > 0) by {
            if end.len() > 0 {
                assert(all.last() == end[end.len() - 1]);
            } else {
                let state = state_at(lines, n - 1);
                let line = lines[n - 1];
                assert(body == lines_until(lines, n - 1, with) + lines_for(state, line, with));
                assert(all.last() == body.last());
                assert(body.last() == lines_for(state, line, with).last());
                if header_of(without_cr(line)) is None {
                    lemma_patched_line(in_entry(state), line, with);
                }
            }
        }
        lemma_split_last(out, '\n');
    }
}

/// Whatever a launcher runs of a generated entry, it runs through bubbler:
/// every command line of it, in whatever group, begins with the program, the
/// instance and `--`.
pub proof fn every_command_line_starts_through_bubbler(
    text: Seq<char>,
    instance: Seq<char>,
    program: Seq<char>,
)
    requires
        !instance.contains('\n'),
        !program.contains('\n'),
    ensures
        forall|j: int|
            0 <= j < raw_lines(patched_text(text, instance, program)).len() ==> wrapped(
                #[trigger] raw_lines(patched_text(text, instance, program))[j],
                launch_of(instance, program),
            ),
{
    if text.len() > 0 {
        lemma_out_lines(text, instance, program);
    } else {
        let with = patching(text, instance, program);
        lemma_sound(text, instance, program);
        lemma_raw_lines(text);
        lemma_split_last(text, '\n');
        let lines = raw_lines(text);
        reveal_with_fuel(lines_until, 2);
        reveal_with_fuel(state_at, 2);
        assert(lines =~= seq![Seq::<char>::empty()]);
        assert(patched_lines(lines, with) =~= seq![Seq::<char>::empty()]);
        let out = patched_text(text, instance, program);
        assert(out =~= Seq::empty());
        assert(raw_lines(out) =~= seq![Seq::<char>::empty()]);
    }
}

/// Where the `i`th line of an entry ends up in the generated one.
pub open spec fn place(lines: Seq<Seq<char>>, i: int, with: Patching) -> int {
    lines_until(lines, i, with).len() as int + (if header_of(without_cr(lines[i])) is Some {
        group_end(state_at(lines, i), with).len() as int
    } else {
        0
    })
}

/// What the `i`th line of an entry becomes.
pub open spec fn line_after(lines: Seq<Seq<char>>, i: int, with: Patching) -> Seq<char> {
    if header_of(without_cr(lines[i])) is Some {
        lines[i]
    } else {
        patched_line(in_entry(state_at(lines, i)), lines[i], with)
    }
}

pub proof fn lemma_prefix(lines: Seq<Seq<char>>, i: int, n: int, with: Patching)
    requires
        0 <= i <= n <= lines.len(),
    ensures
        lines_until(lines, i, with).len() <= lines_until(lines, n, with).len(),
        lines_until(lines, n, with).take(lines_until(lines, i, with).len() as int) == lines_until(
            lines,
            i,
            with,
        ),
    decreases n - i,
{
    let short = lines_until(lines, i, with);
    if i < n {
        lemma_prefix(lines, i, n - 1, with);
        let mid = lines_until(lines, n - 1, with);
        let all = lines_until(lines, n, with);
        assert(all.take(short.len() as int) =~= mid.take(short.len() as int));
    } else {
        assert(short.take(short.len() as int) =~= short);
    }
}

proof fn lemma_place(lines: Seq<Seq<char>>, i: int, with: Patching)
    requires
        0 <= i < lines.len(),
    ensures
        0 <= place(lines, i, with) < patched_lines(lines, with).len(),
        patched_lines(lines, with)[place(lines, i, with)] == line_after(lines, i, with),
        lines_until(lines, i + 1, with).len() == place(lines, i, with) + 1,
        lines_until(lines, i, with).len() <= place(lines, i, with),
{
    let n = lines.len() as int;
    lemma_prefix(lines, i + 1, n, with);
    let upto = lines_until(lines, i + 1, with);
    let body = lines_until(lines, n, with);
    let at = place(lines, i, with);
    assert(upto == lines_until(lines, i, with) + lines_for(state_at(lines, i), lines[i], with));
    assert(upto.last() == line_after(lines, i, with));
    assert(upto.len() == at + 1);
    assert(body.take(upto.len() as int)[at] == body[at]);
    assert(patched_lines(lines, with)[at] == body[at]);
}

/// Whether a line is one that is added to an entry.
pub open spec fn added_line(line: Seq<char>, with: Patching) -> bool {
    exists|present: Present| #[trigger] added_lines(present, with).contains(line)
}

proof fn lemma_rest_is_added(lines: Seq<Seq<char>>, n: int, j: int, with: Patching)
    requires
        0 <= n <= lines.len(),
        0 <= j < lines_until(lines, n, with).len(),
    ensures
        (exists|i: int| 0 <= i < n && #[trigger] place(lines, i, with) == j) || added_line(
            lines_until(lines, n, with)[j],
            with,
        ),
    decreases n,
{
    if n > 0 {
        let before = lines_until(lines, n - 1, with);
        let state = state_at(lines, n - 1);
        let more = lines_for(state, lines[n - 1], with);
        let all = lines_until(lines, n, with);
        if j < before.len() {
            lemma_rest_is_added(lines, n - 1, j, with);
            assert(all[j] == before[j]);
        } else if j == place(lines, n - 1, with) {
        } else {
            assert(all[j] == more[j - before.len()]);
            let end = group_end(state, with);
            assert(more[j - before.len()] == end[j - before.len()]);
            assert(end.contains(all[j]));
            assert(added_lines(state.present, with).contains(all[j]));
        }
    }
}

/// Nothing of the application's own entry is dropped or moved: each of its
/// lines is in the generated one, in the same order, as it stood or with its
/// key as it stood, and whatever else is there is a line that was added. A
/// line is changed only where its key is `Exec`, or in the main group a
/// `Name`, `TryExec` or `DBusActivatable`.
pub proof fn every_line_of_the_source_is_kept(
    text: Seq<char>,
    instance: Seq<char>,
    program: Seq<char>,
)
    requires
        text.len() > 0,
        !instance.contains('\n'),
        !program.contains('\n'),
    ensures
        ({
            let with = patching(text, instance, program);
            let source = raw_lines(text);
            let out = raw_lines(patched_text(text, instance, program));
            &&& forall|i: int|
                0 <= i < source.len() ==> {
                    let at = #[trigger] place(source, i, with);
                    let was = key_value(without_cr(source[i]));
                    let entry = in_entry(state_at(source, i));
                    &&& 0 <= at < out.len()
                    &&& out[at] == line_after(source, i, with)
                    &&& header_of(without_cr(source[i])) is Some ==> out[at] == source[i]
                    &&& was is None ==> out[at] == source[i]
                    &&& was is Some ==> {
                        let key = (was->Some_0).0;
                        &&& (key_value(without_cr(out[at]))->Some_0).0 == key
                        &&& key != "Exec"@ && !(entry && (key_base(key) == "Name"@ || key
                            == "TryExec"@ || key == "DBusActivatable"@)) ==> out[at] == source[i]
                    }
                }
            &&& forall|i: int, k: int|
                0 <= i < k < source.len() ==> #[trigger] place(source, i, with)
                    < #[trigger] place(source, k, with)
            &&& forall|j: int|
                0 <= j < out.len() ==> (exists|i: int|
                    0 <= i < source.len() && #[trigger] place(source, i, with) == j) || added_line(
                    #[trigger] out[j],
                    with,
                )
            &&& has_final_newline(patched_text(text, instance, program)) == has_final_newline(text)
        }),
{
    let with = patching(text, instance, program);
    let source = raw_lines(text);
    let n = source.len() as int;
    lemma_out_lines(text, instance, program);
    lemma_raw_lines(text);
    lemma_sound(text, instance, program);
    let out = raw_lines(patched_text(text, instance, program));
    assert forall|i: int| 0 <= i < source.len() implies {
        let at = #[trigger] place(source, i, with);
        let was = key_value(without_cr(source[i]));
        let entry = in_entry(state_at(source, i));
        &&& 0 <= at < out.len()
        &&& out[at] == line_after(source, i, with)
        &&& header_of(without_cr(source[i])) is Some ==> out[at] == source[i]
        &&& was is None ==> out[at] == source[i]
        &&& was is Some ==> {
            let key = (was->Some_0).0;
            &&& (key_value(without_cr(out[at]))->Some_0).0 == key
            &&& key != "Exec"@ && !(entry && (key_base(key) == "Name"@ || key == "TryExec"@ || key
                == "DBusActivatable"@)) ==> out[at] == source[i]
        }
    } by {
        lemma_place(source, i, with);
        if header_of(without_cr(source[i])) is None {
            lemma_patched_line(in_entry(state_at(source, i)), source[i], with);
        }
    }
    assert forall|i: int, k: int| 0 <= i < k < source.len() implies #[trigger] place(
        source,
        i,
        with,
    ) < #[trigger] place(source, k, with) by {
        lemma_place(source, i, with);
        lemma_place(source, k, with);
        lemma_prefix(source, i + 1, k, with);
    }
    let body = lines_until(source, n, with);
    let end = group_end(state_at(source, n), with);
    assert forall|j: int| 0 <= j < out.len() implies (exists|i: int|
        0 <= i < source.len() && #[trigger] place(source, i, with) == j) || added_line(
        #[trigger] out[j],
        with,
    ) by {
        if j < body.len() {
            lemma_rest_is_added(source, n, j, with);
            assert(out[j] == body[j]);
        } else {
            assert(out[j] == end[j - body.len()]);
            assert(added_lines(state_at(source, n).present, with).contains(out[j]));
        }
    }
}

/// Lines without the carriage returns they end in.
pub open spec fn bodies(lines: Seq<Seq<char>>) -> Seq<Seq<char>> {
    Seq::new(lines.len(), |i: int| without_cr(lines[i]))
}

/// Whether some line from `from` on to `to` has the key `key`.
pub open spec fn has_key(lines: Seq<Seq<char>>, from: int, to: int, key: Seq<char>) -> bool {
    exists|j: int|
        from <= j < to && key_value(without_cr(#[trigger] lines[j])) is Some && (key_value(
            without_cr(lines[j]),
        )->Some_0).0 == key
}

/// Up to the end of the first main group every line becomes one line.
proof fn lemma_up_to(lines: Seq<Seq<char>>, a: int, e: int, n: int, with: Patching)
    requires
        0 <= a < e <= lines.len(),
        0 <= n <= e,
        header_of(without_cr(lines[a])) == Some(ENTRY_GROUP@),
        forall|j: int|
            0 <= j < a ==> header_of(without_cr(#[trigger] lines[j])) != Some(ENTRY_GROUP@),
        forall|j: int| a < j < e ==> header_of(without_cr(#[trigger] lines[j])) is None,
    ensures
        in_entry(state_at(lines, n)) <==> n > a,
        lines_until(lines, n, with).len() == n,
        forall|j: int|
            0 <= j < n ==> #[trigger] lines_until(lines, n, with)[j] == line_after(lines, j, with),
        state_at(lines, n).present.try_exec <==> has_key(lines, a + 1, n, "TryExec"@),
        state_at(lines, n).present.dbus_activatable <==> has_key(
            lines,
            a + 1,
            n,
            "DBusActivatable"@,
        ),
    decreases n,
{
    if n > 0 {
        lemma_up_to(lines, a, e, n - 1, with);
        let before = lines_until(lines, n - 1, with);
        let all = lines_until(lines, n, with);
        let state = state_at(lines, n - 1);
        let line = lines[n - 1];
        assert(lines_for(state, line, with) =~= seq![line_after(lines, n - 1, with)]);
        assert forall|j: int| 0 <= j < n implies #[trigger] all[j] == line_after(
            lines,
            j,
            with,
        ) by {
            if j < n - 1 {
                assert(all[j] == before[j]);
            }
        }
        lemma_has_key(lines, a + 1, n, "TryExec"@);
        lemma_has_key(lines, a + 1, n, "DBusActivatable"@);
    }
}

proof fn lemma_has_key(lines: Seq<Seq<char>>, from: int, n: int, key: Seq<char>)
    ensures
        n <= from ==> !has_key(lines, from, n, key),
        n > from ==> has_key(lines, from, n, key) == (has_key(lines, from, n - 1, key) || (
        key_value(without_cr(lines[n - 1])) is Some && (key_value(
            without_cr(lines[n - 1]),
        )->Some_0).0 == key)),
{
    if n > from {
        if has_key(lines, from, n - 1, key) {
            let j = choose|j: int|
                from <= j < n - 1 && key_value(without_cr(#[trigger] lines[j])) is Some && (
                key_value(without_cr(lines[j]))->Some_0).0 == key;
            assert(from <= j < n);
        }
        if has_key(lines, from, n, key) {
            let j = choose|j: int|
                from <= j < n && key_value(without_cr(#[trigger] lines[j])) is Some && (key_value(
                    without_cr(lines[j]),
                )->Some_0).0 == key;
            if j < n - 1 {
                assert(from <= j < n - 1);
            }
        }
    }
}

/// The missing keys are at the end of the first main group.
proof fn lemma_first_group(lines: Seq<Seq<char>>, a: int, e: int, with: Patching)
    requires
        0 <= a < e <= lines.len(),
        header_of(without_cr(lines[a])) == Some(ENTRY_GROUP@),
        forall|j: int|
            0 <= j < a ==> header_of(without_cr(#[trigger] lines[j])) != Some(ENTRY_GROUP@),
        forall|j: int| a < j < e ==> header_of(without_cr(#[trigger] lines[j])) is None,
        e < lines.len() ==> header_of(without_cr(lines[e])) is Some,
    ensures
        ({
            let all = patched_lines(lines, with);
            let more = added_lines(state_at(lines, e).present, with);
            &&& all.len() >= e + more.len()
            &&& e < lines.len() ==> all.len() > e + more.len()
            &&& e == lines.len() ==> all.len() == e + more.len()
            &&& forall|j: int| 0 <= j < e ==> #[trigger] all[j] == line_after(lines, j, with)
            &&& forall|k: int| 0 <= k < more.len() ==> all[e + k] == #[trigger] more[k]
        }),
{
    let n = lines.len() as int;
    lemma_up_to(lines, a, e, e, with);
    let all = patched_lines(lines, with);
    let more = added_lines(state_at(lines, e).present, with);
    let first = lines_until(lines, e, with);
    if e < n {
        lemma_prefix(lines, e + 1, n, with);
        let upto = lines_until(lines, e + 1, with);
        let body = lines_until(lines, n, with);
        assert(upto =~= first + more.push(lines[e]));
        assert forall|j: int| 0 <= j < upto.len() implies #[trigger] all[j] == upto[j] by {
            assert(body.take(upto.len() as int)[j] == body[j]);
        }
        assert forall|j: int| 0 <= j < e implies #[trigger] all[j] == line_after(
            lines,
            j,
            with,
        ) by {
            assert(all[j] == upto[j]);
            assert(upto[j] == first[j]);
        }
        assert forall|k: int| 0 <= k < more.len() implies all[e + k] == #[trigger] more[k] by {
            assert(all[e + k] == upto[e + k]);
        }
    } else {
        assert(all == first + more);
        assert forall|j: int| 0 <= j < e implies #[trigger] all[j] == line_after(
            lines,
            j,
            with,
        ) by {
            assert(all[j] == first[j]);
        }
    }
}

/// The lines of a text and its lines as they stand.
proof fn lemma_lines_of(text: Seq<char>)
    requires
        text.len() > 0,
    ensures
        lines_of(text).len() == raw_lines(text).len(),
        forall|i: int|
            0 <= i < raw_lines(text).len() && (i < raw_lines(text).len() - 1 || has_final_newline(
                text,
            )) ==> #[trigger] lines_of(text)[i] == without_cr(raw_lines(text)[i]),
        !has_final_newline(text) ==> lines_of(text).last() == raw_lines(text).last(),
{
    lemma_split_last(text, '\n');
    lemma_split_parts(text, '\n');
    let parts = split_on(text, '\n');
    assert forall|i: int|
        0 <= i < raw_lines(text).len() && (i < raw_lines(text).len() - 1 || has_final_newline(
            text,
        )) implies #[trigger] lines_of(text)[i] == without_cr(raw_lines(text)[i]) by {
        assert(raw_lines(text)[i] == parts[i]);
    }
}

/// A group without a value for a key has no line with the key.
proof fn lemma_no_value(group: Seq<Seq<char>>, key: Seq<char>, i: int, j: int)
    requires
        0 <= i <= j < group.len(),
        value_from(group, key, i) is None,
        key_value(group[j]) is Some,
    ensures
        (key_value(group[j])->Some_0).0 != key,
    decreases j - i,
{
    if i < j {
        lemma_no_value(group, key, i + 1, j);
    }
}

/// Where the first main group of an entry that can be patched stands.
pub proof fn lemma_source_group(text: Seq<char>, instance: Seq<char>, program: Seq<u8>)
    requires
        patch_of(text, instance, program) is Ok,
    ensures
        ({
            let lines = raw_lines(text);
            let a = entry_header(bodies(lines), 0);
            let e = next_header(bodies(lines), a + 1);
            &&& text.len() > 0
            &&& 0 <= a < e <= lines.len()
            &&& header_of(without_cr(lines[a])) == Some(ENTRY_GROUP@)
            &&& forall|j: int|
                0 <= j < a ==> header_of(without_cr(#[trigger] lines[j])) != Some(ENTRY_GROUP@)
            &&& forall|j: int| a < j < e ==> header_of(without_cr(#[trigger] lines[j])) is None
            &&& e < lines.len() ==> header_of(without_cr(lines[e])) is Some
            &&& !has_key(lines, a + 1, e, MARKER@)
        }),
{
    let found = lines_of(text);
    let lines = raw_lines(text);
    let plain = bodies(lines);
    let at = entry_header(found, 0);
    lemma_entry_header(found, 0);
    lemma_next_header(found, at + 1);
    let group = entry_lines(found);
    assert(value_of(group, "Exec"@) is Some);
    assert(group.len() > 0);
    lemma_split_last(text, '\n');
    assert(text.len() > 0) by {
        if text.len() == 0 {
            assert(split_on(text, '\n') =~= seq![Seq::<char>::empty()]);
            assert(found.len() == 0);
        }
    }
    lemma_lines_of(text);
    lemma_entry_header(plain, 0);
    let a = entry_header(plain, 0);
    assert(at + 1 < found.len());
    assert forall|j: int| 0 <= j <= at implies #[trigger] plain[j] == found[j] by {}
    assert(a == at) by {
        if a < at {
            assert(plain[a] == found[a]);
        } else if a > at {
            assert(plain[at] == found[at]);
            assert(header_of(plain[at]) == Some(ENTRY_GROUP@));
        }
    }
    lemma_next_header(plain, a + 1);
    let e = next_header(plain, a + 1);
    assert forall|j: int| 0 <= j < a implies header_of(without_cr(#[trigger] lines[j])) != Some(
        ENTRY_GROUP@,
    ) by {
        assert(plain[j] == without_cr(lines[j]));
    }
    assert forall|j: int| a < j < e implies header_of(without_cr(#[trigger] lines[j])) is None by {
        assert(plain[j] == without_cr(lines[j]));
    }
    assert(!has_key(lines, a + 1, e, MARKER@)) by {
        if has_key(lines, a + 1, e, MARKER@) {
            let j = choose|j: int|
                a + 1 <= j < e && key_value(without_cr(#[trigger] lines[j])) is Some && (key_value(
                    without_cr(lines[j]),
                )->Some_0).0 == MARKER@;
            let end = next_header(found, at + 1);
            assert(end >= e) by {
                if end < e {
                    assert(header_of(found[end]) is Some);
                    assert(header_of(without_cr(lines[end])) is None);
                    if found[end] != without_cr(lines[end]) {
                        assert(found[end] == lines[end]);
                        assert(lines[end].last() == '\r');
                    }
                }
            }
            assert(group[j - at - 1] == found[j]);
            lemma_cr_key(lines[j]);
            lemma_no_value(group, MARKER@, 0, j - at - 1);
        }
    }
}

/// What the first main group of a generated entry holds: where it stands, the
/// line that names the instance, and that no line before it does.
proof fn lemma_generated_group(
    text: Seq<char>,
    instance: Seq<char>,
    program: Seq<u8>,
    name: Seq<char>,
)
    requires
        patch_of(text, instance, program) is Ok,
        name == vstd::utf8::decode_utf8(program),
        one_line(instance),
        one_line(name),
    ensures
        ({
            let with = patching(text, instance, name);
            let out = patched_text(text, instance, name);
            let lines = raw_lines(text);
            let a = entry_header(bodies(lines), 0);
            let e = next_header(bodies(lines), a + 1);
            let more = added_lines(state_at(lines, e).present, with);
            let m = e + more.len() - 1;
            let found = lines_of(out);
            let group = entry_lines(found);
            &&& 0 <= a < e <= m < found.len()
            &&& group.len() >= m - a
            &&& forall|j: int| a < j <= m ==> group[j - a - 1] == #[trigger] found[j]
            &&& forall|j: int| a < j < m ==> found[j] == without_cr(
                #[trigger] patched_lines(lines, with)[j],
            )
            &&& (has_final_newline(text) || e < lines.len()) ==> found[m] == without_cr(
                patched_lines(lines, with)[m],
            )
            &&& !(has_final_newline(text) || e < lines.len()) ==> found[m] == patched_lines(
                lines,
                with,
            )[m]
            &&& found.len() == patched_lines(lines, with).len()
            &&& entry_header(found, 0) == a
            &&& next_header(found, a + 1) == a + 1 + group.len()
        }),
{
    let with = patching(text, instance, name);
    let out = patched_text(text, instance, name);
    let lines = raw_lines(text);
    lemma_source_group(text, instance, program);
    lemma_raw_lines(text);
    let a = entry_header(bodies(lines), 0);
    let e = next_header(bodies(lines), a + 1);
    lemma_out_lines(text, instance, name);
    lemma_sound(text, instance, name);
    lemma_first_group(lines, a, e, with);
    let state = state_at(lines, e);
    let more = added_lines(state.present, with);
    lemma_added(state.present, with);
    let m = e + more.len() - 1;
    let all = patched_lines(lines, with);
    let found = lines_of(out);
    assert(out.len() > 0) by {
        lemma_split_last(out, '\n');
        if out.len() == 0 {
            assert(split_on(out, '\n') =~= seq![Seq::<char>::empty()]);
            assert(all.len() >= 2);
        }
    }
    lemma_lines_of(out);
    assert(found.len() == all.len());
    assert forall|j: int| 0 <= j < m implies #[trigger] found[j] == without_cr(all[j]) by {}
    assert forall|j: int| 0 <= j < a implies header_of(#[trigger] found[j]) != Some(
        ENTRY_GROUP@,
    ) by {
        assert(all[j] == line_after(lines, j, with));
        if header_of(without_cr(lines[j])) is None {
            lemma_patched_line(in_entry(state_at(lines, j)), lines[j], with);
        }
    }
    assert(header_of(found[a]) == Some(ENTRY_GROUP@)) by {
        assert(all[a] == line_after(lines, a, with));
    }
    lemma_entry_header(found, 0);
    assert(entry_header(found, 0) == a) by {
        let at = entry_header(found, 0);
        if at < a {
            assert(header_of(found[at]) == Some(ENTRY_GROUP@));
        } else if at > a {
            assert(header_of(found[a]) != Some(ENTRY_GROUP@));
        }
    }
    assert forall|j: int| a < j <= m implies header_of(#[trigger] found[j]) is None by {
        if j < e {
            assert(all[j] == line_after(lines, j, with));
            lemma_patched_line(in_entry(state_at(lines, j)), lines[j], with);
        } else {
            assert(all[e + (j - e)] == more[j - e]);
        }
    }
    lemma_next_header(found, a + 1);
    assert(next_header(found, a + 1) > m) by {
        let h = next_header(found, a + 1);
        if h <= m {
            assert(header_of(found[h]) is Some);
        }
    }
}

/// A launcher that asks the session bus to start an application would start
/// it outside the sandbox, so the main group of a generated entry says not to
/// and says so wherever it says anything of it; and the program a launcher
/// looks for is the one the command lines begin with.
pub proof fn a_generated_entry_is_never_started_over_the_bus(
    text: Seq<char>,
    instance: Seq<char>,
    program: Seq<u8>,
)
    requires
        instance_name(instance),
        !vstd::utf8::decode_utf8(program).contains('\n'),
    ensures
        patch_of(text, instance, program) matches Ok(out) ==> {
            let name = vstd::utf8::decode_utf8(program);
            let lines = lines_of(out);
            let group = entry_lines(lines);
            &&& value_of(group, "DBusActivatable"@) == Some("false"@)
            &&& forall|k: int|
                0 <= k < group.len() && key_value(#[trigger] group[k]) is Some && (key_value(
                    group[k],
                )->Some_0).0 == "DBusActivatable"@ ==> (key_value(group[k])->Some_0).1 == "false"@
            &&& (name.len() > 0 ==> name.last() != '\r') ==> value_of(group, "TryExec"@) == Some(
                trimmed_start(name),
            )
        },
{
    if patch_of(text, instance, program) is Ok {
        let name = vstd::utf8::decode_utf8(program);
        assert(one_line(instance)) by {
            assert forall|i: int| 0 <= i < instance.len() implies instance[i] != '\n' by {
                assert(word_char(instance[i]) || instance[i] == '.' || instance[i] == '-');
            }
        }
        assert(one_line(name));
        lemma_generated_group(text, instance, program, name);
        lemma_generated_end(text, instance, program, name);
        let out = patched_text(text, instance, name);
        let group = entry_lines(lines_of(out));
        let with = patching(text, instance, name);
        let (d, t) = lemma_forced(text, instance, program, name);
        lemma_keys();
        assert forall|k: int|
            0 <= k < group.len() && key_value(#[trigger] group[k]) is Some && (key_value(
                group[k],
            )->Some_0).0 == "DBusActivatable"@ implies (key_value(group[k])->Some_0).1
            == "false"@ by {
            lemma_forced_line(text, instance, program, name, k);
        }
        lemma_some_value(group, "DBusActivatable"@, 0, d);
        if name.len() > 0 ==> name.last() != '\r' {
            assert forall|k: int|
                0 <= k < group.len() && key_value(#[trigger] group[k]) is Some && (key_value(
                    group[k],
                )->Some_0).0 == "TryExec"@ implies (key_value(group[k])->Some_0).1
                == trimmed_start(name) by {
                lemma_forced_line(text, instance, program, name, k);
            }
            lemma_some_value(group, "TryExec"@, 0, t);
        }
    }
}

/// A line with a key gives the group a value for it, and some line of the
/// group has that key and value.
proof fn lemma_some_value(group: Seq<Seq<char>>, key: Seq<char>, i: int, j: int)
    requires
        0 <= i <= j < group.len(),
        key_value(group[j]) is Some,
        (key_value(group[j])->Some_0).0 == key,
    ensures
        value_from(group, key, i) is Some,
        exists|k: int|
            i <= k < group.len() && #[trigger] key_value(group[k]) == Some(
                (key, value_from(group, key, i)->Some_0),
            ),
    decreases j - i,
{
    match key_value(group[i]) {
        Some((k, v)) if k == key => {},
        _ => {
            lemma_some_value(group, key, i + 1, j);
        },
    }
}

/// A line of the first main group of a generated entry with a forced key has
/// the forced value.
#[verifier::rlimit(40)]
proof fn lemma_forced_line(
    text: Seq<char>,
    instance: Seq<char>,
    program: Seq<u8>,
    name: Seq<char>,
    k: int,
)
    requires
        patch_of(text, instance, program) is Ok,
        name == vstd::utf8::decode_utf8(program),
        one_line(instance),
        one_line(name),
        0 <= k < entry_lines(lines_of(patched_text(text, instance, name))).len(),
        key_value(entry_lines(lines_of(patched_text(text, instance, name)))[k]) is Some,
    ensures
        ({
            let line = entry_lines(lines_of(patched_text(text, instance, name)))[k];
            let (key, value) = key_value(line)->Some_0;
            &&& key == "DBusActivatable"@ ==> value == "false"@
            &&& key == "TryExec"@ && (name.len() > 0 ==> name.last() != '\r') ==> value
                == trimmed_start(name)
        }),
{
    let with = patching(text, instance, name);
    let out = patched_text(text, instance, name);
    let lines = raw_lines(text);
    lemma_keys();
    lemma_source_group(text, instance, program);
    lemma_generated_group(text, instance, program, name);
    lemma_generated_end(text, instance, program, name);
    lemma_raw_lines(text);
    lemma_sound(text, instance, name);
    let a = entry_header(bodies(lines), 0);
    let e = next_header(bodies(lines), a + 1);
    let state = state_at(lines, e);
    let more = added_lines(state.present, with);
    let m = e + more.len() - 1;
    let all = patched_lines(lines, with);
    let found = lines_of(out);
    let group = entry_lines(found);
    lemma_first_group(lines, a, e, with);
    lemma_added(state.present, with);
    let j = k + a + 1;
    if j <= m {
        assert(group[j - a - 1] == found[j]);
        if j < e {
            assert(found[j] == without_cr(all[j]));
            assert(all[j] == line_after(lines, j, with));
            lemma_up_to(lines, a, e, j, with);
            lemma_patched_line(in_entry(state_at(lines, j)), lines[j], with);
        } else {
            assert(all[e + (j - e)] == more[j - e]);
            if j == m {
                lemma_cr_key(all[j]);
            }
        }
    } else {
        lemma_key(group[k]);
    }
}

/// The first main group of a generated entry has a line for each forced key:
/// their indices.
proof fn lemma_forced(
    text: Seq<char>,
    instance: Seq<char>,
    program: Seq<u8>,
    name: Seq<char>,
) -> (r: (int, int))
    requires
        patch_of(text, instance, program) is Ok,
        name == vstd::utf8::decode_utf8(program),
        one_line(instance),
        one_line(name),
    ensures
        ({
            let group = entry_lines(lines_of(patched_text(text, instance, name)));
            &&& 0 <= r.0 < group.len()
            &&& 0 <= r.1 < group.len()
            &&& key_value(group[r.0]) is Some
            &&& (key_value(group[r.0])->Some_0).0 == "DBusActivatable"@
            &&& key_value(group[r.1]) is Some
            &&& (key_value(group[r.1])->Some_0).0 == "TryExec"@
        }),
{
    let with = patching(text, instance, name);
    let out = patched_text(text, instance, name);
    let lines = raw_lines(text);
    lemma_keys();
    lemma_source_group(text, instance, program);
    lemma_generated_group(text, instance, program, name);
    lemma_raw_lines(text);
    lemma_sound(text, instance, name);
    let a = entry_header(bodies(lines), 0);
    let e = next_header(bodies(lines), a + 1);
    let state = state_at(lines, e);
    let more = added_lines(state.present, with);
    let m = e + more.len() - 1;
    let all = patched_lines(lines, with);
    let found = lines_of(out);
    let group = entry_lines(found);
    lemma_up_to(lines, a, e, e, with);
    lemma_first_group(lines, a, e, with);
    lemma_added(state.present, with);
    let d = if state.present.dbus_activatable {
        let j = choose|j: int|
            a + 1 <= j < e && key_value(without_cr(#[trigger] lines[j])) is Some && (key_value(
                without_cr(lines[j]),
            )->Some_0).0 == "DBusActivatable"@;
        assert(all[j] == line_after(lines, j, with));
        lemma_patched_line(in_entry(state_at(lines, j)), lines[j], with);
        assert(group[j - a - 1] == found[j]);
        j - a - 1
    } else {
        let j = m - 1;
        assert(all[e + (j - e)] == more[j - e]);
        assert(group[j - a - 1] == found[j]);
        j - a - 1
    };
    let t = if state.present.try_exec {
        let j = choose|j: int|
            a + 1 <= j < e && key_value(without_cr(#[trigger] lines[j])) is Some && (key_value(
                without_cr(lines[j]),
            )->Some_0).0 == "TryExec"@;
        assert(all[j] == line_after(lines, j, with));
        lemma_patched_line(in_entry(state_at(lines, j)), lines[j], with);
        assert(group[j - a - 1] == found[j]);
        j - a - 1
    } else {
        let j = e;
        assert(all[e + (j - e)] == more[j - e]);
        assert(group[j - a - 1] == found[j]);
        j - a - 1
    };
    (d, t)
}

/// The first main group of a generated entry ends with what was added to it,
/// but for a header that a bare carriage return at the end of the text keeps
/// from being one.
proof fn lemma_generated_end(
    text: Seq<char>,
    instance: Seq<char>,
    program: Seq<u8>,
    name: Seq<char>,
)
    requires
        patch_of(text, instance, program) is Ok,
        name == vstd::utf8::decode_utf8(program),
        one_line(instance),
        one_line(name),
    ensures
        ({
            let with = patching(text, instance, name);
            let lines = raw_lines(text);
            let a = entry_header(bodies(lines), 0);
            let e = next_header(bodies(lines), a + 1);
            let more = added_lines(state_at(lines, e).present, with);
            let group = entry_lines(lines_of(patched_text(text, instance, name)));
            &&& group.len() <= e + more.len() - a
            &&& group.len() == e + more.len() - a ==> group.last().len() > 0 && group.last()[0]
                == '['
        }),
{
    let with = patching(text, instance, name);
    let out = patched_text(text, instance, name);
    let lines = raw_lines(text);
    lemma_source_group(text, instance, program);
    lemma_generated_group(text, instance, program, name);
    lemma_raw_lines(text);
    lemma_sound(text, instance, name);
    let a = entry_header(bodies(lines), 0);
    let e = next_header(bodies(lines), a + 1);
    let state = state_at(lines, e);
    let more = added_lines(state.present, with);
    lemma_first_group(lines, a, e, with);
    lemma_added(state.present, with);
    let all = patched_lines(lines, with);
    let found = lines_of(out);
    let group = entry_lines(found);
    let m = e + more.len() - 1;
    lemma_next_header(found, a + 1);
    lemma_entry_header(found, 0);
    let h = next_header(found, a + 1);
    if e < lines.len() {
        assert(all[m + 1] == lines[e]) by {
            lemma_place(lines, e, with);
            lemma_up_to(lines, a, e, e, with);
        }
        lemma_out_lines(text, instance, name);
        lemma_lines_of(out);
        assert(found[m + 1] == without_cr(lines[e]) || found[m + 1] == lines[e]);
        if h > m + 1 {
            assert(header_of(found[m + 1]) is None);
            assert(found[m + 1] == lines[e]);
            assert(m + 1 == found.len() - 1);
            assert(group == found.subrange(a + 1, h));
            assert(group.last() == found[m + 1]);
            assert(without_cr(lines[e])[0] == '[');
        }
    }
}

} // verus!
