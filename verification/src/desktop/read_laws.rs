//! What is read of an entry's lines, and what is written in their place.

use vstd::prelude::*;
use vstd::utf8::{decode_utf8, valid_utf8};

use crate::desktop::entry::{
    entry_header, entry_lines, head_of, header_of, index_from, key_base, key_value,
    lemma_index_from, lines_of, next_header, value_from, value_of, without_cr,
};
use crate::desktop::patch::{
    added_lines, patch_of, patched_text, patching, rewritten, Patching, Present,
};
use crate::desktop::quote::{ends_word, program_of, quoted_arg, word_end};
use crate::error::DesktopErrorView;
use crate::split::{join_with, split_on};
use crate::text::trimmed_start;
use crate::text_laws::{blank, lemma_trimmed_end, lemma_trimmed_start, what_is_split_can_be_joined};

verus! {

/// A line has a key exactly where it has an `=`: the key is what stands before
/// the first and the value what stands after it, but for the white space
/// beside the `=`.
pub proof fn a_line_is_its_key_and_its_value(line: Seq<char>)
    ensures
        key_value(line) is Some <==> line.contains('='),
        key_value(line) matches Some((key, value)) ==> exists|a: Seq<char>, b: Seq<char>|
            {
                &&& line == #[trigger] (key + a + seq!['='] + b + value)
                &&& blank(a)
                &&& blank(b)
                &&& !key.contains('=')
                &&& key.len() > 0 ==> !crate::text::white_space(key.last())
                &&& value.len() > 0 ==> !crate::text::white_space(value[0])
            },
{
    if line.contains('=') {
        let at = index_from(line, '=', 0);
        lemma_index_from(line, '=', 0);
        let i = line.index_of('=');
        let (key, value) = key_value(line)->Some_0;
        let (before, after) = (line.take(at), line.skip(at + 1));
        lemma_trimmed_end(before);
        lemma_trimmed_start(after);
        let a = before.skip(key.len() as int);
        let b = after.take(after.len() - value.len());
        assert(line =~= key + a + seq!['='] + b + value);
        assert forall|k: int| 0 <= k < key.len() implies key[k] != '=' by {
            assert(line[k] != '=');
        }
    }
}

/// A header is a name in brackets, whatever the name.
pub proof fn a_header_is_a_name_in_brackets(line: Seq<char>, name: Seq<char>)
    ensures
        header_of(line) == Some(name) <==> line == seq!['['] + name + seq![']'],
{
    if header_of(line) == Some(name) {
        assert(line =~= seq!['['] + name + seq![']']);
    }
    if line == seq!['['] + name + seq![']'] {
        assert(line.subrange(1, line.len() - 1) =~= name);
    }
}

proof fn lemma_value_from(group: Seq<Seq<char>>, key: Seq<char>, i: int)
    requires
        0 <= i <= group.len(),
    ensures
        match value_from(group, key, i) {
            None => forall|k: int|
                i <= k < group.len() ==> (key_value(#[trigger] group[k]) matches Some((found, _))
                    ==> found != key),
            Some(value) => exists|k: int|
                {
                    &&& i <= k < group.len()
                    &&& key_value(#[trigger] group[k]) == Some((key, value))
                    &&& forall|j: int|
                        i <= j < k ==> (key_value(#[trigger] group[j]) matches Some((found, _))
                            ==> found != key)
                },
        },
    decreases group.len() - i,
{
    if i < group.len() {
        match key_value(group[i]) {
            Some((found, value)) if found == key => {
                assert(key_value(group[i]) == Some((key, value)));
            },
            _ => lemma_value_from(group, key, i + 1),
        }
    }
}

/// A key has the value of the first line it is on, and none where no line is
/// of it.
pub proof fn a_key_has_the_value_of_its_first_line(group: Seq<Seq<char>>, key: Seq<char>)
    ensures
        match value_of(group, key) {
            None => forall|k: int|
                0 <= k < group.len() ==> (key_value(#[trigger] group[k]) matches Some((found, _))
                    ==> found != key),
            Some(value) => exists|k: int|
                {
                    &&& 0 <= k < group.len()
                    &&& key_value(#[trigger] group[k]) == Some((key, value))
                    &&& forall|j: int|
                        0 <= j < k ==> (key_value(#[trigger] group[j]) matches Some((found, _))
                            ==> found != key)
                },
        },
{
    lemma_value_from(group, key, 0);
}

proof fn lemma_headers(lines: Seq<Seq<char>>, i: int)
    requires
        0 <= i <= lines.len(),
    ensures
        i <= entry_header(lines, i) <= lines.len(),
        entry_header(lines, i) < lines.len() ==> header_of(lines[entry_header(lines, i)]) == Some(
            "Desktop Entry"@,
        ),
        forall|k: int|
            i <= k < entry_header(lines, i) ==> header_of(#[trigger] lines[k]) != Some(
                "Desktop Entry"@,
            ),
        i <= next_header(lines, i) <= lines.len(),
        next_header(lines, i) < lines.len() ==> header_of(lines[next_header(lines, i)]) is Some,
        forall|k: int|
            i <= k < next_header(lines, i) ==> header_of(#[trigger] lines[k]) is None,
    decreases lines.len() - i,
{
    if i < lines.len() {
        lemma_headers(lines, i + 1);
    }
}

/// What is read of an entry is read of its main group alone: the lines after
/// the first header that names it, up to the next header or the end.
pub proof fn an_entry_is_read_in_its_main_group(text: Seq<char>)
    ensures
        ({
            let lines = lines_of(text);
            let group = entry_lines(lines);
            let head = head_of(text);
            &&& head.command == value_of(group, "Exec"@)
            &&& head.marker == value_of(group, "X-Bubbler-Instance"@)
            &&& head.no_display <==> exists|i: int|
                0 <= i < group.len() && key_value(#[trigger] group[i]) == Some(
                    ("NoDisplay"@, "true"@),
                )
            &&& head.hidden <==> exists|i: int|
                0 <= i < group.len() && key_value(#[trigger] group[i]) == Some(
                    ("Hidden"@, "true"@),
                )
            &&& (forall|k: int|
                0 <= k < lines.len() ==> header_of(#[trigger] lines[k]) != Some("Desktop Entry"@))
                ==> group.len() == 0
            &&& forall|at: int|
                #![trigger lines[at]]
                0 <= at < lines.len() && header_of(lines[at]) == Some("Desktop Entry"@) && (forall|
                    k: int,
                |
                    0 <= k < at ==> header_of(#[trigger] lines[k]) != Some("Desktop Entry"@)) ==> {
                    let end = at + 1 + group.len();
                    &&& end <= lines.len()
                    &&& group == lines.subrange(at + 1, end)
                    &&& forall|k: int| at < k < end ==> header_of(#[trigger] lines[k]) is None
                    &&& end < lines.len() ==> header_of(lines[end]) is Some
                }
        }),
{
    let lines = lines_of(text);
    let group = entry_lines(lines);
    lemma_headers(lines, 0);
    let first = entry_header(lines, 0);
    if first < lines.len() {
        lemma_headers(lines, first + 1);
    }
    assert forall|at: int|
        #![trigger lines[at]]
        0 <= at < lines.len() && header_of(lines[at]) == Some("Desktop Entry"@) && (forall|k: int|
            0 <= k < at ==> header_of(#[trigger] lines[k]) != Some("Desktop Entry"@)) implies {
        let end = at + 1 + group.len();
        &&& end <= lines.len()
        &&& group == lines.subrange(at + 1, end)
        &&& forall|k: int| at < k < end ==> header_of(#[trigger] lines[k]) is None
        &&& end < lines.len() ==> header_of(lines[end]) is Some
    } by {
        assert(at == first) by {
            if first < at {
                assert(header_of(lines[first]) != Some("Desktop Entry"@));
            }
        }
    }
}

/// The lines of a text are what stands between its line feeds, without a
/// carriage return before one; put together again they are the text, where it
/// has no carriage return, with a line feed at its end where it has one.
pub proof fn lines_are_what_stands_between_line_feeds(text: Seq<char>)
    requires
        !text.contains('\r'),
    ensures
        text.len() == 0 ==> lines_of(text).len() == 0,
        text.len() > 0 && text.last() != '\n' ==> join_with(lines_of(text), '\n') == text,
        text.len() > 0 && text.last() == '\n' ==> join_with(lines_of(text), '\n').push('\n')
            == text,
        forall|i: int|
            0 <= i < lines_of(text).len() ==> !(#[trigger] lines_of(text)[i]).contains('\n'),
{
    let parts = split_on(text, '\n');
    what_is_split_can_be_joined(text, '\n');
    crate::split::lemma_split_last(text, '\n');
    let ended = Seq::new((parts.len() - 1) as nat, |i: int| without_cr(parts[i]));
    assert forall|i: int| 0 <= i < parts.len() implies without_cr(#[trigger] parts[i])
        == parts[i] by {
        if parts[i].len() > 0 && parts[i].last() == '\r' {
            assert(parts[i].contains('\r'));
            crate::split::lemma_split_holds(text, '\n', '\r', i);
        }
    }
    assert(ended =~= parts.drop_last());
    if parts.last().len() > 0 {
        assert(lines_of(text) =~= parts);
    } else if text.len() > 0 {
        assert(parts.last() =~= Seq::empty());
        assert(join_with(parts, '\n') =~= join_with(parts.drop_last(), '\n').push('\n'));
    } else {
        assert(parts =~= seq![Seq::<char>::empty()]);
    }
}

proof fn lemma_word_end(s: Seq<char>, i: int)
    requires
        0 <= i <= s.len(),
    ensures
        i <= word_end(s, i) <= s.len(),
        word_end(s, i) < s.len() ==> ends_word(s[word_end(s, i)]),
        forall|k: int| i <= k < word_end(s, i) ==> !ends_word(#[trigger] s[k]),
    decreases s.len() - i,
{
    if i < s.len() && !ends_word(s[i]) {
        lemma_word_end(s, i + 1);
    }
}

/// The program of a command line that is not quoted is its first word.
pub proof fn an_unquoted_program_is_the_first_word(value: Seq<char>)
    ensures
        ({
            let s = trimmed_start(value);
            &&& s.len() == 0 ==> program_of(value) is None
            &&& s.len() > 0 && s[0] != '"' ==> (program_of(value) matches Some(word) && {
                &&& word.len() <= s.len()
                &&& word == s.take(word.len() as int)
                &&& forall|i: int| 0 <= i < word.len() ==> !ends_word(#[trigger] word[i])
                &&& word.len() < s.len() ==> ends_word(s[word.len() as int])
            })
        }),
{
    lemma_word_end(trimmed_start(value), 0);
}

/// What a line of an entry becomes: in the main group its names say that they
/// are bubbler's, the program looked for is bubbler and it is never started
/// over the bus; in every group its command line is begun with the launch, and
/// keeps what it had; any other line stays.
pub proof fn a_line_is_rewritten_for_its_key(
    entry: bool,
    key: Seq<char>,
    value: Seq<char>,
    with: Patching,
)
    ensures
        key == "Exec"@ ==> rewritten(entry, key, value, with) == Some(
            "Exec="@ + with.launch + value,
        ),
        entry && key_base(key) == "Name"@ ==> rewritten(entry, key, value, with) == Some(
            key.push('=') + value + " (Bubbler)"@,
        ),
        entry && key == "TryExec"@ ==> rewritten(entry, key, value, with) == Some(
            "TryExec="@ + with.program,
        ),
        entry && key == "DBusActivatable"@ ==> rewritten(entry, key, value, with) == Some(
            "DBusActivatable=false"@,
        ),
        key != "Exec"@ && !(entry && (key_base(key) == "Name"@ || key == "TryExec"@ || key
            == "DBusActivatable"@)) ==> rewritten(entry, key, value, with) is None,
{
    reveal_strlit("Exec");
    reveal_strlit("Exec=");
    reveal_strlit("=");
    reveal_strlit("Name");
    reveal_strlit("TryExec");
    reveal_strlit("TryExec=");
    reveal_strlit("DBusActivatable");
    reveal_strlit("=false");
    reveal_strlit("DBusActivatable=false");
    lemma_base_of("Exec"@);
    lemma_base_of("TryExec"@);
    lemma_base_of("DBusActivatable"@);
    assert("Exec"@[0] != "Name"@[0]);
    assert("Exec"@.len() == 4 && "TryExec"@.len() == 7 && "DBusActivatable"@.len() == 15);
    assert("Exec"@ + "="@ =~= "Exec="@);
    assert("TryExec"@ + "="@ =~= "TryExec="@);
    assert("DBusActivatable"@ + "=false"@ =~= "DBusActivatable=false"@);
    assert(key + "="@ =~= key.push('='));
}

proof fn lemma_base_of(key: Seq<char>)
    requires
        forall|i: int| 0 <= i < key.len() ==> #[trigger] key[i] != '[',
    ensures
        key_base(key) == key,
{
    lemma_index_from(key, '[', 0);
    assert(key.take(key.len() as int) =~= key);
}

/// What is added at the end of the main group: what it lacks of the program
/// and of the bus, and always whose entry it is.
pub proof fn what_a_main_group_lacks_is_added(present: Present, with: Patching)
    ensures
        ({
            let all = added_lines(present, with);
            &&& all.len() == 1 + (if present.try_exec { 0int } else { 1 }) + (
            if present.dbus_activatable { 0int } else { 1 })
            &&& all.last() == "X-Bubbler-Instance="@ + with.instance + with.eol
            &&& !present.try_exec ==> all[0] == "TryExec="@ + with.program + with.eol
            &&& !present.dbus_activatable ==> all[all.len() - 2] == "DBusActivatable=false"@
                + with.eol
        }),
{
    reveal_strlit("X-Bubbler-Instance");
    reveal_strlit("=");
    reveal_strlit("X-Bubbler-Instance=");
    assert("X-Bubbler-Instance"@ + "="@ =~= "X-Bubbler-Instance="@);
}

/// A command line begins with the quoted program, `open`, the instance and
/// `--`; and lines are added with the line ends the entry has.
pub proof fn a_launch_names_the_program_and_the_instance(
    text: Seq<char>,
    instance: Seq<char>,
    program: Seq<char>,
)
    ensures
        patching(text, instance, program).launch == quoted_arg(program) + " open "@ + instance
            + " -- "@,
        patching(text, instance, program).instance == instance,
        patching(text, instance, program).program == program,
        patching(text, instance, program).eol.len() > 0 <==> exists|i: int|
            0 <= i < text.len() - 1 && #[trigger] text[i] == '\r' && text[i + 1] == '\n',
        patching(text, instance, program).eol.len() > 0 ==> patching(text, instance, program).eol
            == seq!['\r'],
{
}

/// An entry is patched exactly where it is no generated one, the program is a
/// text, and the entry has a main group with a command line and is not hidden;
/// each of these has its own error, and the first that holds is told.
pub proof fn an_entry_is_patched_where_it_can_be(
    text: Seq<char>,
    instance: Seq<char>,
    program: Seq<u8>,
)
    ensures
        ({
            let head = head_of(text);
            let lines = lines_of(text);
            let grouped = exists|k: int|
                0 <= k < lines.len() && header_of(#[trigger] lines[k]) == Some("Desktop Entry"@);
            let got = patch_of(text, instance, program);
            &&& got is Ok <==> head.marker is None && valid_utf8(program) && grouped
                && head.command is Some && !head.hidden
            &&& got matches Ok(out) ==> out == patched_text(text, instance, decode_utf8(program))
            &&& head.marker matches Some(owner) ==> got == Err::<Seq<char>, DesktopErrorView>(
                DesktopErrorView::Generated(owner),
            )
            &&& head.marker is None && !valid_utf8(program) ==> got == Err::<
                Seq<char>,
                DesktopErrorView,
            >(DesktopErrorView::ProgramNotUtf8)
            &&& head.marker is None && valid_utf8(program) && !grouped ==> got == Err::<
                Seq<char>,
                DesktopErrorView,
            >(DesktopErrorView::NoEntryGroup)
            &&& head.marker is None && valid_utf8(program) && grouped && head.command is None
                ==> got == Err::<Seq<char>, DesktopErrorView>(DesktopErrorView::NoExec)
            &&& head.marker is None && valid_utf8(program) && grouped && head.command is Some
                && head.hidden ==> got == Err::<Seq<char>, DesktopErrorView>(
                DesktopErrorView::Hidden,
            )
        }),
{
    lemma_headers(lines_of(text), 0);
}

/// A key without its locale is what stands before the first bracket.
pub proof fn a_key_without_its_locale_is_the_key(key: Seq<char>, locale: Seq<char>)
    requires
        forall|i: int| 0 <= i < key.len() ==> #[trigger] key[i] != '[',
    ensures
        key_base(key) == key,
        key_base(key.push('[') + locale) == key,
{
    lemma_base_of(key);
    let all = key.push('[') + locale;
    lemma_index_from(all, '[', 0);
    let at = index_from(all, '[', 0);
    assert(all[key.len() as int] == '[');
    if at < key.len() {
        assert(key[at] == all[at]);
    }
    assert(all.take(at) =~= key);
}

/// A generated entry ends in a line feed where its source does.
pub proof fn a_final_line_feed_is_kept(
    text: Seq<char>,
    instance: Seq<char>,
    program: Seq<char>,
)
    ensures
        text.len() > 0 && text.last() == '\n' ==> patched_text(text, instance, program).len() > 0
            && patched_text(text, instance, program).last() == '\n',
{
}

} // verus!
