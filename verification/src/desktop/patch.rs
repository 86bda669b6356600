//! The generated entry: an application's own with the few keys rewritten that
//! make it start through bubbler.

use vstd::prelude::*;
use vstd::utf8::{decode_utf8, encode_utf8_decode_utf8, valid_utf8};

use crate::desktop::entry::{
    base_key, entry_header, head, head_of, header, header_of, key_base, key_value,
    lemma_entry_header, lines, lines_of, split_key, without_cr, ENTRY_GROUP, MARKER,
};
use crate::desktop::quote::{exec_quote, quoted_arg};
use crate::error::{DesktopError, DesktopErrorView};
use crate::split::{join_with, lemma_split_parts, part_views, split_chars, split_on};
use crate::text::{
    chars_of, joined, outcome, same_text, text_of, text_of_bytes, text_views,
};

verus! {

/// Appended to `Name` and every `Name[xx]` of the generated entry. The only
/// mark a user sees in a menu: every localized name carries it, so the entry
/// is marked in every locale rather than in English.
pub const SUFFIX: &'static str = " (Bubbler)";

/// Which of the keys bubbler owns the source's main group already carries,
/// and therefore which are rewritten rather than added.
#[derive(Debug, Clone, Copy, PartialEq, Eq, Structural)]
pub struct Present {
    pub try_exec: bool,
    pub dbus_activatable: bool,
}

/// What is known after some lines: the group they end in, and the keys seen.
pub struct PatchState {
    pub group: Option<Seq<char>>,
    pub present: Present,
}

/// What an entry is patched with: the instance, the program that reaches
/// bubbler, the beginning of every command line, and how added lines end.
pub struct Patching {
    pub instance: Seq<char>,
    pub program: Seq<char>,
    pub launch: Seq<char>,
    pub eol: Seq<char>,
}

/// The keys the source did not carry, as lines.
pub open spec fn added_lines(present: Present, with: Patching) -> Seq<Seq<char>> {
    let first = if present.try_exec {
        Seq::empty()
    } else {
        seq!["TryExec="@ + with.program + with.eol]
    };
    let second = if present.dbus_activatable {
        first
    } else {
        first.push("DBusActivatable=false"@ + with.eol)
    };
    second.push(MARKER@ + "="@ + with.instance + with.eol)
}

/// What a key and its value become, where they are changed: a name is marked
/// and a program forced in the main group alone, and a command line is
/// wrapped in every group.
pub open spec fn rewritten(
    entry: bool,
    key: Seq<char>,
    value: Seq<char>,
    with: Patching,
) -> Option<Seq<char>> {
    if entry && key_base(key) == "Name"@ {
        Some(key + "="@ + value + SUFFIX@)
    } else if key == "Exec"@ {
        Some(key + "="@ + with.launch + value)
    } else if entry && key == "TryExec"@ {
        Some(key + "="@ + with.program)
    } else if entry && key == "DBusActivatable"@ {
        Some(key + "=false"@)
    } else {
        None
    }
}

/// The carriage return a line ends in, if it does.
pub open spec fn line_end(line: Seq<char>) -> Seq<char> {
    if line.len() > 0 && line.last() == '\r' {
        seq!['\r']
    } else {
        Seq::empty()
    }
}

/// What a line that is no header becomes. The carriage return of its ending
/// is no part of the value, and is put back.
pub open spec fn patched_line(entry: bool, line: Seq<char>, with: Patching) -> Seq<char> {
    match key_value(without_cr(line)) {
        Some((key, value)) => match rewritten(entry, key, value, with) {
            Some(new) => new + line_end(line),
            None => line,
        },
        None => line,
    }
}

/// The keys seen once a line of the main group was read.
pub open spec fn present_after(present: Present, line: Seq<char>) -> Present {
    match key_value(without_cr(line)) {
        Some((key, _)) => Present {
            try_exec: present.try_exec || key == "TryExec"@,
            dbus_activatable: present.dbus_activatable || key == "DBusActivatable"@,
        },
        None => present,
    }
}

/// Whether the main group is being read.
pub open spec fn in_entry(state: PatchState) -> bool {
    state.group == Some(ENTRY_GROUP@)
}

/// What is known once a line was read.
pub open spec fn state_after(state: PatchState, line: Seq<char>) -> PatchState {
    match header_of(without_cr(line)) {
        Some(name) => PatchState { group: Some(name), present: state.present },
        None => PatchState {
            group: state.group,
            present: if in_entry(state) {
                present_after(state.present, line)
            } else {
                state.present
            },
        },
    }
}

/// The lines a line becomes: a header ends the group before it, and the end of
/// the main group is where the missing keys are written.
pub open spec fn lines_for(state: PatchState, line: Seq<char>, with: Patching) -> Seq<Seq<char>> {
    match header_of(without_cr(line)) {
        Some(_) => group_end(state, with).push(line),
        None => seq![patched_line(in_entry(state), line, with)],
    }
}

/// The lines a group ends with.
pub open spec fn group_end(state: PatchState, with: Patching) -> Seq<Seq<char>> {
    if in_entry(state) {
        added_lines(state.present, with)
    } else {
        Seq::empty()
    }
}

/// What is known after the first `n` lines.
pub open spec fn state_at(lines: Seq<Seq<char>>, n: int) -> PatchState
    decreases n,
{
    if n <= 0 {
        PatchState { group: None, present: Present { try_exec: false, dbus_activatable: false } }
    } else {
        state_after(state_at(lines, n - 1), lines[n - 1])
    }
}

/// The lines the first `n` lines become.
pub open spec fn lines_until(lines: Seq<Seq<char>>, n: int, with: Patching) -> Seq<Seq<char>>
    decreases n,
{
    if n <= 0 {
        Seq::empty()
    } else {
        lines_until(lines, n - 1, with) + lines_for(state_at(lines, n - 1), lines[n - 1], with)
    }
}

/// The lines of a whole patched entry.
pub open spec fn patched_lines(lines: Seq<Seq<char>>, with: Patching) -> Seq<Seq<char>> {
    lines_until(lines, lines.len() as int, with) + group_end(
        state_at(lines, lines.len() as int),
        with,
    )
}

/// Whether some line of a text ends in a carriage return and a line feed.
pub open spec fn has_crlf(text: Seq<char>) -> bool {
    exists|i: int| 0 <= i < text.len() - 1 && #[trigger] text[i] == '\r' && text[i + 1] == '\n'
}

/// Whether a text ends in a line feed.
pub open spec fn has_final_newline(text: Seq<char>) -> bool {
    text.len() > 0 && text.last() == '\n'
}

/// The lines of a text as they stand, carriage returns and all.
pub open spec fn raw_lines(text: Seq<char>) -> Seq<Seq<char>> {
    let parts = split_on(text, '\n');
    if has_final_newline(text) {
        parts.drop_last()
    } else {
        parts
    }
}

/// What every command line begins with.
pub open spec fn launch_of(instance: Seq<char>, program: Seq<char>) -> Seq<char> {
    quoted_arg(program) + " open "@ + instance + " -- "@
}

/// What a text is patched with. Keys that are added end their lines the way
/// the text ends its own, so a CRLF entry stays one file rather than two
/// styles.
pub open spec fn patching(text: Seq<char>, instance: Seq<char>, program: Seq<char>) -> Patching {
    Patching {
        instance,
        program,
        launch: launch_of(instance, program),
        eol: if has_crlf(text) {
            seq!['\r']
        } else {
            Seq::empty()
        },
    }
}

/// The text of a generated entry.
pub open spec fn patched_text(text: Seq<char>, instance: Seq<char>, program: Seq<char>) -> Seq<
    char,
> {
    let body = join_with(
        patched_lines(raw_lines(text), patching(text, instance, program)),
        '\n',
    );
    if has_final_newline(text) {
        body.push('\n')
    } else {
        body
    }
}

/// A generated entry, or why there is none.
pub open spec fn patch_of(text: Seq<char>, instance: Seq<char>, program: Seq<u8>) -> Result<
    Seq<char>,
    DesktopErrorView,
> {
    let found = head_of(text);
    let all = lines_of(text);
    match found.marker {
        Some(owner) => Err(DesktopErrorView::Generated(owner)),
        None => if !valid_utf8(program) {
            Err(DesktopErrorView::ProgramNotUtf8)
        } else if entry_header(all, 0) >= all.len() {
            Err(DesktopErrorView::NoEntryGroup)
        } else if found.command is None {
            Err(DesktopErrorView::NoExec)
        } else if found.hidden {
            Err(DesktopErrorView::Hidden)
        } else {
            Ok(patched_text(text, instance, decode_utf8(program)))
        },
    }
}

fn ends_in_cr(line: &[char]) -> (r: bool)
    ensures
        r == (line@.len() > 0 && line@.last() == '\r'),
{
    line.len() > 0 && line[line.len() - 1] == '\r'
}

/// The keys the source did not carry, written at the end of its main group.
///
/// `DBusActivatable=true` is set to `false` rather than dropped, and added
/// where it was absent, because a launcher that understands the key ignores
/// `Exec` entirely and asks the session bus to start the application —
/// outside the sandbox, with nothing printed anywhere.
pub fn added(present: &Present, instance: &str, program: &str, eol: &str) -> (r: Vec<String>)
    ensures
        forall|with: Patching|
            with.instance == instance@ && with.program == program@ && with.eol == eol@
                ==> text_views(r@) == #[trigger] added_lines(*present, with),
{
    let mut out: Vec<String> = Vec::new();
    let ghost mut model: Seq<Seq<char>> = Seq::empty();
    assert(text_views(out@) =~= model);
    if !present.try_exec {
        let line = joined(&joined("TryExec=", program), eol);
        proof {
            model = model.push(line@);
        }
        out.push(line);
        assert(text_views(out@) =~= model);
    }
    if !present.dbus_activatable {
        let line = joined("DBusActivatable=false", eol);
        proof {
            model = model.push(line@);
        }
        out.push(line);
        assert(text_views(out@) =~= model);
    }
    let line = joined(&joined(&joined(MARKER, "="), instance), eol);
    proof {
        model = model.push(line@);
    }
    out.push(line);
    assert(text_views(out@) =~= model);
    assert forall|with: Patching|
        with.instance == instance@ && with.program == program@ && with.eol == eol@ implies
        text_views(out@) == #[trigger] added_lines(*present, with) by {
        assert(text_views(out@) =~= added_lines(*present, with));
    }
    out
}

/// Move every line of `more` to the end of `out`.
fn extend(out: &mut Vec<String>, more: &[String])
    ensures
        text_views(final(out)@) == text_views(old(out)@) + text_views(more@),
{
    let ghost before = text_views(out@);
    let ghost model = text_views(more@);
    let mut i: usize = 0;
    assert(text_views(out@) =~= before + model.take(0));
    while i < more.len()
        invariant
            model == text_views(more@),
            i <= more@.len(),
            text_views(out@) == before + model.take(i as int),
        decreases more@.len() - i,
    {
        let ghost so_far = text_views(out@);
        out.push(more[i].as_str().to_owned());
        assert(text_views(out@) =~= so_far.push(model[i as int]));
        assert(so_far.push(model[i as int]) =~= before + model.take(i + 1));
        i = i + 1;
    }
    assert(model.take(i as int) =~= model);
}

/// What a key and its value become, where they are changed.
fn rewrite(
    entry: bool,
    key: &str,
    value: &str,
    launch: &str,
    program: &str,
) -> (r: Option<String>)
    ensures
        forall|with: Patching|
            with.launch == launch@ && with.program == program@ ==> crate::text::maybe(r)
                == #[trigger] rewritten(entry, key@, value@, with),
{
    if entry && same_text(&base_key(key), "Name") {
        Some(joined(&joined(&joined(key, "="), value), SUFFIX))
    } else if same_text(key, "Exec") {
        Some(joined(&joined(&joined(key, "="), launch), value))
    } else if entry && same_text(key, "TryExec") {
        Some(joined(&joined(key, "="), program))
    } else if entry && same_text(key, "DBusActivatable") {
        Some(joined(key, "=false"))
    } else {
        None
    }
}

/// Whether some line of a text ends in a carriage return and a line feed.
fn ends_lines_crlf(text: &[char]) -> (r: bool)
    ensures
        r == has_crlf(text@),
{
    let mut i: usize = 0;
    while i < text.len() && i + 1 < text.len()
        invariant
            i <= text@.len(),
            forall|j: int|
                0 <= j < i && j < text@.len() - 1 ==> !(#[trigger] text@[j] == '\r' && text@[j + 1]
                    == '\n'),
        decreases text@.len() - i,
    {
        if text[i] == '\r' && text[i + 1] == '\n' {
            assert(text@[i as int] == '\r' && text@[i + 1] == '\n');
            return true;
        }
        i = i + 1;
    }
    false
}

/// Lines with a line feed between them.
fn join_lines(list: &[String]) -> (r: String)
    ensures
        r@ == join_with(text_views(list@), '\n'),
{
    let ghost model = text_views(list@);
    let mut out = String::new();
    let mut i: usize = 0;
    assert(model.take(0) =~= Seq::empty());
    assert(out@ =~= Seq::empty());
    while i < list.len()
        invariant
            model == text_views(list@),
            i <= list@.len(),
            out@ == join_with(model.take(i as int), '\n'),
        decreases list@.len() - i,
    {
        assert(model.take(i + 1).drop_last() =~= model.take(i as int));
        assert(model.take(i + 1).last() == list@[i as int]@);
        if i > 0 {
            out.push('\n');
        }
        out.append(&list[i]);
        i = i + 1;
        assert(out@ =~= join_with(model.take(i as int), '\n'));
    }
    assert(model.take(i as int) =~= model);
    out
}

/// The lines of a patched entry.
fn patch_lines(
    parts: &[Vec<char>],
    instance: &str,
    program: &str,
    launch: &str,
    eol: &str,
) -> (r: Vec<String>)
    ensures
        text_views(r@) == patched_lines(
            part_views(parts@),
            (Patching { instance: instance@, program: program@, launch: launch@, eol: eol@ }),
        ),
{
    let ghost with = Patching {
        instance: instance@,
        program: program@,
        launch: launch@,
        eol: eol@,
    };
    let ghost model = part_views(parts@);
    let mut out: Vec<String> = Vec::new();
    let mut entry = false;
    let mut present = Present { try_exec: false, dbus_activatable: false };
    let mut i: usize = 0;
    assert(text_views(out@) =~= lines_until(model, 0, with));
    while i < parts.len()
        invariant
            with == (Patching {
                instance: instance@,
                program: program@,
                launch: launch@,
                eol: eol@,
            }),
            model == part_views(parts@),
            i <= parts@.len(),
            text_views(out@) == lines_until(model, i as int, with),
            entry == in_entry(state_at(model, i as int)),
            present == state_at(model, i as int).present,
        decreases parts@.len() - i,
    {
        let line = parts[i].as_slice();
        assert(model[i as int] == line@);
        let ghost state = state_at(model, i as int);
        let ghost before = text_views(out@);
        let cr = ends_in_cr(line);
        let body = if cr {
            let cut = vstd::slice::slice_subrange(line, 0, line.len() - 1);
            assert(cut@ =~= line@.drop_last());
            text_of(cut)
        } else {
            text_of(line)
        };
        assert(body@ == without_cr(line@));
        match header(&body) {
            Some(name) => {
                if entry {
                    let more = added(&present, instance, program, eol);
                    assert(text_views(more@) == added_lines(present, with));
                    extend(&mut out, &more);
                }
                let ghost so_far = text_views(out@);
                assert(so_far =~= before + group_end(state, with));
                out.push(text_of(line));
                assert(text_views(out@) =~= so_far.push(line@));
                assert(text_views(out@) =~= before + lines_for(state, line@, with));
                entry = same_text(&name, ENTRY_GROUP);
            },
            None => {
                let mut new = text_of(line);
                match split_key(&body) {
                    Some((key, value)) => {
                        match rewrite(entry, &key, &value, launch, program) {
                            Some(s) => {
                                assert(rewritten(entry, key@, value@, with) == Some(s@));
                                new = s;
                                if cr {
                                    new.push('\r');
                                }
                                assert(new@ =~= patched_line(entry, line@, with));
                            },
                            None => {
                                assert(rewritten(entry, key@, value@, with) is None);
                            },
                        }
                        if entry && same_text(&key, "TryExec") {
                            present.try_exec = true;
                        }
                        if entry && same_text(&key, "DBusActivatable") {
                            present.dbus_activatable = true;
                        }
                    },
                    None => {},
                }
                assert(new@ == patched_line(entry, line@, with));
                out.push(new);
                assert(text_views(out@) =~= before.push(patched_line(entry, line@, with)));
                assert(text_views(out@) =~= before + lines_for(state, line@, with));
            },
        }
        i = i + 1;
    }
    if entry {
        let more = added(&present, instance, program, eol);
        assert(text_views(more@) == added_lines(present, with));
        extend(&mut out, &more);
    } else {
        assert(text_views(out@) =~= patched_lines(model, with));
    }
    out
}

/// The generated entry's text: `text` with `Name`, `Exec`, `TryExec`,
/// `DBusActivatable` and the marker key changed and nothing else touched.
///
/// `program` is what the entry calls to reach bubbler. Every `Exec`,
/// including each `[Desktop Action]`'s, becomes `<program> open <instance> --
/// <the vendor's own command line>`, so field codes stay where the vendor put
/// them: they expand at the tail, which is where `bubbler open` collects the
/// command.
pub fn patch(text: &str, instance: &str, program: &[u8]) -> (r: Result<String, DesktopError>)
    ensures
        outcome(r) == patch_of(text@, instance@, program@),
{
    let found = head(text);
    match found.marker {
        Some(owner) => {
            return Err(DesktopError::Generated(owner));
        },
        None => {},
    }
    let ghost bytes = program@;
    let program = match text_of_bytes(program) {
        Some(s) => s,
        None => {
            return Err(DesktopError::ProgramNotUtf8);
        },
    };
    if !has_entry_group(text) {
        return Err(DesktopError::NoEntryGroup);
    }
    if found.command.is_none() {
        return Err(DesktopError::NoExec);
    }
    if found.hidden {
        return Err(DesktopError::Hidden);
    }
    let launch = joined(&joined(&joined(&exec_quote(&program), " open "), instance), " -- ");
    let all = chars_of(text);
    let eol = if ends_lines_crlf(&all) {
        "\r"
    } else {
        ""
    };
    proof {
        reveal_strlit("\r");
        reveal_strlit("");
        assert("\r"@ =~= seq!['\r']);
        assert(""@ =~= Seq::empty());
        lemma_split_parts(text@, '\n');
        encode_utf8_decode_utf8(program@);
        assert(decode_utf8(bytes) == program@);
    }
    let mut parts = split_chars(&all, '\n');
    let trailing = all.len() > 0 && all[all.len() - 1] == '\n';
    if trailing {
        parts.pop();
        assert(part_views(parts@) =~= raw_lines(text@));
    }
    let ghost with = patching(text@, instance@, program@);
    assert(launch@ == with.launch);
    assert(eol@ == with.eol);
    let mut out = join_lines(&patch_lines(&parts, instance, &program, &launch, eol));
    if trailing {
        out.push('\n');
    }
    Ok(out)
}

/// Whether some line is the header of the main group.
fn has_entry_group(text: &str) -> (r: bool)
    ensures
        r == (entry_header(lines_of(text@), 0) < lines_of(text@).len()),
{
    let all = lines(text);
    let ghost model = text_views(all@);
    proof {
        lemma_entry_header(model, 0);
    }
    let mut i: usize = 0;
    while i < all.len()
        invariant
            model == text_views(all@),
            model == lines_of(text@),
            i <= all@.len(),
            entry_header(model, 0) == entry_header(model, i as int),
        decreases all@.len() - i,
    {
        assert(model[i as int] == all@[i as int]@);
        match header(&all[i]) {
            Some(name) => {
                if same_text(&name, ENTRY_GROUP) {
                    return true;
                }
            },
            None => {},
        }
        i = i + 1;
    }
    false
}

} // verus!
