//! Where the host's buses are: the addresses the session sets, the fallbacks,
//! and the guard that keeps them out of the sandboxes' own directory.

use vstd::prelude::*;

use crate::dbus::plan::{A11Y_NODE, SESSION_NODE, SYSTEM_NODE};
use crate::dbus_wire::describe::wire_message;
use crate::dbus_wire::session::{Call, CallView};
use crate::dbus_wire::value::{value_views, Value, ValueView, WireError, WireErrorView};
use crate::env::Env;
use crate::error::{LaunchError, LaunchErrorView};
use crate::host::{real_path, Canonical};
use crate::paths::{
    is_under, join, join_path, lexical, lexical_path, parent_and_name, split_name, under,
};
use crate::split::{part_views, split_chars, split_on};
use crate::text::{
    bytes_of, chars_of, copy_bytes, joined, maybe, outcome, same_bytes, text_of, trim, trimmed,
    trimmed_end, trimmed_start, utf8, white_space,
};

verus! {

/// Directory of everything a running instance has, under `$XDG_RUNTIME_DIR`.
pub const RUNTIME_SUBDIR: &'static str = "bubbler";

/// Where a system bus socket lives: the host's when no address overrides it,
/// and the path the filtered one is bound at inside the sandbox. libdbus and
/// libsystemd both compile in this path.
pub const SYSTEM_BUS_PATH: &'static str = "/run/dbus/system_bus_socket";

/// `,`.
pub const COMMA: u8 = 44;

/// Where the first `c` from `i` on stands, or the end.
pub open spec fn until(s: Seq<u8>, c: u8, i: int) -> int
    decreases s.len() - i,
{
    if i >= s.len() {
        s.len() as int
    } else if s[i] == c {
        i
    } else {
        until(s, c, i + 1)
    }
}

/// Path out of a `unix:path=<path>[,<key>=<value>]...` D-Bus address; none for
/// any other transport, and for an empty path.
pub open spec fn unix_path_of(address: Seq<u8>) -> Option<Seq<u8>> {
    let prefix = utf8("unix:path="@);
    if address.len() < prefix.len() || address.take(prefix.len() as int) != prefix {
        None
    } else {
        let rest = address.skip(prefix.len() as int);
        let path = rest.take(until(rest, COMMA, 0));
        if path.len() == 0 {
            None
        } else {
            Some(path)
        }
    }
}

fn end_before(s: &[u8], c: u8) -> (r: usize)
    ensures
        r == until(s@, c, 0),
        r <= s@.len(),
{
    let mut i: usize = 0;
    while i < s.len() && s[i] != c
        invariant
            i <= s@.len(),
            until(s@, c, 0) == until(s@, c, i as int),
        decreases s@.len() - i,
    {
        i = i + 1;
    }
    i
}

/// Path out of a `unix:path=<path>[,<key>=<value>]...` D-Bus address; `None`
/// for any other transport, and for an empty path.
pub fn unix_path(address: &[u8]) -> (r: Option<Vec<u8>>)
    ensures
        maybe(r) == unix_path_of(address@),
{
    let prefix = "unix:path=".as_bytes();
    if address.len() < prefix.len() {
        return None;
    }
    let head = vstd::slice::slice_subrange(address, 0, prefix.len());
    assert(head@ =~= address@.take(prefix@.len() as int));
    if !same_bytes(head, prefix) {
        return None;
    }
    let rest = vstd::slice::slice_subrange(address, prefix.len(), address.len());
    assert(rest@ =~= address@.skip(prefix@.len() as int));
    let end = end_before(rest, COMMA);
    let path = vstd::slice::slice_subrange(rest, 0, end);
    assert(path@ =~= rest@.take(end as int));
    if path.len() == 0 {
        return None;
    }
    Some(copy_bytes(path))
}

/// The socket an address variable names: none when the variable is unset or
/// empty. A transport that cannot be bound (`tcp:`, `unix:abstract=`) is an
/// error naming the variable rather than a default: the session is on the bus
/// the variable names, and proxying another one would filter the wrong bus.
/// The value itself is not echoed: it is host input, and an address may hold
/// anything.
pub open spec fn address_socket(
    address: Option<Seq<u8>>,
    var: Seq<char>,
    service: Seq<char>,
) -> Result<Option<Seq<u8>>, LaunchErrorView> {
    match address {
        None => Ok(None),
        Some(a) => if a.len() == 0 {
            Ok(None)
        } else {
            match unix_path_of(a) {
                Some(path) => Ok(Some(path)),
                None => Err(
                    LaunchErrorView::BadValue {
                        service,
                        reason: "$"@ + var
                            + " names no Unix socket path; bubbler can proxy only a `unix:path=<path>` address"@,
                    },
                ),
            }
        },
    }
}

/// The socket a `DBUS_*_BUS_ADDRESS` names: `None` when the variable is unset
/// or empty, so the caller's default path applies.
pub fn address_path(address: &Option<Vec<u8>>, var: &'static str, service: &'static str) -> (r:
    Result<Option<Vec<u8>>, LaunchError>)
    ensures
        match r {
            Ok(p) => address_socket(maybe(*address), var@, service@) == Ok::<
                Option<Seq<u8>>,
                LaunchErrorView,
            >(maybe(p)),
            Err(e) => address_socket(maybe(*address), var@, service@) == Err::<
                Option<Seq<u8>>,
                LaunchErrorView,
            >(e@),
        },
{
    let address = match address {
        Some(a) => a,
        None => {
            return Ok(None);
        },
    };
    if address.len() == 0 {
        return Ok(None);
    }
    match unix_path(address) {
        Some(path) => Ok(Some(path)),
        None => Err(
            LaunchError::BadValue {
                service,
                reason: joined(
                    &joined("$", var),
                    " names no Unix socket path; bubbler can proxy only a `unix:path=<path>` address",
                ),
            },
        ),
    }
}

/// What an address names, or a default.
pub open spec fn socket_or(
    r: Result<Option<Seq<u8>>, LaunchErrorView>,
    default: Seq<u8>,
) -> Result<Seq<u8>, LaunchErrorView> {
    match r {
        Err(e) => Err(e),
        Ok(Some(path)) => Ok(path),
        Ok(None) => Ok(default),
    }
}

/// The host's session bus socket.
pub open spec fn session_bus_of(address: Option<Seq<u8>>, runtime_dir: Seq<u8>) -> Result<
    Seq<u8>,
    LaunchErrorView,
> {
    socket_or(
        address_socket(address, "DBUS_SESSION_BUS_ADDRESS"@, "dbus"@),
        join_path(runtime_dir, utf8("bus"@)),
    )
}

/// Host session bus socket: the `unix:path=` of `$DBUS_SESSION_BUS_ADDRESS`
/// when it is set, else `$XDG_RUNTIME_DIR/bus`. Unguarded: a run goes through
/// [`guarded_host_bus`].
pub fn host_bus(env: &Env) -> (r: Result<Vec<u8>, LaunchError>)
    ensures
        outcome(r) == session_bus_of(maybe(env.dbus_address), env.runtime_dir@),
{
    match address_path(&env.dbus_address, "DBUS_SESSION_BUS_ADDRESS", "dbus") {
        Err(e) => Err(e),
        Ok(Some(path)) => Ok(path),
        Ok(None) => Ok(join(&env.runtime_dir, "bus".as_bytes())),
    }
}

/// The host's system bus socket.
pub open spec fn system_bus_of(address: Option<Seq<u8>>) -> Result<Seq<u8>, LaunchErrorView> {
    socket_or(
        address_socket(address, "DBUS_SYSTEM_BUS_ADDRESS"@, "system-bus"@),
        utf8(SYSTEM_BUS_PATH@),
    )
}

/// Host system bus socket: the `unix:path=` of `$DBUS_SYSTEM_BUS_ADDRESS` when
/// it is set, else [`SYSTEM_BUS_PATH`], which is what libdbus and libsystemd
/// fall back to. Unguarded: a run goes through [`guarded_host_system_bus`].
pub fn host_system_bus(env: &Env) -> (r: Result<Vec<u8>, LaunchError>)
    ensures
        outcome(r) == system_bus_of(maybe(env.dbus_system_address)),
{
    match address_path(&env.dbus_system_address, "DBUS_SYSTEM_BUS_ADDRESS", "system-bus") {
        Err(e) => Err(e),
        Ok(Some(path)) => Ok(path),
        Ok(None) => Ok(bytes_of(SYSTEM_BUS_PATH)),
    }
}

/// Host accessibility bus socket, as far as the environment says: the
/// `unix:path=` of `$AT_SPI_BUS_ADDRESS` when the session set one. Where it is
/// `None` the session bus has to be asked: [`a11y_question`] is the call, and
/// [`a11y_answer`] what its reply says.
pub fn host_a11y_bus(env: &Env) -> (r: Result<Option<Vec<u8>>, LaunchError>)
    ensures
        match r {
            Ok(p) => address_socket(
                maybe(env.at_spi_bus_address),
                "AT_SPI_BUS_ADDRESS"@,
                A11Y_NODE@,
            ) == Ok::<Option<Seq<u8>>, LaunchErrorView>(maybe(p)),
            Err(e) => address_socket(
                maybe(env.at_spi_bus_address),
                "AT_SPI_BUS_ADDRESS"@,
                A11Y_NODE@,
            ) == Err::<Option<Seq<u8>>, LaunchErrorView>(e@),
        },
{
    address_path(&env.at_spi_bus_address, "AT_SPI_BUS_ADDRESS", A11Y_NODE)
}

/// The call that asks the session bus for the accessibility bus's address.
pub open spec fn get_address_call() -> CallView {
    CallView {
        dest: "org.a11y.Bus"@,
        path: "/org/a11y/bus"@,
        iface: "org.a11y.Bus"@,
        member: "GetAddress"@,
        sig: ""@,
        body: Seq::empty(),
        fds: 0,
    }
}

/// The call that asks the session bus for the accessibility bus's address:
/// one method on one object of one name.
pub fn a11y_question() -> (r: Call)
    ensures
        r@ == get_address_call(),
{
    let body: Vec<Value> = Vec::new();
    assert(value_views(body@) =~= Seq::empty());
    Call {
        dest: "org.a11y.Bus".to_owned(),
        path: "/org/a11y/bus".to_owned(),
        iface: "org.a11y.Bus".to_owned(),
        member: "GetAddress".to_owned(),
        sig: "".to_owned(),
        body,
        fds: 0,
    }
}

/// The socket the reply to `GetAddress` names. It answers with a single
/// string; anything else is an answer to some other question. The address is
/// not echoed: it is host input, and an address may hold anything.
pub open spec fn answered_socket(reply: Seq<ValueView>) -> Result<Seq<u8>, LaunchErrorView> {
    if reply.len() != 1 || !(reply[0] is Str) {
        Err(LaunchErrorView::A11y("org.a11y.Bus answered GetAddress with no address"@))
    } else {
        match unix_path_of(utf8(reply[0]->Str_0)) {
            Some(path) => Ok(path),
            None => Err(
                LaunchErrorView::A11y(
                    "the address org.a11y.Bus returned is not a `unix:path=<path>` socket"@,
                ),
            ),
        }
    }
}

/// The socket the reply to [`a11y_question`] names.
pub fn a11y_answer(reply: &Vec<Value>) -> (r: Result<Vec<u8>, LaunchError>)
    ensures
        outcome(r) == answered_socket(value_views(reply@)),
{
    if reply.len() == 1 {
        assert(value_views(reply@)[0] == reply@[0]@);
        match &reply[0] {
            Value::Str(address) => {
                return match unix_path(address.as_str().as_bytes()) {
                    Some(path) => Ok(path),
                    None => Err(
                        LaunchError::A11y(
                            "the address org.a11y.Bus returned is not a `unix:path=<path>` socket".to_owned(),
                        ),
                    ),
                };
            },
            _ => {},
        }
    }
    Err(LaunchError::A11y("org.a11y.Bus answered GetAddress with no address".to_owned()))
}

/// A character as it is shown: a control character in caret notation.
pub open spec fn shown(c: char) -> Seq<char> {
    if !(' ' <= c) {
        seq!['^', ((c as u8 + 0x40) as u8) as char]
    } else if c == '\u{7f}' {
        seq!['^', '?']
    } else if '\u{80}' <= c && c <= '\u{9f}' {
        seq!['M', '-', '^', ((c as u8 - 0x40) as u8) as char]
    } else {
        seq![c]
    }
}

/// The first `n` characters of a text as they are shown.
pub open spec fn shown_text(s: Seq<char>, n: int) -> Seq<char>
    decreases n,
{
    if n <= 0 {
        Seq::empty()
    } else {
        shown_text(s, n - 1) + shown(s[n - 1])
    }
}

/// Characters of a line a message carries; a D-Bus error name and its text
/// fit, a peer with more to say does not get to fill the terminal with it.
pub const NOTE_KEPT: usize = 200;

/// Text from elsewhere, as a note to hang on an error message: the first line
/// of it, with the control characters shown, and cut where it is long.
pub open spec fn note_of(text: Seq<char>) -> Seq<char> {
    let line = split_on(text, '\n')[0];
    let note = trimmed(shown_text(line, line.len() as int));
    if note.len() > NOTE_KEPT {
        note.take(NOTE_KEPT as int) + "..."@
    } else {
        note
    }
}

fn push_shown(out: &mut String, c: char)
    ensures
        final(out)@ == old(out)@ + shown(c),
{
    if !(' ' <= c) {
        out.push('^');
        out.push((c as u8 + 0x40) as char);
    } else if c == '\u{7f}' {
        out.push('^');
        out.push('?');
    } else if c >= '\u{80}' && c <= '\u{9f}' {
        out.push('M');
        out.push('-');
        out.push('^');
        out.push((c as u8 - 0x40) as char);
    } else {
        out.push(c);
    }
    assert(out@ =~= old(out)@ + shown(c));
}

/// Text from elsewhere, as a note to hang on an error message: the first line
/// of it, with the control characters shown rather than sent to whatever
/// terminal reads the message.
pub fn bus_note(text: &str) -> (r: String)
    ensures
        r@ == note_of(text@),
{
    let chars = chars_of(text);
    let lines = split_chars(&chars, '\n');
    let line = &lines[0];
    assert(part_views(lines@)[0] == line@);
    let mut rendered = String::new();
    let mut i: usize = 0;
    while i < line.len()
        invariant
            i <= line@.len(),
            rendered@ == shown_text(line@, i as int),
        decreases line@.len() - i,
    {
        push_shown(&mut rendered, line[i]);
        i = i + 1;
    }
    let note = trim(&rendered);
    let kept = chars_of(&note);
    if kept.len() > NOTE_KEPT {
        let cut = vstd::slice::slice_subrange(kept.as_slice(), 0, NOTE_KEPT);
        assert(cut@ =~= note@.take(NOTE_KEPT as int));
        return joined(&text_of(cut), "...");
    }
    note
}

/// A failed `GetAddress` as a launch error: a refusal names itself, and
/// anything else is the connection or the wire under it. A refusal with no
/// text gets no trailing colon, which would promise a sentence that is not
/// there.
pub open spec fn a11y_failure_of(e: WireErrorView) -> LaunchErrorView {
    LaunchErrorView::A11y(
        match e {
            WireErrorView::Remote { name, message } => if message.len() == 0 {
                "org.a11y.Bus.GetAddress failed: "@ + note_of(name)
            } else {
                "org.a11y.Bus.GetAddress failed: "@ + note_of(name) + ": "@ + note_of(message)
            },
            _ => "asking the session bus for the accessibility bus: "@ + note_of(wire_message(e)),
        },
    )
}

/// A failed `GetAddress` as a launch error.
pub fn a11y_failure(e: &WireError) -> (r: LaunchError)
    ensures
        r@ == a11y_failure_of(e@),
{
    LaunchError::A11y(
        match e {
            WireError::Remote { name, message } => {
                let refused = joined("org.a11y.Bus.GetAddress failed: ", &bus_note(name));
                if message.as_str().is_empty() {
                    refused
                } else {
                    joined(&joined(&refused, ": "), &bus_note(message))
                }
            },
            _ => joined(
                "asking the session bus for the accessibility bus: ",
                &bus_note(&e.message()),
            ),
        },
    )
}

/// A path with links and `..` taken out: the canonical form where the path
/// exists, else its directory's canonical form with the file name joined back
/// on, since a bus socket need not exist yet. What no lookup answers is folded
/// lexically, so a `..` is never left in place for a prefix comparison to walk
/// past.
pub open spec fn resolved(table: Seq<(Seq<u8>, Seq<u8>)>, path: Seq<u8>) -> Seq<u8> {
    match real_path(table, path) {
        Some(canon) => lexical_path(canon),
        None => match parent_and_name(path) {
            Some((dir, name)) => match real_path(table, dir) {
                Some(canon) => join_path(lexical_path(canon), name),
                None => lexical_path(path),
            },
            None => lexical_path(path),
        },
    }
}

/// `path` with links and `..` taken out, as far as `host` knows.
pub fn resolve(host: &Canonical, path: &[u8]) -> (r: Vec<u8>)
    ensures
        r@ == resolved(host@, path@),
{
    match host.canonicalize(path) {
        Some(canon) => {
            return lexical(&canon);
        },
        None => {},
    }
    match split_name(path) {
        Some((dir, name)) => match host.canonicalize(&dir) {
            Some(canon) => join(&lexical(&canon), &name),
            None => lexical(path),
        },
        None => lexical(path),
    }
}

/// The directory of every instance's sockets.
pub open spec fn own_runtime(table: Seq<(Seq<u8>, Seq<u8>)>, runtime_dir: Seq<u8>) -> Seq<u8> {
    resolved(table, join_path(runtime_dir, utf8(RUNTIME_SUBDIR@)))
}

/// A host bus path, refused where it resolves into the sandboxes' own runtime
/// directory. Those directories hold the instances' control sockets and the
/// proxy's own output, and the address is host environment, which is untrusted
/// input.
pub open spec fn guarded(
    table: Seq<(Seq<u8>, Seq<u8>)>,
    runtime_dir: Seq<u8>,
    node: Seq<char>,
    path: Seq<u8>,
) -> Result<Seq<u8>, LaunchErrorView> {
    if under(resolved(table, path), own_runtime(table, runtime_dir)) {
        Err(
            LaunchErrorView::BadValue {
                service: node,
                reason: "the host bus address names a socket under bubbler's own runtime directory"@,
            },
        )
    } else {
        Ok(resolved(table, path))
    }
}

/// Refuse a host bus path that resolves into the sandboxes' own runtime
/// directory, naming `node` as the grant that rejected it.
///
/// Caught: an address that names such a socket, whether it spells the path
/// out, reaches it through a symlink, or walks into it with `..`. Both sides
/// are compared in the form [`resolve`] gives, and that resolved path is what
/// comes back, so the caller stats and connects to the path this checked
/// rather than to a name that can be repointed in between.
pub fn outside_our_runtime(
    host: &Canonical,
    env: &Env,
    node: &'static str,
    path: &[u8],
) -> (r: Result<Vec<u8>, LaunchError>)
    ensures
        outcome(r) == guarded(host@, env.runtime_dir@, node@, path@),
{
    let ours = resolve(host, &join(&env.runtime_dir, RUNTIME_SUBDIR.as_bytes()));
    let path = resolve(host, path);
    if is_under(&path, &ours) {
        return Err(
            LaunchError::BadValue {
                service: node,
                reason: "the host bus address names a socket under bubbler's own runtime directory".to_owned(),
            },
        );
    }
    Ok(path)
}

/// A bus that was found, guarded.
pub open spec fn then_guarded(
    found: Result<Seq<u8>, LaunchErrorView>,
    table: Seq<(Seq<u8>, Seq<u8>)>,
    runtime_dir: Seq<u8>,
    node: Seq<char>,
) -> Result<Seq<u8>, LaunchErrorView> {
    match found {
        Err(e) => Err(e),
        Ok(path) => guarded(table, runtime_dir, node, path),
    }
}

/// The host session bus address, refused when it lands in the sandboxes' own
/// runtime directory. A run and a dry run both resolve the bus through here.
pub fn guarded_host_bus(host: &Canonical, env: &Env) -> (r: Result<Vec<u8>, LaunchError>)
    ensures
        outcome(r) == then_guarded(
            session_bus_of(maybe(env.dbus_address), env.runtime_dir@),
            host@,
            env.runtime_dir@,
            SESSION_NODE@,
        ),
{
    match host_bus(env) {
        Err(e) => Err(e),
        Ok(path) => outside_our_runtime(host, env, SESSION_NODE, &path),
    }
}

/// The host system bus address, refused when it lands in the sandboxes' own
/// runtime directory.
pub fn guarded_host_system_bus(host: &Canonical, env: &Env) -> (r: Result<Vec<u8>, LaunchError>)
    ensures
        outcome(r) == then_guarded(
            system_bus_of(maybe(env.dbus_system_address)),
            host@,
            env.runtime_dir@,
            SYSTEM_NODE@,
        ),
{
    match host_system_bus(env) {
        Err(e) => Err(e),
        Ok(path) => outside_our_runtime(host, env, SYSTEM_NODE, &path),
    }
}

/// The host accessibility bus address, refused when it lands in the
/// sandboxes' own runtime directory. `found` is what the environment or the
/// session bus said.
pub fn guarded_host_a11y_bus(host: &Canonical, env: &Env, found: &[u8]) -> (r: Result<
    Vec<u8>,
    LaunchError,
>)
    ensures
        outcome(r) == guarded(host@, env.runtime_dir@, A11Y_NODE@, found@),
{
    outside_our_runtime(host, env, A11Y_NODE, found)
}

/// A guarded bus path never lies in the sandboxes' own runtime directory, and
/// a path that does is refused.
pub proof fn a_guarded_bus_is_outside_the_own_runtime(
    table: Seq<(Seq<u8>, Seq<u8>)>,
    runtime_dir: Seq<u8>,
    node: Seq<char>,
    path: Seq<u8>,
)
    ensures
        match guarded(table, runtime_dir, node, path) {
            Ok(canon) => canon == resolved(table, path) && !under(
                canon,
                own_runtime(table, runtime_dir),
            ),
            Err(_) => under(resolved(table, path), own_runtime(table, runtime_dir)),
        },
{
}

/// Whether a character is no control character.
pub open spec fn printable(c: char) -> bool {
    ' ' <= c && !('\u{7f}' <= c && c <= '\u{9f}')
}

/// Whether a text holds no control character.
pub open spec fn printable_text(s: Seq<char>) -> bool {
    forall|i: int| 0 <= i < s.len() ==> printable(#[trigger] s[i])
}

/// A note never holds a control character and has a bounded length.
pub proof fn a_note_is_plain_and_bounded(text: Seq<char>)
    ensures
        note_of(text).len() <= NOTE_KEPT + 3,
        printable_text(note_of(text)),
{
    let line = split_on(text, '\n')[0];
    let all = shown_text(line, line.len() as int);
    lemma_shown_plain(line, line.len() as int);
    lemma_trimmed_start(all);
    lemma_trimmed_end(trimmed_start(all));
    reveal_strlit("...");
    let note = trimmed(all);
    assert forall|i: int| 0 <= i < note_of(text).len() implies printable(
        #[trigger] note_of(text)[i],
    ) by {
        if i < note.len() && i < NOTE_KEPT {
            assert(note_of(text)[i] == note[i]);
        }
    }
}

proof fn lemma_shown_char(c: char)
    ensures
        printable_text(shown(c)),
{
    if !(' ' <= c) {
        let x = ((c as u8 + 0x40) as u8) as char;
        assert(c as u8 == c as u32);
        assert(x as u32 == c as u32 + 0x40);
        assert('@' <= x && x <= '_');
    } else if '\u{80}' <= c && c <= '\u{9f}' {
        let x = ((c as u8 - 0x40) as u8) as char;
        assert(c as u8 == c as u32);
        assert('@' <= x && x <= '_');
    }
}

proof fn lemma_shown_plain(s: Seq<char>, n: int)
    requires
        n <= s.len(),
    ensures
        printable_text(shown_text(s, n)),
    decreases n,
{
    if n > 0 {
        lemma_shown_plain(s, n - 1);
        let more = shown(s[n - 1]);
        lemma_shown_char(s[n - 1]);
        let before = shown_text(s, n - 1);
        let all = shown_text(s, n);
        assert forall|i: int| 0 <= i < all.len() implies printable(#[trigger] all[i]) by {
            if i < before.len() {
                assert(all[i] == before[i]);
            } else {
                assert(all[i] == more[i - before.len()]);
            }
        }
    }
}

proof fn lemma_trimmed_start(s: Seq<char>)
    requires
        printable_text(s),
    ensures
        printable_text(trimmed_start(s)),
    decreases s.len(),
{
    if s.len() > 0 && white_space(s[0]) {
        let rest = s.drop_first();
        assert forall|i: int| 0 <= i < rest.len() implies printable(#[trigger] rest[i]) by {
            assert(rest[i] == s[i + 1]);
        }
        lemma_trimmed_start(rest);
    }
}

proof fn lemma_trimmed_end(s: Seq<char>)
    requires
        printable_text(s),
    ensures
        printable_text(trimmed_end(s)),
    decreases s.len(),
{
    if s.len() > 0 && white_space(s.last()) {
        let rest = s.drop_last();
        assert forall|i: int| 0 <= i < rest.len() implies printable(#[trigger] rest[i]) by {
            assert(rest[i] == s[i]);
        }
        lemma_trimmed_end(rest);
    }
}

} // verus!
