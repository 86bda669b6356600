//! Where a bus is and what a sandbox is called on it.

use vstd::prelude::*;
use vstd::utf8::is_ascii_chars_encode_utf8;

use crate::dbus::address::{
    a11y_failure_of, address_socket, answered_socket, get_address_call, note_of, printable_text,
    session_bus_of, shown, shown_text, system_bus_of, unix_path_of, until,
};
use crate::dbus::identity::{
    id_char, id_element, identity_text, instance_app_id, undotted, valid_app_id,
};
use crate::dbus::plan::{buses_of, PlanView, SectionView};
use crate::dbus::proxy::{
    bus_arguments, checked_socket, filtered_socket, identity_dir, proxy_arguments,
};
use crate::dbus_wire::describe::wire_message;
use crate::dbus_wire::value::{ValueView, WireErrorView};
use crate::error::LaunchErrorView;
use crate::path_laws::a_name_is_the_last_component;
use crate::paths::{components, is_name, join_path, under};
use crate::split::split_on;
use crate::text::{lemma_utf8_injective, trimmed, utf8};

verus! {

proof fn lemma_until(s: Seq<u8>, c: u8, i: int)
    requires
        0 <= i <= s.len(),
    ensures
        i <= until(s, c, i) <= s.len(),
        until(s, c, i) < s.len() ==> s[until(s, c, i)] == c,
        forall|k: int| i <= k < until(s, c, i) ==> #[trigger] s[k] != c,
    decreases s.len() - i,
{
    if i < s.len() && s[i] != c {
        lemma_until(s, c, i + 1);
    }
}

/// Whether an address is of a socket with a path: `unix:path=`, the path, and
/// then nothing or further keys after a comma.
pub open spec fn is_of(address: Seq<u8>, path: Seq<u8>, rest: Seq<u8>) -> bool {
    &&& address == utf8("unix:path="@) + path + rest
    &&& path.len() > 0
    &&& forall|i: int| 0 <= i < path.len() ==> #[trigger] path[i] != 44
    &&& rest.len() > 0 ==> rest[0] == 44
}

/// The socket of an address is the path it names, up to a comma and whatever
/// follows; an address of another form names none.
pub proof fn the_socket_is_the_path_of_the_address(address: Seq<u8>, path: Seq<u8>)
    ensures
        unix_path_of(address) == Some(path) <==> exists|rest: Seq<u8>| is_of(address, path, rest),
{
    let prefix = utf8("unix:path="@);
    let n = prefix.len() as int;
    if unix_path_of(address) == Some(path) {
        let tail = address.skip(n);
        lemma_until(tail, 44, 0);
        let rest = tail.skip(until(tail, 44, 0));
        assert(address =~= prefix + path + rest);
        assert forall|i: int| 0 <= i < path.len() implies #[trigger] path[i] != 44 by {
            assert(path[i] == tail[i]);
        }
        assert(is_of(address, path, rest));
    }
    if exists|rest: Seq<u8>| is_of(address, path, rest) {
        let rest = choose|rest: Seq<u8>| is_of(address, path, rest);
        let tail = address.skip(n);
        assert(tail =~= path + rest);
        assert(address.take(n) =~= prefix);
        lemma_until(tail, 44, 0);
        let at = until(tail, 44, 0);
        if at < path.len() {
            assert(tail[at] == path[at]);
        }
        if at > path.len() {
            assert(tail[path.len() as int] == rest[0]);
        }
        assert(tail.take(at) =~= path);
    }
}

/// A bus is where its address says. Where there is none, or an empty one, the
/// session bus is `bus` in the runtime directory and the system bus at its
/// well-known path; an address that names no socket path is an error that
/// names the variable, and never falls back.
pub proof fn a_bus_is_where_its_address_says(address: Seq<u8>, runtime_dir: Seq<u8>)
    ensures
        session_bus_of(None, runtime_dir) == Ok::<_, LaunchErrorView>(
            join_path(runtime_dir, utf8("bus"@)),
        ),
        system_bus_of(None) == Ok::<_, LaunchErrorView>(utf8("/run/dbus/system_bus_socket"@)),
        address.len() == 0 ==> {
            &&& session_bus_of(Some(address), runtime_dir) == session_bus_of(None, runtime_dir)
            &&& system_bus_of(Some(address)) == system_bus_of(None)
            &&& address_socket(Some(address), "AT_SPI_BUS_ADDRESS"@, "a11y"@) == Ok::<
                Option<Seq<u8>>,
                LaunchErrorView,
            >(None)
        },
        address.len() > 0 ==> match unix_path_of(address) {
            Some(path) => {
                &&& session_bus_of(Some(address), runtime_dir) == Ok::<_, LaunchErrorView>(path)
                &&& system_bus_of(Some(address)) == Ok::<_, LaunchErrorView>(path)
                &&& address_socket(Some(address), "AT_SPI_BUS_ADDRESS"@, "a11y"@) == Ok::<
                    _,
                    LaunchErrorView,
                >(Some(path))
            },
            None => {
                &&& refused_for(
                    session_bus_of(Some(address), runtime_dir),
                    "dbus"@,
                    "$DBUS_SESSION_BUS_ADDRESS"@,
                )
                &&& refused_for(
                    system_bus_of(Some(address)),
                    "system-bus"@,
                    "$DBUS_SYSTEM_BUS_ADDRESS"@,
                )
            },
        },
        address_socket(None, "AT_SPI_BUS_ADDRESS"@, "a11y"@) == Ok::<
            Option<Seq<u8>>,
            LaunchErrorView,
        >(None),
{
    reveal_strlit("$");
    reveal_strlit("DBUS_SESSION_BUS_ADDRESS");
    reveal_strlit("$DBUS_SESSION_BUS_ADDRESS");
    reveal_strlit("DBUS_SYSTEM_BUS_ADDRESS");
    reveal_strlit("$DBUS_SYSTEM_BUS_ADDRESS");
    let end = " names no Unix socket path; bubbler can proxy only a `unix:path=<path>` address"@;
    assert(("$"@ + "DBUS_SESSION_BUS_ADDRESS"@ + end).take(25) =~= "$DBUS_SESSION_BUS_ADDRESS"@);
    assert(("$"@ + "DBUS_SYSTEM_BUS_ADDRESS"@ + end).take(24) =~= "$DBUS_SYSTEM_BUS_ADDRESS"@);
}

/// Whether something was refused for a node, by a reason that begins with a
/// word.
pub open spec fn refused_for(
    r: Result<Seq<u8>, LaunchErrorView>,
    node: Seq<char>,
    word: Seq<char>,
) -> bool {
    r matches Err(LaunchErrorView::BadValue { service, reason }) && service == node && reason.take(
        word.len() as int,
    ) == word
}

/// The accessibility bus is where the answer says: one string, an address of a
/// socket with a path; any other answer is an error.
pub proof fn the_accessibility_bus_is_where_the_answer_says(
    reply: Seq<ValueView>,
    address: Seq<char>,
)
    ensures
        reply == seq![ValueView::Str(address)] ==> match unix_path_of(utf8(address)) {
            Some(path) => answered_socket(reply) == Ok::<_, LaunchErrorView>(path),
            None => answered_socket(reply) is Err,
        },
        answered_socket(reply) is Ok ==> reply.len() == 1 && reply[0] is Str,
{
}

/// The id of an instance is `org.bubbler.` and the instance's name, with an
/// underscore for every dot and one more before a digit at its beginning.
pub proof fn an_app_id_is_made_of_the_instances_name(instance: Seq<char>)
    ensures
        ({
            let id = instance_app_id(instance);
            let more = if instance.len() > 0 && '0' <= instance[0] <= '9' {
                1int
            } else {
                0
            };
            &&& id.len() == 12 + more + instance.len()
            &&& id.take(12) == "org.bubbler."@
            &&& more == 1 ==> id[12] == '_'
            &&& forall|i: int|
                0 <= i < instance.len() ==> id[12 + more + i] == (if #[trigger] instance[i] == '.' {
                    '_'
                } else {
                    instance[i]
                })
        }),
{
    reveal_strlit("org.bubbler.");
    assert(instance_app_id(instance).take(12) =~= "org.bubbler."@);
    assert(undotted(instance).len() == instance.len());
    if instance.len() > 0 {
        assert(undotted(instance)[0] == if instance[0] == '.' {
            '_'
        } else {
            instance[0]
        });
    }
}

/// What a sandbox is told to be: an application of its id, and where portals
/// are granted the instance that is `bubbler-` and its name.
pub proof fn an_identity_names_the_instance(instance: Seq<char>)
    ensures
        identity_text(instance, false) == "[Application]\nname="@ + instance_app_id(instance)
            + "\n"@,
        identity_text(instance, true) == identity_text(instance, false)
            + "\n[Instance]\ninstance-id=bubbler-"@ + instance + "\n"@,
{
    reveal_strlit("\n[Instance]\ninstance-id=");
    reveal_strlit("bubbler-");
    reveal_strlit("\n[Instance]\ninstance-id=bubbler-");
    assert("\n[Instance]\ninstance-id="@ + "bubbler-"@
        =~= "\n[Instance]\ninstance-id=bubbler-"@);
    assert(identity_text(instance, false) =~= "[Application]\nname="@ + instance_app_id(instance)
        + "\n"@);
    assert(identity_text(instance, true) =~= identity_text(instance, false)
        + "\n[Instance]\ninstance-id=bubbler-"@ + instance + "\n"@);
}

/// What the proxy is told of one bus: the host's socket, the filtered one it
/// is to make, that it filters, that it logs where that is asked for, and then
/// every rule, all of it under the nodes it is of.
pub proof fn a_bus_is_handed_to_the_proxy_whole(
    section: SectionView,
    host: Seq<u8>,
    instance_runtime: Seq<u8>,
    socket: Seq<char>,
    log: bool,
)
    ensures
        ({
            let argv = bus_arguments(Some(section), Some(host), instance_runtime, socket, log);
            let first = if log {
                4int
            } else {
                3
            };
            &&& argv.len() == first + section.rules.len()
            &&& argv[0] == (utf8("unix:path="@) + host, Some(section.node))
            &&& argv[1] == (
                join_path(join_path(instance_runtime, utf8("dbus"@)), utf8(socket)),
                Some(section.node),
            )
            &&& argv[2] == (utf8("--filter"@), Some(section.node))
            &&& log ==> argv[3] == (utf8("--log"@), Some(section.node))
            &&& forall|i: int|
                0 <= i < section.rules.len() ==> argv[first + i] == (
                    (#[trigger] section.rules[i]).arg,
                    Some(section.rules[i].node),
                )
        }),
        bus_arguments(None, Some(host), instance_runtime, socket, log).len() == 0,
        bus_arguments(Some(section), None, instance_runtime, socket, log).len() == 0,
{
}

/// What the proxy is told: its program, the descriptor it is ready on, and
/// then the session bus, the system bus and the accessibility bus, each with
/// its own host socket and its own name for the filtered one.
pub proof fn the_proxy_is_told_of_each_bus_in_turn(
    program: Seq<u8>,
    plan: PlanView,
    session: Option<Seq<u8>>,
    system: Option<Seq<u8>>,
    a11y: Option<Seq<u8>>,
    instance_runtime: Seq<u8>,
    log: bool,
    ready_fd: Seq<u8>,
)
    ensures
        ({
            let argv = proxy_arguments(
                program,
                plan,
                session,
                system,
                a11y,
                instance_runtime,
                log,
                ready_fd,
            );
            let one = bus_arguments(plan.session, session, instance_runtime, "bus"@, log);
            let two = bus_arguments(plan.system, system, instance_runtime, "system"@, log);
            let three = bus_arguments(plan.a11y, a11y, instance_runtime, "a11y"@, log);
            let none: Option<nat> = None;
            &&& argv[0] == (program, none)
            &&& argv[1] == (utf8("--fd="@) + ready_fd, none)
            &&& argv.skip(2) == one + two + three
        }),
{
    let argv = proxy_arguments(
        program,
        plan,
        session,
        system,
        a11y,
        instance_runtime,
        log,
        ready_fd,
    );
    let one = bus_arguments(plan.session, session, instance_runtime, "bus"@, log);
    let two = bus_arguments(plan.system, system, instance_runtime, "system"@, log);
    let three = bus_arguments(plan.a11y, a11y, instance_runtime, "a11y"@, log);
    assert(argv.skip(2) =~= one + two + three);
}

proof fn lemma_shown_as_it_is(s: Seq<char>, n: int)
    requires
        0 <= n <= s.len(),
        printable_text(s),
    ensures
        shown_text(s, n) == s.take(n),
    decreases n,
{
    if n > 0 {
        lemma_shown_as_it_is(s, n - 1);
        assert(shown(s[n - 1]) == seq![s[n - 1]]);
        assert(shown_text(s, n) =~= s.take(n));
    } else {
        assert(shown_text(s, n) =~= s.take(n));
    }
}

/// A note is the text it is of where that is one printable line of at most 200
/// characters, but for the white space around it; a longer one keeps its
/// first 200 and says that there was more.
pub proof fn a_note_is_the_line_it_is_of(text: Seq<char>)
    requires
        printable_text(text),
        split_on(text, '\n') == seq![text],
    ensures
        trimmed(text).len() <= 200 ==> note_of(text) == trimmed(text),
        trimmed(text).len() > 200 ==> note_of(text) == trimmed(text).take(200) + "..."@,
{
    lemma_shown_as_it_is(text, text.len() as int);
    assert(text.take(text.len() as int) =~= text);
}

/// A control character is shown as what it is the control of.
pub proof fn a_control_character_is_shown_in_caret_notation(c: char)
    ensures
        (c as u32) < 32 ==> shown(c).len() == 2 && shown(c)[0] == '^' && shown(c)[1] as u32 == c
            as u32 + 64,
        c as u32 == 127 ==> shown(c) == seq!['^', '?'],
        128 <= c as u32 <= 159 ==> shown(c).len() == 4 && shown(c)[0] == 'M' && shown(c)[1] == '-'
            && shown(c)[2] == '^' && shown(c)[3] as u32 == c as u32 - 64,
        32 <= c as u32 <= 126 || c as u32 >= 160 ==> shown(c) == seq![c],
{
}

/// An application id is at least two elements with a dot between each two,
/// each of letters, digits and underscores, the last of hyphens too, and not
/// longer than a name may be.
pub proof fn an_app_id_is_elements_with_dots(id: Seq<char>)
    ensures
        valid_app_id(id) <==> {
            let elements = split_on(id, '.');
            &&& utf8(id).len() <= 255
            &&& elements.len() >= 2
            &&& forall|k: int|
                0 <= k < elements.len() ==> {
                    let e = #[trigger] elements[k];
                    &&& e.len() > 0
                    &&& forall|i: int|
                        0 <= i < e.len() ==> ('A' <= #[trigger] e[i] <= 'Z' || 'a' <= e[i] <= 'z'
                            || '0' <= e[i] <= '9' || e[i] == '_' || e[i] == '-' && k
                            == elements.len() - 1)
                }
        },
{
    let elements = split_on(id, '.');
    assert forall|k: int| 0 <= k < elements.len() implies (id_element(
        #[trigger] elements[k],
        k == elements.len() - 1,
    ) <==> {
        let e = elements[k];
        &&& e.len() > 0
        &&& forall|i: int|
            0 <= i < e.len() ==> ('A' <= #[trigger] e[i] <= 'Z' || 'a' <= e[i] <= 'z' || '0'
                <= e[i] <= '9' || e[i] == '_' || e[i] == '-' && k == elements.len() - 1)
    }) by {
        let e = elements[k];
        let last = k == elements.len() - 1;
        assert(forall|c: char|
            #[trigger] id_char(c, last) <==> ('A' <= c <= 'Z' || 'a' <= c <= 'z' || '0' <= c <= '9'
                || c == '_' || c == '-' && last));
    }
}

/// The buses of a plan are those it filters, each by its own socket and its
/// own node, the session bus before the system bus before the accessibility
/// bus.
pub proof fn the_buses_of_a_plan_are_those_it_filters(p: PlanView)
    ensures
        ({
            let all = buses_of(p);
            let one = if p.session is Some { 1int } else { 0 };
            let two = if p.system is Some { 1int } else { 0 };
            &&& all.len() == one + two + (if p.a11y is Some { 1int } else { 0 })
            &&& p.session is Some ==> all[0] == ("bus"@, "dbus"@)
            &&& p.system is Some ==> all[one] == ("system"@, "system-bus"@)
            &&& p.a11y is Some ==> all[one + two] == ("a11y"@, "a11y"@)
        }),
{
}

/// The accessibility bus is asked for by one call, of one method on one object
/// of one name, with nothing in it.
pub proof fn the_accessibility_bus_is_asked_for_by_one_call()
    ensures
        get_address_call().dest == "org.a11y.Bus"@,
        get_address_call().path == "/org/a11y/bus"@,
        get_address_call().iface == "org.a11y.Bus"@,
        get_address_call().member == "GetAddress"@,
        get_address_call().sig.len() == 0,
        get_address_call().body.len() == 0,
        get_address_call().fds == 0,
{
    reveal_strlit("");
}

/// A bus that refuses to say where the accessibility bus is, is quoted: by the
/// name of its error, and by its words where it has any; and any other failure
/// by what it is.
pub proof fn a_refusal_to_answer_is_quoted(name: Seq<char>, message: Seq<char>, e: WireErrorView)
    ensures
        message.len() == 0 ==> a11y_failure_of(WireErrorView::Remote { name, message })
            == LaunchErrorView::A11y("org.a11y.Bus.GetAddress failed: "@ + note_of(name)),
        message.len() > 0 ==> a11y_failure_of(WireErrorView::Remote { name, message })
            == LaunchErrorView::A11y(
            "org.a11y.Bus.GetAddress failed: "@ + note_of(name) + ": "@ + note_of(message),
        ),
        !(e is Remote) ==> a11y_failure_of(e) == LaunchErrorView::A11y(
            "asking the session bus for the accessibility bus: "@ + note_of(wire_message(e)),
        ),
{
}

/// A filtered socket is made in a directory of the proxy's own, and is used
/// from outside of it, where the proxy does not reach; and two sockets of two
/// names are two, in either place.
pub proof fn a_checked_socket_is_out_of_the_proxys_reach(
    instance_runtime: Seq<u8>,
    socket: Seq<char>,
    other: Seq<char>,
)
    requires
        is_name(utf8(socket)),
        is_name(utf8(other)),
        socket != "dbus"@,
    ensures
        under(filtered_socket(instance_runtime, socket), join_path(instance_runtime, utf8("dbus"@))),
        !under(checked_socket(instance_runtime, socket), join_path(instance_runtime, utf8("dbus"@))),
        under(checked_socket(instance_runtime, socket), instance_runtime),
        socket != other ==> filtered_socket(instance_runtime, socket) != filtered_socket(
            instance_runtime,
            other,
        ) && checked_socket(instance_runtime, socket) != checked_socket(instance_runtime, other),
{
    let dir = join_path(instance_runtime, utf8("dbus"@));
    reveal_strlit("dbus");
    is_ascii_chars_encode_utf8("dbus"@);
    let name = utf8("dbus"@);
    assert(name.len() == 4 && name[0] == 100 && name[1] == 98 && name[2] == 117 && name[3] == 115);
    assert(is_name(name));
    a_name_is_the_last_component(instance_runtime, utf8("dbus"@));
    a_name_is_the_last_component(dir, utf8(socket));
    a_name_is_the_last_component(dir, utf8(other));
    a_name_is_the_last_component(instance_runtime, utf8(socket));
    a_name_is_the_last_component(instance_runtime, utf8(other));
    if utf8(socket) == utf8("dbus"@) {
        lemma_utf8_injective(socket, "dbus"@);
    }
    let base = components(instance_runtime);
    let (a, b) = (components(checked_socket(instance_runtime, socket)), components(dir));
    assert(a.last() != b.last());
    if under(checked_socket(instance_runtime, socket), dir) {
        assert(a.take(b.len() as int) =~= a);
        assert(a == b);
    }
    if socket != other && utf8(socket) == utf8(other) {
        lemma_utf8_injective(socket, other);
    }
}

/// The identity of an instance is looked up in `.flatpak` of the runtime
/// directory, under `bubbler-` and the instance's name.
pub proof fn an_identity_is_looked_up_by_the_instances_name(
    runtime_dir: Seq<u8>,
    instance: Seq<char>,
)
    ensures
        identity_dir(runtime_dir, instance) == join_path(
            join_path(runtime_dir, utf8(".flatpak"@)),
            utf8("bubbler-"@ + instance),
        ),
{
}

} // verus!
