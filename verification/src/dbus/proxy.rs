//! The proxy's command line, and where its sockets live.

use vstd::prelude::*;

use crate::dbus::identity::flatpak_instance_id;
use crate::dbus::plan::{
    Plan, PlanView, Section, SectionView, A11Y_SOCKET, PROXY_BIN, SESSION_SOCKET, SYSTEM_SOCKET,
};
use crate::env::Env;
use crate::paths::{join, join_path};
use crate::text::{byte_views, bytes_of, copy_bytes, maybe, push_bytes, utf8};

verus! {

/// Where portals expect the sandbox identity file.
pub const FLATPAK_INFO: &'static str = "/.flatpak-info";

/// Directory of live sandbox instances under `$XDG_RUNTIME_DIR`. It is
/// flatpak's; only an instance's own entry is ever added to or removed from
/// it.
pub const FLATPAK_DIR: &'static str = ".flatpak";

/// bwrap's `--info-fd` document, published for one instance. Portals read
/// `child-pid` out of it to get a pidfd of the sandbox.
pub const BWRAPINFO: &'static str = "bwrapinfo.json";

/// `$XDG_RUNTIME_DIR/.flatpak/bubbler-<instance>`: where xdg-desktop-portal
/// looks a sandboxed caller up, by the `instance-id` in its `/.flatpak-info`.
/// `instance` is a validated instance name.
pub fn flatpak_instance_dir(env: &Env, instance: &str) -> (r: Vec<u8>)
    ensures
        r@ == identity_dir(env.runtime_dir@, instance@),
        r@ == join_path(
            join_path(env.runtime_dir@, utf8(FLATPAK_DIR@)),
            utf8("bubbler-"@ + instance@),
        ),
{
    let dir = join(&env.runtime_dir, FLATPAK_DIR.as_bytes());
    let id = flatpak_instance_id(instance);
    join(&dir, id.as_str().as_bytes())
}

/// Where portals look up the identity of an instance.
pub open spec fn identity_dir(runtime_dir: Seq<u8>, instance: Seq<char>) -> Seq<u8> {
    join_path(join_path(runtime_dir, utf8(FLATPAK_DIR@)), utf8("bubbler-"@ + instance))
}

/// Where the proxy makes a filtered socket.
pub open spec fn filtered_socket(instance_runtime: Seq<u8>, socket: Seq<char>) -> Seq<u8> {
    join_path(join_path(instance_runtime, utf8("dbus"@)), utf8(socket))
}

/// Where a filtered socket is once it was checked.
pub open spec fn checked_socket(instance_runtime: Seq<u8>, socket: Seq<char>) -> Seq<u8> {
    join_path(instance_runtime, utf8(socket))
}

/// The proxy's directory.
pub open spec fn socket_dir_of(instance_runtime: Seq<u8>) -> Seq<u8> {
    join_path(instance_runtime, utf8("dbus"@))
}

/// The only directory the proxy sandbox may write to. The instance directory
/// above it is never handed to the proxy: it holds the control socket, and
/// reaching that socket means running commands in the app.
pub fn socket_dir(instance_runtime: &[u8]) -> (r: Vec<u8>)
    ensures
        r@ == socket_dir_of(instance_runtime@),
{
    join(instance_runtime, "dbus".as_bytes())
}

/// Where the proxy creates one filtered socket, in [`socket_dir`]: the one
/// path the proxy sandbox can write to. `socket` is [`SESSION_SOCKET`],
/// [`SYSTEM_SOCKET`] or [`A11Y_SOCKET`].
pub fn proxy_bus_path(instance_runtime: &[u8], socket: &str) -> (r: Vec<u8>)
    ensures
        r@ == join_path(socket_dir_of(instance_runtime@), utf8(socket@)),
        r@ == filtered_socket(instance_runtime@, socket@),
{
    join(&socket_dir(instance_runtime), socket.as_bytes())
}

/// Where a sandbox's bus bind comes from: the socket after the launcher has
/// checked it and moved it out of [`socket_dir`]. The proxy cannot reach this
/// path, so nothing can be swapped for it once it is there.
pub fn app_bus_path(instance_runtime: &[u8], socket: &str) -> (r: Vec<u8>)
    ensures
        r@ == join_path(instance_runtime@, utf8(socket@)),
        r@ == checked_socket(instance_runtime@, socket@),
{
    join(instance_runtime, socket.as_bytes())
}

/// The proxy binary to run: the override when it is set, else [`PROXY_BIN`]
/// from `PATH` inside the proxy sandbox.
pub fn proxy_program(env: &Env) -> (r: Vec<u8>)
    ensures
        r@ == (match env.proxy_override {
            Some(path) => path@,
            None => utf8(PROXY_BIN@),
        }),
{
    match &env.proxy_override {
        Some(path) => copy_bytes(path),
        None => bytes_of(PROXY_BIN),
    }
}

/// The host socket of each bus a plan grants, as the launcher resolved them.
/// One named value rather than three arguments of one type: which socket
/// serves which bus is the whole of the confinement, and a call site that
/// swapped two would hand an application one bus behind another bus's rules.
/// `None` leaves that bus out of the proxy's command, so a section without a
/// socket is not pointed anywhere else.
#[derive(Debug, Clone, Copy)]
pub struct HostBuses<'a> {
    /// Session bus.
    pub session: Option<&'a [u8]>,
    /// System bus.
    pub system: Option<&'a [u8]>,
    /// Accessibility bus.
    pub a11y: Option<&'a [u8]>,
}

/// One element of the proxy's command line and the node behind it.
pub type Argument = (Seq<u8>, Option<nat>);

/// The models of the elements.
pub open spec fn argument_views(argv: Seq<(Vec<u8>, Option<usize>)>) -> Seq<Argument> {
    Seq::new(
        argv.len(),
        |i: int|
            (
                argv[i].0@,
                match argv[i].1 {
                    Some(n) => Some(n as nat),
                    None => None,
                },
            ),
    )
}

/// The part of the command line for one bus: its address, the socket it is
/// served on, the filter and the rules. An option applies to the address
/// before it. All of them are the granting node's, and a rule its own node's.
pub open spec fn bus_arguments(
    section: Option<SectionView>,
    host: Option<Seq<u8>>,
    instance_runtime: Seq<u8>,
    socket: Seq<char>,
    log: bool,
) -> Seq<Argument> {
    match (section, host) {
        (Some(s), Some(host)) => seq![
            (utf8("unix:path="@) + host, Some(s.node)),
            (join_path(socket_dir_of(instance_runtime), utf8(socket)), Some(s.node)),
            (utf8("--filter"@), Some(s.node)),
        ] + (if log {
            seq![(utf8("--log"@), Some(s.node))]
        } else {
            Seq::empty()
        }) + Seq::new(s.rules.len(), |i: int| (s.rules[i].arg, Some(s.rules[i].node))),
        _ => Seq::empty(),
    }
}

/// The proxy's command line, with the node behind each element.
pub open spec fn proxy_arguments(
    program: Seq<u8>,
    plan: PlanView,
    session: Option<Seq<u8>>,
    system: Option<Seq<u8>>,
    a11y: Option<Seq<u8>>,
    instance_runtime: Seq<u8>,
    log: bool,
    ready_fd: Seq<u8>,
) -> Seq<Argument> {
    seq![(program, None), (utf8("--fd="@) + ready_fd, None)] + bus_arguments(
        plan.session,
        session,
        instance_runtime,
        SESSION_SOCKET@,
        log,
    ) + bus_arguments(plan.system, system, instance_runtime, SYSTEM_SOCKET@, log) + bus_arguments(
        plan.a11y,
        a11y,
        instance_runtime,
        A11Y_SOCKET@,
        log,
    )
}

fn push_argument(argv: &mut Vec<(Vec<u8>, Option<usize>)>, arg: Vec<u8>, node: usize)
    ensures
        argument_views(final(argv)@) == argument_views(old(argv)@).push(
            (arg@, Some(node as nat)),
        ),
{
    argv.push((arg, Some(node)));
    assert(argument_views(argv@) =~= argument_views(old(argv)@).push((arg@, Some(node as nat))));
}

fn push_bus(
    argv: &mut Vec<(Vec<u8>, Option<usize>)>,
    section: &Option<Section>,
    host: Option<&[u8]>,
    instance_runtime: &[u8],
    socket: &str,
    log: bool,
)
    ensures
        argument_views(final(argv)@) == argument_views(old(argv)@) + bus_arguments(
            maybe(*section),
            maybe(host),
            instance_runtime@,
            socket@,
            log,
        ),
{
    let ghost first = argument_views(argv@);
    match (section, host) {
        (Some(section), Some(host)) => {
            let ghost rules = section@.rules;
            let node = section.node;
            let mut address = bytes_of("unix:path=");
            push_bytes(&mut address, host);
            push_argument(argv, address, node);
            push_argument(argv, proxy_bus_path(instance_runtime, socket), node);
            push_argument(argv, bytes_of("--filter"), node);
            if log {
                push_argument(argv, bytes_of("--log"), node);
            }
            let ghost head = argument_views(argv@);
            let ghost all = Seq::new(
                rules.len(),
                |i: int| (rules[i].arg, Some(rules[i].node)),
            );
            let mut i: usize = 0;
            assert(head + all.take(0) =~= head);
            while i < section.rules.len()
                invariant
                    rules == section@.rules,
                    rules.len() == section.rules@.len(),
                    all == Seq::new(rules.len(), |i: int| (rules[i].arg, Some(rules[i].node))),
                    i <= section.rules@.len(),
                    argument_views(argv@) == head + all.take(i as int),
                decreases section.rules@.len() - i,
            {
                assert(rules[i as int] == section.rules@[i as int]@);
                push_argument(argv, copy_bytes(&section.rules[i].arg), section.rules[i].node);
                i = i + 1;
                assert(argument_views(argv@) =~= head + all.take(i as int));
            }
            assert(all.take(i as int) =~= all);
            assert(argument_views(argv@) =~= first + bus_arguments(
                Some(section@),
                Some(host@),
                instance_runtime@,
                socket@,
                log,
            ));
        },
        _ => {
            assert(argument_views(argv@) =~= first + Seq::empty());
        },
    }
}

/// [`proxy_command`] with the node behind each element: a rule carries the
/// position in the config's `services` of the node that asked for it, and the
/// proxy's own invocation carries none.
pub fn proxy_command_nodes(
    program: &[u8],
    plan: &Plan,
    buses: HostBuses<'_>,
    instance_runtime: &[u8],
    log: bool,
    ready_fd: &[u8],
) -> (r: Vec<(Vec<u8>, Option<usize>)>)
    ensures
        argument_views(r@) == proxy_arguments(
            program@,
            plan@,
            maybe(buses.session),
            maybe(buses.system),
            maybe(buses.a11y),
            instance_runtime@,
            log,
            ready_fd@,
        ),
{
    let mut fd = bytes_of("--fd=");
    push_bytes(&mut fd, ready_fd);
    let ghost ready = fd@;
    let mut argv: Vec<(Vec<u8>, Option<usize>)> = Vec::new();
    argv.push((copy_bytes(program), None));
    argv.push((fd, None));
    assert(argument_views(argv@) =~= seq![(program@, None), (ready, None)]);
    push_bus(&mut argv, &plan.session, buses.session, instance_runtime, SESSION_SOCKET, log);
    push_bus(&mut argv, &plan.system, buses.system, instance_runtime, SYSTEM_SOCKET, log);
    push_bus(&mut argv, &plan.a11y, buses.a11y, instance_runtime, A11Y_SOCKET, log);
    argv
}

/// Argv of the proxy itself, run inside its own sandbox: it connects to each
/// granted host bus, serves the filtered socket for it in the `dbus/`
/// subdirectory of `instance_runtime` and exits when `ready_fd` is closed
/// (`xdg-dbus-proxy(1)`).
///
/// `buses` holds the host socket of each section the plan carries. A section
/// given no socket is left out rather than pointed somewhere else; the
/// sandbox's bind of it then fails, since the proxy never creates it.
pub fn proxy_command(
    program: &[u8],
    plan: &Plan,
    buses: HostBuses<'_>,
    instance_runtime: &[u8],
    log: bool,
    ready_fd: &[u8],
) -> (r: Vec<Vec<u8>>)
    ensures
        byte_views(r@) == proxy_arguments(
            program@,
            plan@,
            maybe(buses.session),
            maybe(buses.system),
            maybe(buses.a11y),
            instance_runtime@,
            log,
            ready_fd@,
        ).map_values(|a: Argument| a.0),
{
    let argv = proxy_command_nodes(program, plan, buses, instance_runtime, log, ready_fd);
    let ghost all = argument_views(argv@).map_values(|a: Argument| a.0);
    let mut out: Vec<Vec<u8>> = Vec::new();
    let mut i: usize = 0;
    assert(byte_views(out@) =~= all.take(0));
    while i < argv.len()
        invariant
            all == argument_views(argv@).map_values(|a: Argument| a.0),
            i <= argv@.len(),
            byte_views(out@) == all.take(i as int),
        decreases argv@.len() - i,
    {
        let ghost before = byte_views(out@);
        let arg = copy_bytes(&argv[i].0);
        let ghost model = arg@;
        out.push(arg);
        assert(all[i as int] == model);
        i = i + 1;
        assert(byte_views(out@) =~= before.push(model));
        assert(all.take(i as int) =~= before.push(all[i - 1]));
    }
    assert(all.take(i as int) =~= all);
    out
}

/// Whether the elements from `at` on are one filtered bus: its address, the
/// socket it is served on, the filter, and its own rules, up to `end`.
pub open spec fn filtered_bus(
    argv: Seq<Argument>,
    at: int,
    end: int,
    section: SectionView,
    host: Seq<u8>,
    log: bool,
) -> bool {
    let first = at + (if log {
        4int
    } else {
        3
    });
    &&& end == first + section.rules.len()
    &&& end <= argv.len()
    &&& argv[at].0 == utf8("unix:path="@) + host
    &&& argv[at + 2].0 == utf8("--filter"@)
    &&& forall|i: int|
        0 <= i < section.rules.len() ==> argv[first + i].0 == (#[trigger] section.rules[i]).arg
}

/// Every bus the proxy connects to is filtered, and by its own rules alone: an
/// option applies to the address before it, and between a bus's address and
/// the next one stand its filter and its rules. A bus that is not granted, or
/// that has no socket on the host, is not connected to at all.
pub proof fn every_bus_is_filtered_by_its_own_rules(
    program: Seq<u8>,
    plan: PlanView,
    session: Option<Seq<u8>>,
    system: Option<Seq<u8>>,
    a11y: Option<Seq<u8>>,
    instance_runtime: Seq<u8>,
    log: bool,
    ready_fd: Seq<u8>,
)
    ensures
        ({
            let argv = proxy_arguments(
                program,
                plan,
                session,
                system,
                a11y,
                instance_runtime,
                log,
                ready_fd,
            );
            let second = 2 + bus_arguments(
                plan.session,
                session,
                instance_runtime,
                SESSION_SOCKET@,
                log,
            ).len();
            let third = second + bus_arguments(
                plan.system,
                system,
                instance_runtime,
                SYSTEM_SOCKET@,
                log,
            ).len();
            let end = argv.len() as int;
            &&& match (plan.session, session) {
                (Some(s), Some(host)) => filtered_bus(argv, 2, second as int, s, host, log),
                _ => second == 2,
            }
            &&& match (plan.system, system) {
                (Some(s), Some(host)) => filtered_bus(
                    argv,
                    second as int,
                    third as int,
                    s,
                    host,
                    log,
                ),
                _ => third == second,
            }
            &&& match (plan.a11y, a11y) {
                (Some(s), Some(host)) => filtered_bus(argv, third as int, end, s, host, log),
                _ => end == third,
            }
        }),
{
}

} // verus!
