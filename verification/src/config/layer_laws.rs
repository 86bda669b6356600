//! What a layer says as a whole is what its nodes say.

use vstd::prelude::*;

use crate::config::bus::{bus_rules_of, mpris_of, system_rules_of};
use crate::config::document::{NodeView, ScalarView};
use crate::config::entry_laws::{argument, lemma_walk, property};
use crate::config::grant_laws::a_share_is_of_what_it_names;
use crate::config::grants::{
    camera_of, etc_share_of, gamepad_of, normalised, share_of, wayland_of, x11_of, ShareKind,
};
use crate::config::model::{
    default_seccomp, no_lines, service_node, ConfigView, LinesView, LintAllowView, ProfileView,
    SeccompView, ServiceView, ShareMode, TtyMode, Userns,
};
use crate::config::network::network_of;
use crate::config::network_laws::{gathered, one_string_is_all_there_is, sole, somes};
use crate::config::node::type_fault;
use crate::config::parse::{
    bundle, clash, empty_layer, first_bundle, granted, layer_of, layer_step, layer_steps,
    once_by_name, requested, unmet, with_node, with_service, LayerView, NODES,
};
use crate::config::settings::{
    command_of, desktop_of, env_of, lint_allow_of, listed, seccomp_of, tty_of, userns_of, NamesView,
};
use crate::config::value_laws::{
    a_variable_is_set_as_it_is_written, lemma_variables, variable, with_variables,
};
use crate::error::ConfigErrorView;

verus! {

proof fn lemma_names()
    ensures
        "wayland"@.len() == 7 && "wayland"@[0] == 'w' && "wayland"@[1] == 'a',
        "x11"@.len() == 3 && "x11"@[0] == 'x' && "x11"@[1] == '1',
        "network"@.len() == 7 && "network"@[0] == 'n' && "network"@[1] == 'e',
        "dri"@.len() == 3 && "dri"@[0] == 'd' && "dri"@[1] == 'r',
        "pipewire"@.len() == 8 && "pipewire"@[0] == 'p' && "pipewire"@[1] == 'i',
        "pulseaudio"@.len() == 10 && "pulseaudio"@[0] == 'p' && "pulseaudio"@[1] == 'u',
        "gamepad"@.len() == 7 && "gamepad"@[0] == 'g' && "gamepad"@[1] == 'a',
        "hidraw"@.len() == 6 && "hidraw"@[0] == 'h' && "hidraw"@[1] == 'i',
        "camera"@.len() == 6 && "camera"@[0] == 'c' && "camera"@[1] == 'a',
        "home-share"@.len() == 10 && "home-share"@[0] == 'h' && "home-share"@[1] == 'o',
        "path-share"@.len() == 10 && "path-share"@[0] == 'p' && "path-share"@[1] == 'a',
        "etc-share"@.len() == 9 && "etc-share"@[0] == 'e' && "etc-share"@[1] == 't',
        "app-runtime"@.len() == 11 && "app-runtime"@[0] == 'a' && "app-runtime"@[1] == 'p',
        "dbus"@.len() == 4 && "dbus"@[0] == 'd' && "dbus"@[1] == 'b',
        "system-bus"@.len() == 10 && "system-bus"@[0] == 's' && "system-bus"@[1] == 'y',
        "portals"@.len() == 7 && "portals"@[0] == 'p' && "portals"@[1] == 'o',
        "notify"@.len() == 6 && "notify"@[0] == 'n' && "notify"@[1] == 'o',
        "tray"@.len() == 4 && "tray"@[0] == 't' && "tray"@[1] == 'r',
        "mpris"@.len() == 5 && "mpris"@[0] == 'm' && "mpris"@[1] == 'p',
        "a11y"@.len() == 4 && "a11y"@[0] == 'a' && "a11y"@[1] == '1',
        "input-method"@.len() == 12 && "input-method"@[0] == 'i' && "input-method"@[1] == 'n',
        "tty"@.len() == 3 && "tty"@[0] == 't' && "tty"@[1] == 't',
        "userns"@.len() == 6 && "userns"@[0] == 'u' && "userns"@[1] == 's',
        "seccomp"@.len() == 7 && "seccomp"@[0] == 's' && "seccomp"@[1] == 'e',
        "env"@.len() == 3 && "env"@[0] == 'e' && "env"@[1] == 'n',
        "lint-allow"@.len() == 10 && "lint-allow"@[0] == 'l' && "lint-allow"@[1] == 'i',
        "include"@.len() == 7 && "include"@[0] == 'i' && "include"@[1] == 'n',
        "desktop"@.len() == 7 && "desktop"@[0] == 'd' && "desktop"@[1] == 'e',
        "command"@.len() == 7 && "command"@[0] == 'c' && "command"@[1] == 'o',
{
    reveal_strlit("wayland");
    reveal_strlit("x11");
    reveal_strlit("network");
    reveal_strlit("dri");
    reveal_strlit("pipewire");
    reveal_strlit("pulseaudio");
    reveal_strlit("gamepad");
    reveal_strlit("hidraw");
    reveal_strlit("camera");
    reveal_strlit("home-share");
    reveal_strlit("path-share");
    reveal_strlit("etc-share");
    reveal_strlit("app-runtime");
    reveal_strlit("dbus");
    reveal_strlit("system-bus");
    reveal_strlit("portals");
    reveal_strlit("notify");
    reveal_strlit("tray");
    reveal_strlit("mpris");
    reveal_strlit("a11y");
    reveal_strlit("input-method");
    reveal_strlit("tty");
    reveal_strlit("userns");
    reveal_strlit("seccomp");
    reveal_strlit("env");
    reveal_strlit("lint-allow");
    reveal_strlit("include");
    reveal_strlit("desktop");
    reveal_strlit("command");
}

/// What a grant has of its node: its name, and what stands in it.
pub open spec fn says_grant(node: NodeView, s: ServiceView) -> bool {
    &&& node.name == service_node(s)
    &&& match s {
        ServiceView::Wayland(mode) => wayland_of(node) == Ok::<_, ConfigErrorView>(mode),
        ServiceView::X11(mode) => x11_of(node) == Ok::<_, ConfigErrorView>(mode),
        ServiceView::Network(cfg) => network_of(node) == Ok::<_, ConfigErrorView>(cfg),
        ServiceView::HomeShare { path, mode } => {
            &&& share_of(node, ShareKind::Home) is Ok
            &&& argument(node) matches Some(ScalarView::Text(s)) && path == normalised(s)
            &&& mode == ShareMode::ReadWrite <==> property(node, "mode"@) == Some(
                ScalarView::Text("rw"@),
            )
        },
        ServiceView::PathShare { path, mode } => {
            &&& share_of(node, ShareKind::Path) is Ok
            &&& argument(node) matches Some(ScalarView::Text(s)) && path == normalised(s)
            &&& mode == ShareMode::ReadWrite <==> property(node, "mode"@) == Some(
                ScalarView::Text("rw"@),
            )
        },
        ServiceView::AppRuntime { id, mode } => {
            &&& share_of(node, ShareKind::App) is Ok
            &&& argument(node) == Some(ScalarView::Text(id))
            &&& mode == ShareMode::ReadWrite <==> property(node, "mode"@) == Some(
                ScalarView::Text("rw"@),
            )
        },
        ServiceView::EtcShare { name } => etc_share_of(node) == Ok::<_, ConfigErrorView>(name),
        ServiceView::Dbus { rules } => bus_rules_of(node, true) == Ok::<_, ConfigErrorView>(rules),
        ServiceView::SystemBus { rules } => system_rules_of(node) == Ok::<_, ConfigErrorView>(
            rules,
        ),
        ServiceView::Gamepad { hidraw, uinput } => gamepad_of(node) == Ok::<_, ConfigErrorView>(
            (hidraw, uinput),
        ),
        ServiceView::Camera { nodes } => camera_of(node) == Ok::<_, ConfigErrorView>(nodes),
        ServiceView::Mpris { name } => mpris_of(node) == Ok::<_, ConfigErrorView>(name),
        _ => node.entries.len() == 0 && node.children is None,
    }
}

/// What a grant has of its node.
spec fn said_by(node: NodeView, s: ServiceView) -> bool {
    &&& node.name == service_node(s)
    &&& match s {
        ServiceView::Wayland(m) => wayland_of(node) == Ok::<_, ConfigErrorView>(m),
        ServiceView::X11(m) => x11_of(node) == Ok::<_, ConfigErrorView>(m),
        ServiceView::Network(m) => network_of(node) == Ok::<_, ConfigErrorView>(m),
        ServiceView::HomeShare { path, mode } => share_of(node, ShareKind::Home) matches Ok((s, m)) && m == mode && path == normalised(s),
        ServiceView::PathShare { path, mode } => share_of(node, ShareKind::Path) matches Ok((s, m)) && m == mode && path == normalised(s),
        ServiceView::AppRuntime { id, mode } => share_of(node, ShareKind::App) == Ok::<_, ConfigErrorView>((id, mode)),
        ServiceView::EtcShare { name } => etc_share_of(node) == Ok::<_, ConfigErrorView>(name),
        ServiceView::Dbus { rules } => bus_rules_of(node, true) == Ok::<_, ConfigErrorView>(rules),
        ServiceView::SystemBus { rules } => system_rules_of(node) == Ok::<_, ConfigErrorView>(rules),
        ServiceView::Gamepad { hidraw, uinput } => gamepad_of(node) == Ok::<_, ConfigErrorView>((hidraw, uinput)),
        ServiceView::Camera { nodes } => camera_of(node) == Ok::<_, ConfigErrorView>(nodes),
        ServiceView::Mpris { name } => mpris_of(node) == Ok::<_, ConfigErrorView>(name),
        _ => node.entries.len() == 0 && node.children is None,
    }
}

proof fn lemma_asks(node: NodeView)
    ensures
        requested(node) matches Some(Ok(s)) ==> said_by(node, s),
        node.name == "wayland"@ ==> (requested(node) matches Some(got) && (got is Ok <==> wayland_of(node) is Ok)),
        node.name == "x11"@ ==> (requested(node) matches Some(got) && (got is Ok <==> x11_of(node) is Ok)),
        node.name == "network"@ ==> (requested(node) matches Some(got) && (got is Ok <==> network_of(node) is Ok)),
        node.name == "home-share"@ ==> (requested(node) matches Some(got) && (got is Ok <==> share_of(node, ShareKind::Home) is Ok)),
        node.name == "path-share"@ ==> (requested(node) matches Some(got) && (got is Ok <==> share_of(node, ShareKind::Path) is Ok)),
        node.name == "app-runtime"@ ==> (requested(node) matches Some(got) && (got is Ok <==> share_of(node, ShareKind::App) is Ok)),
        node.name == "etc-share"@ ==> (requested(node) matches Some(got) && (got is Ok <==> etc_share_of(node) is Ok)),
        node.name == "dbus"@ ==> (requested(node) matches Some(got) && (got is Ok <==> bus_rules_of(node, true) is Ok)),
        node.name == "system-bus"@ ==> (requested(node) matches Some(got) && (got is Ok <==> system_rules_of(node) is Ok)),
        node.name == "gamepad"@ ==> (requested(node) matches Some(got) && (got is Ok <==> gamepad_of(node) is Ok)),
        node.name == "camera"@ ==> (requested(node) matches Some(got) && (got is Ok <==> camera_of(node) is Ok)),
        node.name == "mpris"@ ==> (requested(node) matches Some(got) && (got is Ok <==> mpris_of(node) is Ok)),
        node.name == "dri"@ ==> (requested(node) matches Some(got) && (got is Ok <==> node.entries.len()
            == 0 && node.children is None)),
        node.name == "pipewire"@ ==> (requested(node) matches Some(got) && (got is Ok <==> node.entries.len()
            == 0 && node.children is None)),
        node.name == "pulseaudio"@ ==> (requested(node) matches Some(got) && (got is Ok <==> node.entries.len()
            == 0 && node.children is None)),
        node.name == "portals"@ ==> (requested(node) matches Some(got) && (got is Ok <==> node.entries.len()
            == 0 && node.children is None)),
        node.name == "notify"@ ==> (requested(node) matches Some(got) && (got is Ok <==> node.entries.len()
            == 0 && node.children is None)),
        node.name == "tray"@ ==> (requested(node) matches Some(got) && (got is Ok <==> node.entries.len()
            == 0 && node.children is None)),
        node.name == "hidraw"@ ==> (requested(node) matches Some(got) && (got is Ok <==> node.entries.len()
            == 0 && node.children is None)),
        node.name == "a11y"@ ==> (requested(node) matches Some(got) && (got is Ok <==> node.entries.len()
            == 0 && node.children is None)),
        node.name == "input-method"@ ==> (requested(node) matches Some(got) && (got is Ok <==> node.entries.len()
            == 0 && node.children is None)),
{
    lemma_names();
}

/// A node asks for a grant exactly where it says one, and for the one it says.
pub proof fn a_grant_is_what_its_node_says(node: NodeView, s: ServiceView)
    ensures
        requested(node) == Some(Ok::<ServiceView, ConfigErrorView>(s)) <==> says_grant(node, s),
{
    lemma_asks(node);
    lemma_said(node, s);
    if said_by(node, s) {
        let got = requested(node)->Some_0->Ok_0;
        lemma_said_once(node, s, got);
    }
}

proof fn lemma_said(node: NodeView, s: ServiceView)
    ensures
        said_by(node, s) <==> says_grant(node, s),
{
    match s {
        ServiceView::HomeShare { path, mode } => {
            a_share_is_of_what_it_names(node, ShareKind::Home);
        },
        ServiceView::PathShare { path, mode } => {
            a_share_is_of_what_it_names(node, ShareKind::Path);
        },
        ServiceView::AppRuntime { id, mode } => {
            a_share_is_of_what_it_names(node, ShareKind::App);
        },
        _ => {},
    }
}

#[verifier::spinoff_prover]
proof fn lemma_said_once(node: NodeView, a: ServiceView, b: ServiceView)
    requires
        said_by(node, a),
        said_by(node, b),
    ensures
        a == b,
{
    every_kind_of_grant_has_its_own_node(a, b);
}

/// Whether two grants are of one kind.
pub open spec fn same_kind(a: ServiceView, b: ServiceView) -> bool {
    match (a, b) {
        (ServiceView::Wayland(_), ServiceView::Wayland(_)) => true,
        (ServiceView::X11(_), ServiceView::X11(_)) => true,
        (ServiceView::Network(_), ServiceView::Network(_)) => true,
        (ServiceView::HomeShare { .. }, ServiceView::HomeShare { .. }) => true,
        (ServiceView::PathShare { .. }, ServiceView::PathShare { .. }) => true,
        (ServiceView::EtcShare { .. }, ServiceView::EtcShare { .. }) => true,
        (ServiceView::Dbus { .. }, ServiceView::Dbus { .. }) => true,
        (ServiceView::SystemBus { .. }, ServiceView::SystemBus { .. }) => true,
        (ServiceView::Gamepad { .. }, ServiceView::Gamepad { .. }) => true,
        (ServiceView::Camera { .. }, ServiceView::Camera { .. }) => true,
        (ServiceView::Mpris { .. }, ServiceView::Mpris { .. }) => true,
        (ServiceView::AppRuntime { .. }, ServiceView::AppRuntime { .. }) => true,
        _ => a == b,
    }
}

/// Two grants are written as one node exactly where they are of one kind.
pub proof fn every_kind_of_grant_has_its_own_node(a: ServiceView, b: ServiceView)
    ensures
        service_node(a) == service_node(b) <==> same_kind(a, b),
{
    lemma_names();
}

/// Two grants clash where they are of one kind, but shares only where they are
/// of one thing: two shares of a path under two modes do not, as long as they
/// are not of the home directory; and of two clashing grants it does not
/// matter which comes first.
pub proof fn grants_clash_where_they_are_of_one_thing(a: ServiceView, b: ServiceView)
    ensures
        clash(a, b) ==> same_kind(a, b),
        clash(a, b) <==> clash(b, a),
        clash(a, a),
        same_kind(a, b) && !clash(a, b) ==> match (a, b) {
            (
                ServiceView::HomeShare { path: x, mode: _ },
                ServiceView::HomeShare { path: y, mode: _ },
            ) => x != y,
            (
                ServiceView::PathShare { path: x, mode: m },
                ServiceView::PathShare { path: y, mode: n },
            ) => x != y || m != n,
            (ServiceView::EtcShare { name: x }, ServiceView::EtcShare { name: y }) => x != y,
            (
                ServiceView::AppRuntime { id: x, mode: _ },
                ServiceView::AppRuntime { id: y, mode: _ },
            ) => x != y,
            _ => false,
        },
        clash(a, b) ==> match (a, b) {
            (
                ServiceView::HomeShare { path: x, mode: _ },
                ServiceView::HomeShare { path: y, mode: _ },
            ) => x == y,
            (ServiceView::PathShare { .. }, ServiceView::PathShare { .. }) => a == b,
            (ServiceView::EtcShare { .. }, ServiceView::EtcShare { .. }) => a == b,
            (
                ServiceView::AppRuntime { id: x, mode: _ },
                ServiceView::AppRuntime { id: y, mode: _ },
            ) => x == y,
            _ => true,
        },
{
    every_kind_of_grant_has_its_own_node(a, b);
    every_kind_of_grant_has_its_own_node(b, a);
    lemma_kinds(a, b);
}

proof fn lemma_kinds(a: ServiceView, b: ServiceView)
    ensures
        same_kind(a, b) <==> same_kind(b, a),
        same_kind(a, a),
{
}

/// A grant joins those there are, at their end and with nothing else changed,
/// exactly where none of them clashes with it.
pub proof fn a_grant_joins_where_none_clashes(services: Seq<ServiceView>, new: ServiceView)
    ensures
        with_service(services, service_node(new), Ok(new)) is Ok <==> forall|i: int|
            0 <= i < services.len() ==> !clash(#[trigger] services[i], new),
        with_service(services, service_node(new), Ok(new)) matches Ok(all) ==> all == services.push(
            new,
        ),
{
    lemma_once(new);
    let name = service_node(new);
    if once_by_name(name) && granted(services, name) {
        let i = choose|i: int|
            0 <= i < services.len() && service_node(#[trigger] services[i]) == name;
        every_kind_of_grant_has_its_own_node(services[i], new);
        grants_clash_where_they_are_of_one_thing(services[i], new);
        assert(clash(services[i], new));
    }
}

proof fn lemma_once(s: ServiceView)
    ensures
        once_by_name(service_node(s)) ==> !(s is HomeShare || s is PathShare || s is EtcShare
            || s is AppRuntime),
{
    lemma_names();
}

/// Whether a grant is one of a name on the session bus.
pub open spec fn needs_bus(s: ServiceView) -> bool {
    s is Portals || s is Notify || s is Tray || s is A11y || s is InputMethod || s is Mpris
}

proof fn lemma_first_bundle(services: Seq<ServiceView>, i: int)
    requires
        0 <= i <= services.len(),
    ensures
        first_bundle(services, i) is Some <==> exists|k: int|
            i <= k < services.len() && needs_bus(#[trigger] services[k]),
    decreases services.len() - i,
{
    if i < services.len() {
        lemma_first_bundle(services, i + 1);
        assert(bundle(services[i]) <==> needs_bus(services[i]));
    }
}

proof fn lemma_granted(services: Seq<ServiceView>)
    ensures
        granted(services, "dbus"@) <==> exists|k: int|
            0 <= k < services.len() && #[trigger] services[k] is Dbus,
        granted(services, "camera"@) <==> exists|k: int|
            0 <= k < services.len() && #[trigger] services[k] is Camera,
        granted(services, "portals"@) <==> exists|k: int|
            0 <= k < services.len() && #[trigger] services[k] is Portals,
        granted(services, "wayland"@) <==> exists|k: int|
            0 <= k < services.len() && #[trigger] services[k] is Wayland,
        granted(services, "dri"@) <==> exists|k: int|
            0 <= k < services.len() && #[trigger] services[k] is Dri,
{
    assert forall|s: ServiceView| #[trigger] service_node(s) == "dbus"@ <==> s is Dbus by {
        lemma_names();
    }
    assert forall|s: ServiceView| #[trigger] service_node(s) == "camera"@ <==> s is Camera by {
        lemma_names();
    }
    assert forall|s: ServiceView| #[trigger] service_node(s) == "portals"@ <==> s is Portals by {
        lemma_names();
    }
    assert forall|s: ServiceView| #[trigger] service_node(s) == "wayland"@ <==> s is Wayland by {
        lemma_names();
    }
    assert forall|s: ServiceView| #[trigger] service_node(s) == "dri"@ <==> s is Dri by {
        lemma_names();
    }
    if exists|k: int| 0 <= k < services.len() && #[trigger] services[k] is Dbus {
        let k = choose|k: int| 0 <= k < services.len() && #[trigger] services[k] is Dbus;
        assert(service_node(services[k]) == "dbus"@);
    }
    if exists|k: int| 0 <= k < services.len() && #[trigger] services[k] is Camera {
        let k = choose|k: int| 0 <= k < services.len() && #[trigger] services[k] is Camera;
        assert(service_node(services[k]) == "camera"@);
    }
    if exists|k: int| 0 <= k < services.len() && #[trigger] services[k] is Portals {
        let k = choose|k: int| 0 <= k < services.len() && #[trigger] services[k] is Portals;
        assert(service_node(services[k]) == "portals"@);
    }
    if exists|k: int| 0 <= k < services.len() && #[trigger] services[k] is Wayland {
        let k = choose|k: int| 0 <= k < services.len() && #[trigger] services[k] is Wayland;
        assert(service_node(services[k]) == "wayland"@);
    }
    if exists|k: int| 0 <= k < services.len() && #[trigger] services[k] is Dri {
        let k = choose|k: int| 0 <= k < services.len() && #[trigger] services[k] is Dri;
        assert(service_node(services[k]) == "dri"@);
    }
}

/// Nothing is missing exactly where the session bus is granted with every
/// grant of a name on it, the portals with the camera, and the compositor and
/// the graphics devices with a nested X server.
pub proof fn nothing_is_missing_where_every_need_is_granted(services: Seq<ServiceView>)
    ensures
        unmet(services) is None <==> {
            &&& (exists|k: int| 0 <= k < services.len() && needs_bus(#[trigger] services[k]))
                ==> exists|k: int| 0 <= k < services.len() && #[trigger] services[k] is Dbus
            &&& (exists|k: int| 0 <= k < services.len() && #[trigger] services[k] is Camera)
                ==> exists|k: int| 0 <= k < services.len() && #[trigger] services[k] is Portals
            &&& (exists|k: int|
                0 <= k < services.len() && #[trigger] services[k] is X11 && services[k]->X11_0
                    is Nested) ==> {
                &&& exists|k: int| 0 <= k < services.len() && #[trigger] services[k] is Wayland
                &&& exists|k: int| 0 <= k < services.len() && #[trigger] services[k] is Dri
            }
        },
{
    lemma_granted(services);
    lemma_first_bundle(services, 0);
}

/// What a `tty` node says.
pub open spec fn tty_said() -> spec_fn(NodeView) -> Option<TtyMode> {
    |c: NodeView|
        match tty_of(c) {
            Ok(t) => Some(t),
            Err(_) => None,
        }
}

/// What a `userns` node says.
pub open spec fn userns_said() -> spec_fn(NodeView) -> Option<Userns> {
    |c: NodeView|
        match userns_of(c) {
            Ok(u) => Some(u),
            Err(_) => None,
        }
}

/// What a `seccomp` node says.
pub open spec fn seccomp_said(names: NamesView) -> spec_fn(NodeView) -> Option<SeccompView> {
    |c: NodeView|
        match seccomp_of(c, names) {
            Ok(cfg) => Some(cfg),
            Err(_) => None,
        }
}

/// What a `desktop` node says.
pub open spec fn desktop_said() -> spec_fn(NodeView) -> Option<Seq<char>> {
    |c: NodeView|
        match desktop_of(c) {
            Ok(name) => Some(name),
            Err(_) => None,
        }
}

/// What a `command` node says.
pub open spec fn command_said() -> spec_fn(NodeView) -> Option<Seq<Seq<u8>>> {
    |c: NodeView|
        match command_of(c) {
            Ok(argv) => Some(argv),
            Err(_) => None,
        }
}

/// What a `lint-allow` node says.
pub open spec fn finding_said(names: NamesView) -> spec_fn(NodeView) -> Option<LintAllowView> {
    |c: NodeView|
        match lint_allow_of(c, names) {
            Ok(l) => Some(l),
            Err(_) => None,
        }
}

/// What an `include` node says.
pub open spec fn include_said() -> spec_fn(NodeView) -> Option<Seq<char>> {
    |c: NodeView|
        if c.children is None {
            sole(c)
        } else {
            None
        }
}

/// The variables the `env` nodes among the first `n` set, in their order.
pub open spec fn variables_said(nodes: Seq<NodeView>, n: int) -> Seq<(Seq<char>, Seq<char>)>
    decreases n,
{
    if n <= 0 {
        Seq::empty()
    } else if nodes[n - 1].name == "env"@ {
        with_variables(
            variables_said(nodes, n - 1),
            nodes[n - 1].entries,
            nodes[n - 1].entries.len() as int,
        )
    } else {
        variables_said(nodes, n - 1)
    }
}

/// What is said at most once, or else the default.
pub open spec fn once_said<T>(all: Seq<Option<T>>, set: bool, value: T, default: T) -> bool {
    &&& all.len() <= 1
    &&& set <==> all.len() == 1
    &&& if all.len() == 1 {
        all[0] == Some(value)
    } else {
        value == default
    }
}

/// What may be said once.
pub open spec fn maybe_said<T>(all: Seq<Option<T>>, value: Option<T>) -> bool {
    &&& all.len() <= 1
    &&& value is Some <==> all.len() == 1
    &&& all.len() == 1 ==> all[0] == value
}

/// What a layer says in its settings after its first `k` nodes.
pub open spec fn settings_read(
    nodes: Seq<NodeView>,
    names: NamesView,
    k: int,
    layer: LayerView,
) -> bool {
    let cfg = layer.profile.config;
    &&& once_said(
        gathered(nodes, "tty"@, tty_said(), k),
        layer.profile.tty_set,
        cfg.tty,
        TtyMode::Pty,
    )
    &&& once_said(
        gathered(nodes, "userns"@, userns_said(), k),
        layer.profile.userns_set,
        cfg.userns,
        Userns::Allow,
    )
    &&& once_said(
        gathered(nodes, "seccomp"@, seccomp_said(names), k),
        layer.seccomp_set,
        cfg.seccomp,
        default_seccomp(),
    )
    &&& maybe_said(gathered(nodes, "desktop"@, desktop_said(), k), cfg.desktop)
    &&& maybe_said(gathered(nodes, "command"@, command_said(), k), cfg.command)
    &&& cfg.env == variables_said(nodes, k)
    &&& somes(cfg.lint_allows) == gathered(nodes, "lint-allow"@, finding_said(names), k)
    &&& somes(layer.profile.includes) == gathered(nodes, "include"@, include_said(), k)
}

proof fn lemma_not_asked(node: NodeView)
    requires
        node.name == "tty"@ || node.name == "userns"@ || node.name == "seccomp"@ || node.name
            == "env"@ || node.name == "lint-allow"@ || node.name == "include"@ || node.name
            == "desktop"@ || node.name == "command"@,
    ensures
        requested(node) is None,
{
    lemma_names();
}

proof fn lemma_settings_names()
    ensures
        "tty"@ != "userns"@,
        "tty"@ != "seccomp"@,
        "tty"@ != "env"@,
        "tty"@ != "lint-allow"@,
        "tty"@ != "include"@,
        "tty"@ != "desktop"@,
        "tty"@ != "command"@,
        "userns"@ != "seccomp"@,
        "userns"@ != "env"@,
        "userns"@ != "lint-allow"@,
        "userns"@ != "include"@,
        "userns"@ != "desktop"@,
        "userns"@ != "command"@,
        "seccomp"@ != "env"@,
        "seccomp"@ != "lint-allow"@,
        "seccomp"@ != "include"@,
        "seccomp"@ != "desktop"@,
        "seccomp"@ != "command"@,
        "env"@ != "lint-allow"@,
        "env"@ != "include"@,
        "env"@ != "desktop"@,
        "env"@ != "command"@,
        "lint-allow"@ != "include"@,
        "lint-allow"@ != "desktop"@,
        "lint-allow"@ != "command"@,
        "include"@ != "desktop"@,
        "include"@ != "command"@,
        "desktop"@ != "command"@,
{
    lemma_names();
}

proof fn lemma_somes_push<T>(s: Seq<T>, t: T)
    ensures
        somes(s.push(t)) == somes(s).push(Some(t)),
{
    assert(somes(s.push(t)) =~= somes(s).push(Some(t)));
}

proof fn lemma_variables_said(node: NodeView, env: Seq<(Seq<char>, Seq<char>)>)
    ensures
        env_of(node, env) matches Ok(all) ==> all == with_variables(
            env,
            node.entries,
            node.entries.len() as int,
        ),
{
    a_variable_is_set_as_it_is_written(node, env);
    lemma_variables(env, node.entries, node.entries.len() as int);
    if let Ok(all) = env_of(node, env) {
        let want = with_variables(env, node.entries, node.entries.len() as int);
        assert forall|i: int| 0 <= i < all.len() implies all[i] == want[i] by {
            if i < env.len() {
                assert(all.take(env.len() as int)[i] == want.take(env.len() as int)[i]);
            } else {
                let e = node.entries[i - env.len()];
                assert(want[env.len() + (i - env.len())] == variable(e));
                assert(Some(all[env.len() + (i - env.len())].0) == e.name);
            }
        }
        assert(all =~= want);
    }
}

#[verifier::spinoff_prover]
proof fn lemma_settings_step(
    nodes: Seq<NodeView>,
    names: NamesView,
    profile: bool,
    j: int,
    layer: LayerView,
)
    requires
        0 <= j < nodes.len(),
        settings_read(nodes, names, j, layer),
    ensures
        with_node(layer, nodes[j], profile, names) matches Ok(next) ==> settings_read(
            nodes,
            names,
            j + 1,
            next,
        ),
{
    let node = nodes[j];
    lemma_settings_names();
    let cfg = layer.profile.config;
    if node.name == "tty"@ || node.name == "userns"@ || node.name == "seccomp"@ || node.name
        == "env"@ || node.name == "lint-allow"@ || node.name == "include"@ || node.name
        == "desktop"@ || node.name == "command"@ {
        lemma_not_asked(node);
    }
    if node.name == "env"@ {
        lemma_variables_said(node, cfg.env);
    }
    if node.name == "lint-allow"@ {
        if let Ok(l) = lint_allow_of(node, names) {
            lemma_somes_push(cfg.lint_allows, l);
        }
    }
    if node.name == "include"@ {
        one_string_is_all_there_is(node);
        if let Some(s) = sole(node) {
            lemma_somes_push(layer.profile.includes, s);
        }
    }
}

/// The settings of an accepted layer are what its nodes say, all of them and
/// nothing else: each that can be said once as its one node says it, or as it
/// is where none does; the variables, the accepted findings and the layers it
/// names all of those written, in their order.
pub proof fn the_settings_are_what_the_nodes_say(
    text: Seq<char>,
    nodes: Seq<NodeView>,
    profile: bool,
    names: NamesView,
)
    ensures
        layer_of(text, nodes, profile, names) matches Ok((layer, _)) ==> settings_read(
            nodes,
            names,
            nodes.len() as int,
            (LayerView {
                profile: layer,
                seccomp_set: gathered(
                    nodes,
                    "seccomp"@,
                    seccomp_said(names),
                    nodes.len() as int,
                ).len() == 1,
            }),
        ),
{
    let n = nodes.len() as int;
    let steps = layer_steps(text, profile, names);
    let keeps = |k: int, st: (LayerView, LinesView)| settings_read(nodes, names, k, st.0);
    let start = (empty_layer(), no_lines());
    assert forall|j: int, s: (LayerView, LinesView)|
        0 <= j < n && #[trigger] keeps(j, s) implies (steps(s, nodes[j]) matches Ok(t) ==> keeps(
        j + 1,
        t,
    )) by {
        lemma_settings_step(nodes, names, profile, j, s.0);
        assert(steps(s, nodes[j]) == layer_step(text, profile, names, s, nodes[j]));
    }
    assert(somes(start.0.profile.config.lint_allows) =~= gathered(
        nodes,
        "lint-allow"@,
        finding_said(names),
        0,
    ));
    assert(somes(start.0.profile.includes) =~= gathered(nodes, "include"@, include_said(), 0));
    assert(start.0.profile.config.env =~= variables_said(nodes, 0));
    assert(keeps(0, start));
    lemma_walk(nodes, 0, start, steps, keeps);
}

/// Whether a setting can be added to what a layer has.
pub open spec fn can_be_set(
    layer: LayerView,
    node: NodeView,
    profile: bool,
    names: NamesView,
) -> bool {
    let cfg = layer.profile.config;
    ||| node.name == "tty"@ && !layer.profile.tty_set && tty_of(node) is Ok
    ||| node.name == "userns"@ && !layer.profile.userns_set && userns_of(node) is Ok
    ||| node.name == "seccomp"@ && !layer.seccomp_set && seccomp_of(node, names) is Ok
    ||| node.name == "env"@ && env_of(node, cfg.env) is Ok
    ||| node.name == "lint-allow"@ && (lint_allow_of(node, names) matches Ok(l) && forall|i: int|
        0 <= i < cfg.lint_allows.len() ==> (#[trigger] cfg.lint_allows[i]).id != l.id)
    ||| node.name == "include"@ && profile && node.children is None && sole(node) is Some
    ||| node.name == "desktop"@ && cfg.desktop is None && desktop_of(node) is Ok
    ||| node.name == "command"@ && cfg.command is None && command_of(node) is Ok
}

/// A node is accepted into a layer exactly where it carries no type annotation
/// and either says a grant that clashes with none, or a setting that can be
/// added.
pub proof fn a_node_is_accepted_where_it_can_be_added(
    layer: LayerView,
    node: NodeView,
    profile: bool,
    names: NamesView,
)
    ensures
        with_node(layer, node, profile, names) is Ok <==> {
            &&& type_fault(node) is None
            &&& {
                ||| requested(node) matches Some(Ok(new)) && forall|i: int|
                    0 <= i < layer.profile.config.services.len() ==> !clash(
                        #[trigger] layer.profile.config.services[i],
                        new,
                    )
                ||| can_be_set(layer, node, profile, names)
            }
        },
        with_node(layer, node, profile, names) matches Ok(next) ==> (requested(node) matches Some(
            Ok(new),
        ) ==> next == (LayerView {
            profile: ProfileView {
                config: ConfigView {
                    services: layer.profile.config.services.push(new),
                    ..layer.profile.config
                },
                ..layer.profile
            },
            ..layer
        })),
{
    if let Some(Ok(new)) = requested(node) {
        a_grant_is_what_its_node_says(node, new);
        a_grant_joins_where_none_clashes(layer.profile.config.services, new);
        lemma_listed(node.name);
        if can_be_set(layer, node, profile, names) {
            lemma_not_asked(node);
        }
    } else {
        if can_be_set(layer, node, profile, names) {
            lemma_not_asked(node);
            lemma_listed(node.name);
            lemma_settings_names();
        }
        one_string_is_all_there_is(node);
    }
}

proof fn lemma_listed(name: Seq<char>)
    ensures
        (exists|s: ServiceView| name == #[trigger] service_node(s)) ==> listed(NODES@, name),
        name == "tty"@ || name == "userns"@ || name == "seccomp"@ || name == "env"@ || name
            == "lint-allow"@ || name == "desktop"@ || name == "command"@ ==> listed(NODES@, name),
{
    let all = NODES@;
    assert(all[0]@ == "wayland"@);
    assert(all[1]@ == "x11"@);
    assert(all[2]@ == "network"@);
    assert(all[3]@ == "dri"@);
    assert(all[4]@ == "pipewire"@);
    assert(all[5]@ == "pulseaudio"@);
    assert(all[6]@ == "gamepad"@);
    assert(all[7]@ == "hidraw"@);
    assert(all[8]@ == "camera"@);
    assert(all[9]@ == "home-share"@);
    assert(all[10]@ == "path-share"@);
    assert(all[11]@ == "etc-share"@);
    assert(all[12]@ == "app-runtime"@);
    assert(all[13]@ == "dbus"@);
    assert(all[14]@ == "system-bus"@);
    assert(all[15]@ == "portals"@);
    assert(all[16]@ == "notify"@);
    assert(all[17]@ == "tray"@);
    assert(all[18]@ == "mpris"@);
    assert(all[19]@ == "a11y"@);
    assert(all[20]@ == "input-method"@);
    assert(all[21]@ == "tty"@);
    assert(all[22]@ == "userns"@);
    assert(all[23]@ == "seccomp"@);
    assert(all[24]@ == "env"@);
    assert(all[25]@ == "lint-allow"@);
    assert(all[26]@ == "desktop"@);
    assert(all[27]@ == "command"@);
}

} // verus!
