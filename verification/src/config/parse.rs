//! A whole configuration: every node of a document, and what must hold
//! between them.

use vstd::prelude::*;

use crate::config::bounds::{line_at, line_of};
use crate::config::bus::{
    bus_rules_of, mpris_of, parse_bus_rules, parse_mpris, parse_system_bus, system_rules_of,
};
use crate::config::document::{
    document_of, kdl_nodes, node_views, parse_document, Node, NodeView,
};
use crate::config::grants::{
    camera_of, etc_share_of, gamepad_of, normalise, normalised, parse_camera, parse_etc_share,
    parse_gamepad, parse_share, parse_wayland, parse_x11, share_of, wayland_of, x11_of, ShareKind,
};
use crate::config::line_laws::{ascending, lines_never_decrease};
use crate::config::model::{
    empty_config, no_lines, service_node, service_views, ConfigView, InstanceConfig, LinesView,
    Lines, ProfileView, RawProfile, Service, ServiceView, X11Mode,
};
use crate::config::network::{network_of, parse_network};
use crate::config::node::{
    bad, bad_node, flag_fault, fold, only_string, only_string_arg, reject_entries, reject_types,
    type_fault,
};
use crate::config::plain::handed;
use crate::config::settings::{
    command_of, desktop_of, env_of, lint_allow_of, listed, parse_command, parse_desktop,
    parse_env, parse_lint_allow, parse_seccomp, parse_tty, parse_userns, seccomp_of, tty_of,
    userns_of, Names, NamesView,
};
use crate::error::{ConfigError, ConfigErrorView, KdlFaultView};
use crate::text::{joined, outcome, same_bytes, same_text};

verus! {

/// Every top-level node a `config.kdl` may hold, in the order they are
/// documented. The parser resolves a node name against this list before it
/// looks at the node and the catalogue describes each entry, so what is taken
/// and what is documented are one list. `include` is not here: it is the one
/// node only a profile layer takes.
pub const NODES: [&'static str; 28] = [
    "wayland",
    "x11",
    "network",
    "dri",
    "pipewire",
    "pulseaudio",
    "gamepad",
    "hidraw",
    "camera",
    "home-share",
    "path-share",
    "etc-share",
    "app-runtime",
    "dbus",
    "system-bus",
    "portals",
    "notify",
    "tray",
    "mpris",
    "a11y",
    "input-method",
    "tty",
    "userns",
    "seccomp",
    "env",
    "lint-allow",
    "desktop",
    "command",
];

/// Whether a node name is one of [`NODES`].
pub fn is_node(name: &str) -> (r: bool)
    ensures
        r == listed(NODES@, name@),
{
    let mut i: usize = 0;
    while i < NODES.len()
        invariant
            i <= NODES@.len(),
            forall|j: int| 0 <= j < i ==> (#[trigger] NODES@[j])@ != name@,
        decreases NODES@.len() - i,
    {
        if same_text(NODES[i], name) {
            assert(NODES@[i as int]@ == name@);
            return true;
        }
        i = i + 1;
    }
    false
}

/// The service a node without arguments grants.
pub open spec fn flag_service(name: Seq<char>) -> Option<ServiceView> {
    if name == "dri"@ {
        Some(ServiceView::Dri)
    } else if name == "pipewire"@ {
        Some(ServiceView::Pipewire)
    } else if name == "pulseaudio"@ {
        Some(ServiceView::Pulseaudio)
    } else if name == "portals"@ {
        Some(ServiceView::Portals)
    } else if name == "notify"@ {
        Some(ServiceView::Notify)
    } else if name == "tray"@ {
        Some(ServiceView::Tray)
    } else if name == "hidraw"@ {
        Some(ServiceView::Hidraw)
    } else if name == "a11y"@ {
        Some(ServiceView::A11y)
    } else if name == "input-method"@ {
        Some(ServiceView::InputMethod)
    } else {
        None
    }
}

/// Whether a service of that node is granted.
pub open spec fn granted(services: Seq<ServiceView>, name: Seq<char>) -> bool {
    exists|i: int| 0 <= i < services.len() && service_node(#[trigger] services[i]) == name
}

/// Whether two services cannot both stand in one configuration: one path of
/// the home or one application id is shared once, whatever the mode, since
/// file order would otherwise decide how wide the share is; one host path is
/// shared once with one mode, so read-only and writable both may be written of
/// it; one `/etc` entry is shared once; and every other node is written once.
pub open spec fn clash(a: ServiceView, b: ServiceView) -> bool {
    match (a, b) {
        (
            ServiceView::HomeShare { path: x, mode: _ },
            ServiceView::HomeShare { path: y, mode: _ },
        ) => x == y,
        (
            ServiceView::PathShare { path: x, mode: m },
            ServiceView::PathShare { path: y, mode: n },
        ) => x == y && m == n,
        (ServiceView::EtcShare { name: x }, ServiceView::EtcShare { name: y }) => x == y,
        (
            ServiceView::AppRuntime { id: x, mode: _ },
            ServiceView::AppRuntime { id: y, mode: _ },
        ) => x == y,
        _ => service_node(a) == service_node(b),
    }
}

/// Whether a service clashes with one that is granted.
pub open spec fn clashes(services: Seq<ServiceView>, new: ServiceView) -> bool {
    exists|i: int| 0 <= i < services.len() && clash(#[trigger] services[i], new)
}

/// Whether a node's second appearance is refused before the node is read.
pub open spec fn once_by_name(name: Seq<char>) -> bool {
    name == "dbus"@ || name == "x11"@ || name == "network"@ || name == "gamepad"@ || name
        == "camera"@ || name == "system-bus"@ || name == "mpris"@
}

/// The service a node asks for.
pub open spec fn requested(node: NodeView) -> Option<Result<ServiceView, ConfigErrorView>> {
    let name = node.name;
    if flag_service(name) is Some {
        Some(
            match flag_fault(node) {
                Some(e) => Err(e),
                None => Ok(flag_service(name)->Some_0),
            },
        )
    } else if name == "home-share"@ {
        Some(
            match share_of(node, ShareKind::Home) {
                Err(e) => Err(e),
                Ok((s, mode)) => Ok(ServiceView::HomeShare { path: normalised(s), mode }),
            },
        )
    } else if name == "path-share"@ {
        Some(
            match share_of(node, ShareKind::Path) {
                Err(e) => Err(e),
                Ok((s, mode)) => Ok(ServiceView::PathShare { path: normalised(s), mode }),
            },
        )
    } else if name == "app-runtime"@ {
        Some(
            match share_of(node, ShareKind::App) {
                Err(e) => Err(e),
                Ok((s, mode)) => Ok(ServiceView::AppRuntime { id: s, mode }),
            },
        )
    } else if name == "etc-share"@ {
        Some(
            match etc_share_of(node) {
                Err(e) => Err(e),
                Ok(name) => Ok(ServiceView::EtcShare { name }),
            },
        )
    } else if name == "dbus"@ {
        Some(
            match bus_rules_of(node, true) {
                Err(e) => Err(e),
                Ok(rules) => Ok(ServiceView::Dbus { rules }),
            },
        )
    } else if name == "wayland"@ {
        Some(
            match wayland_of(node) {
                Err(e) => Err(e),
                Ok(mode) => Ok(ServiceView::Wayland(mode)),
            },
        )
    } else if name == "x11"@ {
        Some(
            match x11_of(node) {
                Err(e) => Err(e),
                Ok(mode) => Ok(ServiceView::X11(mode)),
            },
        )
    } else if name == "network"@ {
        Some(
            match network_of(node) {
                Err(e) => Err(e),
                Ok(cfg) => Ok(ServiceView::Network(cfg)),
            },
        )
    } else if name == "gamepad"@ {
        Some(
            match gamepad_of(node) {
                Err(e) => Err(e),
                Ok((hidraw, uinput)) => Ok(ServiceView::Gamepad { hidraw, uinput }),
            },
        )
    } else if name == "camera"@ {
        Some(
            match camera_of(node) {
                Err(e) => Err(e),
                Ok(nodes) => Ok(ServiceView::Camera { nodes }),
            },
        )
    } else if name == "system-bus"@ {
        Some(
            match system_rules_of(node) {
                Err(e) => Err(e),
                Ok(rules) => Ok(ServiceView::SystemBus { rules }),
            },
        )
    } else if name == "mpris"@ {
        Some(
            match mpris_of(node) {
                Err(e) => Err(e),
                Ok(name) => Ok(ServiceView::Mpris { name }),
            },
        )
    } else {
        None
    }
}

/// The services after one more that a node asks for.
pub open spec fn with_service(
    services: Seq<ServiceView>,
    name: Seq<char>,
    wanted: Result<ServiceView, ConfigErrorView>,
) -> Result<Seq<ServiceView>, ConfigErrorView> {
    if once_by_name(name) && granted(services, name) {
        Err(ConfigErrorView::Duplicate(name))
    } else {
        match wanted {
            Err(e) => Err(e),
            Ok(new) => if clashes(services, new) {
                Err(ConfigErrorView::Duplicate(name))
            } else {
                Ok(services.push(new))
            },
        }
    }
}

/// A layer while it is read: the profile, and whether a `seccomp` node was
/// met.
pub struct LayerView {
    pub profile: ProfileView,
    pub seccomp_set: bool,
}

/// A layer with another configuration.
pub open spec fn with_config(layer: LayerView, config: ConfigView) -> LayerView {
    LayerView { profile: ProfileView { config, ..layer.profile }, ..layer }
}

/// The layer after a node that grants no service.
pub open spec fn with_setting(
    layer: LayerView,
    node: NodeView,
    profile: bool,
    names: NamesView,
) -> Result<LayerView, ConfigErrorView> {
    let cfg = layer.profile.config;
    let name = node.name;
    let twice = Err(ConfigErrorView::Duplicate(name));
    if name == "tty"@ {
        if layer.profile.tty_set {
            twice
        } else {
            match tty_of(node) {
                Err(e) => Err(e),
                Ok(tty) => Ok(
                    LayerView {
                        profile: ProfileView {
                            config: ConfigView { tty, ..cfg },
                            tty_set: true,
                            ..layer.profile
                        },
                        ..layer
                    },
                ),
            }
        }
    } else if name == "userns"@ {
        if layer.profile.userns_set {
            twice
        } else {
            match userns_of(node) {
                Err(e) => Err(e),
                Ok(userns) => Ok(
                    LayerView {
                        profile: ProfileView {
                            config: ConfigView { userns, ..cfg },
                            userns_set: true,
                            ..layer.profile
                        },
                        ..layer
                    },
                ),
            }
        }
    } else if name == "seccomp"@ {
        if layer.seccomp_set {
            twice
        } else {
            match seccomp_of(node, names) {
                Err(e) => Err(e),
                Ok(seccomp) => Ok(
                    LayerView {
                        profile: ProfileView {
                            config: ConfigView { seccomp, ..cfg },
                            ..layer.profile
                        },
                        seccomp_set: true,
                    },
                ),
            }
        }
    } else if name == "env"@ {
        match env_of(node, cfg.env) {
            Err(e) => Err(e),
            Ok(env) => Ok(with_config(layer, ConfigView { env, ..cfg })),
        }
    } else if name == "lint-allow"@ {
        match lint_allow_of(node, names) {
            Err(e) => Err(e),
            Ok(allow) => if exists|i: int|
                0 <= i < cfg.lint_allows.len() && (#[trigger] cfg.lint_allows[i]).id == allow.id {
                Err(ConfigErrorView::Duplicate(name + " \""@ + allow.id + "\""@))
            } else {
                Ok(
                    with_config(
                        layer,
                        ConfigView { lint_allows: cfg.lint_allows.push(allow), ..cfg },
                    ),
                )
            },
        }
    } else if name == "include"@ {
        if !profile {
            Err(bad_node(node, "include is only valid in profiles"@))
        } else {
            match only_string(node) {
                Err(e) => Err(e),
                Ok(s) => Ok(
                    LayerView {
                        profile: ProfileView {
                            includes: layer.profile.includes.push(s),
                            ..layer.profile
                        },
                        ..layer
                    },
                ),
            }
        }
    } else if name == "desktop"@ {
        if cfg.desktop is Some {
            twice
        } else {
            match desktop_of(node) {
                Err(e) => Err(e),
                Ok(s) => Ok(with_config(layer, ConfigView { desktop: Some(s), ..cfg })),
            }
        }
    } else if name == "command"@ {
        if cfg.command is Some {
            twice
        } else {
            match command_of(node) {
                Err(e) => Err(e),
                Ok(argv) => Ok(with_config(layer, ConfigView { command: Some(argv), ..cfg })),
            }
        }
    } else {
        Err(ConfigErrorView::UnknownNode(name))
    }
}

/// The layer after one more node.
pub open spec fn with_node(
    layer: LayerView,
    node: NodeView,
    profile: bool,
    names: NamesView,
) -> Result<LayerView, ConfigErrorView> {
    match type_fault(node) {
        Some(e) => Err(e),
        None => if !listed(NODES@, node.name) && node.name != "include"@ {
            Err(ConfigErrorView::UnknownNode(node.name))
        } else {
            match requested(node) {
                Some(wanted) => match with_service(
                    layer.profile.config.services,
                    node.name,
                    wanted,
                ) {
                    Err(e) => Err(e),
                    Ok(services) => Ok(
                        with_config(layer, ConfigView { services, ..layer.profile.config }),
                    ),
                },
                None => with_setting(layer, node, profile, names),
            }
        },
    }
}

/// A list of lines made as long as what it is parallel to.
pub open spec fn lengthened(lines: Seq<Option<u32>>, len: nat, line: Option<u32>) -> Seq<
    Option<u32>,
> {
    lines + Seq::new((len - lines.len()) as nat, |i: int| line)
}

/// Where the nodes are, after one more: what a node granted is counted, so
/// every service and variable takes its node's line.
pub open spec fn with_lines(
    lines: LinesView,
    layer: LayerView,
    text: Seq<char>,
    node: NodeView,
) -> LinesView {
    let cfg = layer.profile.config;
    let line = line_of(text, node.offset);
    LinesView {
        services: lengthened(lines.services, cfg.services.len(), line),
        env: lengthened(lines.env, cfg.env.len(), line),
        userns: if node.name == "userns"@ {
            line
        } else {
            lines.userns
        },
        seccomp: if node.name == "seccomp"@ {
            line
        } else {
            lines.seccomp
        },
    }
}

/// One more node of a document.
pub open spec fn layer_step(
    text: Seq<char>,
    profile: bool,
    names: NamesView,
    state: (LayerView, LinesView),
    node: NodeView,
) -> Result<(LayerView, LinesView), ConfigErrorView> {
    match with_node(state.0, node, profile, names) {
        Err(e) => Err(e),
        Ok(layer) => Ok((layer, with_lines(state.1, layer, text, node))),
    }
}

/// The walk over a document's nodes.
pub open spec fn layer_steps(text: Seq<char>, profile: bool, names: NamesView) -> spec_fn(
    (LayerView, LinesView),
    NodeView,
) -> Result<(LayerView, LinesView), ConfigErrorView> {
    |state: (LayerView, LinesView), node: NodeView| layer_step(text, profile, names, state, node)
}

/// A layer with no nodes.
pub open spec fn empty_layer() -> LayerView {
    LayerView {
        profile: ProfileView {
            config: empty_config(),
            includes: Seq::empty(),
            tty_set: false,
            userns_set: false,
        },
        seccomp_set: false,
    }
}

/// Whether a service is only a set of rules for the session bus's proxy.
pub open spec fn bundle(s: ServiceView) -> bool {
    match s {
        ServiceView::Portals | ServiceView::Notify | ServiceView::Tray | ServiceView::A11y
        | ServiceView::InputMethod => true,
        ServiceView::Mpris { name: _ } => true,
        _ => false,
    }
}

/// The node of the first bundle from `i` on.
pub open spec fn first_bundle(services: Seq<ServiceView>, i: int) -> Option<Seq<char>>
    decreases services.len() - i,
{
    if i < 0 || i >= services.len() {
        None
    } else if bundle(services[i]) {
        Some(service_node(services[i]))
    } else {
        first_bundle(services, i + 1)
    }
}

/// Whether a nested X server is granted.
pub open spec fn nested_x11(services: Seq<ServiceView>) -> bool {
    exists|i: int| 0 <= i < services.len() && (#[trigger] services[i]) is X11 && services[i]->X11_0
        is Nested
}

/// What a granted service lacks. Without `dbus` there is no proxy to carry a
/// bundle, without `portals` the camera portal reads the sandbox as an
/// ordinary process, and a nested X server is a Wayland client that needs the
/// GPU nodes to render.
pub open spec fn unmet(services: Seq<ServiceView>) -> Option<(Seq<char>, Seq<char>)> {
    if !granted(services, "dbus"@) && first_bundle(services, 0) is Some {
        Some((first_bundle(services, 0)->Some_0, "requires dbus"@))
    } else if granted(services, "camera"@) && !granted(services, "portals"@) {
        Some(("camera"@, "requires portals"@))
    } else if nested_x11(services) && !(granted(services, "wayland"@) && granted(
        services,
        "dri"@,
    )) {
        Some(("x11"@, "requires wayland and dri"@))
    } else {
        None
    }
}

/// The layer a document's nodes make up, and where they are. What a service
/// requires is checked of an instance only: a profile layer may take it from
/// another.
pub open spec fn layer_of(
    text: Seq<char>,
    nodes: Seq<NodeView>,
    profile: bool,
    names: NamesView,
) -> Result<(ProfileView, LinesView), ConfigErrorView> {
    match fold(nodes, 0, (empty_layer(), no_lines()), layer_steps(text, profile, names)) {
        Err(e) => Err(e),
        Ok((layer, lines)) => match unmet(layer.profile.config.services) {
            Some((node, reason)) => if profile {
                Ok((layer.profile, lines))
            } else {
                Err(ConfigErrorView::BadArgument { node, reason })
            },
            None => Ok((layer.profile, lines)),
        },
    }
}

/// The layer a text is, from what the KDL parser makes of it.
pub open spec fn text_layer(
    text: Seq<char>,
    parsed: Result<Seq<NodeView>, Seq<KdlFaultView>>,
    profile: bool,
    names: NamesView,
) -> Result<(ProfileView, LinesView), ConfigErrorView> {
    match document_of(text, parsed) {
        Err(e) => Err(e),
        Ok(nodes) => layer_of(text, nodes, profile, names),
    }
}

fn is_granted(services: &Vec<Service>, name: &str) -> (r: bool)
    ensures
        r == granted(service_views(services@), name@),
{
    let ghost all = service_views(services@);
    let mut i: usize = 0;
    while i < services.len()
        invariant
            all == service_views(services@),
            i <= services@.len(),
            forall|j: int| 0 <= j < i ==> service_node(#[trigger] all[j]) != name@,
        decreases services@.len() - i,
    {
        assert(all[i as int] == services@[i as int]@);
        if same_text(services[i].node_name(), name) {
            assert(service_node(all[i as int]) == name@);
            return true;
        }
        i = i + 1;
    }
    false
}

fn do_clash(a: &Service, b: &Service) -> (r: bool)
    ensures
        r == clash(a@, b@),
{
    match (a, b) {
        (Service::HomeShare { path: x, mode: _ }, Service::HomeShare { path: y, mode: _ }) => {
            same_bytes(x, y)
        },
        (Service::PathShare { path: x, mode: m }, Service::PathShare { path: y, mode: n }) => {
            same_bytes(x, y) && *m == *n
        },
        (Service::EtcShare { name: x }, Service::EtcShare { name: y }) => same_bytes(x, y),
        (Service::AppRuntime { id: x, mode: _ }, Service::AppRuntime { id: y, mode: _ }) => {
            same_text(x, y)
        },
        _ => same_text(a.node_name(), b.node_name()),
    }
}

fn any_clash(services: &Vec<Service>, new: &Service) -> (r: bool)
    ensures
        r == clashes(service_views(services@), new@),
{
    let ghost all = service_views(services@);
    let mut i: usize = 0;
    while i < services.len()
        invariant
            all == service_views(services@),
            i <= services@.len(),
            forall|j: int| 0 <= j < i ==> !clash(#[trigger] all[j], new@),
        decreases services@.len() - i,
    {
        assert(all[i as int] == services@[i as int]@);
        if do_clash(&services[i], new) {
            assert(clash(all[i as int], new@));
            return true;
        }
        i = i + 1;
    }
    false
}

fn flag_named(name: &str) -> (r: Option<Service>)
    ensures
        match r {
            Some(s) => flag_service(name@) == Some(s@),
            None => flag_service(name@) is None,
        },
{
    if same_text(name, "dri") {
        Some(Service::Dri)
    } else if same_text(name, "pipewire") {
        Some(Service::Pipewire)
    } else if same_text(name, "pulseaudio") {
        Some(Service::Pulseaudio)
    } else if same_text(name, "portals") {
        Some(Service::Portals)
    } else if same_text(name, "notify") {
        Some(Service::Notify)
    } else if same_text(name, "tray") {
        Some(Service::Tray)
    } else if same_text(name, "hidraw") {
        Some(Service::Hidraw)
    } else if same_text(name, "a11y") {
        Some(Service::A11y)
    } else if same_text(name, "input-method") {
        Some(Service::InputMethod)
    } else {
        None
    }
}

/// The share a node asks for, where it is a node that grants one.
fn requested_share(node: &Node) -> (r: Option<Result<Service, ConfigError>>)
    requires
        flag_service(node@.name) is None,
    ensures
        match r {
            None => node@.name != "home-share"@ && node@.name != "path-share"@ && node@.name
                != "app-runtime"@ && node@.name != "etc-share"@,
            Some(x) => requested(node@) == Some(outcome(x)),
        },
{
    let name = node.name.as_str();
    if same_text(name, "home-share") {
        Some(
            match parse_share(node, ShareKind::Home) {
                Ok((s, mode)) => Ok(Service::HomeShare { path: normalise(&s), mode }),
                Err(e) => Err(e),
            },
        )
    } else if same_text(name, "path-share") {
        Some(
            match parse_share(node, ShareKind::Path) {
                Ok((s, mode)) => Ok(Service::PathShare { path: normalise(&s), mode }),
                Err(e) => Err(e),
            },
        )
    } else if same_text(name, "app-runtime") {
        Some(
            match parse_share(node, ShareKind::App) {
                Ok((id, mode)) => Ok(Service::AppRuntime { id, mode }),
                Err(e) => Err(e),
            },
        )
    } else if same_text(name, "etc-share") {
        Some(
            match parse_etc_share(node) {
                Ok(name) => Ok(Service::EtcShare { name }),
                Err(e) => Err(e),
            },
        )
    } else {
        None
    }
}

/// The service a node asks for, where it is a node that grants one.
#[verifier::rlimit(40)]
pub fn requested_service(node: &Node) -> (r: Option<Result<Service, ConfigError>>)
    ensures
        match r {
            None => requested(node@) is None,
            Some(x) => requested(node@) == Some(outcome(x)),
        },
{
    let name = node.name.as_str();
    match flag_named(name) {
        Some(s) => {
            return Some(
                match reject_entries(node) {
                    Ok(()) => Ok(s),
                    Err(e) => Err(e),
                },
            );
        },
        None => {},
    }
    match requested_share(node) {
        Some(x) => {
            return Some(x);
        },
        None => {},
    }
    if same_text(name, "dbus") {
        Some(
            match parse_bus_rules(node, true) {
                Ok(rules) => Ok(Service::Dbus { rules }),
                Err(e) => Err(e),
            },
        )
    } else if same_text(name, "wayland") {
        Some(
            match parse_wayland(node) {
                Ok(mode) => Ok(Service::Wayland(mode)),
                Err(e) => Err(e),
            },
        )
    } else if same_text(name, "x11") {
        Some(
            match parse_x11(node) {
                Ok(mode) => Ok(Service::X11(mode)),
                Err(e) => Err(e),
            },
        )
    } else if same_text(name, "network") {
        Some(
            match parse_network(node) {
                Ok(cfg) => Ok(Service::Network(cfg)),
                Err(e) => Err(e),
            },
        )
    } else if same_text(name, "gamepad") {
        Some(
            match parse_gamepad(node) {
                Ok((hidraw, uinput)) => Ok(Service::Gamepad { hidraw, uinput }),
                Err(e) => Err(e),
            },
        )
    } else if same_text(name, "camera") {
        Some(
            match parse_camera(node) {
                Ok(nodes) => Ok(Service::Camera { nodes }),
                Err(e) => Err(e),
            },
        )
    } else if same_text(name, "system-bus") {
        Some(
            match parse_system_bus(node) {
                Ok(rules) => Ok(Service::SystemBus { rules }),
                Err(e) => Err(e),
            },
        )
    } else if same_text(name, "mpris") {
        Some(
            match parse_mpris(node) {
                Ok(name) => Ok(Service::Mpris { name }),
                Err(e) => Err(e),
            },
        )
    } else {
        None
    }
}

fn named_once(name: &str) -> (r: bool)
    ensures
        r == once_by_name(name@),
{
    same_text(name, "dbus") || same_text(name, "x11") || same_text(name, "network") || same_text(
        name,
        "gamepad",
    ) || same_text(name, "camera") || same_text(name, "system-bus") || same_text(name, "mpris")
}

/// A layer while it is read.
pub struct Layer {
    pub profile: RawProfile,
    pub seccomp_set: bool,
}

impl View for Layer {
    type V = LayerView;

    open spec fn view(&self) -> LayerView {
        LayerView { profile: self.profile@, seccomp_set: self.seccomp_set }
    }
}

fn id_accepted(allows: &Vec<crate::config::model::LintAllow>, id: &str) -> (r: bool)
    ensures
        r == exists|i: int|
            0 <= i < allows@.len() && (#[trigger] crate::config::model::allow_views(
                allows@,
            )[i]).id == id@,
{
    let ghost all = crate::config::model::allow_views(allows@);
    let mut i: usize = 0;
    while i < allows.len()
        invariant
            all == crate::config::model::allow_views(allows@),
            i <= allows@.len(),
            forall|j: int| 0 <= j < i ==> (#[trigger] all[j]).id != id@,
        decreases allows@.len() - i,
    {
        assert(all[i as int] == allows@[i as int]@);
        if same_text(&allows[i].id, id) {
            assert(all[i as int].id == id@);
            return true;
        }
        i = i + 1;
    }
    false
}

/// The layer after a node that grants no service.
fn take_setting(layer: Layer, node: &Node, profile: bool, names: &Names) -> (r: Result<
    Layer,
    ConfigError,
>)
    ensures
        outcome(r) == with_setting(layer@, node@, profile, names@),
{
    let mut layer = layer;
    let ghost before = layer@;
    let name = node.name.as_str();
    if same_text(name, "tty") {
        if layer.profile.tty_set {
            return Err(ConfigError::Duplicate(name.to_owned()));
        }
        match parse_tty(node) {
            Ok(tty) => {
                layer.profile.tty_set = true;
                layer.profile.config.tty = tty;
            },
            Err(e) => {
                return Err(e);
            },
        }
    } else if same_text(name, "userns") {
        if layer.profile.userns_set {
            return Err(ConfigError::Duplicate(name.to_owned()));
        }
        match parse_userns(node) {
            Ok(userns) => {
                layer.profile.userns_set = true;
                layer.profile.config.userns = userns;
            },
            Err(e) => {
                return Err(e);
            },
        }
    } else if same_text(name, "seccomp") {
        if layer.seccomp_set {
            return Err(ConfigError::Duplicate(name.to_owned()));
        }
        match parse_seccomp(node, names) {
            Ok(seccomp) => {
                layer.seccomp_set = true;
                layer.profile.config.seccomp = seccomp;
            },
            Err(e) => {
                return Err(e);
            },
        }
    } else if same_text(name, "env") {
        let mut env: Vec<(String, String)> = Vec::new();
        core::mem::swap(&mut env, &mut layer.profile.config.env);
        match parse_env(node, env) {
            Ok(all) => {
                layer.profile.config.env = all;
            },
            Err(e) => {
                return Err(e);
            },
        }
    } else if same_text(name, "lint-allow") {
        match parse_lint_allow(node, names) {
            Ok(allow) => {
                if id_accepted(&layer.profile.config.lint_allows, &allow.id) {
                    return Err(
                        ConfigError::Duplicate(
                            joined(&joined(&joined(name, " \""), &allow.id), "\""),
                        ),
                    );
                }
                let ghost model = allow@;
                layer.profile.config.lint_allows.push(allow);
                assert(layer@.profile.config.lint_allows =~= before.profile.config.lint_allows.push(
                    model,
                ));
            },
            Err(e) => {
                return Err(e);
            },
        }
    } else if same_text(name, "include") {
        if !profile {
            return Err(bad(node, "include is only valid in profiles"));
        }
        match only_string_arg(node) {
            Ok(s) => {
                layer.profile.includes.push(s.to_owned());
                assert(layer@.profile.includes =~= before.profile.includes.push(s@));
            },
            Err(e) => {
                return Err(e);
            },
        }
    } else if same_text(name, "desktop") {
        if layer.profile.config.desktop.is_some() {
            return Err(ConfigError::Duplicate(name.to_owned()));
        }
        match parse_desktop(node) {
            Ok(s) => {
                layer.profile.config.desktop = Some(s);
            },
            Err(e) => {
                return Err(e);
            },
        }
    } else if same_text(name, "command") {
        if layer.profile.config.command.is_some() {
            return Err(ConfigError::Duplicate(name.to_owned()));
        }
        match parse_command(node) {
            Ok(argv) => {
                layer.profile.config.command = Some(argv);
            },
            Err(e) => {
                return Err(e);
            },
        }
    } else {
        return Err(ConfigError::UnknownNode(name.to_owned()));
    }
    Ok(layer)
}

/// The layer after one more node.
fn take_node(layer: Layer, node: &Node, profile: bool, names: &Names) -> (r: Result<
    Layer,
    ConfigError,
>)
    ensures
        outcome(r) == with_node(layer@, node@, profile, names@),
{
    match reject_types(node) {
        Ok(()) => {},
        Err(e) => {
            return Err(e);
        },
    }
    // Resolved against the table rather than by falling through every name:
    // a node added without an entry there is one the catalogue never
    // describes, and the two lists would drift.
    if !is_node(&node.name) && !same_text(&node.name, "include") {
        return Err(ConfigError::UnknownNode(node.name.clone()));
    }
    let wanted = match requested_service(node) {
        Some(wanted) => wanted,
        None => {
            return take_setting(layer, node, profile, names);
        },
    };
    let mut layer = layer;
    let ghost before = layer@;
    if named_once(&node.name) && is_granted(&layer.profile.config.services, &node.name) {
        return Err(ConfigError::Duplicate(node.name.clone()));
    }
    let service = match wanted {
        Ok(s) => s,
        Err(e) => {
            return Err(e);
        },
    };
    if any_clash(&layer.profile.config.services, &service) {
        return Err(ConfigError::Duplicate(node.name.clone()));
    }
    let ghost model = service@;
    layer.profile.config.services.push(service);
    assert(layer@.profile.config.services =~= before.profile.config.services.push(model));
    Ok(layer)
}

fn lengthen(lines: &mut Vec<Option<u32>>, len: usize, line: Option<u32>)
    requires
        old(lines)@.len() <= len,
    ensures
        final(lines)@ == lengthened(old(lines)@, len as nat, line),
{
    let ghost first = lines@;
    assert(lines@ =~= first + Seq::new(0, |i: int| line));
    while lines.len() < len
        invariant
            first.len() <= lines@.len() <= len,
            lines@ == first + Seq::new((lines@.len() - first.len()) as nat, |i: int| line),
        decreases len - lines@.len(),
    {
        lines.push(line);
        assert(lines@ =~= first + Seq::new((lines@.len() - first.len()) as nat, |i: int| line));
    }
}

fn bundle_of(services: &Vec<Service>) -> (r: Option<&'static str>)
    ensures
        match r {
            Some(node) => first_bundle(service_views(services@), 0) == Some(node@),
            None => first_bundle(service_views(services@), 0) is None,
        },
{
    let ghost all = service_views(services@);
    let mut i: usize = 0;
    while i < services.len()
        invariant
            all == service_views(services@),
            i <= services@.len(),
            first_bundle(all, 0) == first_bundle(all, i as int),
        decreases services@.len() - i,
    {
        assert(all[i as int] == services@[i as int]@);
        let is_bundle = match &services[i] {
            Service::Portals | Service::Notify | Service::Tray | Service::A11y
            | Service::InputMethod => true,
            Service::Mpris { name: _ } => true,
            _ => false,
        };
        if is_bundle {
            return Some(services[i].node_name());
        }
        i = i + 1;
    }
    None
}

fn has_nested_x11(services: &Vec<Service>) -> (r: bool)
    ensures
        r == nested_x11(service_views(services@)),
{
    let ghost all = service_views(services@);
    let mut i: usize = 0;
    while i < services.len()
        invariant
            all == service_views(services@),
            i <= services@.len(),
            forall|j: int|
                0 <= j < i ==> !((#[trigger] all[j]) is X11 && all[j]->X11_0 is Nested),
        decreases services@.len() - i,
    {
        assert(all[i as int] == services@[i as int]@);
        match &services[i] {
            Service::X11(X11Mode::Nested(_)) => {
                assert(all[i as int] is X11 && all[i as int]->X11_0 is Nested);
                return true;
            },
            _ => {},
        }
        i = i + 1;
    }
    false
}

/// The node of a granted service that lacks what it needs, and what that is.
pub fn unmet_requirement(services: &Vec<Service>) -> (r: Option<(&'static str, &'static str)>)
    ensures
        match r {
            Some((node, reason)) => unmet(service_views(services@)) == Some((node@, reason@)),
            None => unmet(service_views(services@)) is None,
        },
{
    if !is_granted(services, "dbus") {
        match bundle_of(services) {
            Some(node) => {
                return Some((node, "requires dbus"));
            },
            None => {},
        }
    }
    if is_granted(services, "camera") && !is_granted(services, "portals") {
        return Some(("camera", "requires portals"));
    }
    if has_nested_x11(services) && !(is_granted(services, "wayland") && is_granted(
        services,
        "dri",
    )) {
        return Some(("x11", "requires wayland and dri"));
    }
    None
}

/// Whether the lines are parallel to what they are of, or shorter.
pub open spec fn lines_fit(layer: LayerView, lines: LinesView) -> bool {
    &&& lines.services.len() <= layer.profile.config.services.len()
    &&& lines.env.len() <= layer.profile.config.env.len()
}

proof fn lemma_env_grows(
    node: NodeView,
    entries: Seq<crate::config::document::EntryView>,
    i: int,
    env: Seq<(Seq<char>, Seq<char>)>,
)
    ensures
        fold(entries, i, env, crate::config::settings::env_steps(node)) matches Ok(all)
            ==> env.len() <= all.len(),
    decreases entries.len() - i,
{
    if 0 <= i < entries.len() {
        let steps = crate::config::settings::env_steps(node);
        assert(steps(env, entries[i]) == crate::config::settings::env_step(node, env, entries[i]));
        if let Ok(next) = steps(env, entries[i]) {
            lemma_env_grows(node, entries, i + 1, next);
        }
    }
}

proof fn lemma_node_grows(layer: LayerView, node: NodeView, profile: bool, names: NamesView)
    ensures
        with_node(layer, node, profile, names) matches Ok(next)
            ==> layer.profile.config.services.len() <= next.profile.config.services.len()
            && layer.profile.config.env.len() <= next.profile.config.env.len(),
{
    lemma_env_grows(node, node.entries, 0, layer.profile.config.env);
}

/// The layer a document's nodes make up, and where they are.
pub fn read_nodes(text: &str, nodes: &Vec<Node>, profile: bool, names: &Names) -> (r: Result<
    (RawProfile, Lines),
    ConfigError,
>)
    ensures
        match r {
            Ok((layer, lines)) => layer_of(text@, node_views(nodes@), profile, names@) == Ok::<
                (ProfileView, LinesView),
                ConfigErrorView,
            >((layer@, lines@)),
            Err(e) => layer_of(text@, node_views(nodes@), profile, names@) == Err::<
                (ProfileView, LinesView),
                ConfigErrorView,
            >(e@),
        },
{
    let ghost all = node_views(nodes@);
    let ghost steps = layer_steps(text@, profile, names@);
    let ghost total = fold(all, 0, (empty_layer(), no_lines()), steps);
    let mut layer = Layer {
        profile: RawProfile {
            config: InstanceConfig::default(),
            includes: Vec::new(),
            tty_set: false,
            userns_set: false,
        },
        seccomp_set: false,
    };
    let mut lines = Lines::default();
    assert(layer@.profile.includes =~= Seq::empty());
    let mut i: usize = 0;
    while i < nodes.len()
        invariant
            all == node_views(nodes@),
            steps == layer_steps(text@, profile, names@),
            total == fold(all, 0, (empty_layer(), no_lines()), steps),
            i <= nodes@.len(),
            lines_fit(layer@, lines@),
            total == fold(all, i as int, (layer@, lines@), steps),
        decreases nodes@.len() - i,
    {
        let node = &nodes[i];
        let ghost state = (layer@, lines@);
        assert(all[i as int] == node@);
        assert(steps(state, node@) == layer_step(text@, profile, names@, state, node@));
        proof {
            lemma_node_grows(layer@, node@, profile, names@);
        }
        layer = match take_node(layer, node, profile, names) {
            Ok(l) => l,
            Err(e) => {
                return Err(e);
            },
        };
        // What a node granted is counted rather than recorded per kind, so
        // a node added above is placed without being listed a second time
        // here; only the two that grant nothing are named.
        let line = line_at(text, node.offset);
        lengthen(&mut lines.services, layer.profile.config.services.len(), line);
        lengthen(&mut lines.env, layer.profile.config.env.len(), line);
        if same_text(&node.name, "userns") {
            lines.userns = line;
        }
        if same_text(&node.name, "seccomp") {
            lines.seccomp = line;
        }
        i = i + 1;
    }
    match unmet_requirement(&layer.profile.config.services) {
        Some((node, reason)) => {
            if !profile {
                return Err(
                    ConfigError::BadArgument { node: node.to_owned(), reason: reason.to_owned() },
                );
            }
        },
        None => {},
    }
    Ok((layer.profile, lines))
}

/// The parsed layer and where its nodes are.
pub fn parse_doc(text: &str, profile: bool, names: &Names) -> (r: Result<
    (RawProfile, Lines),
    ConfigError,
>)
    ensures
        match r {
            Ok((layer, lines)) => text_layer(text@, kdl_nodes(handed(text@)), profile, names@) == Ok::<
                (ProfileView, LinesView),
                ConfigErrorView,
            >((layer@, lines@)) && ascending(lines@.services) && ascending(lines@.env),
            Err(e) => text_layer(text@, kdl_nodes(handed(text@)), profile, names@) == Err::<
                (ProfileView, LinesView),
                ConfigErrorView,
            >(e@),
        },
{
    match parse_document(text) {
        Ok(nodes) => {
            proof {
                lines_never_decrease(text@, node_views(nodes@), profile, names@);
            }
            read_nodes(text, &nodes, profile, names)
        },
        Err(e) => Err(e),
    }
}

/// Parse KDL v2 text into an [`InstanceConfig`]. `include` is rejected: an
/// instance config must grant what it says on one screen.
pub fn parse(text: &str, names: &Names) -> (r: Result<InstanceConfig, ConfigError>)
    ensures
        outcome(r) == (match text_layer(text@, kdl_nodes(handed(text@)), false, names@) {
            Ok((layer, lines)) => Ok::<ConfigView, ConfigErrorView>(layer.config),
            Err(e) => Err(e),
        }),
{
    match parse_doc(text, false, names) {
        Ok((layer, _lines)) => Ok(layer.config),
        Err(e) => Err(e),
    }
}

/// Where the nodes of the config [`parse`] returns were written, so an
/// explanation can name the line an argument came from. They never decrease.
pub fn node_lines(text: &str, names: &Names) -> (r: Result<Lines, ConfigError>)
    ensures
        outcome(r) == (match text_layer(text@, kdl_nodes(handed(text@)), false, names@) {
            Ok((layer, lines)) => Ok::<LinesView, ConfigErrorView>(lines),
            Err(e) => Err(e),
        }),
        r matches Ok(lines) ==> ascending(lines@.services) && ascending(lines@.env),
{
    match parse_doc(text, false, names) {
        Ok((_layer, lines)) => Ok(lines),
        Err(e) => Err(e),
    }
}

/// Parse one profile layer, which may also `include` other profiles.
///
/// A bundle node (`portals`, `notify`, `mpris`) without `dbus` is not an
/// error here: the `dbus` grant may come from another layer.
pub fn parse_profile(text: &str, names: &Names) -> (r: Result<RawProfile, ConfigError>)
    ensures
        outcome(r) == (match text_layer(text@, kdl_nodes(handed(text@)), true, names@) {
            Ok((layer, lines)) => Ok::<ProfileView, ConfigErrorView>(layer),
            Err(e) => Err(e),
        }),
{
    match parse_doc(text, true, names) {
        Ok((layer, _lines)) => Ok(layer),
        Err(e) => Err(e),
    }
}

} // verus!
