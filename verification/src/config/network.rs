//! The `network` node: what the sandbox's network namespace is connected to.

use vstd::prelude::*;

use crate::config::address::{cidr_of, ip_of, ip_text, ipv6, loopback, parse_ip, Cidr, IpAddr};
use crate::config::document::{
    entries_view, lemma_node_view, node_views, EntryView, Node, NodeView, Scalar, ScalarView,
};
use crate::config::grants::said;
use crate::config::model::{
    allow_out_text, default_network, AllowOut, Forward, NetworkConfig, NetworkMode, NetworkView,
    Outbound, Proto,
};
use crate::config::node::{
    bad, bad_node, children_fault, flag_fault, fold, one_string, one_string_arg, reject_children,
    reject_entries, reject_types, type_fault, unknown_prop, unknown_property,
};
use crate::error::{ConfigError, ConfigErrorView};
use crate::text::{decimal, decimal_digits, joined, outcome, same_text};

verus! {

/// An argument of a named node that is not one of the words it takes.
pub open spec fn unexpected(node: Seq<char>, words: Seq<char>, got: Seq<char>) -> ConfigErrorView {
    ConfigErrorView::BadArgument { node, reason: "expected "@ + words + ", got `"@ + got + "`"@ }
}

/// An argument of a named node that is not one of the words it takes.
pub fn unexpected_word(node: &str, words: &str, got: &str) -> (r: ConfigError)
    ensures
        r@ == unexpected(node@, words@, got@),
{
    ConfigError::BadArgument {
        node: node.to_owned(),
        reason: joined(&joined(&joined(&joined("expected ", words), ", got `"), got), "`"),
    }
}

/// The mode a word names; the default has no word.
pub open spec fn mode_of(s: Seq<char>) -> Result<NetworkMode, ConfigErrorView> {
    if s == "host"@ {
        Ok(NetworkMode::Host)
    } else if s == "none"@ {
        Ok(NetworkMode::Off)
    } else {
        Err(unexpected("network"@, "`host` or `none`"@, s))
    }
}

/// What a word lets out.
pub open spec fn outbound_of(s: Seq<char>) -> Result<Outbound, ConfigErrorView> {
    if s == "allow"@ {
        Ok(Outbound::Allow)
    } else if s == "deny"@ {
        Ok(Outbound::Deny)
    } else {
        Err(unexpected("outbound"@, "`allow` or `deny`"@, s))
    }
}

/// The protocol a word names.
pub open spec fn proto_of(s: Seq<char>) -> Result<Proto, ConfigErrorView> {
    if s == "tcp"@ {
        Ok(Proto::Tcp)
    } else if s == "udp"@ {
        Ok(Proto::Udp)
    } else {
        Err(unexpected("allow-out"@, "`tcp` or `udp`"@, s))
    }
}

/// The port a value is: from 1 to 65535.
pub open spec fn port_of(value: ScalarView) -> Option<u16> {
    match value {
        ScalarView::Integer(n) => if 1 <= n <= 65535 {
            Some(n as u16)
        } else {
            None
        },
        _ => None,
    }
}

fn read_port(value: &Scalar) -> (r: Option<u16>)
    ensures
        r == port_of(value@),
{
    match value {
        Scalar::Integer(n) => {
            if *n >= 1 && *n <= 65535 {
                Some(*n as u16)
            } else {
                None
            }
        },
        _ => None,
    }
}

/// `dns "<ip>"`. The value is not echoed back: it is arbitrary text and may
/// hold the control bytes the error message would then carry.
pub open spec fn dns_of(node: NodeView) -> Result<IpAddr, ConfigErrorView> {
    match one_string(node) {
        Err(e) => Err(e),
        Ok(s) => match ip_of(s) {
            Some(ip) => Ok(ip),
            None => Err(bad_node(node, "expects an IP address such as \"1.1.1.1\""@)),
        },
    }
}

/// `dns "<ip>"`: one resolver.
pub fn parse_dns(node: &Node) -> (r: Result<IpAddr, ConfigError>)
    ensures
        match r {
            Ok(ip) => dns_of(node@) == Ok::<IpAddr, ConfigErrorView>(ip),
            Err(e) => dns_of(node@) == Err::<IpAddr, ConfigErrorView>(e@),
        },
{
    match one_string_arg(node) {
        Err(e) => Err(e),
        Ok(s) => match parse_ip(s) {
            Some(ip) => Ok(ip),
            None => Err(bad(node, "expects an IP address such as \"1.1.1.1\"")),
        },
    }
}

/// One more entry of an `allow-port` node.
pub open spec fn forward_step(
    node: NodeView,
    state: (Option<u16>, Option<bool>),
    e: EntryView,
) -> Result<(Option<u16>, Option<bool>), ConfigErrorView> {
    match e.name {
        None => if state.0 is Some {
            Err(bad_node(node, "expects exactly one port argument"@))
        } else {
            match port_of(e.value) {
                Some(port) => Ok((Some(port), state.1)),
                None => Err(bad_node(node, "expects a port number from 1 to 65535"@)),
            }
        },
        Some(prop) => if prop == "udp"@ {
            if state.1 is Some {
                Err(ConfigErrorView::Duplicate("allow-port udp"@))
            } else {
                match e.value {
                    ScalarView::Bool(b) => Ok((state.0, Some(b))),
                    _ => Err(bad_node(node, "udp must be #true or #false"@)),
                }
            }
        } else {
            Err(unknown_property(node, prop))
        },
    }
}

/// The walk over an `allow-port` node's entries.
pub open spec fn forward_steps(node: NodeView) -> spec_fn(
    (Option<u16>, Option<bool>),
    EntryView,
) -> Result<(Option<u16>, Option<bool>), ConfigErrorView> {
    |state: (Option<u16>, Option<bool>), e: EntryView| forward_step(node, state, e)
}

/// `allow-port <n> [udp=#true]`: the port and its protocol.
pub open spec fn forward_of(node: NodeView) -> Result<Forward, ConfigErrorView> {
    match fold(node.entries, 0, (None::<u16>, None::<bool>), forward_steps(node)) {
        Err(e) => Err(e),
        Ok((port, udp)) => match port {
            Some(port) => Ok(Forward { port, udp: said(udp, false) }),
            None => Err(bad_node(node, "expects exactly one port argument"@)),
        },
    }
}

/// `allow-port <n> [udp=#true]`: one port number, TCP unless the property
/// says otherwise.
pub fn parse_allow_port(node: &Node) -> (r: Result<Forward, ConfigError>)
    ensures
        match r {
            Ok(f) => forward_of(node@) == Ok::<Forward, ConfigErrorView>(f),
            Err(e) => forward_of(node@) == Err::<Forward, ConfigErrorView>(e@),
        },
{
    let ghost all = node@.entries;
    let ghost steps = forward_steps(node@);
    let ghost total = fold(all, 0, (None::<u16>, None::<bool>), steps);
    let mut port: Option<u16> = None;
    let mut udp: Option<bool> = None;
    let mut i: usize = 0;
    while i < node.entries.len()
        invariant
            all == node@.entries,
            all == entries_view(node.entries@),
            steps == forward_steps(node@),
            total == fold(all, 0, (None::<u16>, None::<bool>), steps),
            i <= node.entries@.len(),
            total == fold(all, i as int, (port, udp), steps),
        decreases node.entries@.len() - i,
    {
        let e = &node.entries[i];
        assert(all[i as int] == e@);
        assert(steps((port, udp), e@) == forward_step(node@, (port, udp), e@));
        match &e.name {
            None => {
                if port.is_some() {
                    return Err(bad(node, "expects exactly one port argument"));
                }
                match read_port(&e.value) {
                    Some(n) => {
                        port = Some(n);
                    },
                    None => {
                        return Err(bad(node, "expects a port number from 1 to 65535"));
                    },
                }
            },
            Some(prop) => {
                if !same_text(prop, "udp") {
                    return Err(unknown_prop(node, prop));
                }
                if udp.is_some() {
                    return Err(ConfigError::Duplicate("allow-port udp".to_owned()));
                }
                match &e.value {
                    Scalar::Bool(b) => {
                        udp = Some(*b);
                    },
                    _ => {
                        return Err(bad(node, "udp must be #true or #false"));
                    },
                }
            },
        }
        i = i + 1;
    }
    match port {
        Some(port) => Ok(
            Forward {
                port,
                udp: match udp {
                    Some(b) => b,
                    None => false,
                },
            },
        ),
        None => Err(bad(node, "expects exactly one port argument")),
    }
}

/// One more entry of an `allow-out` node.
pub open spec fn allow_out_step(
    node: NodeView,
    state: (Option<Cidr>, Option<u16>, Option<Proto>),
    e: EntryView,
) -> Result<(Option<Cidr>, Option<u16>, Option<Proto>), ConfigErrorView> {
    match e.name {
        None => if state.0 is Some {
            Err(bad_node(node, "expects exactly one destination argument"@))
        } else {
            match e.value {
                ScalarView::Text(s) => match cidr_of(s) {
                    Some(dest) => Ok((Some(dest), state.1, state.2)),
                    None => Err(
                        bad_node(
                            node,
                            "expects an address or a block such as \"1.1.1.1\" or \"10.0.0.0/8\""@,
                        ),
                    ),
                },
                _ => Err(bad_node(node, "destination must be a quoted address"@)),
            }
        },
        Some(prop) => if prop == "port"@ {
            if state.1 is Some {
                Err(ConfigErrorView::Duplicate("allow-out port"@))
            } else {
                match port_of(e.value) {
                    Some(port) => Ok((state.0, Some(port), state.2)),
                    None => Err(bad_node(node, "expects a port number from 1 to 65535"@)),
                }
            }
        } else if prop == "proto"@ {
            if state.2 is Some {
                Err(ConfigErrorView::Duplicate("allow-out proto"@))
            } else {
                match e.value {
                    ScalarView::Text(s) => match proto_of(s) {
                        Ok(proto) => Ok((state.0, state.1, Some(proto))),
                        Err(err) => Err(err),
                    },
                    _ => Err(bad_node(node, "proto must be \"tcp\" or \"udp\""@)),
                }
            }
        } else {
            Err(unknown_property(node, prop))
        },
    }
}

/// The walk over an `allow-out` node's entries.
pub open spec fn allow_out_steps(node: NodeView) -> spec_fn(
    (Option<Cidr>, Option<u16>, Option<Proto>),
    EntryView,
) -> Result<(Option<Cidr>, Option<u16>, Option<Proto>), ConfigErrorView> {
    |state: (Option<Cidr>, Option<u16>, Option<Proto>), e: EntryView|
        allow_out_step(node, state, e)
}

/// `allow-out "<ip>[/<len>]" [port=<n>] [proto="tcp"|"udp"]`: the
/// destination.
pub open spec fn allow_out_of(node: NodeView) -> Result<AllowOut, ConfigErrorView> {
    match fold(
        node.entries,
        0,
        (None::<Cidr>, None::<u16>, None::<Proto>),
        allow_out_steps(node),
    ) {
        Err(e) => Err(e),
        Ok((dest, port, proto)) => match dest {
            Some(dest) => Ok(AllowOut { dest, port, proto }),
            None => Err(bad_node(node, "expects exactly one destination argument"@)),
        },
    }
}

/// `allow-out "<ip>[/<len>]" [port=<n>] [proto="tcp"|"udp"]`: one
/// destination, every port and both protocols unless the properties narrow
/// it.
pub fn parse_allow_out(node: &Node) -> (r: Result<AllowOut, ConfigError>)
    ensures
        match r {
            Ok(a) => allow_out_of(node@) == Ok::<AllowOut, ConfigErrorView>(a),
            Err(e) => allow_out_of(node@) == Err::<AllowOut, ConfigErrorView>(e@),
        },
{
    let ghost all = node@.entries;
    let ghost steps = allow_out_steps(node@);
    let ghost start = (None::<Cidr>, None::<u16>, None::<Proto>);
    let ghost total = fold(all, 0, start, steps);
    let mut dest: Option<Cidr> = None;
    let mut port: Option<u16> = None;
    let mut proto: Option<Proto> = None;
    let mut i: usize = 0;
    while i < node.entries.len()
        invariant
            all == node@.entries,
            all == entries_view(node.entries@),
            steps == allow_out_steps(node@),
            start == (None::<Cidr>, None::<u16>, None::<Proto>),
            total == fold(all, 0, start, steps),
            i <= node.entries@.len(),
            total == fold(all, i as int, (dest, port, proto), steps),
        decreases node.entries@.len() - i,
    {
        let e = &node.entries[i];
        assert(all[i as int] == e@);
        assert(steps((dest, port, proto), e@) == allow_out_step(node@, (dest, port, proto), e@));
        match &e.name {
            None => {
                if dest.is_some() {
                    return Err(bad(node, "expects exactly one destination argument"));
                }
                match &e.value {
                    Scalar::Text(s) => {
                        match Cidr::parse(s) {
                            Some(c) => {
                                dest = Some(c);
                            },
                            None => {
                                return Err(
                                    bad(
                                        node,
                                        "expects an address or a block such as \"1.1.1.1\" or \"10.0.0.0/8\"",
                                    ),
                                );
                            },
                        }
                    },
                    _ => {
                        return Err(bad(node, "destination must be a quoted address"));
                    },
                }
            },
            Some(prop) => {
                if same_text(prop, "port") {
                    if port.is_some() {
                        return Err(ConfigError::Duplicate("allow-out port".to_owned()));
                    }
                    match read_port(&e.value) {
                        Some(n) => {
                            port = Some(n);
                        },
                        None => {
                            return Err(bad(node, "expects a port number from 1 to 65535"));
                        },
                    }
                } else if same_text(prop, "proto") {
                    if proto.is_some() {
                        return Err(ConfigError::Duplicate("allow-out proto".to_owned()));
                    }
                    match &e.value {
                        Scalar::Text(s) => {
                            if same_text(s, "tcp") {
                                proto = Some(Proto::Tcp);
                            } else if same_text(s, "udp") {
                                proto = Some(Proto::Udp);
                            } else {
                                return Err(unexpected_word("allow-out", "`tcp` or `udp`", s));
                            }
                        },
                        _ => {
                            return Err(bad(node, "proto must be \"tcp\" or \"udp\""));
                        },
                    }
                } else {
                    return Err(unknown_prop(node, prop));
                }
            },
        }
        i = i + 1;
    }
    match dest {
        Some(dest) => Ok(AllowOut { dest, port, proto }),
        None => Err(bad(node, "expects exactly one destination argument")),
    }
}

/// One more entry of a `network` node: its one mode argument.
pub open spec fn mode_step(node: NodeView, state: Option<NetworkMode>, e: EntryView) -> Result<
    Option<NetworkMode>,
    ConfigErrorView,
> {
    match e.name {
        Some(prop) => Err(unknown_property(node, prop)),
        None => if state is Some {
            Err(bad_node(node, "expects at most one mode argument"@))
        } else {
            match e.value {
                ScalarView::Text(s) => match mode_of(s) {
                    Ok(m) => Ok(Some(m)),
                    Err(err) => Err(err),
                },
                _ => Err(bad_node(node, "mode must be \"host\" or \"none\""@)),
            }
        },
    }
}

/// The walk over a `network` node's entries.
pub open spec fn mode_steps(node: NodeView) -> spec_fn(Option<NetworkMode>, EntryView) -> Result<
    Option<NetworkMode>,
    ConfigErrorView,
> {
    |state: Option<NetworkMode>, e: EntryView| mode_step(node, state, e)
}

/// The mode a `network` node names.
pub open spec fn network_mode_of(node: NodeView) -> Result<NetworkMode, ConfigErrorView> {
    match fold(node.entries, 0, None::<NetworkMode>, mode_steps(node)) {
        Err(e) => Err(e),
        Ok(mode) => Ok(said(mode, NetworkMode::Isolated)),
    }
}

/// A network, and whether an `outbound` node was met.
pub type NetworkState = (NetworkView, bool);

/// Why a resolver inside the sandbox is none.
pub open spec fn loopback_reason() -> Seq<char> {
    "a loopback address is the sandbox's own loopback in an isolated network namespace, not the host's; name a routable resolver, or write `network \"host\"`"@
}

/// One more child of a `network` node.
pub open spec fn network_step(state: NetworkState, child: NodeView) -> Result<
    NetworkState,
    ConfigErrorView,
> {
    let (cfg, seen) = state;
    match type_fault(child) {
        Some(e) => Err(e),
        None => match children_fault(child) {
            Some(e) => Err(e),
            None => if child.name == "dns"@ {
                match dns_of(child) {
                    Err(e) => Err(e),
                    Ok(ip) => if loopback(ip) && cfg.mode == NetworkMode::Isolated {
                        Err(bad_node(child, loopback_reason()))
                    } else if cfg.dns.contains(ip) {
                        Err(ConfigErrorView::Duplicate("dns \""@ + ip_text(ip) + "\""@))
                    } else {
                        Ok((NetworkView { dns: cfg.dns.push(ip), ..cfg }, seen))
                    },
                }
            } else if child.name == "allow-port"@ {
                match forward_of(child) {
                    Err(e) => Err(e),
                    Ok(f) => if cfg.forwards.contains(f) {
                        Err(
                            ConfigErrorView::Duplicate(
                                "allow-port "@ + decimal_digits(f.port as nat) + if f.udp {
                                    " udp=#true"@
                                } else {
                                    ""@
                                },
                            ),
                        )
                    } else {
                        Ok((NetworkView { forwards: cfg.forwards.push(f), ..cfg }, seen))
                    },
                }
            } else if child.name == "no-ipv6"@ {
                match flag_fault(child) {
                    Some(e) => Err(e),
                    None => if cfg.no_ipv6 {
                        Err(ConfigErrorView::Duplicate("no-ipv6"@))
                    } else {
                        Ok((NetworkView { no_ipv6: true, ..cfg }, seen))
                    },
                }
            } else if child.name == "outbound"@ {
                if seen {
                    Err(ConfigErrorView::Duplicate("outbound"@))
                } else {
                    match one_string(child) {
                        Err(e) => Err(e),
                        Ok(s) => match outbound_of(s) {
                            Err(e) => Err(e),
                            Ok(o) => Ok((NetworkView { outbound: o, ..cfg }, true)),
                        },
                    }
                }
            } else if child.name == "allow-out"@ {
                match allow_out_of(child) {
                    Err(e) => Err(e),
                    Ok(a) => if cfg.allow_out.contains(a) {
                        Err(ConfigErrorView::Duplicate("allow-out "@ + allow_out_text(a)))
                    } else {
                        Ok((NetworkView { allow_out: cfg.allow_out.push(a), ..cfg }, seen))
                    },
                }
            } else {
                Err(ConfigErrorView::UnknownNode(child.name))
            },
        },
    }
}

/// The walk over a `network` node's children.
pub open spec fn network_steps() -> spec_fn(NetworkState, NodeView) -> Result<
    NetworkState,
    ConfigErrorView,
> {
    |state: NetworkState, child: NodeView| network_step(state, child)
}

/// Whether an IPv6 address is named.
pub open spec fn names_ipv6(cfg: NetworkView) -> bool {
    ||| exists|i: int| 0 <= i < cfg.dns.len() && ipv6(#[trigger] cfg.dns[i])
    ||| exists|i: int| 0 <= i < cfg.allow_out.len() && ipv6((#[trigger] cfg.allow_out[i]).dest.addr)
}

/// Why what the children say cannot hold together under the mode.
pub open spec fn network_reason(state: NetworkState) -> Option<Seq<char>> {
    let (cfg, seen) = state;
    if cfg.mode == NetworkMode::Off && cfg.dns.len() > 0 {
        Some(
            "`dns` names a resolver the sandbox would have to reach over a network, and `none` grants none"@,
        )
    } else if cfg.mode != NetworkMode::Isolated && cfg.forwards.len() > 0 {
        Some(
            "`allow-port` forwards into the sandbox's own network namespace, which `host` and `none` do not have"@,
        )
    } else if cfg.mode != NetworkMode::Isolated && cfg.no_ipv6 {
        Some(
            "`no-ipv6` configures the pasta sidecar, which only the isolated network namespace runs"@,
        )
    } else if cfg.mode != NetworkMode::Isolated && (seen || cfg.allow_out.len() > 0) {
        Some(
            "`outbound` filters the sandbox's own network namespace, which `host` and `none` do not have; rules under `host` would land on the host's own ruleset"@,
        )
    } else if cfg.no_ipv6 && names_ipv6(cfg) {
        Some(
            "`no-ipv6` leaves the sandbox no IPv6 address, so an IPv6 `dns` or `allow-out` under it names something nothing in the sandbox could reach"@,
        )
    } else if cfg.outbound != Outbound::Deny && cfg.allow_out.len() > 0 {
        Some(
            "`allow-out` names destinations that are only a rule under `outbound \"deny\"`; without it nothing is filtered and nothing is installed"@,
        )
    } else {
        None
    }
}

/// `network ["host"|"none"] { dns "<ip>"; allow-port <n> [udp=#true];
/// outbound "deny"; allow-out "<ip>[/<len>]" [port=<n>] [proto="tcp"];
/// no-ipv6 }`: the network granted.
pub open spec fn network_of(node: NodeView) -> Result<NetworkView, ConfigErrorView> {
    match network_mode_of(node) {
        Err(e) => Err(e),
        Ok(mode) => {
            let start = (NetworkView { mode, ..default_network() }, false);
            let children = match node.children {
                Some(c) => c,
                None => Seq::empty(),
            };
            match fold(children, 0, start, network_steps()) {
                Err(e) => Err(e),
                Ok(state) => match network_reason(state) {
                    Some(reason) => Err(bad_node(node, reason)),
                    None => Ok(state.0),
                },
            }
        },
    }
}

fn parse_mode(node: &Node) -> (r: Result<NetworkMode, ConfigError>)
    ensures
        match r {
            Ok(m) => network_mode_of(node@) == Ok::<NetworkMode, ConfigErrorView>(m),
            Err(e) => network_mode_of(node@) == Err::<NetworkMode, ConfigErrorView>(e@),
        },
{
    let ghost all = node@.entries;
    let ghost steps = mode_steps(node@);
    let ghost total = fold(all, 0, None::<NetworkMode>, steps);
    let mut mode: Option<NetworkMode> = None;
    let mut i: usize = 0;
    while i < node.entries.len()
        invariant
            all == node@.entries,
            all == entries_view(node.entries@),
            steps == mode_steps(node@),
            total == fold(all, 0, None::<NetworkMode>, steps),
            i <= node.entries@.len(),
            total == fold(all, i as int, mode, steps),
        decreases node.entries@.len() - i,
    {
        let e = &node.entries[i];
        assert(all[i as int] == e@);
        assert(steps(mode, e@) == mode_step(node@, mode, e@));
        match &e.name {
            Some(prop) => {
                return Err(unknown_prop(node, prop));
            },
            None => {},
        }
        if mode.is_some() {
            return Err(bad(node, "expects at most one mode argument"));
        }
        match &e.value {
            Scalar::Text(s) => {
                if same_text(s, "host") {
                    mode = Some(NetworkMode::Host);
                } else if same_text(s, "none") {
                    mode = Some(NetworkMode::Off);
                } else {
                    return Err(unexpected_word("network", "`host` or `none`", s));
                }
            },
            _ => {
                return Err(bad(node, "mode must be \"host\" or \"none\""));
            },
        }
        i = i + 1;
    }
    Ok(
        match mode {
            Some(m) => m,
            None => NetworkMode::Isolated,
        },
    )
}

fn has_ip(list: &Vec<IpAddr>, ip: IpAddr) -> (r: bool)
    ensures
        r == list@.contains(ip),
{
    let mut i: usize = 0;
    while i < list.len()
        invariant
            i <= list@.len(),
            forall|j: int| 0 <= j < i ==> list@[j] != ip,
        decreases list@.len() - i,
    {
        if list[i] == ip {
            assert(list@.contains(list@[i as int]));
            return true;
        }
        i = i + 1;
    }
    false
}

fn has_forward(list: &Vec<Forward>, f: Forward) -> (r: bool)
    ensures
        r == list@.contains(f),
{
    let mut i: usize = 0;
    while i < list.len()
        invariant
            i <= list@.len(),
            forall|j: int| 0 <= j < i ==> list@[j] != f,
        decreases list@.len() - i,
    {
        if list[i] == f {
            assert(list@.contains(list@[i as int]));
            return true;
        }
        i = i + 1;
    }
    false
}

fn has_allow_out(list: &Vec<AllowOut>, a: AllowOut) -> (r: bool)
    ensures
        r == list@.contains(a),
{
    let mut i: usize = 0;
    while i < list.len()
        invariant
            i <= list@.len(),
            forall|j: int| 0 <= j < i ==> list@[j] != a,
        decreases list@.len() - i,
    {
        if list[i] == a {
            assert(list@.contains(list@[i as int]));
            return true;
        }
        i = i + 1;
    }
    false
}

/// Take one child of a `network` node in.
fn take_child(cfg: &mut NetworkConfig, seen_outbound: &mut bool, child: &Node) -> (r: Result<
    (),
    ConfigError,
>)
    ensures
        match r {
            Ok(()) => network_step((old(cfg)@, *old(seen_outbound)), child@) == Ok::<
                NetworkState,
                ConfigErrorView,
            >((final(cfg)@, *final(seen_outbound))),
            Err(e) => network_step((old(cfg)@, *old(seen_outbound)), child@) == Err::<
                NetworkState,
                ConfigErrorView,
            >(e@),
        },
{
    match reject_types(child) {
        Ok(()) => {},
        Err(e) => {
            return Err(e);
        },
    }
    match reject_children(child) {
        Ok(()) => {},
        Err(e) => {
            return Err(e);
        },
    }
    let name = child.name.as_str();
    if same_text(name, "dns") {
        let ip = match parse_dns(child) {
            Ok(ip) => ip,
            Err(e) => {
                return Err(e);
            },
        };
        // The sandbox's loopback is its own, so such an address names a
        // resolver inside the sandbox and never the host one meant. pasta
        // refuses a loopback `--dns-forward` for the same reason.
        if ip.is_loopback() && cfg.mode == NetworkMode::Isolated {
            return Err(
                bad(
                    child,
                    "a loopback address is the sandbox's own loopback in an isolated network namespace, not the host's; name a routable resolver, or write `network \"host\"`",
                ),
            );
        }
        if has_ip(&cfg.dns, ip) {
            return Err(ConfigError::Duplicate(joined(&joined("dns \"", &ip.to_text()), "\"")));
        }
        cfg.dns.push(ip);
    } else if same_text(name, "allow-port") {
        let f = match parse_allow_port(child) {
            Ok(f) => f,
            Err(e) => {
                return Err(e);
            },
        };
        if has_forward(&cfg.forwards, f) {
            let udp = if f.udp {
                " udp=#true"
            } else {
                ""
            };
            return Err(
                ConfigError::Duplicate(
                    joined(&joined("allow-port ", &decimal(f.port as u64)), udp),
                ),
            );
        }
        cfg.forwards.push(f);
    } else if same_text(name, "no-ipv6") {
        match reject_entries(child) {
            Ok(()) => {},
            Err(e) => {
                return Err(e);
            },
        }
        if cfg.no_ipv6 {
            return Err(ConfigError::Duplicate("no-ipv6".to_owned()));
        }
        cfg.no_ipv6 = true;
    } else if same_text(name, "outbound") {
        if *seen_outbound {
            return Err(ConfigError::Duplicate("outbound".to_owned()));
        }
        let s = match one_string_arg(child) {
            Ok(s) => s,
            Err(e) => {
                return Err(e);
            },
        };
        if same_text(s, "allow") {
            cfg.outbound = Outbound::Allow;
        } else if same_text(s, "deny") {
            cfg.outbound = Outbound::Deny;
        } else {
            return Err(unexpected_word("outbound", "`allow` or `deny`", s));
        }
        *seen_outbound = true;
    } else if same_text(name, "allow-out") {
        let a = match parse_allow_out(child) {
            Ok(a) => a,
            Err(e) => {
                return Err(e);
            },
        };
        if has_allow_out(&cfg.allow_out, a) {
            return Err(ConfigError::Duplicate(joined("allow-out ", &a.to_text())));
        }
        cfg.allow_out.push(a);
    } else {
        return Err(ConfigError::UnknownNode(child.name.clone()));
    }
    Ok(())
}

fn any_ipv6(cfg: &NetworkConfig) -> (r: bool)
    ensures
        r == names_ipv6(cfg@),
{
    let mut i: usize = 0;
    while i < cfg.dns.len()
        invariant
            i <= cfg.dns@.len(),
            forall|j: int| 0 <= j < i ==> !ipv6(#[trigger] cfg.dns@[j]),
        decreases cfg.dns@.len() - i,
    {
        if cfg.dns[i].is_ipv6() {
            assert(ipv6(cfg@.dns[i as int]));
            return true;
        }
        i = i + 1;
    }
    let mut k: usize = 0;
    while k < cfg.allow_out.len()
        invariant
            k <= cfg.allow_out@.len(),
            forall|j: int| 0 <= j < cfg.dns@.len() ==> !ipv6(#[trigger] cfg.dns@[j]),
            forall|j: int| 0 <= j < k ==> !ipv6((#[trigger] cfg.allow_out@[j]).dest.addr),
        decreases cfg.allow_out@.len() - k,
    {
        if cfg.allow_out[k].dest.addr.is_ipv6() {
            assert(ipv6(cfg@.allow_out[k as int].dest.addr));
            return true;
        }
        k = k + 1;
    }
    false
}

fn network_refusal(cfg: &NetworkConfig, seen_outbound: bool) -> (r: Option<&'static str>)
    ensures
        match r {
            Some(reason) => network_reason((cfg@, seen_outbound)) == Some(reason@),
            None => network_reason((cfg@, seen_outbound)) is None,
        },
{
    let isolated = cfg.mode == NetworkMode::Isolated;
    if cfg.mode == NetworkMode::Off && cfg.dns.len() > 0 {
        Some(
            "`dns` names a resolver the sandbox would have to reach over a network, and `none` grants none",
        )
    } else if !isolated && cfg.forwards.len() > 0 {
        Some(
            "`allow-port` forwards into the sandbox's own network namespace, which `host` and `none` do not have",
        )
    } else if !isolated && cfg.no_ipv6 {
        Some(
            "`no-ipv6` configures the pasta sidecar, which only the isolated network namespace runs",
        )
    } else if !isolated && (seen_outbound || cfg.allow_out.len() > 0) {
        Some(
            "`outbound` filters the sandbox's own network namespace, which `host` and `none` do not have; rules under `host` would land on the host's own ruleset",
        )
    } else if cfg.no_ipv6 && any_ipv6(cfg) {
        Some(
            "`no-ipv6` leaves the sandbox no IPv6 address, so an IPv6 `dns` or `allow-out` under it names something nothing in the sandbox could reach",
        )
    } else if cfg.outbound != Outbound::Deny && cfg.allow_out.len() > 0 {
        Some(
            "`allow-out` names destinations that are only a rule under `outbound \"deny\"`; without it nothing is filtered and nothing is installed",
        )
    } else {
        None
    }
}

/// `network ["host"|"none"] { ... }`. The bare node is the sandbox's own
/// network namespace, which is the default; the two spellings name the host's
/// namespace and no namespace at all.
///
/// `dns` says what the sandbox's resolver file holds, so it belongs to the
/// two modes that have a network to carry a query; under `none` it is
/// refused. The other children configure the sandbox's own namespace, the
/// pasta sidecar and the nftables ruleset in it, and only the isolated mode
/// has one. None of them is ignored where it cannot apply: that would leave a
/// config granting less than it says. `allow-out` without `outbound "deny"`
/// is refused for the same reason from the other side: it would name rules
/// nothing installs.
pub fn parse_network(node: &Node) -> (r: Result<NetworkConfig, ConfigError>)
    ensures
        outcome(r) == network_of(node@),
{
    broadcast use lemma_node_view;

    let mode = match parse_mode(node) {
        Ok(m) => m,
        Err(e) => {
            return Err(e);
        },
    };
    let mut cfg = NetworkConfig::default();
    cfg.mode = mode;
    let mut seen_outbound = false;
    let ghost start = (NetworkView { mode, ..default_network() }, false);
    let ghost steps = network_steps();
    match &node.children {
        Some(children) => {
            let ghost all = node_views(children@);
            let ghost total = fold(all, 0, start, steps);
            let mut i: usize = 0;
            while i < children.len()
                invariant
                    all == node_views(children@),
                    node@.children == Some(all),
                    network_mode_of(node@) == Ok::<NetworkMode, ConfigErrorView>(mode),
                    start == (NetworkView { mode, ..default_network() }, false),
                    steps == network_steps(),
                    total == fold(all, 0, start, steps),
                    i <= children@.len(),
                    total == fold(all, i as int, (cfg@, seen_outbound), steps),
                decreases children@.len() - i,
            {
                assert(all[i as int] == children@[i as int]@);
                assert(steps((cfg@, seen_outbound), all[i as int]) == network_step(
                    (cfg@, seen_outbound),
                    all[i as int],
                ));
                match take_child(&mut cfg, &mut seen_outbound, &children[i]) {
                    Ok(()) => {},
                    Err(e) => {
                        return Err(e);
                    },
                }
                i = i + 1;
            }
        },
        None => {},
    }
    match network_refusal(&cfg, seen_outbound) {
        Some(reason) => Err(bad(node, reason)),
        None => Ok(cfg),
    }
}

/// Whether nothing of a network is said twice, no port is 0, no resolver of an
/// isolated network is the sandbox's own loopback, and what is let out is only
/// denied where an `outbound` node says so.
pub open spec fn sound_network(state: NetworkState) -> bool {
    let (cfg, seen) = state;
    &&& cfg.dns.no_duplicates()
    &&& cfg.forwards.no_duplicates()
    &&& cfg.allow_out.no_duplicates()
    &&& forall|i: int| 0 <= i < cfg.forwards.len() ==> (#[trigger] cfg.forwards[i]).port != 0
    &&& forall|i: int|
        0 <= i < cfg.allow_out.len() ==> (#[trigger] cfg.allow_out[i]).port != Some(0u16)
    &&& cfg.mode == NetworkMode::Isolated ==> forall|i: int|
        0 <= i < cfg.dns.len() ==> !loopback(#[trigger] cfg.dns[i])
    &&& cfg.outbound == Outbound::Deny ==> seen
}

proof fn lemma_forward_port(node: NodeView, i: int, state: (Option<u16>, Option<bool>))
    requires
        state.0 != Some(0u16),
    ensures
        fold(node.entries, i, state, forward_steps(node)) matches Ok((port, _)) ==> port != Some(
            0u16,
        ),
    decreases node.entries.len() - i,
{
    if 0 <= i < node.entries.len() {
        let steps = forward_steps(node);
        assert(steps(state, node.entries[i]) == forward_step(node, state, node.entries[i]));
        if let Ok(next) = steps(state, node.entries[i]) {
            lemma_forward_port(node, i + 1, next);
        }
    }
}

proof fn lemma_out_port(
    node: NodeView,
    i: int,
    state: (Option<Cidr>, Option<u16>, Option<Proto>),
)
    requires
        state.1 != Some(0u16),
    ensures
        fold(node.entries, i, state, allow_out_steps(node)) matches Ok((_, port, _)) ==> port
            != Some(0u16),
    decreases node.entries.len() - i,
{
    if 0 <= i < node.entries.len() {
        let steps = allow_out_steps(node);
        assert(steps(state, node.entries[i]) == allow_out_step(node, state, node.entries[i]));
        if let Ok(next) = steps(state, node.entries[i]) {
            lemma_out_port(node, i + 1, next);
        }
    }
}

proof fn lemma_pushed_once<T>(s: Seq<T>, t: T)
    requires
        s.no_duplicates(),
        !s.contains(t),
    ensures
        s.push(t).no_duplicates(),
{
    let all = s.push(t);
    assert forall|i: int, j: int| 0 <= i < all.len() && 0 <= j < all.len() && i != j implies all[i]
        != all[j] by {
        if i == s.len() {
            assert(s.contains(s[j]));
        } else if j == s.len() {
            assert(s.contains(s[i]));
        }
    }
}

proof fn lemma_sound_network(children: Seq<NodeView>, i: int, state: NetworkState)
    requires
        sound_network(state),
    ensures
        fold(children, i, state, network_steps()) matches Ok(end) ==> sound_network(end)
            && end.0.mode == state.0.mode,
    decreases children.len() - i,
{
    if 0 <= i < children.len() {
        let child = children[i];
        let steps = network_steps();
        assert(steps(state, child) == network_step(state, child));
        if let Ok(next) = steps(state, child) {
            lemma_forward_port(child, 0, (None, None));
            lemma_out_port(child, 0, (None, None, None));
            if let Ok(ip) = dns_of(child) {
                if !state.0.dns.contains(ip) {
                    lemma_pushed_once(state.0.dns, ip);
                }
            }
            if let Ok(f) = forward_of(child) {
                if !state.0.forwards.contains(f) {
                    lemma_pushed_once(state.0.forwards, f);
                }
            }
            if let Ok(a) = allow_out_of(child) {
                if !state.0.allow_out.contains(a) {
                    lemma_pushed_once(state.0.allow_out, a);
                }
            }
            lemma_sound_network(children, i + 1, next);
        }
    }
}

/// What a granted network says can be honoured: the sidecar's settings stand
/// only in an isolated network, and only there is anything denied;
/// destinations stand only under `outbound "deny"`, a resolver only where
/// there is a network, and none on the loopback of an isolated one; no address
/// is of a version that is switched off, nothing is said twice and no port is
/// 0.
pub proof fn a_granted_network_grants_what_it_says(node: NodeView)
    ensures
        network_of(node) matches Ok(cfg) ==> {
            &&& cfg.mode != NetworkMode::Isolated ==> cfg.forwards.len() == 0 && !cfg.no_ipv6
                && cfg.allow_out.len() == 0
            &&& cfg.mode == NetworkMode::Off ==> cfg.dns.len() == 0
            &&& cfg.allow_out.len() > 0 ==> cfg.outbound == Outbound::Deny
            &&& cfg.no_ipv6 ==> !names_ipv6(cfg)
            &&& cfg.mode != NetworkMode::Isolated ==> cfg.outbound != Outbound::Deny
            &&& cfg.mode == NetworkMode::Isolated ==> forall|i: int|
                0 <= i < cfg.dns.len() ==> !loopback(#[trigger] cfg.dns[i])
            &&& cfg.dns.no_duplicates()
            &&& cfg.forwards.no_duplicates()
            &&& cfg.allow_out.no_duplicates()
            &&& forall|i: int|
                0 <= i < cfg.forwards.len() ==> (#[trigger] cfg.forwards[i]).port != 0
            &&& forall|i: int|
                0 <= i < cfg.allow_out.len() ==> (#[trigger] cfg.allow_out[i]).port != Some(0u16)
        },
{
    if let Ok(mode) = network_mode_of(node) {
        let children = match node.children {
            Some(c) => c,
            None => Seq::empty(),
        };
        lemma_sound_network(children, 0, (NetworkView { mode, ..default_network() }, false));
    }
}

} // verus!
