//! Configurations: every node, and what must hold between them.

use bubbler_core::config::address::{parse_ip, Cidr, IpAddr};
use bubbler_core::config::bounds::{check_bounds, MAX_BYTES, MAX_NESTING};
use bubbler_core::config::document::Scalar;
use bubbler_core::config::model::{
    AllowOut, Errno, Forward, NetworkConfig, NetworkMode, Outbound, Proto, SeccompConfig, TtyMode,
};
use bubbler_core::config::plain::hand_over;
use bubbler_core::config::settings::{Check, Severity};
use bubbler_core::config::{
    is_bus_name, parse_document, BusRule, InstanceConfig, Lines, LintAllow, Names, NestedX11,
    RawProfile, Service, ShareMode, Userns, WaylandMode, X11Mode, NODES,
};
use bubbler_core::error::ConfigError;

/// The checks and the syscalls a configuration may name here.
fn names() -> Names {
    let check = |id: &str, severity: Severity| Check {
        id: id.to_owned(),
        severity,
    };
    Names {
        checks: vec![
            check("x11-without-reason", Severity::Warning),
            check("seccomp-disabled", Severity::Warning),
            check("bundle-without-dbus", Severity::Error),
        ],
        syscalls: [
            "ptrace",
            "perf_event_open",
            "unshare",
            "setns",
            "clone3",
            "keyctl",
            "vm86old",
            "prctl",
            "read",
            "write",
        ]
        .map(str::to_owned)
        .to_vec(),
    }
}

fn parse(text: &str) -> Result<InstanceConfig, ConfigError> {
    bubbler_core::config::parse(text, &names())
}

fn parse_profile(text: &str) -> Result<RawProfile, ConfigError> {
    bubbler_core::config::parse_profile(text, &names())
}

fn node_lines(text: &str) -> Result<Lines, ConfigError> {
    bubbler_core::config::node_lines(text, &names())
}

#[test]
fn every_variable_has_the_line_of_its_node_and_lines_never_decrease() {
    let text = "env A=\"1\" B=\"2\"\nwayland\n\nenv C=\"3\"\ndri\n";
    let lines = node_lines(text).unwrap();
    assert_eq!(lines.env, vec![Some(1), Some(1), Some(4)]);
    assert_eq!(lines.services, vec![Some(2), Some(5)]);
    assert_eq!(parse(text).unwrap().env.len(), lines.env.len());
}

#[test]
fn every_node_is_paired_with_the_line_it_is_on() {
    let text = "// a comment\nwayland\n\nnetwork\ntty \"none\"\n\
                home-share \"Downloads\" mode=rw\nenv A=\"1\" B=\"2\"\n\
                userns \"disable\"\nseccomp {\n    disable\n}\ncommand \"true\"\n";
    let cfg = parse(text).unwrap();
    let lines = node_lines(text).unwrap();
    assert_eq!(lines.services.len(), cfg.services.len());
    assert_eq!(lines.services, vec![Some(2), Some(4), Some(6)]);
    // One node setting two variables gives both its own line.
    assert_eq!(lines.env, vec![Some(7), Some(7)]);
    assert_eq!(lines.userns, Some(8));
    assert_eq!(lines.seccomp, Some(9));
    // A node that grants nothing takes no place in the lists.
    let bare = node_lines("tty \"none\"\ncommand \"x\"").unwrap();
    assert_eq!(bare, Lines::default());
    // A block node is reported at the line it opens on.
    assert_eq!(
        node_lines("wayland\ndbus {\n    talk \"org.a.B\"\n}\n")
            .unwrap()
            .services,
        vec![Some(1), Some(2)]
    );
}

#[test]
fn the_terminal_mode_is_a_private_pty_unless_the_file_says_otherwise() {
    assert_eq!(parse("").unwrap().tty, TtyMode::Pty);
    assert_eq!(
        parse("tty \"passthrough\"").unwrap().tty,
        TtyMode::Passthrough
    );
    assert_eq!(parse("tty \"none\"").unwrap().tty, TtyMode::Off);
    assert!(matches!(
        parse("tty \"weird\""),
        Err(ConfigError::BadArgument { node, .. }) if node == "tty"
    ));
    assert!(matches!(parse("tty"), Err(ConfigError::BadArgument { .. })));
    assert!(matches!(
        parse("tty \"pty\" \"none\""),
        Err(ConfigError::BadArgument { .. })
    ));
    assert!(matches!(
        parse("tty \"pty\" { x; }"),
        Err(ConfigError::BadArgument { .. })
    ));
    assert!(matches!(
        parse("tty \"pty\"\ntty \"none\""),
        Err(ConfigError::Duplicate(n)) if n == "tty"
    ));
}

#[test]
fn user_namespaces_are_allowed_unless_the_file_disables_them() {
    assert_eq!(parse("").unwrap().userns, Userns::Allow);
    assert_eq!(parse("userns \"allow\"").unwrap().userns, Userns::Allow);
    assert_eq!(parse("userns \"disable\"").unwrap().userns, Userns::Disable);
    assert!(matches!(
        parse("userns \"off\""),
        Err(ConfigError::BadArgument { node, .. }) if node == "userns"
    ));
    assert!(matches!(
        parse("userns"),
        Err(ConfigError::BadArgument { .. })
    ));
    assert!(matches!(
        parse("userns \"allow\" \"disable\""),
        Err(ConfigError::BadArgument { .. })
    ));
    assert!(matches!(
        parse("userns \"disable\" { x; }"),
        Err(ConfigError::BadArgument { .. })
    ));
    assert!(matches!(
        parse("userns \"allow\"\nuserns \"disable\""),
        Err(ConfigError::Duplicate(n)) if n == "userns"
    ));
}

#[test]
fn userns_set_says_whether_the_node_was_written() {
    assert!(!parse_profile("wayland").unwrap().userns_set);
    let raw = parse_profile("userns \"allow\"").unwrap();
    assert!(raw.userns_set);
    assert_eq!(raw.config.userns, Userns::Allow);
}

#[test]
fn gamepad_device_classes_are_properties_that_default_to_false() {
    assert_eq!(
        parse("gamepad").unwrap().services,
        vec![Service::Gamepad {
            hidraw: false,
            uinput: false
        }]
    );
    assert_eq!(
        parse("gamepad hidraw=#true").unwrap().services,
        vec![Service::Gamepad {
            hidraw: true,
            uinput: false
        }]
    );
    assert_eq!(
        parse("gamepad uinput=#true hidraw=#false")
            .unwrap()
            .services,
        vec![Service::Gamepad {
            hidraw: false,
            uinput: true
        }]
    );
    assert!(matches!(
        parse("gamepad foo=#true"),
        Err(ConfigError::UnknownProperty { node, prop })
            if node == "gamepad" && prop == "foo"
    ));
    assert!(matches!(
        parse("gamepad hidraw=\"yes\""),
        Err(ConfigError::BadArgument { node, .. }) if node == "gamepad"
    ));
    assert!(matches!(
        parse("gamepad \"hidraw\""),
        Err(ConfigError::BadArgument { .. })
    ));
    // One grant however the two nodes differ: a second one would
    // otherwise decide the device list by file order.
    assert!(matches!(
        parse("gamepad\ngamepad uinput=#true"),
        Err(ConfigError::Duplicate(n)) if n == "gamepad"
    ));
    // Same for one property written twice, whichever way round.
    for text in [
        "gamepad uinput=#true uinput=#false",
        "gamepad uinput=#false uinput=#true",
        "gamepad hidraw=#true uinput=#true hidraw=#true",
    ] {
        assert!(
            matches!(parse(text), Err(ConfigError::Duplicate(ref n)) if n.contains(' ')),
            "{text}: {:?}",
            parse(text)
        );
    }
}

#[test]
fn parses_full_example() {
    let cfg = parse(
        r#"
        wayland
        dri
        x11
        network
        home-share "Downloads"
        home-share "Projects/x" mode=rw
        command "foot" "-e" "fish"
        "#,
    )
    .unwrap();
    assert_eq!(
        cfg.services,
        vec![
            Service::Wayland(WaylandMode::Sandboxed),
            Service::Dri,
            Service::X11(X11Mode::Nested(NestedX11::default())),
            Service::Network(NetworkConfig::default()),
            Service::HomeShare {
                path: "Downloads".into(),
                mode: ShareMode::ReadOnly
            },
            Service::HomeShare {
                path: "Projects/x".into(),
                mode: ShareMode::ReadWrite
            },
        ]
    );
    assert_eq!(
        cfg.command.unwrap(),
        vec![b"foot".to_vec(), "-e".into(), "fish".into()]
    );
}

/// The bare node and the one mode name it takes. A second `wayland`
/// node is a duplicate whatever the two modes say: which socket the
/// config asks for would otherwise be a matter of file order.
#[test]
fn wayland_host_parses_and_anything_else_is_refused() {
    let cfg = parse("wayland \"host\"\ncommand \"true\"").unwrap();
    assert!(cfg.services.contains(&Service::Wayland(WaylandMode::Host)));
    let bare = parse("wayland\ncommand \"true\"").unwrap();
    assert!(
        bare.services
            .contains(&Service::Wayland(WaylandMode::Sandboxed))
    );
    for bad in [
        "wayland \"other\"",
        "wayland 1",
        "wayland foo=\"host\"",
        "wayland { x }",
    ] {
        assert!(parse(&format!("{bad}\ncommand \"true\"")).is_err(), "{bad}");
    }
    assert!(matches!(
        parse("wayland\nwayland \"host\"\ncommand \"true\""),
        Err(ConfigError::Duplicate(n)) if n == "wayland"
    ));
}

/// The bare node with its properties, the one mode name it takes,
/// and what neither of them accepts. A second `x11` node is a
/// duplicate whatever the two modes say: which X server the config
/// asks for would otherwise be a matter of file order.
#[test]
fn x11_parses_nested_properties_and_host_and_refuses_the_rest() {
    let base = "wayland\ndri\ncommand \"true\"\n";
    let d = parse(&format!("x11\n{base}")).unwrap();
    assert!(
        d.services
            .contains(&Service::X11(X11Mode::Nested(NestedX11::default())))
    );
    let p = parse(&format!(
        "x11 geometry=\"1920x1080\" fullscreen=#true grab=#true\n{base}"
    ))
    .unwrap();
    assert!(
        p.services
            .contains(&Service::X11(X11Mode::Nested(NestedX11 {
                geometry: "1920x1080".into(),
                fullscreen: true,
                grab: true,
                wm: None
            })))
    );
    let h = parse(&format!("x11 \"host\"\n{base}")).unwrap();
    assert!(h.services.contains(&Service::X11(X11Mode::Host)));
    for bad in [
        "x11 \"other\"",
        "x11 \"host\" grab=#true",
        "x11 geometry=\"wide\"",
        "x11 geometry=\"0x10\"",
        "x11 geometry=1920",
        "x11 fullscreen=1",
        "x11 foo=#true",
        "x11 { a }",
    ] {
        assert!(parse(&format!("{bad}\n{base}")).is_err(), "{bad}");
    }
    assert!(matches!(
        parse(&format!("x11\nx11 \"host\"\n{base}")),
        Err(ConfigError::Duplicate(n)) if n == "x11"
    ));
}

#[test]
fn x11_names_the_program_that_manages_its_windows() {
    let base = "wayland\ndri\ncommand \"true\"\n";
    let p = parse(&format!("x11 wm=\"openbox\"\n{base}")).unwrap();
    assert!(
        p.services
            .contains(&Service::X11(X11Mode::Nested(NestedX11 {
                wm: Some("openbox".into()),
                ..NestedX11::default()
            })))
    );
    for bad in [
        "x11 wm=1",
        "x11 wm=\"\"",
        "x11 wm=\"a\" wm=\"b\"",
        "x11 \"host\" wm=\"openbox\"",
    ] {
        assert!(parse(&format!("{bad}\n{base}")).is_err(), "{bad}");
    }
}

/// Reads of the clipboard are held back unless the node opens it; the
/// session's own socket holds none back.
#[test]
fn wayland_opens_the_clipboard_only_where_it_says_so() {
    let cfg = parse("wayland clipboard=\"open\"").unwrap();
    assert_eq!(
        cfg.services,
        vec![Service::Wayland(WaylandMode::OpenClipboard)]
    );
    for bad in [
        "wayland clipboard=\"closed\"",
        "wayland clipboard=#true",
        "wayland clipboard=\"open\" clipboard=\"open\"",
        "wayland \"host\" clipboard=\"open\"",
        "wayland other=\"open\"",
    ] {
        assert!(parse(bad).is_err(), "{bad}");
    }
}

/// The server inside is a Wayland client and needs the GPU nodes to
/// render, so a nested `x11` without either would start nothing:
/// the file is refused rather than left to fail at launch. A profile
/// layer may take both from an include, so only the flattened
/// config an instance runs is checked.
#[test]
fn nested_x11_requires_wayland_and_dri_on_the_flattened_config() {
    for cfg in [
        "x11\ncommand \"true\"",
        "x11\nwayland\ncommand \"true\"",
        "x11\ndri\ncommand \"true\"",
    ] {
        assert!(
            matches!(parse(cfg), Err(ConfigError::BadArgument { node, reason })
                if node == "x11" && reason == "requires wayland and dri"),
            "{cfg}"
        );
    }
    assert!(parse("x11 \"host\"\ncommand \"true\"").is_ok());
    assert!(parse_profile("x11").is_ok());
}

/// The argv is the contract with Xwayland, and the flags are fixed
/// so the display cannot be listened on TCP or the server reset by a
/// client: only the window the properties describe changes.
#[test]
fn xwayland_argv_is_fixed_and_ordered() {
    let w = NestedX11::default().xwayland_argv();
    assert_eq!(
        w,
        [
            "/usr/bin/Xwayland",
            ":0",
            "-noreset",
            "-nolisten",
            "tcp",
            "-ac",
            "-hidpi",
            "-decorate",
            "-geometry",
            "1280x720"
        ]
        .map(|a| a.as_bytes().to_vec())
    );
    let f = NestedX11 {
        geometry: "1x1".into(),
        fullscreen: true,
        grab: true,
        wm: None,
    }
    .xwayland_argv();
    assert_eq!(
        f,
        [
            "/usr/bin/Xwayland",
            ":0",
            "-noreset",
            "-nolisten",
            "tcp",
            "-ac",
            "-hidpi",
            "-fullscreen",
            "-host-grab"
        ]
        .map(|a| a.as_bytes().to_vec())
    );
}

/// The three modes, and what a bare node means now.
#[test]
fn network_modes_are_the_bare_node_and_two_names() {
    let mode = |text: &str| match parse(text).unwrap().services.as_slice() {
        [Service::Network(cfg)] => cfg.mode,
        other => panic!("{other:?}"),
    };
    assert_eq!(mode("network"), NetworkMode::Isolated);
    assert_eq!(mode("network \"host\""), NetworkMode::Host);
    assert_eq!(mode("network \"none\""), NetworkMode::Off);
    for bad in [
        "network \"isolated\"",
        "network \"pasta\"",
        "network \"host\" \"none\"",
        "network #true",
        "network mode=\"host\"",
    ] {
        assert!(parse(bad).is_err(), "{bad}");
    }
}

#[test]
fn network_children_are_dns_allow_port_and_no_ipv6() {
    let cfg = parse(
        "network {\n    dns \"1.1.1.1\"\n    dns \"2606:4700:4700::1111\"\n    \
         allow-port 8080\n    allow-port 5353 udp=#true\n}",
    )
    .unwrap();
    let Some(Service::Network(net)) = cfg.services.first() else {
        panic!("{:?}", cfg.services)
    };
    assert_eq!(
        net.dns,
        vec![
            IpAddr::V4(0x0101_0101),
            parse_ip("2606:4700:4700::1111").unwrap()
        ]
    );
    assert_eq!(
        net.forwards,
        vec![
            Forward {
                port: 8080,
                udp: false
            },
            Forward {
                port: 5353,
                udp: true
            }
        ]
    );
    assert!(!net.no_ipv6);
    // Its own node: `no-ipv6` and the IPv6 resolver above cannot
    // both hold, which the next test is about.
    let cfg = parse("network {\n    no-ipv6\n}").unwrap();
    let Some(Service::Network(net)) = cfg.services.first() else {
        panic!("{:?}", cfg.services)
    };
    assert!(net.no_ipv6);
}

/// `no-ipv6` is pasta's `-4`, which leaves the namespace no IPv6
/// address: a v6 resolver or destination under it names something
/// nothing in the sandbox could reach, so it is refused rather than
/// written into a ruleset nothing can match.
#[test]
fn no_ipv6_refuses_the_ipv6_addresses_it_would_make_unreachable() {
    for text in [
        "network {\n    dns \"2606:4700:4700::1111\"\n    no-ipv6\n}",
        "network {\n    no-ipv6\n    outbound \"deny\"\n    \
         allow-out \"2606:4700:4700::1111\"\n}",
        "network {\n    no-ipv6\n    outbound \"deny\"\n    allow-out \"2606:4700::/32\"\n}",
    ] {
        assert!(
            matches!(parse(text), Err(ConfigError::BadArgument { node, .. }) if node == "network"),
            "{text}: {:?}",
            parse(text)
        );
    }
    // The v4 halves of the same nodes are what `no-ipv6` leaves.
    assert!(
        parse(
            "network {\n    dns \"1.1.1.1\"\n    no-ipv6\n    outbound \"deny\"\n    \
             allow-out \"1.1.1.1\"\n}"
        )
        .is_ok()
    );
}

/// The mode×child matrix: `dns` describes a file and is valid
/// wherever there is a network to reach a resolver over; the other
/// two configure the sidecar only the isolated mode runs. Each is
/// refused rather than ignored where it cannot apply.
#[test]
fn sidecar_children_need_the_isolated_mode() {
    for mode in ["", " \"host\""] {
        let text = format!("network{mode} {{\n    dns \"1.1.1.1\"\n}}");
        assert!(parse(&text).is_ok(), "{text}");
    }
    // `none` is no network, so a nameserver named under it is a
    // server nothing in the sandbox could ever send a query to.
    let text = "network \"none\" {\n    dns \"1.1.1.1\"\n}";
    assert!(
        matches!(parse(text), Err(ConfigError::BadArgument { node, .. }) if node == "network"),
        "{:?}",
        parse(text)
    );
    for child in ["allow-port 80", "no-ipv6"] {
        let ok = format!("network {{\n    {child}\n}}");
        assert!(parse(&ok).is_ok(), "{ok}");
        for mode in ["\"host\"", "\"none\""] {
            let text = format!("network {mode} {{\n    {child}\n}}");
            assert!(
                matches!(parse(&text), Err(ConfigError::BadArgument { node, .. }) if node == "network"),
                "{text}"
            );
        }
    }
}

#[test]
fn network_child_arguments_are_checked() {
    for bad in [
        "network {\n    dns \"not-an-ip\"\n}",
        "network {\n    dns\n}",
        "network {\n    allow-port 0\n}",
        "network {\n    allow-port 65536\n}",
        "network {\n    allow-port -1\n}",
        "network {\n    allow-port \"80\"\n}",
        "network {\n    allow-port 80 tcp=#true\n}",
        "network {\n    no-ipv6 #true\n}",
        "network {\n    allow-ports 80\n}",
        "network {\n    dns \"1.1.1.1\" { x }\n}",
    ] {
        assert!(parse(bad).is_err(), "{bad}");
    }
    assert!(parse("network {\n    allow-port 65535\n}").is_ok());
}

#[test]
fn outbound_deny_takes_allow_out_children_with_ports_and_protocols() {
    let cfg = parse(
        "network {\n    outbound \"deny\"\n    allow-out \"1.1.1.1\"\n    \
         allow-out \"140.82.112.0/20\" port=443 proto=\"tcp\"\n    \
         allow-out \"2606:4700:4700::1111\" port=853\n    \
         allow-out \"10.0.0.0/8\" proto=\"udp\"\n}",
    )
    .unwrap();
    let Some(Service::Network(net)) = cfg.services.first() else {
        panic!("{:?}", cfg.services)
    };
    assert_eq!(net.outbound, Outbound::Deny);
    let cidr = |s: &str| Cidr::parse(s).unwrap();
    assert_eq!(
        net.allow_out,
        vec![
            AllowOut {
                dest: cidr("1.1.1.1"),
                port: None,
                proto: None,
            },
            AllowOut {
                dest: cidr("140.82.112.0/20"),
                port: Some(443),
                proto: Some(Proto::Tcp),
            },
            AllowOut {
                dest: cidr("2606:4700:4700::1111"),
                port: Some(853),
                proto: None,
            },
            AllowOut {
                dest: cidr("10.0.0.0/8"),
                port: None,
                proto: Some(Proto::Udp),
            },
        ]
    );
    // The default, and the spelling that says so on purpose.
    assert_eq!(
        parse("network").unwrap().services.first(),
        Some(&Service::Network(NetworkConfig::default()))
    );
    assert!(parse("network {\n    outbound \"allow\"\n}").is_ok());
}

/// A rule nothing installs is a config that grants less than it
/// says, so `allow-out` needs its switch; and there is no namespace
/// of bubbler's to filter outside the isolated mode, where rules
/// would land on the host's own ruleset.
#[test]
fn outbound_needs_the_isolated_mode_and_allow_out_needs_outbound_deny() {
    let inert = "network {\n    allow-out \"1.1.1.1\"\n}";
    assert!(
        matches!(parse(inert), Err(ConfigError::BadArgument { node, .. }) if node == "network"),
        "{:?}",
        parse(inert)
    );
    let inert = "network {\n    outbound \"allow\"\n    allow-out \"1.1.1.1\"\n}";
    assert!(parse(inert).is_err(), "{inert}");
    for child in [
        "outbound \"deny\"",
        "outbound \"allow\"",
        "allow-out \"1.1.1.1\"",
    ] {
        for mode in ["\"host\"", "\"none\""] {
            let text = format!("network {mode} {{\n    {child}\n}}");
            assert!(
                matches!(parse(&text), Err(ConfigError::BadArgument { node, .. }) if node == "network"),
                "{text}: {:?}",
                parse(&text)
            );
        }
    }
}

#[test]
fn outbound_and_allow_out_arguments_are_checked() {
    for bad in [
        "network {\n    outbound\n}",
        "network {\n    outbound \"drop\"\n}",
        "network {\n    outbound \"deny\" \"allow\"\n}",
        "network {\n    outbound #true\n}",
        "network {\n    outbound \"deny\"\n    outbound \"deny\"\n}",
        "network {\n    outbound \"deny\"\n    allow-out\n}",
        "network {\n    outbound \"deny\"\n    allow-out \"1.1.1.1\" \"9.9.9.9\"\n}",
        "network {\n    outbound \"deny\"\n    allow-out 1\n}",
        "network {\n    outbound \"deny\"\n    allow-out \"example.com\"\n}",
        "network {\n    outbound \"deny\"\n    allow-out \"1.1.1.1/24\"\n}",
        "network {\n    outbound \"deny\"\n    allow-out \"1.1.1.1/33\"\n}",
        "network {\n    outbound \"deny\"\n    allow-out \"1.1.1.1\" port=0\n}",
        "network {\n    outbound \"deny\"\n    allow-out \"1.1.1.1\" port=65536\n}",
        "network {\n    outbound \"deny\"\n    allow-out \"1.1.1.1\" port=\"443\"\n}",
        "network {\n    outbound \"deny\"\n    allow-out \"1.1.1.1\" proto=\"icmp\"\n}",
        "network {\n    outbound \"deny\"\n    allow-out \"1.1.1.1\" proto=#true\n}",
        "network {\n    outbound \"deny\"\n    allow-out \"1.1.1.1\" ports=443\n}",
        "network {\n    outbound \"deny\"\n    allow-out \"1.1.1.1\" { x }\n}",
        "network {\n    outbound \"deny\"\n    allow-out \"1.1.1.1\"\n    allow-out \"1.1.1.1\"\n}",
    ] {
        assert!(parse(bad).is_err(), "{bad}");
    }
    // Narrowing the same address twice is two rules, not a duplicate.
    assert!(
        parse(
            "network {\n    outbound \"deny\"\n    allow-out \"1.1.1.1\" port=443\n    \
             allow-out \"1.1.1.1\" port=80\n}"
        )
        .is_ok()
    );
    assert!(parse("network {\n    outbound \"deny\"\n    allow-out \"1.1.1.1/32\"\n}").is_ok());
}

/// pasta refuses a loopback `--dns-forward`, and for the same reason
/// a loopback resolver in an isolated namespace names the sandbox
/// itself. Under `host` the loopback is the host's own and a stub
/// resolver there is the normal case.
#[test]
fn a_loopback_resolver_is_refused_only_where_it_would_be_the_sandbox() {
    for addr in ["127.0.0.1", "127.0.0.53", "::1"] {
        let isolated = format!("network {{\n    dns \"{addr}\"\n}}");
        assert!(
            matches!(parse(&isolated), Err(ConfigError::BadArgument { node, .. }) if node == "dns"),
            "{isolated}: {:?}",
            parse(&isolated)
        );
        let text = format!("network \"host\" {{\n    dns \"{addr}\"\n}}");
        assert!(parse(&text).is_ok(), "{text}");
    }
    assert!(parse("network {\n    dns \"1.1.1.1\"\n}").is_ok());
}

#[test]
fn duplicate_network_nodes_and_children_are_errors() {
    for (text, name) in [
        ("network\nnetwork \"host\"", "network"),
        (
            "network {\n    dns \"1.1.1.1\"\n    dns \"1.1.1.1\"\n}",
            "dns \"1.1.1.1\"",
        ),
        (
            "network {\n    allow-port 80\n    allow-port 80\n}",
            "allow-port 80",
        ),
        ("network {\n    no-ipv6\n    no-ipv6\n}", "no-ipv6"),
        (
            "network {\n    outbound \"deny\"\n    outbound \"deny\"\n}",
            "outbound",
        ),
        // The whole child is named, not only its address: two rules
        // differing in a port are two rules, so a message that left
        // the port out would name something the file does not hold.
        (
            "network {\n    outbound \"deny\"\n    allow-out \"1.1.1.1\" port=443 \
             proto=\"tcp\"\n    allow-out \"1.1.1.1\" port=443 proto=\"tcp\"\n}",
            "allow-out \"1.1.1.1\" port=443 proto=\"tcp\"",
        ),
        (
            "network {\n    outbound \"deny\"\n    allow-out \"2606:4700::/32\"\n    \
             allow-out \"2606:4700::/32\"\n}",
            "allow-out \"2606:4700::/32\"",
        ),
    ] {
        assert!(
            matches!(parse(text), Err(ConfigError::Duplicate(ref n)) if n == name),
            "{text}: {:?}",
            parse(text)
        );
    }
    // One port over two protocols is two grants, not a repeat.
    assert!(parse("network {\n    allow-port 80\n    allow-port 80 udp=#true\n}").is_ok());
    assert!(
        parse(
            "network {\n    outbound \"deny\"\n    allow-out \"1.1.1.1\" port=443 \
             proto=\"tcp\"\n    allow-out \"1.1.1.1\" port=443 proto=\"udp\"\n}"
        )
        .is_ok()
    );
}

#[test]
fn empty_config_has_no_services_and_no_command() {
    let cfg = parse("").unwrap();
    assert!(cfg.services.is_empty());
    assert!(cfg.command.is_none());
}

#[test]
fn unknown_node_is_an_error() {
    assert!(matches!(parse("bluetooth"), Err(ConfigError::UnknownNode(n)) if n == "bluetooth"));
}

#[test]
fn device_and_audio_services_are_flag_nodes() {
    let cfg = parse("dri\npipewire\npulseaudio").unwrap();
    assert_eq!(
        cfg.services,
        vec![Service::Dri, Service::Pipewire, Service::Pulseaudio]
    );
    assert!(matches!(parse("dri\ndri"), Err(ConfigError::Duplicate(n)) if n == "dri"));
    assert!(matches!(
        parse("pulseaudio 1"),
        Err(ConfigError::BadArgument { .. })
    ));
    assert!(matches!(
        parse("pipewire foo=bar"),
        Err(ConfigError::UnknownProperty { .. })
    ));
}

#[test]
fn hidraw_is_a_flag_node_and_coexists_with_the_gamepad_alias() {
    let cfg = parse("hidraw").unwrap();
    assert_eq!(cfg.services, vec![Service::Hidraw]);
    assert!(matches!(parse("hidraw\nhidraw"), Err(ConfigError::Duplicate(n)) if n == "hidraw"));
    assert!(matches!(
        parse("hidraw 1"),
        Err(ConfigError::BadArgument { .. })
    ));
    // `gamepad hidraw=#true` is the older spelling of the same grant,
    // so a config holding both is one grant written twice, not a
    // duplicate node.
    let cfg = parse("hidraw\ngamepad hidraw=#true").unwrap();
    assert_eq!(
        cfg.services,
        vec![
            Service::Hidraw,
            Service::Gamepad {
                hidraw: true,
                uinput: false
            }
        ]
    );
}

#[test]
fn duplicate_flag_service_is_an_error() {
    assert!(
        matches!(parse("wayland\nwayland"), Err(ConfigError::Duplicate(n)) if n == "wayland")
    );
}

#[test]
fn flag_service_rejects_arguments_and_properties() {
    assert!(matches!(
        parse("wayland 1"),
        Err(ConfigError::BadArgument { .. })
    ));
    assert!(matches!(
        parse("network foo=bar"),
        Err(ConfigError::UnknownProperty { .. })
    ));
}

#[test]
fn home_share_rejects_absolute_and_parent_paths() {
    assert!(matches!(
        parse(r#"home-share "/etc""#),
        Err(ConfigError::BadArgument { .. })
    ));
    assert!(matches!(
        parse(r#"home-share "../x""#),
        Err(ConfigError::BadArgument { .. })
    ));
    assert!(matches!(
        parse(r#"home-share "a/../x""#),
        Err(ConfigError::BadArgument { .. })
    ));
}

#[test]
fn home_share_rejects_bad_mode_and_missing_path() {
    assert!(matches!(
        parse(r#"home-share "a" mode=wx"#),
        Err(ConfigError::BadArgument { .. })
    ));
    assert!(matches!(
        parse("home-share"),
        Err(ConfigError::BadArgument { .. })
    ));
    assert!(matches!(
        parse(r#"home-share "a" "b""#),
        Err(ConfigError::BadArgument { .. })
    ));
}

#[test]
fn command_needs_at_least_one_string() {
    assert!(matches!(
        parse("command"),
        Err(ConfigError::BadArgument { .. })
    ));
    assert!(matches!(
        parse("command 3"),
        Err(ConfigError::BadArgument { .. })
    ));
    assert!(matches!(
        parse(
            r#"command "a"
command "b""#
        ),
        Err(ConfigError::Duplicate(_))
    ));
}

#[test]
fn command_rejects_children() {
    assert!(matches!(
        parse(r#"command "a" { wayland }"#),
        Err(ConfigError::BadArgument { .. })
    ));
}

#[test]
fn type_annotations_are_rejected() {
    assert!(matches!(
        parse("(foo)wayland"),
        Err(ConfigError::BadArgument { .. })
    ));
    assert!(matches!(
        parse(r#"home-share (t)"a""#),
        Err(ConfigError::BadArgument { .. })
    ));
}

#[test]
fn home_share_normalises_path() {
        for text in [
        r#"home-share "a//b""#,
        r#"home-share "a/./b""#,
        r#"home-share "a/b/""#,
    ] {
        let services = parse(text).unwrap().services;
        let [Service::HomeShare { path, .. }] = &services[..] else {
            panic!("expected exactly one home-share, got {services:?}");
        };
        assert_eq!(path, b"a/b");
    }
}

#[test]
fn home_share_rejects_one_path_twice_whatever_the_modes() {
    for text in [
        "home-share \"D\"\nhome-share \"D\"",
        "home-share \"D\"\nhome-share \"D\" mode=rw",
        "home-share \"D\" mode=rw\nhome-share \"D\"",
        "home-share \"D\"\nhome-share \"D/\"",
    ] {
        assert!(
            matches!(parse(text), Err(ConfigError::Duplicate(n)) if n == "home-share"),
            "{text}"
        );
    }
    // A share below another is a different path, and the inner bind
    // lands on top of the outer one rather than replacing it.
    assert!(parse("home-share \"D\"\nhome-share \"D/sub\" mode=rw").is_ok());
}

#[test]
fn path_share_takes_an_absolute_path_and_mode() {
    let cfg = parse("path-share \"/kioxia/Steam\"\npath-share \"/mnt/data\" mode=rw").unwrap();
    assert_eq!(
        cfg.services,
        vec![
            Service::PathShare {
                path: "/kioxia/Steam".into(),
                mode: ShareMode::ReadOnly
            },
            Service::PathShare {
                path: "/mnt/data".into(),
                mode: ShareMode::ReadWrite
            },
        ]
    );
}

#[test]
fn path_share_rejects_relative_and_parent_paths() {
    for text in [
        r#"path-share "kioxia""#,
        r#"path-share "./kioxia""#,
        r#"path-share "../kioxia""#,
        r#"path-share "/a/../b""#,
        r#"path-share """#,
    ] {
        assert!(
            matches!(parse(text), Err(ConfigError::BadArgument { .. })),
            "{text}"
        );
    }
}

#[test]
fn path_share_rejects_bad_mode_missing_and_extra_arguments() {
    for text in [
        r#"path-share "/a" mode=wx"#,
        "path-share",
        "path-share 3",
        r#"path-share "/a" "/b""#,
        r#"path-share (t)"/a""#,
        "path-share \"/a\" {\n    mode\n}",
    ] {
        assert!(
            matches!(parse(text), Err(ConfigError::BadArgument { .. })),
            "{text}"
        );
    }
    assert!(matches!(
        parse(r#"path-share "/a" ro=#true"#),
        Err(ConfigError::UnknownProperty { .. })
    ));
}

#[test]
fn path_share_normalises_path_and_rejects_the_same_node_twice() {
        for text in [
        r#"path-share "//kioxia/Steam""#,
        r#"path-share "/kioxia/./Steam""#,
        r#"path-share "/kioxia/Steam/""#,
    ] {
        let services = parse(text).unwrap().services;
        let [Service::PathShare { path, .. }] = &services[..] else {
            panic!("expected exactly one path-share, got {services:?}");
        };
        assert_eq!(path, b"/kioxia/Steam");
    }
    assert!(matches!(
        parse("path-share \"/a\"\npath-share \"/a/\""),
        Err(ConfigError::Duplicate(n)) if n == "path-share"
    ));
    // Two modes for one path is not the same node; the launcher
    // rejects it as an overlap, with both paths named.
    assert!(parse("path-share \"/a\"\npath-share \"/a\" mode=rw").is_ok());
}

#[test]
fn app_runtime_takes_an_application_id_and_mode() {
    let cfg = parse(
        "app-runtime \"org.keepassxc.KeePassXC\"\napp-runtime \"com.discordapp.Discord\" mode=rw",
    )
    .unwrap();
    assert_eq!(
        cfg.services,
        vec![
            Service::AppRuntime {
                id: "org.keepassxc.KeePassXC".to_owned(),
                mode: ShareMode::ReadOnly
            },
            Service::AppRuntime {
                id: "com.discordapp.Discord".to_owned(),
                mode: ShareMode::ReadWrite
            },
        ]
    );
}

#[test]
fn app_runtime_rejects_an_id_that_could_name_another_runtime_entry() {
    // The first four are the names that would matter: `bubbler` holds
    // every instance's control socket, and the rest are traversal.
    for text in [
        r#"app-runtime "bubbler""#,
        r#"app-runtime "..""#,
        r#"app-runtime "../bubbler""#,
        r#"app-runtime "org.a/../../bubbler""#,
        r#"app-runtime ".flatpak""#,
        r#"app-runtime """#,
        r#"app-runtime "org.example.App!""#,
        r#"app-runtime "org.exa-mple.App""#,
    ] {
        assert!(
            matches!(parse(text), Err(ConfigError::BadArgument { node, .. }) if node == "app-runtime"),
            "{text}"
        );
    }
    // A `-` is allowed in the last element only, which is what the
    // portal's own grammar says.
    assert!(parse(r#"app-runtime "org.example.App-1""#).is_ok());
}

#[test]
fn app_runtime_rejects_bad_mode_missing_and_extra_arguments() {
    for text in [
        r#"app-runtime "org.example.App" mode=wx"#,
        "app-runtime",
        "app-runtime 3",
        r#"app-runtime "org.example.App" "org.example.Other""#,
        r#"app-runtime (t)"org.example.App""#,
        "app-runtime \"org.example.App\" {\n    mode\n}",
    ] {
        assert!(
            matches!(parse(text), Err(ConfigError::BadArgument { .. })),
            "{text}"
        );
    }
    assert!(matches!(
        parse(r#"app-runtime "org.example.App" rw=#true"#),
        Err(ConfigError::UnknownProperty { .. })
    ));
}

#[test]
fn app_runtime_rejects_one_id_twice_whatever_the_modes() {
    for text in [
        "app-runtime \"org.example.App\"\napp-runtime \"org.example.App\"",
        "app-runtime \"org.example.App\"\napp-runtime \"org.example.App\" mode=rw",
        "app-runtime \"org.example.App\" mode=rw\napp-runtime \"org.example.App\"",
    ] {
        assert!(
            matches!(parse(text), Err(ConfigError::Duplicate(n)) if n == "app-runtime"),
            "{text}"
        );
    }
    assert!(
        parse("app-runtime \"org.example.App\"\napp-runtime \"org.example.Other\"").is_ok()
    );
}

#[test]
fn env_properties_are_collected_in_order() {
    let cfg = parse("env A=\"1\" B=\"two\"\nenv C=\"3\"").unwrap();
    assert_eq!(
        cfg.env,
        vec![
            ("A".into(), "1".into()),
            ("B".into(), "two".into()),
            ("C".into(), "3".into())
        ]
    );
}

#[test]
fn env_rejects_duplicates_reserved_args_and_non_strings() {
    assert!(
        matches!(parse("env A=\"1\"\nenv A=\"2\""), Err(ConfigError::Duplicate(k)) if k == "A")
    );
    assert!(matches!(
        parse("env HOME=\"/x\""),
        Err(ConfigError::BadArgument { .. })
    ));
    assert!(matches!(
        parse("env PULSE_SERVER=\"x\""),
        Err(ConfigError::BadArgument { .. })
    ));
    // Either bus address would point a client at a socket bubbler
    // did not filter.
    for key in ["DBUS_SESSION_BUS_ADDRESS", "DBUS_SYSTEM_BUS_ADDRESS"] {
        assert!(
            matches!(
                parse(&format!(
                    "env {key}=\"unix:path=/run/dbus/system_bus_socket\""
                )),
                Err(ConfigError::BadArgument { .. })
            ),
            "{key}"
        );
    }
    assert!(matches!(
        parse("env \"A=1\""),
        Err(ConfigError::BadArgument { .. })
    ));
    assert!(matches!(
        parse("env A=1"),
        Err(ConfigError::BadArgument { .. })
    ));
    assert!(matches!(parse("env"), Err(ConfigError::BadArgument { .. })));
    assert!(matches!(
        parse("env \"\"=\"x\""),
        Err(ConfigError::BadArgument { .. })
    ));
    assert!(matches!(
        parse("env \"A=B\"=\"x\""),
        Err(ConfigError::BadArgument { .. })
    ));
    assert!(matches!(
        parse("env \"A B\"=\"x\""),
        Err(ConfigError::BadArgument { .. })
    ));
    assert!(matches!(
        parse("env A=\"x\\u{0}y\""),
        Err(ConfigError::BadArgument { .. })
    ));
    assert!(matches!(
        parse("env A=\"1\" { x }"),
        Err(ConfigError::BadArgument { .. })
    ));
}

#[test]
fn etc_share_takes_one_plain_name() {
    let cfg = parse("etc-share \"java\"").unwrap();
    assert_eq!(
        cfg.services,
        vec![Service::EtcShare {
            name: "java".into()
        }]
    );
    assert!(matches!(
        parse("etc-share \"a/b\""),
        Err(ConfigError::BadArgument { .. })
    ));
    assert!(matches!(
        parse("etc-share \"..\""),
        Err(ConfigError::BadArgument { .. })
    ));
    assert!(matches!(
        parse("etc-share \"a\" \"b\""),
        Err(ConfigError::BadArgument { .. })
    ));
    assert!(matches!(
        parse("etc-share \"a\" mode=rw"),
        Err(ConfigError::UnknownProperty { .. })
    ));
    assert!(matches!(
        parse("etc-share \"a\"\netc-share \"a\""),
        Err(ConfigError::Duplicate(_))
    ));
    assert_eq!(
        parse("etc-share \"a/\"").unwrap().services,
        vec![Service::EtcShare { name: "a".into() }]
    );
    assert!(matches!(
        parse("etc-share \"a\"\netc-share \"a/\""),
        Err(ConfigError::Duplicate(_))
    ));
}

#[test]
fn env_and_command_values_reject_bytes_that_cannot_be_argv() {
    for text in [
        r#"env A="x\ny""#,
        r#"env A="x\ry""#,
        r#"command "a\nb""#,
        r#"command "a\rb""#,
        r#"command "a\u{0}b""#,
    ] {
        assert!(
            matches!(parse(text), Err(ConfigError::BadArgument { .. })),
            "{text}"
        );
    }
    assert!(parse("env A=\"x y\"\ncommand \"a b\"").is_ok());
}

#[test]
fn etc_share_refuses_the_account_files() {
    for name in [
        "passwd", "passwd-", "passwd+", "group", "group-", "group+", "shadow", "shadow-",
        "shadow+", "gshadow", "gshadow-", "gshadow+",
    ] {
        let r = parse(&format!("etc-share \"{name}\""));
        assert!(
            matches!(&r, Err(ConfigError::BadArgument { reason, .. }) if reason == &format!("the sandbox owns /etc/{name}")),
            "{name}: {r:?}"
        );
    }
    assert!(parse("etc-share \"passwdx\"").is_ok());
}

#[test]
fn kdl_syntax_error_is_parse() {
    assert!(matches!(parse("wayland {"), Err(ConfigError::Parse(_))));
}

#[test]
fn dbus_children_and_bundles() {
    let cfg = parse(
        r#"
        dbus {
            talk "org.freedesktop.Notifications"
            own "org.mpris.MediaPlayer2.firefox.*"
            call "org.freedesktop.portal.Desktop=org.freedesktop.portal.Settings.Read@/org/freedesktop/portal/desktop"
            broadcast "org.freedesktop.portal.Desktop=@/org/freedesktop/portal/desktop"
        }
        portals
        notify
        mpris name="firefox.*"
        "#,
    )
    .unwrap();
    assert!(matches!(&cfg.services[0], Service::Dbus { rules } if rules.len() == 4));
    assert!(cfg.services.contains(&Service::Portals));
    assert!(cfg.services.contains(&Service::Notify));
    assert!(cfg.services.contains(&Service::Mpris {
        name: "firefox.*".into()
    }));
    let [Service::Dbus { rules }, ..] = &cfg.services[..] else {
        panic!("expected dbus first, got {:?}", cfg.services);
    };
    assert_eq!(
        rules[2],
        BusRule::Call(
            "org.freedesktop.portal.Desktop".into(),
            "org.freedesktop.portal.Settings.Read@/org/freedesktop/portal/desktop".into()
        )
    );
    assert_eq!(
        rules[3],
        BusRule::Broadcast(
            "org.freedesktop.portal.Desktop".into(),
            "@/org/freedesktop/portal/desktop".into()
        )
    );
}

#[test]
fn see_talk_and_own_map_to_their_own_variants() {
    let cfg = parse("dbus { see \"a.b\"; talk \"c.d\"; own \"e.f\" }").unwrap();
    assert_eq!(
        cfg.services,
        vec![Service::Dbus {
            rules: vec![
                BusRule::See("a.b".into()),
                BusRule::Talk("c.d".into()),
                BusRule::Own("e.f".into()),
            ]
        }]
    );
}

#[test]
fn the_system_bus_takes_the_dbus_children_except_own() {
    let cfg = parse(
        r#"
        system-bus {
            see "org.freedesktop.NetworkManager"
            talk "org.freedesktop.UPower"
            call "org.freedesktop.UDisks2=org.freedesktop.DBus.ObjectManager.GetManagedObjects@/org/freedesktop/UDisks2"
            broadcast "org.freedesktop.UDisks2=@/org/freedesktop/UDisks2"
        }
        "#,
    )
    .unwrap();
    assert_eq!(
        cfg.services,
        vec![Service::SystemBus {
            rules: vec![
                BusRule::See("org.freedesktop.NetworkManager".into()),
                BusRule::Talk("org.freedesktop.UPower".into()),
                BusRule::Call(
                    "org.freedesktop.UDisks2".into(),
                    "org.freedesktop.DBus.ObjectManager.GetManagedObjects@/org/freedesktop/UDisks2"
                        .into()
                ),
                BusRule::Broadcast(
                    "org.freedesktop.UDisks2".into(),
                    "@/org/freedesktop/UDisks2".into()
                ),
            ]
        }]
    );
}

#[test]
fn the_system_bus_refuses_own_and_an_empty_node() {
    // The name would be owned with the proxy's credentials, which are
    // the user's own, so the message says so rather than parsing it.
    let Err(ConfigError::BadArgument { node, reason }) =
        parse("system-bus { own \"org.example.App\" }")
    else {
        panic!("own was accepted on the system bus");
    };
    assert_eq!(node, "system-bus");
    assert!(reason.contains("own"), "{reason}");
    // A bus that answers nothing is a node the user did not mean.
    for text in ["system-bus", "system-bus {}", "system-bus { }"] {
        assert!(
            matches!(parse(text), Err(ConfigError::BadArgument { node, .. }) if node == "system-bus"),
            "{text}"
        );
    }
    assert!(matches!(
        parse("system-bus { talk \"a.b\" }\nsystem-bus { talk \"c.d\" }"),
        Err(ConfigError::Duplicate(n)) if n == "system-bus"
    ));
}

#[test]
fn one_bus_name_takes_one_policy_in_a_node() {
    // Which of the two the proxy would then apply is argument order,
    // so the config is refused rather than resolved.
    for text in [
        "dbus { talk \"a.b\"; see \"a.b\" }",
        "dbus { own \"a.b\"; talk \"a.b\" }",
        "system-bus { see \"a.b\"; talk \"a.b\" }",
    ] {
        let Err(ConfigError::BadArgument { reason, .. }) = parse(text) else {
            panic!("{text} was accepted");
        };
        assert!(reason.contains("a.b"), "{text}: {reason}");
    }
    // A repeat of the same policy is one policy, and `call` and
    // `broadcast` filter messages rather than setting one.
    parse("dbus { talk \"a.b\"; talk \"a.b\" }").unwrap();
    parse("system-bus { see \"a.b\"; call \"a.b=c.d@/e\" }").unwrap();
    // Two names are two policies.
    parse("dbus { talk \"a.b\"; see \"a.c\" }").unwrap();
}

#[test]
fn the_system_bus_stands_on_its_own_and_beside_the_session_one() {
    // The two buses are independent: a sandbox may have UPower and no
    // session bus at all.
    assert_eq!(
        parse("system-bus { talk \"org.freedesktop.UPower\" }")
            .unwrap()
            .services,
        vec![Service::SystemBus {
            rules: vec![BusRule::Talk("org.freedesktop.UPower".into())]
        }]
    );
    assert_eq!(
        parse("dbus\nsystem-bus { talk \"org.freedesktop.UPower\" }")
            .unwrap()
            .services,
        vec![
            Service::Dbus { rules: vec![] },
            Service::SystemBus {
                rules: vec![BusRule::Talk("org.freedesktop.UPower".into())]
            }
        ]
    );
    // A bundle is a set of session-bus rules; the system bus does not
    // carry one.
    assert!(matches!(
        parse("system-bus { talk \"a.b\" }\nnotify"),
        Err(ConfigError::BadArgument { node, .. }) if node == "notify"
    ));
    for text in [
        "system-bus \"x\" { talk \"a.b\" }",
        "system-bus foo=1 { talk \"a.b\" }",
        "system-bus { talk \"a b\" }",
        "system-bus { hidraw \"a.b\" }",
    ] {
        assert!(parse(text).is_err(), "{text}");
    }
}

#[test]
fn a_bundle_may_precede_the_dbus_node() {
    assert_eq!(
        parse("notify\ndbus").unwrap().services,
        vec![Service::Notify, Service::Dbus { rules: vec![] }]
    );
}

#[test]
fn camera_is_a_portal_grant_with_an_optional_device_property() {
    let cfg = parse("dbus\nportals\ncamera").unwrap();
    assert_eq!(cfg.services.last(), Some(&Service::Camera { nodes: false }));
    assert_eq!(
        parse("dbus\nportals\ncamera nodes=#true")
            .unwrap()
            .services
            .last(),
        Some(&Service::Camera { nodes: true })
    );
    assert_eq!(
        parse("dbus\nportals\ncamera nodes=#false")
            .unwrap()
            .services
            .last(),
        Some(&Service::Camera { nodes: false })
    );
    // The portal is what carries the grant, and without
    // `/.flatpak-info` the sandbox falls into the blanket permission
    // every unsandboxed process on the machine shares.
    assert!(matches!(
        parse("dbus\ncamera"),
        Err(ConfigError::BadArgument { node, reason })
            if node == "camera" && reason == "requires portals"
    ));
    assert!(matches!(
        parse("dbus\ncamera nodes=#true"),
        Err(ConfigError::BadArgument { node, reason })
            if node == "camera" && reason == "requires portals"
    ));
    // A profile layer may take its `portals` from an include, so the
    // requirement is checked on the flattened config only.
    assert!(parse_profile("camera").is_ok());
    assert!(matches!(
        parse("dbus\nportals\ncamera foo=#true"),
        Err(ConfigError::UnknownProperty { node, prop })
            if node == "camera" && prop == "foo"
    ));
    assert!(matches!(
        parse("dbus\nportals\ncamera nodes=\"yes\""),
        Err(ConfigError::BadArgument { node, .. }) if node == "camera"
    ));
    assert!(matches!(
        parse("dbus\nportals\ncamera \"nodes\""),
        Err(ConfigError::BadArgument { .. })
    ));
    assert!(matches!(
        parse("dbus\nportals\ncamera { nodes; }"),
        Err(ConfigError::BadArgument { .. })
    ));
    // By variant, like `gamepad`: two nodes differing only in the
    // property would leave the device binds to file order.
    assert!(matches!(
        parse("dbus\nportals\ncamera\ncamera nodes=#true"),
        Err(ConfigError::Duplicate(n)) if n == "camera"
    ));
    assert!(matches!(
        parse("dbus\nportals\ncamera nodes=#true nodes=#false"),
        Err(ConfigError::Duplicate(n)) if n == "camera nodes"
    ));
}

#[test]
fn tray_and_gamepad_are_bare_grants() {
    let cfg = parse("dbus\ntray\ngamepad").unwrap();
    assert_eq!(
        cfg.services,
        vec![
            Service::Dbus { rules: vec![] },
            Service::Tray,
            Service::Gamepad {
                hidraw: false,
                uinput: false
            }
        ]
    );
    assert!(matches!(
        parse("dbus\ntray\ntray"),
        Err(ConfigError::Duplicate(n)) if n == "tray"
    ));
    assert!(matches!(
        parse("gamepad\ngamepad"),
        Err(ConfigError::Duplicate(n)) if n == "gamepad"
    ));
    assert!(matches!(
        parse("tray"),
        Err(ConfigError::BadArgument { node, reason })
            if node == "tray" && reason == "requires dbus"
    ));
    // `gamepad` is device access, not a set of proxy rules, so it
    // stands on its own.
    assert!(parse("gamepad").is_ok());
    // A bare node nothing answers to is never some other grant.
    assert!(matches!(
        parse("joystick"),
        Err(ConfigError::UnknownNode(n)) if n == "joystick"
    ));
    assert!(matches!(
        parse("dbus\ntray \"x\""),
        Err(ConfigError::BadArgument { .. })
    ));
    assert!(matches!(
        parse("gamepad { hidraw; }"),
        Err(ConfigError::BadArgument { .. })
    ));
}

#[test]
fn bundles_require_dbus_and_names_are_validated() {
    assert!(matches!(
        parse("notify"),
        Err(ConfigError::BadArgument { .. })
    ));
    assert!(matches!(
        parse("dbus\nmpris"),
        Err(ConfigError::BadArgument { .. })
    ));
    assert!(matches!(
        parse("dbus { talk \"nodots\" }"),
        Err(ConfigError::BadArgument { .. })
    ));
    assert!(matches!(
        parse("dbus { talk \"a.*.b\" }"),
        Err(ConfigError::BadArgument { .. })
    ));
    assert!(matches!(
        parse("dbus { talk \"a.b c\" }"),
        Err(ConfigError::BadArgument { .. })
    ));
    assert!(matches!(
        parse("dbus { call \"a.b\" }"),
        Err(ConfigError::BadArgument { .. })
    ));
    assert!(matches!(
        parse("dbus { call \"a.b=x y\" }"),
        Err(ConfigError::BadArgument { .. })
    ));
    assert!(matches!(
        parse("dbus { call \"a.b=\" }"),
        Err(ConfigError::BadArgument { .. })
    ));
    assert!(matches!(
        parse("dbus { frob \"a.b\" }"),
        Err(ConfigError::UnknownNode(_))
    ));
    assert!(matches!(
        parse("dbus\ndbus"),
        Err(ConfigError::Duplicate(_))
    ));
    assert!(matches!(
        parse("dbus { talk \"a.b\" }\ndbus"),
        Err(ConfigError::Duplicate(_))
    ));
    assert_eq!(
        parse("dbus").unwrap().services,
        vec![Service::Dbus { rules: vec![] }]
    );
    for ok in ["a.b", "org.freedesktop.portal.*", "a-b.c_d", "_a.b9"] {
        assert!(is_bus_name(ok), "{ok}");
    }
    for bad in [
        "a", ".a.b", "a..b", "a.9b", "a.*.b", "*", "a.b.", "a.b=", "",
    ] {
        assert!(!is_bus_name(bad), "{bad}");
    }
}

#[test]
fn the_dbus_node_takes_no_arguments_and_its_rules_take_one_name_each() {
    assert!(matches!(
        parse("dbus \"x\""),
        Err(ConfigError::BadArgument { .. })
    ));
    assert!(matches!(
        parse("dbus foo=bar"),
        Err(ConfigError::UnknownProperty { .. })
    ));
    assert!(matches!(
        parse("dbus\nnotify { talk \"a.b\" }"),
        Err(ConfigError::BadArgument { .. })
    ));
    for text in [
        "dbus { talk }",
        "dbus { talk 1 }",
        "dbus { talk \"a.b\" \"c.d\" }",
        "dbus { talk \"a.b\" { own \"c.d\" } }",
        "dbus { (t)talk \"a.b\" }",
        "dbus { talk (t)\"a.b\" }",
    ] {
        assert!(
            matches!(parse(text), Err(ConfigError::BadArgument { .. })),
            "{text}"
        );
    }
    assert!(matches!(
        parse("dbus { talk \"a.b\" name=\"x\" }"),
        Err(ConfigError::UnknownProperty { .. })
    ));
    // The proxy takes repeated rules; deduplicating is the emitter's job.
    let cfg = parse("dbus { talk \"a.b\"\ntalk \"a.b\" }").unwrap();
    assert!(matches!(&cfg.services[0], Service::Dbus { rules } if rules.len() == 2));
}

#[test]
fn mpris_name_is_a_bus_name_suffix() {
    assert_eq!(
        parse("dbus\nmpris name=\"firefox.*\"").unwrap().services,
        vec![
            Service::Dbus { rules: vec![] },
            Service::Mpris {
                name: "firefox.*".into()
            }
        ]
    );
    assert_eq!(
        parse("dbus\nmpris name=\"firefox\"").unwrap().services[1],
        Service::Mpris {
            name: "firefox".into()
        }
    );
    for text in [
        "dbus\nmpris name=\"a b\"",
        "dbus\nmpris name=\"\"",
        "dbus\nmpris name=\".a\"",
        "dbus\nmpris name=\"9a\"",
        "dbus\nmpris name=\"a.*.b\"",
        "dbus\nmpris name=\"a.\"",
        "dbus\nmpris name=1",
        "dbus\nmpris \"firefox\"",
        "dbus\nmpris name=\"a\" { x }",
    ] {
        assert!(
            matches!(parse(text), Err(ConfigError::BadArgument { .. })),
            "{text}"
        );
    }
    assert!(matches!(
        parse("dbus\nmpris nome=\"a\""),
        Err(ConfigError::UnknownProperty { .. })
    ));
    assert!(matches!(
        parse("dbus\nmpris name=\"a\"\nmpris name=\"b\""),
        Err(ConfigError::Duplicate(_))
    ));
    assert!(matches!(
        parse("dbus\nportals\nportals"),
        Err(ConfigError::Duplicate(_))
    ));
}

#[test]
fn seccomp_children_collect_allows_and_denies_in_file_order() {
    let cfg = parse(
        r#"
        seccomp {
            allow "ptrace" "perf_event_open"
            deny "unshare" "setns"
            deny "clone3" errno="ENOSYS"
        }
        "#,
    )
    .unwrap();
    assert_eq!(cfg.seccomp.allow, ["ptrace", "perf_event_open"]);
    assert_eq!(
        cfg.seccomp.deny,
        vec![
            ("unshare".to_owned(), Errno::Eperm),
            ("setns".to_owned(), Errno::Eperm),
            ("clone3".to_owned(), Errno::Enosys),
        ]
    );
    assert!(!cfg.seccomp.disable);
}

#[test]
fn without_a_seccomp_node_the_default_denylist_stands() {
    assert_eq!(parse("").unwrap().seccomp, SeccompConfig::default());
    assert_eq!(parse("seccomp").unwrap().seccomp, SeccompConfig::default());
    assert_eq!(
        parse("seccomp { }").unwrap().seccomp,
        SeccompConfig::default()
    );
    assert!(parse("seccomp { disable }").unwrap().seccomp.disable);
    assert!(matches!(
        parse("seccomp\nseccomp"),
        Err(ConfigError::Duplicate(n)) if n == "seccomp"
    ));
}

#[test]
fn a_syscall_no_architecture_in_the_filter_has_is_an_error_not_a_skip() {
    for text in [
        r#"seccomp { allow "nosuchcall" }"#,
        r#"seccomp { deny "nosuchcall" }"#,
    ] {
        assert!(
            matches!(parse(text), Err(ConfigError::BadArgument { node, .. }) if node == "allow" || node == "deny"),
            "{text}"
        );
    }
    assert!(parse(r#"seccomp { allow "keyctl" "clone3" }"#).is_ok());
    // `vm86old` is i386-only, and the filter carries i386 on x86_64,
    // so naming it there is a rule rather than a mistake.
        assert!(parse(r#"seccomp { allow "vm86old" }"#).is_ok());
}

#[test]
fn prctl_can_never_be_denied() {
    let r = parse(r#"seccomp { deny "prctl" }"#);
    assert!(
        matches!(&r, Err(ConfigError::BadArgument { node, reason }) if node == "deny" && reason.contains("prctl")),
        "{r:?}"
    );
    assert!(parse(r#"seccomp { allow "prctl" }"#).is_ok());
}

#[test]
fn a_repeated_errno_takes_the_last_one() {
    let cfg = parse(r#"seccomp { deny "read" errno="EPERM" errno="ENOSYS" }"#).unwrap();
    assert_eq!(cfg.seccomp.deny, [("read".to_owned(), Errno::Enosys)]);
    let cfg = parse(r#"seccomp { deny "read" errno="ENOSYS" errno="EPERM" }"#).unwrap();
    assert_eq!(cfg.seccomp.deny, [("read".to_owned(), Errno::Eperm)]);
    // Still checked, wherever it stands.
    assert!(matches!(
        parse(r#"seccomp { deny "read" errno="EIO" errno="EPERM" }"#),
        Err(ConfigError::BadArgument { .. })
    ));
}

#[test]
fn seccomp_children_are_checked_like_the_dbus_ones() {
    assert!(matches!(
        parse(r#"seccomp "x""#),
        Err(ConfigError::BadArgument { .. })
    ));
    assert!(matches!(
        parse("seccomp foo=bar"),
        Err(ConfigError::UnknownProperty { .. })
    ));
    assert!(matches!(
        parse(r#"seccomp { frob "read" }"#),
        Err(ConfigError::UnknownNode(n)) if n == "frob"
    ));
    for text in [
        "seccomp { allow }",
        "seccomp { deny }",
        "seccomp { allow 1 }",
        r#"seccomp { allow "read" { deny "write" } }"#,
        r#"seccomp { (t)allow "read" }"#,
        r#"seccomp { allow (t)"read" }"#,
        r#"seccomp { allow "a b" }"#,
        r#"seccomp { allow "" }"#,
        r#"seccomp { deny "read" errno="EIO" }"#,
        r#"seccomp { deny "read" errno=1 }"#,
        r#"seccomp { disable "x" }"#,
        "seccomp { disable { x } }",
    ] {
        assert!(
            matches!(parse(text), Err(ConfigError::BadArgument { .. })),
            "{text}"
        );
    }
    assert!(matches!(
        parse(r#"seccomp { allow "read" errno="EPERM" }"#),
        Err(ConfigError::UnknownProperty { prop, .. }) if prop == "errno"
    ));
    assert!(matches!(
        parse(r#"seccomp { deny "read" foo="x" }"#),
        Err(ConfigError::UnknownProperty { .. })
    ));
}

#[test]
fn include_is_a_profile_node_only() {
    let raw = parse_profile("include \"gui\"\nwayland\ninclude \"audio\"").unwrap();
    assert_eq!(raw.includes, vec!["gui".to_string(), "audio".to_string()]);
    assert_eq!(
        raw.config.services,
        vec![Service::Wayland(WaylandMode::Sandboxed)]
    );
    assert!(!raw.tty_set);

    let err = parse("include \"gui\"").unwrap_err();
    assert!(
        matches!(&err, ConfigError::BadArgument { node, .. } if node == "include"),
        "{err:?}"
    );
    assert!(err.message().contains("only valid in profiles"), "{err:?}");

    for text in [
        "include",
        "include \"a\" \"b\"",
        "include name=\"a\"",
        "include \"a\" { x; }",
    ] {
        assert!(parse_profile(text).is_err(), "{text}");
    }
}

#[test]
fn a_profile_layer_may_leave_the_dbus_grant_to_a_lower_one() {
    // The bundle check belongs to the merged result, not to a layer
    // that only adds `notify` on top of an included `dbus`.
    assert!(parse_profile("include \"base\"\nnotify").is_ok());
    assert!(matches!(
        parse("notify"),
        Err(ConfigError::BadArgument { node, .. }) if node == "notify"
    ));
}

#[test]
fn lint_allow_names_a_check_and_says_why() {
    let cfg =
        parse("lint-allow \"x11-without-reason\" reason=\"the client has no Wayland backend\"")
            .unwrap();
    assert_eq!(
        cfg.lint_allows,
        vec![LintAllow {
            id: "x11-without-reason".to_owned(),
            reason: "the client has no Wayland backend".to_owned(),
        }]
    );
    assert!(parse("").unwrap().lint_allows.is_empty());
}

#[test]
fn lint_allow_refuses_what_it_could_never_silence() {
    // A typo, a check that reports an error, and a node that names no
    // check at all: each would be a suppression that suppresses
    // nothing, and nothing would ever say so.
    for text in [
        "lint-allow \"x11-without-reasons\" reason=\"typo\"",
        "lint-allow \"bundle-without-dbus\" reason=\"no\"",
        "lint-allow reason=\"nothing to allow\"",
        "lint-allow \"x11-without-reason\"",
        "lint-allow \"x11-without-reason\" reason=\"  \"",
        "lint-allow \"x11-without-reason\" \"seccomp-disabled\" reason=\"two\"",
        "lint-allow \"x11-without-reason\" why=\"wrong property\"",
        "lint-allow \"x11-without-reason\" reason=\"r\" { x; }",
    ] {
        assert!(parse(text).is_err(), "{text}");
    }
    assert!(matches!(
        parse(
            "lint-allow \"x11-without-reason\" reason=\"a\"\nlint-allow \"x11-without-reason\" reason=\"b\""
        ),
        Err(ConfigError::Duplicate(_))
    ));
}

#[test]
fn tty_set_says_whether_the_node_was_written() {
    assert!(!parse_profile("wayland").unwrap().tty_set);
    let raw = parse_profile("tty \"pty\"").unwrap();
    assert!(raw.tty_set);
    assert_eq!(raw.config.tty, TtyMode::Pty);
}

#[test]
fn the_node_table_is_the_list_of_nodes_the_parser_takes() {
    // Every name in the table reaches an arm of its own: a name the
    // table holds and the parser does not would be a node the
    // catalogue describes and no config can hold.
    for node in NODES {
        let err = parse(node).err();
        assert!(
            !matches!(err, Some(ConfigError::UnknownNode(_))),
            "`{node}` is in NODES and the parser does not take it"
        );
    }
    assert!(matches!(
        parse("teleport"),
        Err(ConfigError::UnknownNode(n)) if n == "teleport"
    ));
    // `include` is the one node only a profile takes, so it is not in
    // the table an instance config is measured against.
    assert!(!NODES.contains(&"include"));
    assert!(parse_profile("include \"generic\"").is_ok());
    let mut sorted = NODES.to_vec();
    sorted.sort_unstable();
    sorted.dedup();
    assert_eq!(sorted.len(), NODES.len(), "NODES holds a name twice");
}

#[test]
fn every_grant_knows_the_node_it_is_written_as() {
    for (text, node) in [
        ("wayland", "wayland"),
        ("x11", "x11"),
        ("network \"host\"", "network"),
        ("dri", "dri"),
        ("pipewire", "pipewire"),
        ("pulseaudio", "pulseaudio"),
        ("home-share \"Downloads\"", "home-share"),
        ("path-share \"/mnt/data\"", "path-share"),
        ("etc-share \"vulkan\"", "etc-share"),
        ("app-runtime \"org.example.App\"", "app-runtime"),
        ("dbus", "dbus"),
        (
            "system-bus { talk \"org.freedesktop.UPower\" }",
            "system-bus",
        ),
        ("portals", "portals"),
        ("notify", "notify"),
        ("tray", "tray"),
        ("gamepad", "gamepad"),
        ("hidraw", "hidraw"),
        ("camera", "camera"),
        ("mpris name=\"x\"", "mpris"),
    ] {
        let cfg = parse_profile(text)
            .unwrap_or_else(|e| panic!("{text}: {}", e.message()))
            .config;
        let [svc] = cfg.services.as_slice() else {
            panic!("{text} granted no single service");
        };
        assert_eq!(svc.node_name(), node, "{text}");
        assert!(NODES.contains(&svc.node_name()), "{node} is not in NODES");
    }
}

#[test]
fn the_desktop_node_names_one_entry_file_and_nothing_else() {
    assert_eq!(parse("").unwrap().desktop, None);
    assert_eq!(
        parse("desktop \"org.mozilla.Thunderbird.desktop\"")
            .unwrap()
            .desktop
            .as_deref(),
        Some("org.mozilla.Thunderbird.desktop")
    );
    // A path, a name that is not an entry, and every shape that is
    // not one string: each would name a file the lookup would have to
    // guess at.
    for text in [
        "desktop \"/usr/share/applications/kitty.desktop\"",
        "desktop \"sub/kitty.desktop\"",
        "desktop \"kitty\"",
        "desktop \".desktop\"",
        "desktop \"..desktop\"",
        "desktop \"\"",
        "desktop",
        "desktop \"a.desktop\" \"b.desktop\"",
        "desktop name=\"a.desktop\"",
        "desktop \"a.desktop\" { x; }",
        "desktop 1",
    ] {
        assert!(parse(text).is_err(), "{text}");
    }
    assert!(matches!(
        parse("desktop \"a.desktop\"\ndesktop \"b.desktop\""),
        Err(ConfigError::Duplicate(n)) if n == "desktop"
    ));
}

/// Nesting the KDL parser would recurse into the stack on. The
/// minimised input from the fuzzer: a node and nothing but open
/// braces, which aborted the process before the bound existed.
fn brace_bomb(n: usize) -> String {
    format!("a {}", "{".repeat(n))
}

/// `n` levels of well-formed children, which the parser accepts as
/// far as the bound lets it reach.
fn nested(n: usize) -> String {
    let mut s = String::new();
    for _ in 0..n {
        s.push_str("a {\n");
    }
    for _ in 0..n {
        s.push_str("}\n");
    }
    s
}

#[test]
fn nesting_past_the_bound_is_refused_before_the_parser_recurses() {
    let evil = brace_bomb(1400);
    assert!(matches!(parse(&evil), Err(ConfigError::TooDeep { .. })));
    assert!(matches!(
        parse_profile(&evil),
        Err(ConfigError::TooDeep { .. })
    ));
    assert!(matches!(
        node_lines(&evil),
        Err(ConfigError::TooDeep { .. })
    ));
}

#[test]
fn the_bound_admits_its_own_depth_and_stops_one_past_it() {
    // The parser and not the pre-check alone: this runs on the 2 MiB
    // stack a spawned thread has, where an unoptimised `kdl` 6.7.1
    // overflows at 62 levels. A bound the parser survives even there
    // is what [`MAX_NESTING`] is for, so a rise past what that stack
    // takes aborts this test rather than someone's process.
    assert!(parse_document(&nested(MAX_NESTING)).is_ok());
    assert!(matches!(
        check_bounds(&nested(MAX_NESTING + 1)),
        Err(ConfigError::TooDeep { line, max })
            if line == u32::try_from(MAX_NESTING).unwrap() + 1 && max == MAX_NESTING
    ));
    // And the whole way through: `parse` refuses it rather than
    // reaching the parser with it.
    assert!(matches!(
        parse_profile(&nested(MAX_NESTING + 1)),
        Err(ConfigError::TooDeep { .. })
    ));
}

/// What the parser may recurse on besides braces is bounded too, and a text at
/// each of the bounds is one it survives on the stack of a test's thread.
#[test]
fn a_text_at_the_bounds_is_parsed_or_refused_and_never_overflows() {
    let marks = |n: usize| format!("/* {}*/", "* ".repeat(n));
    let deep = |n: usize, inner: &str| {
        format!("{}{inner}\n{}", "a {\n".repeat(n), "}\n".repeat(n))
    };
    for text in [
        ")".repeat(380),
        "}".repeat(380),
        "a .5 ".repeat(300),
        format!("{}\na {}", ")".repeat(120), "{".repeat(MAX_NESTING)),
        format!("a {} b", "/-".repeat(9)),
        format!("{}{}", "a /-{ ".repeat(7), " }".repeat(7)),
        format!("a /{}", "{".repeat(MAX_NESTING)),
        format!("a \"\n{}", "{".repeat(MAX_NESTING)),
    ] {
        assert!(matches!(check_bounds(&text), Ok(())), "{text}");
        assert!(matches!(parse_document(&text), Ok(_) | Err(ConfigError::Parse(_))), "{text}");
    }
    for text in [
        marks(20_000),
        format!("{}{}", "/*".repeat(5000), "*/".repeat(5000)),
        deep(31, &marks(20_000)),
        deep(MAX_NESTING, "b \"}\" c=#true 12 // }"),
    ] {
        assert!(parse_document(&text).is_ok(), "{text}");
    }
    // Past the bounds the parser is handed the beginning alone, and says what
    // is wrong with it.
    for text in [
        ")".repeat(100_000),
        format!("a\n{}", "}".repeat(100_000)),
        "/*".repeat(100_000),
        format!("a \"\n{}", "{".repeat(100_000)),
        format!("b\n// x\r{}", "{".repeat(100_000)),
        format!("a {} b", "/-".repeat(20_000)),
        "a #true=1\n".repeat(10_000),
        format!("a \"b\n{}", "c \"{\" \"/*\"\n".repeat(10_000)),
    ] {
        assert!(matches!(check_bounds(&text), Ok(())));
        assert!(matches!(parse(&text), Err(ConfigError::Parse(f)) if !f.is_empty()));
    }
    // A number of as many digits as the parser can hold is not plain, and what
    // follows is too much to find a fault in.
    let held = format!("b\na {}\n{}", i128::MAX, "c 1 1 1 1 1 1 1 1\n".repeat(200));
    assert!(matches!(parse(&held), Err(ConfigError::Tangled { line: 2 })));
    let few = format!("b\na {}\n{}", i128::MAX, "c 1 1 1 1 1 1 1 1\n".repeat(20));
    assert!(parse_document(&few).is_ok());
    let refused = ConfigError::Tangled { line: 7 };
    assert_eq!(refused.message(), "too much for the KDL parser from line 7 on");
}

/// Whatever the grammar offers is plain, however much follows it: the parser
/// takes each of these, and a long file behind it too.
#[test]
fn every_form_the_grammar_offers_may_be_followed_by_a_long_file() {
    let long = "home-share \"~/a-b/c.d\" mode=\"rw\"\n".repeat(300);
    for text in [
        "\u{feff}a",
        "a /-b /-b /-b /-b /-b /-b /-b /-b /-b /-b /-b",
        "a /-b=1 c /- \n \"d\" /-(t)e /-k = (t)v",
        "a /-{ x; } { y }",
        "a { y } /-{ z }",
        "a 1 /-x /-{ z } {\n}",
        "/-a { b { /-c { d; /-e }\n} }",
        "/- // c\n a 1",
        "a { b; /-c }",
        "(t)a (u)1 ( v )\"x\" k=(w)#true",
        "( \"t\" ) a (u) -1 k = ( w ) z",
        "\u{e9} \u{f1}=\"x\" -x --long .y -.z + - ~a <b>,c:d",
        "a \"\\u{e9}\\u{1F600}\\u{10ffff}\\u{0}\\u{0041}\" \"\\\\ \\\" \\b\\f\\n\\r\\s\\t\"",
        "a \"x\\\n   y\\   z\"",
        "a \"\"\"\n    x\n     y \"\" z \\\"\"\" {\n\n  \n    \"\"\" b",
        "a \"\"\"\n  x \\\n y \\  z\n  \"\"\"",
        "a \"\"\"\r\n\tx\r\n\t\"\"\"",
        "a \"\"\"\n\"\"\"",
        "a #\"\"\"\n  {\"\n  \"\"\"\n  \"\"\"# b",
        "a ##\"x\"#y\\\"## #\"\"# #\"\"\"x\"#",
        "a 1.5 -2e10 0x1F -0o17 0b1_0 1_000 +3.25E-2 0 7_.5_e+1_",
        "a #true #false #nan #inf #-inf #null",
        "a/*c*/b/*d*/=/*e*/1/*f*/",
        "a\u{3000}b\u{2003}c\u{a0}",
        "a 1\u{85}b\u{2028}c\u{c}d\u{b}e\r\nf\rg\u{2029}",
        "a \\ // comment\n b \\\r\n c",
        "a\\\n b",
        "a{b}",
        "a {}; b { c 1; d } // e",
        "a k = v",
        "\"a\" \"b\"=\"c\" #\"d\"#=e",
        "/* * / ** // /* { */ \" */ a /* } */ 1 // \" {",
        "a /* \u{1} */ // \u{1}",
    ] {
        let whole = format!("{text}\n{long}");
        assert!(matches!(check_bounds(&whole), Ok(())), "{text}");
        assert!(parse_document(&whole).is_ok(), "{text}");
    }
}

/// What a `/-` takes out of a node leaves the node as it was.
#[test]
fn entries_that_are_taken_out_do_not_refuse_the_node() {
    let text = format!("wayland{}", " /-a".repeat(11));
    assert_eq!(
        parse(&text).unwrap().services,
        vec![Service::Wayland(WaylandMode::Sandboxed)]
    );
}

/// A comment is handed over without the marks inside it, and every node
/// behind it keeps its place.
#[test]
fn a_comment_full_of_marks_moves_no_node() {
    let text = format!("/*\n{}\n*/ wayland\n", "*\n/ \u{e9}".repeat(500));
    let (given, cut) = hand_over(&text);
    assert_eq!((given.len(), cut), (text.len(), None));
    assert_eq!(given.matches(['*', '/']).count(), 4);
    assert_eq!(node_lines(&text).unwrap().services, vec![Some(503)]);
    let plain = "a \"/* * */\" // * /";
    assert_eq!(hand_over(plain), (plain.to_owned(), None));
}

/// A string of several lines ends at its three quotes, whatever quotes stand
/// inside, and braces behind it are counted.
#[test]
fn a_string_of_several_lines_hides_no_braces_behind_it() {
    for open in ["\"\"\"", "#\"\"\""] {
        let close: String = open.chars().rev().collect();
        let text = format!("a {open}\n\"\n{close}\n{}", nested(MAX_NESTING + 8));
        assert!(matches!(parse(&text), Err(ConfigError::TooDeep { .. })), "{text}");
    }
}

/// A file that is plain KDL is never too much, however long it is.
#[test]
fn a_long_plain_file_is_parsed() {
    let mut text = String::from("// \u{2014} d\u{e9}p\u{f4}t\r\n/* { /* \" */ } */\n");
    for i in 0..500 {
        text.push_str(&format!("home-share \"a/b.c-{i}\" mode=\"rw\" // {{ {i}\n"));
        text.push_str("/-wayland \"host\"\n");
        text.push_str("/-dbus {\n    talk \"org.a.B\"; /-own \"org.c.D\"\n}\n");
        text.push_str(&format!("path-share \\\n  \"/srv/{i}\" mode = \"ro\" \\ \r\n\n"));
    }
    text.push_str("dbus { talk \"org.a.B\"; own #\"org.{.C\"# }\ncommand \"a\\\"{\" b\n");
    assert!(matches!(check_bounds(&text), Ok(())));
    assert!(!matches!(parse(&text), Err(ConfigError::Parse(_) | ConfigError::Tangled { .. })));
}

#[test]
fn a_configuration_past_the_size_bound_is_refused_unparsed() {
    let big = "// filler\n".repeat(MAX_BYTES / 10 + 1);
    assert!(big.len() > MAX_BYTES);
    assert!(matches!(
        parse(&big),
        Err(ConfigError::TooLarge { bytes, max }) if bytes == big.len() && max == MAX_BYTES
    ));
}

#[test]
fn the_pre_check_counts_braces_outside_strings_and_comments() {
    let braces = "{".repeat(MAX_NESTING * 4);
    // A profile that grants what it says still parses, however many
    // braces its text holds where nesting is not what they mean.
    for text in [
        format!("// {braces}\ncommand \"true\"\n"),
        format!("/* {braces} */\ncommand \"true\"\n"),
        format!("/* /* {braces} */ */\ncommand \"true\"\n"),
        format!("command \"{braces}\"\n"),
        format!("command #\"{braces}\"#\n"),
        format!("command \"\"\"\n{braces}\n\"\"\"\n"),
        "dbus {\n    talk \"org.a.B\"\n}\ncommand \"true\"\n".to_owned(),
    ] {
        assert!(parse(&text).is_ok(), "{text}");
    }
}

#[test]
fn a_syntax_error_says_where_and_what() {
    let text = "wayland\nenv A=\"1\n";
    let Err(ConfigError::Parse(faults)) = parse(text) else {
        panic!("an unterminated string was parsed");
    };
    assert!(!faults.is_empty());
    for fault in &faults {
        assert!(fault.offset <= text.len(), "{fault:?}");
    }
    assert!(faults.iter().any(|f| f.offset > 0 && f.message.is_some()), "{faults:?}");
    assert_eq!(ConfigError::Parse(faults).message(), "invalid KDL");
}

#[test]
fn a_document_is_taken_over_node_by_node() {
    let text = "a 1 (t)\"x\" k=#true { b; c 2.5 #null }";
    let nodes = parse_document(text).unwrap();
    assert_eq!(nodes.len(), 1);
    let a = &nodes[0];
    assert_eq!((a.name.as_str(), a.typed, a.offset), ("a", false, 0));
    assert_eq!(a.entries.len(), 3);
    assert_eq!(a.entries[0].value, Scalar::Integer(1));
    assert!(a.entries[1].typed);
    assert_eq!(a.entries[1].value, Scalar::Text("x".to_owned()));
    assert_eq!(a.entries[2].name.as_deref(), Some("k"));
    assert_eq!(a.entries[2].value, Scalar::Bool(true));
    let children = a.children.as_ref().unwrap();
    assert_eq!(children.len(), 2);
    assert_eq!(children[0].name, "b");
    assert!(children[0].children.is_none());
    assert_eq!(children[1].entries[0].value, Scalar::Other);
    assert_eq!(children[1].entries[1].value, Scalar::Other);
}

#[test]
fn every_config_error_says_what_it_is_about() {
    let bad = parse("home-share \"/etc\"").unwrap_err();
    assert_eq!(
        bad.message(),
        "bad argument for `home-share`: path must be relative to the home directory and contain \
         no `..`"
    );
    assert_eq!(
        parse("dri\ndri").unwrap_err().message(),
        "`dri` given more than once"
    );
    assert_eq!(
        parse("usbx").unwrap_err().message(),
        "unknown node `usbx`"
    );
    assert_eq!(
        parse("gamepad foo=#true").unwrap_err().message(),
        "node `gamepad` does not accept property `foo`"
    );
    assert_eq!(
        ConfigError::MissingCommand.message(),
        "no command: add a `command` node to the config or pass one after `--`"
    );
    let deep = parse(&brace_bomb(40)).unwrap_err();
    assert_eq!(deep.message(), "`{` nested deeper than 32 at line 1");
}

#[test]
fn an_accessibility_or_input_method_grant_requires_the_bus() {
    for node in ["a11y", "input-method"] {
        assert!(matches!(
            parse(node),
            Err(ConfigError::BadArgument { node: n, reason }) if n == node && reason == "requires dbus"
        ));
        assert!(parse(&format!("dbus\n{node}")).is_ok(), "{node}");
    }
}

#[test]
fn sound_is_granted_by_either_server() {
    assert!(parse("pipewire").unwrap().audio());
    assert!(parse("pulseaudio").unwrap().audio());
    assert!(!parse("dri").unwrap().audio());
}

#[test]
fn one_rule_says_one_policy_for_its_name() {
    assert_eq!(
        BusRule::Talk("a.b".to_owned()).policy(),
        Some(("a.b", "talk"))
    );
    assert_eq!(BusRule::Call("a.b".to_owned(), "c".to_owned()).policy(), None);
}
