//! The buses of a sandbox: identity, rules, the proxy and where the host's
//! are.

use bubbler_core::config::{BusRule, Service, WaylandMode};
use bubbler_core::dbus::address::{
    a11y_answer, a11y_failure, a11y_question, bus_note, host_a11y_bus, host_bus, host_system_bus,
    unix_path, SYSTEM_BUS_PATH,
};
use bubbler_core::dbus::plan::{
    A11Y_NODE, A11Y_RULES, A11Y_SOCKET, PROXY_BIN, SESSION_NODE, SESSION_SOCKET, SYSTEM_NODE,
    SYSTEM_SOCKET,
};
use bubbler_core::dbus::proxy::BWRAPINFO;
use bubbler_core::dbus::{
    app_bus_path, app_id, flatpak_instance_dir, flatpak_instance_id, guarded_host_a11y_bus,
    guarded_host_bus, guarded_host_system_bus, is_valid_app_id, plan, proxy_bus_path,
    proxy_command, proxy_command_nodes, proxy_program, socket_dir, HostBuses, Plan, Rule,
};
use bubbler_core::dbus_wire::{Value, WireError};
use bubbler_core::env::{Env, DEFAULT_DATA_DIRS};
use bubbler_core::error::LaunchError;
use bubbler_core::host::Canonical;

fn strs(v: &[Vec<u8>]) -> Vec<&str> {
    v.iter()
        .map(|s| std::str::from_utf8(s).expect("test rules are ASCII"))
        .collect()
}

fn args(rules: &[Rule]) -> Vec<&str> {
    rules
        .iter()
        .map(|r| std::str::from_utf8(&r.arg).expect("test rules are ASCII"))
        .collect()
}

/// The session bus's rules; the plan under test grants that bus.
fn session(p: &Plan) -> Vec<&str> {
    args(&p.session.as_ref().expect("dbus is granted").rules)
}

/// The system bus's rules; the plan under test grants that bus.
fn system(p: &Plan) -> Vec<&str> {
    args(&p.system.as_ref().expect("system-bus is granted").rules)
}

fn linked(path: &str, to: &str) -> Canonical {
    Canonical {
        entries: vec![(path.into(), to.into())],
    }
}

fn env() -> Env {
    Env {
        home: "/home/han".into(),
        data_home: "/home/han/.local/share".into(),
        config_home: "/home/han/.config".into(),
        data_dirs: DEFAULT_DATA_DIRS.iter().map(|d| Vec::from(*d)).collect(),
        runtime_dir: "/run/user/1000".into(),
        uid: 1000,
        gid: 1000,
        wayland_display: None,
        display: None,
        xauthority: None,
        passthrough: vec![],
        init_override: None,
        dbus_address: None,
        dbus_system_address: None,
        at_spi_bus_address: None,
        dbus_log: false,
        net_proxy_log: false,
        seccomp_log: false,
        test_allow_path: None,
        profile_dir_override: None,
        proxy_override: None,
        pasta_override: None,
        wl_proxy_override: None,
        net_proxy_override: None,
    }
}

#[test]
fn no_bus_means_no_proxy() {
    assert!(plan(&[Service::Wayland(WaylandMode::default())], "t").is_none());
    assert!(plan(&[], "t").is_none());
}

#[test]
fn firefox_like_rules_are_bundles_in_service_order() {
    let p = plan(
        &[
            Service::Dbus { rules: vec![] },
            Service::Portals,
            Service::Notify,
            Service::Mpris {
                name: "firefox.*".into(),
            },
        ],
        "ff",
    )
    .expect("dbus is granted");
    assert_eq!(
        session(&p),
        vec![
            "--talk=org.freedesktop.portal.Desktop",
            "--talk=org.freedesktop.portal.Documents",
            "--talk=org.freedesktop.portal.FileChooser",
            "--call=org.freedesktop.portal.*=*",
            "--broadcast=org.freedesktop.portal.*=@/org/freedesktop/portal/*",
            "--talk=org.freedesktop.Notifications",
            "--own=org.mpris.MediaPlayer2.firefox.*",
        ]
    );
    assert!(p.portals);
    assert_eq!(
        p.flatpak_info,
        b"[Application]\nname=org.bubbler.ff\n\n[Instance]\ninstance-id=bubbler-ff\n".to_vec()
    );
}

/// Every rule names the node that asked for it, which is what
/// `--explain --proxy` groups them under.
#[test]
fn each_rule_carries_the_node_that_contributed_it() {
    let services = [
        Service::Wayland(WaylandMode::default()),
        Service::Dbus {
            rules: vec![BusRule::Own("org.a.B".into())],
        },
        Service::Notify,
        Service::SystemBus {
            rules: vec![BusRule::Talk("org.freedesktop.UDisks2".into())],
        },
    ];
    let p = plan(&services, "t").expect("dbus is granted");
    let nodes: Vec<(&str, usize)> = p
        .session
        .as_ref()
        .expect("dbus is granted")
        .rules
        .iter()
        .map(|r| (std::str::from_utf8(&r.arg).expect("ASCII"), r.node))
        .collect();
    assert_eq!(
        nodes,
        vec![
            ("--own=org.a.B", 1),
            ("--talk=org.freedesktop.Notifications", 2),
        ]
    );
    let system = &p.system.as_ref().expect("system-bus is granted").rules;
    assert_eq!(system.len(), 1);
    assert_eq!(system[0].node, 3);
    // A rule two nodes ask for keeps the first that did.
    let p = plan(
        &[
            Service::Dbus {
                rules: vec![BusRule::Talk("org.freedesktop.Notifications".into())],
            },
            Service::Notify,
        ],
        "t",
    )
    .expect("dbus is granted");
    let rules = &p.session.as_ref().expect("dbus is granted").rules;
    assert_eq!(rules.len(), 1);
    assert_eq!(rules[0].node, 0);
}

#[test]
fn tray_grants_only_the_status_notifier_watcher() {
    let p =
        plan(&[Service::Dbus { rules: vec![] }, Service::Tray], "t").expect("dbus is granted");
    assert_eq!(session(&p), vec!["--talk=org.kde.StatusNotifierWatcher"]);
    assert!(p.system.is_none());
    assert!(!p.portals);
}

/// The two sandboxed portal names and nothing else: the daemons' own
/// names carry their configuration interfaces, which this is not.
#[test]
fn input_method_talks_the_two_portal_names_only() {
    let p = plan(
        &[Service::Dbus { rules: vec![] }, Service::InputMethod],
        "t",
    )
    .expect("dbus is granted");
    assert_eq!(
        session(&p),
        vec![
            "--talk=org.freedesktop.portal.Fcitx",
            "--talk=org.freedesktop.portal.IBus"
        ]
    );
    let rules = &p.session.as_ref().expect("dbus is granted").rules;
    assert!(rules.iter().all(|r| r.node == 1));
    // The rules are the whole grant: no bus of its own.
    assert!(p.a11y.is_none());
}

/// The accessibility bus is a section of its own, with the fixed
/// rule set and nothing of the config's in it.
#[test]
fn a11y_is_a_third_bus_with_the_fixed_allowlist() {
    let p =
        plan(&[Service::Dbus { rules: vec![] }, Service::A11y], "t").expect("dbus is granted");
    let a = p.a11y.as_ref().expect("a11y is granted");
    assert_eq!(a.node, 1);
    assert!(a.rules.iter().all(|r| r.node == 1));
    let rules = args(&a.rules);
    assert_eq!(rules, A11Y_RULES);
    // What the grant is for: the app registers itself with the
    // registry and reads back what is registered.
    assert!(rules.iter().any(|r| r.contains("Socket.Embed@")));
    // What the same bus would otherwise offer it: every keystroke of
    // every accessible application, and input injection into the
    // session.
    assert!(!rules.iter().any(|r| {
        r.contains("RegisterKeystrokeListener")
            || r.contains("GenerateKeyboardEvent")
            || r.contains("GenerateMouseEvent")
            || r.contains("RegisterEvent")
    }));
    // Nothing of it reaches the session bus.
    assert!(session(&p).is_empty());
    assert_eq!(
        p.buses(),
        vec![(SESSION_SOCKET, SESSION_NODE), (A11Y_SOCKET, A11Y_NODE)]
    );
}

#[test]
fn explicit_rules_come_first_and_are_deduplicated() {
    let p = plan(
        &[
            Service::Notify,
            Service::Dbus {
                rules: vec![
                    BusRule::See("a.b".into()),
                    BusRule::Talk("org.freedesktop.Notifications".into()),
                    BusRule::See("a.b".into()),
                ],
            },
        ],
        "t",
    )
    .expect("dbus is granted");
    assert_eq!(
        session(&p),
        vec!["--see=a.b", "--talk=org.freedesktop.Notifications"]
    );
}

#[test]
fn every_rule_variant_has_a_glued_form() {
    let p = plan(
        &[Service::Dbus {
            rules: vec![
                BusRule::See("a.b".into()),
                BusRule::Talk("-c.d".into()),
                BusRule::Own("e.f".into()),
                BusRule::Call("g.h".into(), "i.j@/k".into()),
                BusRule::Broadcast("l.m".into(), "@/n/*".into()),
            ],
        }],
        "t",
    )
    .expect("dbus is granted");
    assert_eq!(
        session(&p),
        vec![
            "--see=a.b",
            "--talk=-c.d",
            "--own=e.f",
            "--call=g.h=i.j@/k",
            "--broadcast=l.m=@/n/*",
        ]
    );
}

#[test]
fn an_app_id_is_one_the_portal_accepts_however_the_instance_is_named() {
    for (instance, id) in [
        ("t", "org.bubbler.t"),
        ("ff", "org.bubbler.ff"),
        ("my.app", "org.bubbler.my_app"),
        ("a_b.c-d", "org.bubbler.a_b_c-d"),
        ("2fa", "org.bubbler._2fa"),
        (".hidden", "org.bubbler._hidden"),
        ("..", "org.bubbler.__"),
    ] {
        assert_eq!(app_id(instance), id, "{instance}");
        assert!(is_valid_app_id(&app_id(instance)), "{instance}");
    }
}

#[test]
fn the_app_id_grammar_is_the_one_xdg_desktop_portal_checks() {
    for ok in [
        "a.b",
        "org.bubbler.t",
        "org.bubbler.2t",
        "org.bubbler.a-b",
        "a.b.c_d",
        "org.bubbler._",
        &format!("a.{}", "x".repeat(253)),
    ] {
        assert!(is_valid_app_id(ok), "{ok}");
    }
    // The last two are what an instance name with a dash and a dot,
    // or with a leading dot, used to produce.
    for no in [
        "",
        "a",
        "a.",
        ".a",
        "a..b",
        "org.bubbler.a b",
        "a.b/c",
        "a.b\u{e9}",
        &format!("a.{}", "x".repeat(254)),
        "org.bubbler.my-app.v2",
        "org.bubbler..hidden",
    ] {
        assert!(!is_valid_app_id(no), "{no}");
    }
}

#[test]
fn without_portals_the_flatpak_info_is_the_application_section_only() {
    let p = plan(&[Service::Dbus { rules: vec![] }], "t").expect("dbus is granted");
    assert!(p.session.is_some() && p.system.is_none());
    assert!(!p.portals);
    assert_eq!(
        p.flatpak_info,
        b"[Application]\nname=org.bubbler.t\n".to_vec()
    );
}

#[test]
fn portals_look_the_instance_up_under_the_runtime_dir() {
    // Namespaced: flatpak names its own instances in the same
    // directory, with plain numbers.
    assert_eq!(
        flatpak_instance_dir(&env(), "t"),
        Vec::from("/run/user/1000/.flatpak/bubbler-t")
    );
    assert_eq!(
        [flatpak_instance_dir(&env(), "t"), b"/".to_vec(), BWRAPINFO.into()].concat(),
        Vec::from("/run/user/1000/.flatpak/bubbler-t/bwrapinfo.json")
    );
}

#[test]
fn host_bus_prefers_the_address_and_falls_back_to_the_runtime_dir() {
    let mut e = env();
    assert_eq!(host_bus(&e).unwrap(), Vec::from("/run/user/1000/bus"));
    e.dbus_address = Some("unix:path=/tmp/other,guid=deadbeef".into());
    assert_eq!(host_bus(&e).unwrap(), Vec::from("/tmp/other"));
    // An unset variable and an empty one both mean "wherever the bus
    // usually is".
    e.dbus_address = Some("".into());
    assert_eq!(host_bus(&e).unwrap(), Vec::from("/run/user/1000/bus"));
    // A transport that names no socket is refused: proxying the
    // default socket instead would be a bus the session is not on.
    for bad in [
        "tcp:host=localhost,port=1",
        "unix:abstract=/x",
        "unix:path=",
    ] {
        e.dbus_address = Some(bad.into());
        let Err(LaunchError::BadValue { service, reason }) = host_bus(&e) else {
            panic!("{bad} was accepted");
        };
        assert_eq!(service, "dbus");
        assert!(reason.contains("DBUS_SESSION_BUS_ADDRESS"), "{reason}");
    }
}

/// The guard hands back the path it checked, so what a run stats
/// and what the proxy connects to is the socket the comparison was
/// made on rather than the name the address reached it by.
#[test]
fn a_guarded_bus_path_comes_back_resolved() {
    let mut e = env();
    e.dbus_address = Some("unix:path=/run/user/1000/link/bus".into());
    let elsewhere = linked("/run/user/1000/link", "/run/user/1000/real");
    assert_eq!(
        guarded_host_bus(&elsewhere, &e).unwrap(),
        Vec::from("/run/user/1000/real/bus")
    );
    // The same address is refused when the link ends in bubbler's
    // own directory: the name it took to get there is not what is
    // compared.
    let ours = linked("/run/user/1000/link", "/run/user/1000/bubbler/t");
    assert!(
        matches!(
            guarded_host_bus(&ours, &e),
            Err(LaunchError::BadValue {
                service: SESSION_NODE,
                ..
            })
        ),
        "the link into bubbler's own directory was accepted"
    );
}

#[test]
fn proxy_command_is_the_documented_invocation() {
    let p = plan(&[Service::Dbus { rules: vec![] }, Service::Notify], "t")
        .expect("dbus is granted");
    let argv = proxy_command(
        PROXY_BIN.as_bytes(),
        &p,
        HostBuses {
            session: Some("/run/user/1000/bus".as_bytes()),
            system: None,
            a11y: None,
        },
        "/run/user/1000/bubbler/t".as_bytes(),
        false,
        "4".as_bytes(),
    );
    // The session-only invocation is what it was before the system
    // bus existed: a config without `system-bus` runs the same proxy.
    assert_eq!(
        strs(&argv),
        vec![
            "xdg-dbus-proxy",
            "--fd=4",
            "unix:path=/run/user/1000/bus",
            "/run/user/1000/bubbler/t/dbus/bus",
            "--filter",
            "--talk=org.freedesktop.Notifications",
        ]
    );
    let logged = proxy_command(
        PROXY_BIN.as_bytes(),
        &p,
        HostBuses {
            session: Some("/run/user/1000/bus".as_bytes()),
            system: None,
            a11y: None,
        },
        "/run/user/1000/bubbler/t".as_bytes(),
        true,
        "4".as_bytes(),
    );
    assert_eq!(logged[5], b"--log".to_vec());
}

/// One process, three buses: each address is followed by the socket
/// it is served on, its own `--filter` and the rules of that bus
/// alone. An option applies to the address before it
/// (`xdg-dbus-proxy(1)`), so the nine accessibility rules standing
/// after the third address are what the application may ask the
/// AT-SPI registry; the same nine after the session address would
/// name a session-bus service and leave the accessibility bus
/// filtered by nothing.
#[test]
fn the_a11y_bus_is_a_third_address_and_its_rules_follow_its_own_filter() {
    let p = plan(
        &[
            Service::Dbus { rules: vec![] },
            Service::SystemBus {
                rules: vec![BusRule::Talk("org.freedesktop.UPower".into())],
            },
            Service::A11y,
        ],
        "t",
    )
    .expect("three buses are granted");
    let argv = proxy_command(
        PROXY_BIN.as_bytes(),
        &p,
        HostBuses {
            session: Some("/run/user/1000/bus".as_bytes()),
            system: Some(SYSTEM_BUS_PATH.as_bytes()),
            a11y: Some("/run/user/1000/at-spi/bus_0".as_bytes()),
        },
        "/run/user/1000/bubbler/t".as_bytes(),
        false,
        "4".as_bytes(),
    );
    let mut expected = vec![
        "xdg-dbus-proxy",
        "--fd=4",
        "unix:path=/run/user/1000/bus",
        "/run/user/1000/bubbler/t/dbus/bus",
        "--filter",
        "unix:path=/run/dbus/system_bus_socket",
        "/run/user/1000/bubbler/t/dbus/system",
        "--filter",
        "--talk=org.freedesktop.UPower",
        "unix:path=/run/user/1000/at-spi/bus_0",
        "/run/user/1000/bubbler/t/dbus/a11y",
        "--filter",
    ];
    expected.extend_from_slice(&A11Y_RULES);
    let s = strs(&argv);
    assert_eq!(s, expected);
    let third = s
        .iter()
        .position(|a| *a == "unix:path=/run/user/1000/at-spi/bus_0")
        .expect("the third address is in the argv");
    assert!(
        s[..third].iter().all(|a| !a.contains("org.a11y.atspi")),
        "an accessibility rule applies to a bus before the a11y one: {s:?}"
    );
    // Every element of that bus is the `a11y` node's, rules included.
    let nodes = proxy_command_nodes(
        PROXY_BIN.as_bytes(),
        &p,
        HostBuses {
            session: Some("/run/user/1000/bus".as_bytes()),
            system: Some(SYSTEM_BUS_PATH.as_bytes()),
            a11y: Some("/run/user/1000/at-spi/bus_0".as_bytes()),
        },
        "/run/user/1000/bubbler/t".as_bytes(),
        false,
        "4".as_bytes(),
    );
    let tail = &nodes[nodes.len() - (3 + A11Y_RULES.len())..];
    assert!(tail.iter().all(|(_, node)| *node == Some(2)), "{tail:?}");
}

/// A bus the caller resolved no socket for is left out rather than
/// pointed at another one: an explanation of an argv builds the
/// same command without a proxy running.
#[test]
fn an_a11y_section_without_a_host_socket_is_no_bus_at_all() {
    let p =
        plan(&[Service::Dbus { rules: vec![] }, Service::A11y], "t").expect("dbus is granted");
    let argv = proxy_command(
        PROXY_BIN.as_bytes(),
        &p,
        HostBuses {
            session: Some("/run/user/1000/bus".as_bytes()),
            system: None,
            a11y: None,
        },
        "/run/user/1000/bubbler/t".as_bytes(),
        false,
        "4".as_bytes(),
    );
    assert_eq!(
        strs(&argv),
        vec![
            "xdg-dbus-proxy",
            "--fd=4",
            "unix:path=/run/user/1000/bus",
            "/run/user/1000/bubbler/t/dbus/bus",
            "--filter",
        ]
    );
}

/// Each bus's address, socket and options carry the node that granted
/// that bus, and not the proxy's own invocation: an option applies to
/// the address before it, so an explanation has to read one bus at a
/// time rather than one `command` group holding both addresses.
#[test]
fn each_bus_pair_carries_the_node_that_granted_that_bus() {
    let p = plan(
        &[
            Service::Dbus { rules: vec![] },
            Service::Notify,
            Service::SystemBus {
                rules: vec![BusRule::Talk("org.freedesktop.UPower".into())],
            },
        ],
        "t",
    )
    .expect("both buses are granted");
    let argv = proxy_command_nodes(
        PROXY_BIN.as_bytes(),
        &p,
        HostBuses {
            session: Some("/run/user/1000/bus".as_bytes()),
            system: Some(SYSTEM_BUS_PATH.as_bytes()),
            a11y: None,
        },
        "/run/user/1000/bubbler/t".as_bytes(),
        false,
        "4".as_bytes(),
    );
    let nodes: Vec<Option<usize>> = argv.iter().map(|(_, node)| *node).collect();
    assert_eq!(
        nodes,
        [
            None,    // xdg-dbus-proxy
            None,    // --fd=4
            Some(0), // unix:path=<session bus>
            Some(0), // <the socket it is served on>
            Some(0), // --filter
            Some(1), // --talk=org.freedesktop.Notifications
            Some(2), // unix:path=<system bus>
            Some(2),
            Some(2), // --filter
            Some(2), // --talk=org.freedesktop.UPower
        ]
    );
}

#[test]
fn the_system_bus_alone_is_a_plan_and_a_proxy_of_its_own() {
    let p = plan(
        &[Service::SystemBus {
            rules: vec![BusRule::Talk("org.freedesktop.UPower".into())],
        }],
        "t",
    )
    .expect("system-bus is granted");
    assert!(p.session.is_none());
    assert_eq!(system(&p), vec!["--talk=org.freedesktop.UPower"]);
    assert_eq!(p.buses(), vec![(SYSTEM_SOCKET, SYSTEM_NODE)]);
    // No session address and no session socket: the proxy is told
    // about the one bus the config granted.
    assert_eq!(
        strs(&proxy_command(
            PROXY_BIN.as_bytes(),
            &p,
            HostBuses {
                session: None,
                system: Some(SYSTEM_BUS_PATH.as_bytes()),
                a11y: None,
            },
            "/run/user/1000/bubbler/t".as_bytes(),
            false,
            "4".as_bytes(),
        )),
        vec![
            "xdg-dbus-proxy",
            "--fd=4",
            "unix:path=/run/dbus/system_bus_socket",
            "/run/user/1000/bubbler/t/dbus/system",
            "--filter",
            "--talk=org.freedesktop.UPower",
        ]
    );
}

#[test]
fn both_buses_are_one_proxy_with_the_session_pair_first() {
    let p = plan(
        &[
            Service::Dbus {
                rules: vec![BusRule::Talk("ca.desrt.dconf".into())],
            },
            Service::Notify,
            Service::SystemBus {
                rules: vec![
                    BusRule::Talk("org.freedesktop.UPower".into()),
                    BusRule::See("org.freedesktop.UDisks2".into()),
                ],
            },
        ],
        "t",
    )
    .expect("both buses are granted");
    // A bundle is a session-bus rule set; the system section holds
    // only what the node wrote.
    assert_eq!(
        session(&p),
        vec![
            "--talk=ca.desrt.dconf",
            "--talk=org.freedesktop.Notifications"
        ]
    );
    assert_eq!(
        system(&p),
        vec![
            "--talk=org.freedesktop.UPower",
            "--see=org.freedesktop.UDisks2"
        ]
    );
    assert_eq!(
        p.buses(),
        vec![(SESSION_SOCKET, SESSION_NODE), (SYSTEM_SOCKET, SYSTEM_NODE)]
    );
    assert_eq!(
        strs(&proxy_command(
            PROXY_BIN.as_bytes(),
            &p,
            HostBuses {
                session: Some("/run/user/1000/bus".as_bytes()),
                system: Some(SYSTEM_BUS_PATH.as_bytes()),
                a11y: None,
            },
            "/run/user/1000/bubbler/t".as_bytes(),
            true,
            "4".as_bytes(),
        )),
        vec![
            "xdg-dbus-proxy",
            "--fd=4",
            "unix:path=/run/user/1000/bus",
            "/run/user/1000/bubbler/t/dbus/bus",
            "--filter",
            "--log",
            "--talk=ca.desrt.dconf",
            "--talk=org.freedesktop.Notifications",
            "unix:path=/run/dbus/system_bus_socket",
            "/run/user/1000/bubbler/t/dbus/system",
            "--filter",
            "--log",
            "--talk=org.freedesktop.UPower",
            "--see=org.freedesktop.UDisks2",
        ]
    );
}

#[test]
fn the_system_bus_address_falls_back_to_the_compiled_in_path() {
    let mut e = env();
    assert_eq!(host_system_bus(&e).unwrap(), Vec::from(SYSTEM_BUS_PATH));
    e.dbus_system_address = Some("unix:path=/tmp/other,guid=deadbeef".into());
    assert_eq!(host_system_bus(&e).unwrap(), Vec::from("/tmp/other"));
    e.dbus_system_address = Some("".into());
    assert_eq!(host_system_bus(&e).unwrap(), Vec::from(SYSTEM_BUS_PATH));
    for bad in [
        "tcp:host=localhost,port=1",
        "unix:abstract=/x",
        "unix:path=",
    ] {
        e.dbus_system_address = Some(bad.into());
        let Err(LaunchError::BadValue { service, reason }) = host_system_bus(&e) else {
            panic!("{bad} was accepted");
        };
        assert_eq!(service, "system-bus");
        assert!(reason.contains("DBUS_SYSTEM_BUS_ADDRESS"), "{reason}");
    }
    // The two addresses are read from their own variables.
    e.dbus_address = Some("unix:path=/tmp/session".into());
    e.dbus_system_address = None;
    assert_eq!(host_bus(&e).unwrap(), Vec::from("/tmp/session"));
    assert_eq!(host_system_bus(&e).unwrap(), Vec::from(SYSTEM_BUS_PATH));
}

#[test]
fn a_set_at_spi_address_is_the_answer_and_only_a_unix_path_is_one() {
    let mut e = env();
    // Not this host's a11y socket: had the variable been ignored and
    // the bus asked instead, the answer would be that one.
    e.at_spi_bus_address = Some("unix:path=/tmp/from-the-variable,guid=deadbeef".into());
    assert_eq!(
        host_a11y_bus(&e).unwrap(),
        Some(Vec::from("/tmp/from-the-variable"))
    );
    // `unix:abstract=` is what at-spi's own launcher may hand out,
    // and it names no file the proxy sandbox could bind.
    for bad in [
        "tcp:host=localhost,port=1",
        "unix:abstract=/x",
        "unix:path=",
    ] {
        e.at_spi_bus_address = Some(bad.into());
        let Err(LaunchError::BadValue { service, reason }) = host_a11y_bus(&e) else {
            panic!("{bad} was accepted");
        };
        assert_eq!(service, A11Y_NODE);
        assert!(reason.contains("AT_SPI_BUS_ADDRESS"), "{reason}");
    }
}

#[test]
fn without_the_variable_the_bus_is_asked_with_one_fixed_call() {
    let e = env();
    // Nothing in the environment names the bus, so it has to be asked for.
    assert_eq!(host_a11y_bus(&e).unwrap(), None);
    let call = a11y_question();
    // One method on one object of one name, with nothing in it.
    assert_eq!(call.path, "/org/a11y/bus");
    assert_eq!(call.dest, "org.a11y.Bus");
    assert_eq!(call.iface, "org.a11y.Bus");
    assert_eq!(call.member, "GetAddress");
    assert_eq!(call.sig, "");
    assert!(call.body.is_empty());
    assert_eq!(call.fds, 0);
    let reply = vec![Value::Str("unix:path=/run/user/1000/at-spi/bus".to_owned())];
    assert_eq!(
        a11y_answer(&reply).unwrap(),
        b"/run/user/1000/at-spi/bus".to_vec()
    );
}

#[test]
fn a_bus_that_does_not_answer_is_a_launch_error_naming_the_step() {
    // What the bus answers when nothing owns the name. The message is the
    // bus's own text, so the control sequences in it are shown rather than
    // sent to whatever terminal reads the error.
    let refused = WireError::Remote {
        name: "org.freedesktop.DBus.Error.ServiceUnknown".to_owned(),
        message: "The name is not activatable \x1b]52;c;aGk=\x07\nmore".to_owned(),
    };
    let LaunchError::A11y(msg) = a11y_failure(&refused) else {
        panic!("a refused call was accepted");
    };
    assert!(msg.contains("org.a11y.Bus.GetAddress failed"), "{msg}");
    assert!(
        msg.contains("org.freedesktop.DBus.Error.ServiceUnknown"),
        "{msg}"
    );
    assert!(msg.contains("^[]52;c;aGk=^G"), "{msg}");
    assert!(!msg.contains('\x1b'), "{msg}");
    assert!(!msg.contains("more"), "{msg}");
    assert!(LaunchError::A11y(msg)
        .message()
        .starts_with("finding the accessibility bus: "),);
}

#[test]
fn a_bus_that_is_not_there_is_a_launch_error_naming_the_step() {
    // A socket named with an escape sequence: the path comes from the
    // environment, and a failure that echoed it raw would hand the terminal
    // whatever it holds.
    let missing = WireError::Connect {
        path: b"/tmp/a\x1bb/bus".to_vec(),
        reason: "No such file or directory".to_owned(),
    };
    let LaunchError::A11y(msg) = a11y_failure(&missing) else {
        panic!("a bus that is not there was accepted");
    };
    assert!(
        msg.starts_with("asking the session bus for the accessibility bus: "),
        "{msg}"
    );
    assert!(msg.contains("^["), "{msg}");
    assert!(!msg.contains('\x1b'), "{msg}");
}

#[test]
fn an_answer_that_is_no_unix_socket_is_refused_and_never_echoed() {
    // What at-spi-bus-launcher reports when it listens on an abstract socket:
    // a bus that exists and that the proxy sandbox, with no network namespace
    // of the host's, cannot reach.
    let reply = vec![Value::Str("unix:abstract=/tmp/dbus-Ab3".to_owned())];
    let Err(LaunchError::A11y(msg)) = a11y_answer(&reply) else {
        panic!("an abstract address was accepted");
    };
    assert!(msg.contains("unix:path="), "{msg}");
    // The address is host input; the message says what was wrong with it, not
    // what it held.
    assert!(!msg.contains("dbus-Ab3"), "{msg}");
}

#[test]
fn an_answer_that_is_not_one_address_is_no_answer() {
    // `GetAddress` answers with a single string. A reply with two, or with
    // none, is an answer to some other question, and picking a value out of it
    // would be a guess.
    for (sig, body) in [
        ("", vec![]),
        (
            "ss",
            vec![
                Value::Str("unix:path=/a".to_owned()),
                Value::Str("unix:path=/b".to_owned()),
            ],
        ),
        ("u", vec![Value::Uint32(1)]),
    ] {
        let Err(LaunchError::A11y(msg)) = a11y_answer(&body) else {
            panic!("a reply of {sig:?} was accepted");
        };
        assert!(msg.contains("org.a11y.Bus"), "{sig:?}: {msg}");
    }
}

#[test]
fn a_note_is_one_short_line_without_control_characters() {
    assert_eq!(bus_note("one\ntwo"), "one");
    assert_eq!(bus_note("a\tb\x7f"), "a^Ib^?");
    let long = "x".repeat(1000);
    assert!(bus_note(&long).len() < 300);
}

#[test]
fn only_a_unix_path_in_an_address_names_a_socket() {
    assert_eq!(unix_path(b"unix:path=/a,guid=1"), Some(b"/a".to_vec()));
    assert_eq!(unix_path(b"unix:abstract=/a"), None);
    assert_eq!(unix_path(b"unix:path="), None);
    assert_eq!(unix_path(b"tcp:host=a"), None);
}

#[test]
fn no_guarded_bus_is_in_the_sandboxes_own_directory() {
    let mut e = env();
    let nothing = Canonical { entries: vec![] };
    e.dbus_system_address = Some("unix:path=/run/user/1000/x/../bubbler/t/dbus/bus".into());
    assert!(guarded_host_system_bus(&nothing, &e).is_err());
    assert!(guarded_host_a11y_bus(&nothing, &e, b"/run/user/1000/bubbler/t/init.sock").is_err());
    assert_eq!(
        guarded_host_a11y_bus(&nothing, &e, b"/run/user/1000/at-spi/./bus").unwrap(),
        b"/run/user/1000/at-spi/bus".to_vec()
    );
    // A directory whose name only begins like it is another one.
    e.dbus_system_address = Some("unix:path=/run/user/1000/bubbler2/bus".into());
    assert!(guarded_host_system_bus(&nothing, &e).is_ok());
}

#[test]
fn the_sockets_of_a_proxy_are_under_the_instance() {
    let at = b"/run/user/1000/bubbler/t";
    assert_eq!(socket_dir(at), b"/run/user/1000/bubbler/t/dbus".to_vec());
    assert_eq!(
        proxy_bus_path(at, SYSTEM_SOCKET),
        b"/run/user/1000/bubbler/t/dbus/system".to_vec()
    );
    assert!(app_bus_path(at, SESSION_SOCKET).starts_with(at));
    assert_eq!(flatpak_instance_id("t"), "bubbler-t");
    let mut e = env();
    assert_eq!(proxy_program(&e), PROXY_BIN.as_bytes().to_vec());
    e.proxy_override = Some("/opt/proxy".into());
    assert_eq!(proxy_program(&e), b"/opt/proxy".to_vec());
}
