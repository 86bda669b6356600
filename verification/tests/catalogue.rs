//! The catalogue of grants.

use bubbler_core::catalogue::{grant, grants, Risk};
use bubbler_core::config::settings::{Check, Severity};
use bubbler_core::config::{parse_profile, InstanceConfig, Names, NODES};

/// One minimal node of every kind, so what the catalogue describes is
/// measured against what the parser takes rather than against itself.
const SAMPLES: &[(&str, &str)] = &[
    ("wayland", "wayland \"host\""),
    ("x11", "x11 \"host\""),
    ("network", "network \"host\""),
    ("dri", "dri"),
    ("pipewire", "pipewire"),
    ("pulseaudio", "pulseaudio"),
    ("gamepad", "gamepad uinput=#true"),
    ("hidraw", "hidraw"),
    ("camera", "camera nodes=#true"),
    ("home-share", "home-share \"Downloads\" mode=rw"),
    ("path-share", "path-share \"/mnt/data\""),
    ("etc-share", "etc-share \"vulkan\""),
    ("app-runtime", "app-runtime \"org.example.App\""),
    ("dbus", "dbus { talk \"ca.desrt.dconf\" }"),
    (
        "system-bus",
        "system-bus { talk \"org.freedesktop.UPower\" }",
    ),
    ("portals", "portals"),
    ("notify", "notify"),
    ("tray", "tray"),
    ("mpris", "mpris name=\"example\""),
    ("a11y", "a11y"),
    ("input-method", "input-method"),
    ("tty", "tty \"none\""),
    ("userns", "userns \"disable\""),
    ("seccomp", "seccomp { disable }"),
    ("env", "env A=\"1\""),
    (
        "lint-allow",
        "lint-allow \"x11-without-reason\" reason=\"no Wayland backend\"",
    ),
    ("desktop", "desktop \"org.example.App.desktop\""),
    ("command", "command \"true\""),
];

fn names() -> Names {
    Names {
        checks: vec![Check {
            id: "x11-without-reason".to_owned(),
            severity: Severity::Warning,
        }],
        syscalls: vec![],
    }
}

#[test]
fn every_node_the_parser_takes_is_described_once_and_in_order() {
    let described: Vec<&str> = grants().iter().map(|g| g.node).collect();
    assert_eq!(described, NODES);
    assert!(grant("wayland").is_some());
    assert!(grant("teleport").is_none());
}

#[test]
fn every_entry_carries_the_three_things_a_reader_needs() {
    for g in grants() {
        assert!(!g.summary.is_empty(), "{}: no summary", g.node);
        assert!(
            !g.summary.contains('\n'),
            "{}: summary is not one line",
            g.node
        );
        assert!(
            g.cost.len() > g.summary.len(),
            "{}: cost says no more than the summary",
            g.node
        );
        assert!(
            !g.cost.contains('\n'),
            "{}: cost is not one paragraph",
            g.node
        );
        // The grammar opens with the node, so a reader can find the entry by
        // the line they wrote.
        assert!(
            g.grammar.starts_with(g.node),
            "{}: grammar does not start with the node",
            g.node
        );
        assert!(
            !g.grammar.contains('\n'),
            "{}: grammar is not one line",
            g.node
        );
    }
}

#[test]
fn each_described_node_parses_and_grants_what_it_is_named_after() {
    let sampled: Vec<&str> = SAMPLES.iter().map(|(node, _)| *node).collect();
    assert_eq!(sampled, NODES, "a node is described with no sample of it");
    for (node, text) in SAMPLES {
        let cfg = parse_profile(text, &names())
            .unwrap_or_else(|e| panic!("{text}: {}", e.message()))
            .config;
        // Every sample changes the config, so a node whose arm the parser lost
        // would be caught here rather than accepted and dropped.
        assert_ne!(cfg, InstanceConfig::default(), "{text} granted nothing");
        if let [svc] = cfg.services.as_slice() {
            assert_eq!(svc.node_name(), *node, "{text}");
        }
        assert!(grant(node).is_some(), "{node} has no catalogue entry");
    }
}

#[test]
fn the_levels_are_told_apart_in_writing() {
    assert_eq!(Risk::Narrow.name(), "narrow");
    assert_eq!(Risk::Wide.name(), "wide");
    assert_eq!(Risk::Outward.name(), "outward");
    // Every level is used: one that describes nothing is a level the table
    // draws no distinction with.
    for risk in [Risk::Narrow, Risk::Wide, Risk::Outward] {
        assert!(
            grants().iter().any(|g| g.risk == risk),
            "{} describes nothing",
            risk.name()
        );
    }
}

#[test]
fn an_entry_is_found_by_its_node_with_everything_it_says() {
    let g = grant("hidraw").unwrap();
    assert_eq!(g.node, "hidraw");
    assert_eq!(g.summary, "every /dev/hidraw* node the host has at launch");
    assert_eq!(g.risk, Risk::Wide);
    assert_eq!(g.grammar, "hidraw");
    assert!(g.cost.starts_with("Every HID device on the machine"));
    assert_eq!(grant("gamepad").unwrap().risk, Risk::Outward);
    assert_eq!(
        grant("tty").unwrap().grammar,
        "tty \"pty\"|\"passthrough\"|\"none\""
    );
}
