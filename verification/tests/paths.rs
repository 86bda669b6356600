//! Paths, host files and addresses.

use bubbler_core::config::address::{parse_ip, Cidr, IpAddr};
use bubbler_core::desktop::Dirs;
use bubbler_core::env::Env;
use bubbler_core::host::{Canonical, FileKind, HostFiles};
use bubbler_core::paths::{is_under, join, lexical, split_name};
use bubbler_core::text::{decimal, trim};

fn folded(path: &str) -> String {
    String::from_utf8(lexical(path.as_bytes())).unwrap()
}

#[test]
fn a_folded_path_has_no_dots_and_folds_to_itself() {
    for (path, plain) in [
        ("/run/./user//1000/", "/run/user/1000"),
        ("/a/b/../c", "/a/c"),
        ("/../a", "/a"),
        ("a/../../b", "b"),
        ("./a", "a"),
        ("/", "/"),
        ("", ""),
        ("/..", "/"),
    ] {
        assert_eq!(folded(path), plain, "{path}");
        assert_eq!(folded(&folded(path)), plain, "{path}");
    }
}

#[test]
fn a_path_is_joined_with_one_separator_and_an_absolute_one_stands() {
    assert_eq!(join(b"/a", b"b"), b"/a/b");
    assert_eq!(join(b"/a/", b"b"), b"/a/b");
    assert_eq!(join(b"", b"b"), b"b");
    assert_eq!(join(b"/a", b"/b"), b"/b");
}

#[test]
fn a_path_is_under_another_by_components_and_not_by_bytes() {
    assert!(is_under(b"/a/b", b"/a"));
    assert!(is_under(b"/a//b/.", b"/a/b"));
    assert!(!is_under(b"/ab", b"/a"));
    assert!(!is_under(b"a", b"/a"));
}

#[test]
fn the_last_name_of_a_path_is_split_off() {
    assert_eq!(
        split_name(b"/a/b/"),
        Some((b"/a".to_vec(), b"b".to_vec()))
    );
    assert_eq!(split_name(b"b"), Some((vec![], b"b".to_vec())));
    assert_eq!(split_name(b"/a/.."), None);
    assert_eq!(split_name(b"/"), None);
}

#[test]
fn the_first_entry_of_a_table_answers() {
    let files = HostFiles {
        entries: vec![
            (b"/a".to_vec(), FileKind::Socket),
            (b"/a".to_vec(), FileKind::File),
        ],
    };
    assert_eq!(files.file_type(b"/a"), Some(FileKind::Socket));
    assert!(!files.has(b"/b"));
    let real = Canonical {
        entries: vec![(b"/l".to_vec(), b"/r".to_vec())],
    };
    assert_eq!(real.canonicalize(b"/l"), Some(b"/r".to_vec()));
    assert_eq!(real.canonicalize(b"/r"), None);
}

#[test]
fn addresses_are_read_and_written_in_their_canonical_form() {
    for (text, shown) in [
        ("1.2.3.4", "1.2.3.4"),
        ("255.255.255.255", "255.255.255.255"),
        ("::", "::"),
        ("::1", "::1"),
        ("2606:4700:4700::1111", "2606:4700:4700::1111"),
        ("1:0:0:2:0:0:0:3", "1:0:0:2::3"),
        ("FE80::A", "fe80::a"),
        ("::ffff:1.2.3.4", "::ffff:1.2.3.4"),
        ("1:2:3:4:5:6:7:8", "1:2:3:4:5:6:7:8"),
    ] {
        assert_eq!(parse_ip(text).unwrap().to_text(), shown, "{text}");
    }
    for bad in [
        "", "1.2.3", "1.2.3.256", "01.2.3.4", "1.2.3.4.5", ":", ":::", "1::2::3", "12345::", "g::",
        "1:2:3:4:5:6:7", " 1.2.3.4", "1.2.3.4 ",
    ] {
        assert_eq!(parse_ip(bad), None, "{bad}");
    }
    assert_eq!(parse_ip("127.0.0.1"), Some(IpAddr::V4(0x7f00_0001)));
    assert_eq!(parse_ip("::1"), Some(IpAddr::V6(1)));
    assert!(parse_ip("127.9.9.9").unwrap().is_loopback());
    assert!(!parse_ip("128.0.0.1").unwrap().is_loopback());
    assert!(parse_ip("::1").unwrap().is_ipv6());
}

#[test]
fn a_destination_is_a_network_and_not_an_address_in_one() {
    let shown = |s: &str| Cidr::parse(s).map(|c| c.to_text());
    assert_eq!(shown("10.0.0.0/8").as_deref(), Some("10.0.0.0/8"));
    assert_eq!(shown("1.1.1.1/32").as_deref(), Some("1.1.1.1"));
    assert_eq!(shown("2606:4700::/32").as_deref(), Some("2606:4700::/32"));
    assert_eq!(shown("0.0.0.0/0").as_deref(), Some("0.0.0.0/0"));
    for bad in ["1.1.1.1/24", "1.1.1.1/33", "::1/64", "1.1.1.1/", "1.1.1.1/-1", "/8"] {
        assert_eq!(shown(bad), None, "{bad}");
    }
}

#[test]
fn every_address_is_read_back_as_it_was_written() {
    for ip in [
        IpAddr::V4(0),
        IpAddr::V4(0x0a00_00ff),
        IpAddr::V4(u32::MAX),
        IpAddr::V6(0),
        IpAddr::V6(1 << 127),
        IpAddr::V6(0xffff_c0a8_0001),
        IpAddr::V6(0x1_0000_0002_0000_0003_0000_0004),
        IpAddr::V6(u128::MAX),
    ] {
        assert_eq!(parse_ip(&ip.to_text()), Some(ip));
    }
    assert_eq!(IpAddr::V6(0xffff_c0a8_0001).to_text(), "::ffff:192.168.0.1");
    assert_eq!(IpAddr::V6(1 << 127).to_text(), "8000::");
    let block = Cidr { addr: IpAddr::V6(0x2606_4700 << 96), len: 32 };
    assert_eq!(Cidr::parse(&block.to_text()), Some(block));
}

#[test]
fn numbers_and_white_space_are_written_and_trimmed_exactly() {
    assert_eq!(decimal(0), "0");
    assert_eq!(decimal(u64::MAX), "18446744073709551615");
    assert_eq!(trim(" \t\u{2003}a b\u{a0}\n"), "a b");
    assert_eq!(trim("\u{200b}"), "\u{200b}");
}

#[test]
fn entries_are_read_from_the_data_directories_and_written_to_the_users() {
    let env = Env {
        home: "/h".into(),
        data_home: "/h/.local/share".into(),
        config_home: "/h/.config".into(),
        data_dirs: vec!["/usr/local/share".into(), "/usr/share/".into()],
        runtime_dir: "/run/user/1000".into(),
        uid: 1000,
        gid: 1000,
        wayland_display: None,
        display: None,
        xauthority: None,
        passthrough: vec![],
        init_override: None,
        dbus_address: None,
        dbus_system_address: None,
        at_spi_bus_address: None,
        dbus_log: false,
        net_proxy_log: false,
        seccomp_log: false,
        test_allow_path: None,
        profile_dir_override: None,
        proxy_override: None,
        pasta_override: None,
        wl_proxy_override: None,
        net_proxy_override: None,
    };
    let dirs = Dirs::from_env(&env);
    assert_eq!(dirs.user, b"/h/.local/share/applications");
    assert_eq!(
        dirs.lookup(),
        vec![
            b"/h/.local/share/applications".to_vec(),
            b"/usr/local/share/applications".to_vec(),
            b"/usr/share/applications".to_vec(),
        ]
    );
}
