//! The audio policy a host holds.

use bubbler_core::audio_policy::{
    explain_suffix, hook_dirs, hook_installed, install_dirs, installed, missing, run_warning,
    Missing, DROP_IN_NAME, HOOK_NAME,
};
use bubbler_core::config::{parse, Names};
use bubbler_core::env::{Env, DEFAULT_DATA_DIRS};
use bubbler_core::host::{FileKind, HostFiles};

fn env() -> Env {
    Env {
        home: b"/home/user".to_vec(),
        data_home: b"/home/user/.local/share".to_vec(),
        config_home: b"/home/user/.config".to_vec(),
        data_dirs: DEFAULT_DATA_DIRS
            .iter()
            .map(|d| d.as_bytes().to_vec())
            .collect(),
        runtime_dir: b"/run/user/1000".to_vec(),
        uid: 1000,
        gid: 1000,
        wayland_display: None,
        display: None,
        xauthority: None,
        passthrough: vec![],
        init_override: None,
        dbus_address: None,
        dbus_system_address: None,
        at_spi_bus_address: None,
        dbus_log: false,
        net_proxy_log: false,
        seccomp_log: false,
        test_allow_path: None,
        profile_dir_override: None,
        proxy_override: None,
        pasta_override: None,
        wl_proxy_override: None,
        net_proxy_override: None,
    }
}

fn join(dir: &[u8], name: &str) -> Vec<u8> {
    [dir, b"/", name.as_bytes()].concat()
}

/// Every combination of the two files a host can hold.
fn holding(paths: &[Vec<u8>]) -> HostFiles {
    HostFiles {
        entries: paths.iter().map(|p| (p.clone(), FileKind::File)).collect(),
    }
}

fn names() -> Names {
    Names {
        checks: vec![],
        syscalls: vec![],
    }
}

#[test]
fn missing_names_the_half_the_host_does_not_hold() {
    let e = env();
    let drop_in = join(&install_dirs(&e)[0], DROP_IN_NAME);
    let hook = join(&hook_dirs(&e)[0], HOOK_NAME);
    assert_eq!(
        missing(&holding(&[drop_in.clone(), hook.clone()]), &e),
        None
    );
    assert_eq!(missing(&holding(&[hook]), &e), Some(Missing::DropIn));
    assert_eq!(missing(&holding(&[drop_in]), &e), Some(Missing::Hook));
    assert_eq!(missing(&holding(&[]), &e), Some(Missing::Both));
}

#[test]
fn hook_installed_finds_the_file_in_any_data_directory() {
    let e = env();
    for dir in hook_dirs(&e) {
        let path = join(&dir, HOOK_NAME);
        assert_eq!(
            hook_installed(&holding(&[path.clone()]), &e),
            Some(path),
            "{dir:?}"
        );
    }
}

/// A diagnostic names the file the host is missing and not the one it has, or
/// the reader installs the wrong half.
#[test]
fn every_diagnostic_names_the_files_it_is_about() {
    for (case, named, unnamed) in [
        (Missing::DropIn, &[DROP_IN_NAME][..], &[HOOK_NAME][..]),
        (Missing::Hook, &[HOOK_NAME][..], &[DROP_IN_NAME][..]),
        (Missing::Both, &[DROP_IN_NAME, HOOK_NAME][..], &[][..]),
    ] {
        for text in [case.run_warning(), case.explain_suffix()] {
            for file in named {
                assert!(text.contains(file), "{case:?}: {text}");
            }
            for file in unnamed {
                assert!(!text.contains(file), "{case:?}: {text}");
            }
        }
    }
}

#[test]
fn installed_finds_the_file_in_any_of_the_three_directories() {
    let e = env();
    for dir in install_dirs(&e) {
        let path = join(&dir, DROP_IN_NAME);
        assert_eq!(
            installed(&holding(&[path.clone()]), &e),
            Some(path.clone()),
            "{dir:?}"
        );
    }
}

#[test]
fn installed_is_none_where_no_directory_holds_it() {
    let e = env();
    assert_eq!(installed(&holding(&[]), &e), None);
}

#[test]
fn run_warning_fires_only_for_an_audio_grant_with_half_a_policy() {
    let e = env();
    let whole = holding(&[
        join(&install_dirs(&e)[0], DROP_IN_NAME),
        join(&hook_dirs(&e)[0], HOOK_NAME),
    ]);
    let audio = parse("pipewire\ncommand \"true\"", &names()).unwrap();
    let silent = parse("command \"true\"", &names()).unwrap();
    assert_eq!(
        run_warning(&audio, &holding(&[]), &e),
        Some(Missing::Both.run_warning())
    );
    assert_eq!(
        run_warning(
            &audio,
            &holding(&[join(&install_dirs(&e)[0], DROP_IN_NAME)]),
            &e
        ),
        Some(Missing::Hook.run_warning())
    );
    assert_eq!(run_warning(&audio, &whole, &e), None);
    assert_eq!(run_warning(&silent, &holding(&[]), &e), None);
}

#[test]
fn explain_suffix_is_empty_once_both_files_are_installed() {
    let e = env();
    assert_eq!(
        explain_suffix(&holding(&[]), &e),
        Missing::Both.explain_suffix()
    );
    let half = holding(&[join(&install_dirs(&e)[2], DROP_IN_NAME)]);
    assert_eq!(explain_suffix(&half, &e), Missing::Hook.explain_suffix());
    let whole = holding(&[
        join(&install_dirs(&e)[2], DROP_IN_NAME),
        join(&hook_dirs(&e)[0], HOOK_NAME),
    ]);
    assert_eq!(explain_suffix(&whole, &e), "");
}

#[test]
fn the_directories_are_searched_in_order_and_listed_once() {
    let mut e = env();
    assert_eq!(
        install_dirs(&e),
        vec![
            b"/usr/share/wireplumber/wireplumber.conf.d".to_vec(),
            b"/etc/wireplumber/wireplumber.conf.d".to_vec(),
            b"/home/user/.config/wireplumber/wireplumber.conf.d".to_vec(),
        ]
    );
    assert_eq!(
        hook_dirs(&e),
        vec![
            b"/home/user/.local/share/wireplumber/scripts".to_vec(),
            b"/usr/local/share/wireplumber/scripts".to_vec(),
            b"/usr/share/wireplumber/scripts".to_vec(),
        ]
    );
    // The directory WirePlumber was built with is searched wherever the
    // variable points.
    e.data_dirs = vec![b"/opt/share".to_vec()];
    assert_eq!(
        hook_dirs(&e)[2],
        b"/usr/share/wireplumber/scripts".to_vec()
    );
}
