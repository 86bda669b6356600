//! Argument vectors.

use bubbler_core::bwrap::{
    account_paths, answered, baseline_paths, flatten, group_content, passwd_content, BwrapArgs,
    Explained, Origin, Request, FLATPAK_SPAWN_INSIDE, INIT_INSIDE,
};
use bubbler_core::env::{Env, DEFAULT_DATA_DIRS};
use bubbler_core::error::LaunchError;
use bubbler_core::host::{FileKind, HostFiles};

fn env() -> Env {
    Env {
        home: "/home/user".into(),
        data_home: "/home/user/.local/share".into(),
        config_home: "/home/user/.config".into(),
        data_dirs: DEFAULT_DATA_DIRS.iter().map(|d| Vec::from(*d)).collect(),
        runtime_dir: "/run/user/1000".into(),
        uid: 1000,
        gid: 1000,
        wayland_display: Some("wayland-1".into()),
        display: Some(":0".into()),
        xauthority: None,
        passthrough: vec![("TERM".into(), "foot".into())],
        init_override: None,
        dbus_address: None,
        dbus_system_address: None,
        at_spi_bus_address: None,
        dbus_log: false,
        net_proxy_log: false,
        seccomp_log: false,
        test_allow_path: None,
        profile_dir_override: None,
        proxy_override: None,
        pasta_override: None,
        wl_proxy_override: None,
        net_proxy_override: None,
    }
}

fn no_files() -> HostFiles {
    HostFiles { entries: vec![] }
}

trait With {
    fn with(self, path: &str, kind: FileKind) -> Self;
}

impl With for HostFiles {
    fn with(mut self, path: &str, kind: FileKind) -> Self {
        self.entries.push((path.into(), kind));
        self
    }
}

fn strs(v: &[Vec<u8>]) -> Vec<&str> {
    v.iter().map(|s| std::str::from_utf8(s).unwrap()).collect()
}

/// Where a run would write its generated files.
const DATA_DIR: &str = "/run/user/1000/bubbler/i";

fn data_path(dest: &[u8]) -> Vec<u8> {
    let dest = std::str::from_utf8(dest).unwrap();
    format!("{DATA_DIR}/{}", dest[1..].replace('/', "-")).into_bytes()
}

trait Allocator {
    fn answer(&mut self, request: &Request) -> Vec<u8>;
}

/// Numbers every fd from 3 like a dry run, so argv assertions are exact.
struct Counter(u32);

impl Counter {
    fn new() -> Self {
        Self(2)
    }

    fn bump(&mut self) -> Vec<u8> {
        self.0 += 1;
        self.0.to_string().into_bytes()
    }
}

impl Allocator for Counter {
    fn answer(&mut self, request: &Request) -> Vec<u8> {
        match request {
            Request::File { dest, .. } => data_path(dest),
            _ => self.bump(),
        }
    }
}

/// Counter that also keeps every data payload it was handed.
struct Recorder {
    seen: Vec<Vec<u8>>,
    next: Counter,
}

impl Allocator for Recorder {
    fn answer(&mut self, request: &Request) -> Vec<u8> {
        match request {
            Request::Data { content } | Request::File { content, .. } => {
                self.seen.push(content.clone());
            }
            _ => {}
        }
        self.next.answer(request)
    }
}

fn answers(requests: Vec<Request>, fds: &mut impl Allocator) -> Vec<Vec<u8>> {
    requests.iter().map(|r| fds.answer(r)).collect()
}

trait Finished {
    fn finished(self, command: &[Vec<u8>], fds: &mut impl Allocator) -> Vec<Vec<u8>>;
    fn finished_explained(self, command: &[Vec<u8>], fds: &mut impl Allocator) -> Vec<Explained>;
    fn finished_plain(self, command: &[Vec<u8>], fds: &mut impl Allocator) -> Vec<Vec<u8>>;
}

impl Finished for BwrapArgs {
    fn finished(self, command: &[Vec<u8>], fds: &mut impl Allocator) -> Vec<Vec<u8>> {
        let given = answers(self.requests(), fds);
        self.finish(command, &given)
    }

    fn finished_explained(self, command: &[Vec<u8>], fds: &mut impl Allocator) -> Vec<Explained> {
        let given = answers(self.requests(), fds);
        self.finish_explained(command, &given)
    }

    fn finished_plain(self, command: &[Vec<u8>], fds: &mut impl Allocator) -> Vec<Vec<u8>> {
        let given = answers(self.plain_requests(), fds);
        self.finish_plain(command, &given)
    }
}

#[test]
fn baseline_argv_is_exact() {
    let args = BwrapArgs::baseline(
        &env(),
        "/home/user/.local/share/bubbler/instances/t/home".as_bytes(),
        &no_files(),
    );
    let argv = args
        .finished(&["/usr/bin/true".into()], &mut Counter::new());
    assert_eq!(
        strs(&argv),
        vec![
            "--unshare-all",
            "--die-with-parent",
            "--new-session",
            "--hostname",
            "bubbler",
            "--chdir",
            "/home/bubbler",
            "--info-fd",
            "3",
            "--ro-bind",
            "/usr",
            "/usr",
            "--symlink",
            "usr/bin",
            "/bin",
            "--symlink",
            "usr/lib",
            "/lib",
            "--symlink",
            "usr/lib64",
            "/lib64",
            "--symlink",
            "usr/bin",
            "/sbin",
            "--ro-bind-try",
            "/opt",
            "/opt",
            "--size",
            "67108864",
            "--tmpfs",
            "/etc",
            "--ro-bind",
            "/run/user/1000/bubbler/i/etc-passwd",
            "/etc/passwd",
            "--ro-bind",
            "/run/user/1000/bubbler/i/etc-group",
            "/etc/group",
            "--proc",
            "/proc",
            "--dev",
            "/dev",
            "--size",
            "2147483648",
            "--tmpfs",
            "/tmp",
            "--size",
            "67108864",
            "--tmpfs",
            "/var",
            "--size",
            "67108864",
            "--tmpfs",
            "/run",
            "--bind",
            "/home/user/.local/share/bubbler/instances/t/home",
            "/home/bubbler",
            "--perms",
            "0700",
            "--dir",
            "/run/user/1000",
            "--clearenv",
            "--setenv",
            "TERM",
            "foot",
            "--setenv",
            "HOME",
            "/home/bubbler",
            "--setenv",
            "PATH",
            "/usr/bin:/home/bubbler/.local/bin",
            "--setenv",
            "XDG_RUNTIME_DIR",
            "/run/user/1000",
            "--setenv",
            "USER",
            "bubbler",
            "--setenv",
            "LOGNAME",
            "bubbler",
            "--",
            "/run/bubbler-init",
            "--socket-fd",
            "4",
            "--",
            "/usr/bin/true",
        ]
    );
}

#[test]
fn ntsync_is_bound_only_where_the_host_has_the_node() {
    let host = no_files().with("/dev/ntsync", FileKind::CharDevice);
    let argv = BwrapArgs::baseline(&env(), "/i/home".as_bytes(), &host)
        .finished(&["sh".into()], &mut Counter::new());
    let s = strs(&argv);
    let dev = s
        .windows(2)
        .position(|w| w == ["--dev", "/dev"])
        .expect("the baseline always mounts /dev");
    assert_eq!(
        &s[dev + 2..dev + 5],
        &["--dev-bind", "/dev/ntsync", "/dev/ntsync"],
        "the bind has to follow the --dev that would otherwise hide it: {s:?}"
    );

    let wrong_type = no_files().with("/dev/ntsync", FileKind::File);
    let argv = BwrapArgs::baseline(&env(), "/i/home".as_bytes(), &wrong_type)
        .finished(&["sh".into()], &mut Counter::new());
    assert!(!strs(&argv).contains(&"/dev/ntsync"));
}

#[test]
fn the_proxy_sandbox_gets_no_ntsync() {
    let host = no_files().with("/dev/ntsync", FileKind::CharDevice);
    let argv = BwrapArgs::proxy_baseline(
        Some("/run/user/1000/bus".as_bytes()),
        None,
        None,
        "/run/user/1000/bubbler/t/dbus".as_bytes(),
        &host,
    )
    .finished_plain(&["xdg-dbus-proxy".into()], &mut Counter::new());
    assert!(!strs(&argv).contains(&"/dev/ntsync"));
}

#[test]
fn proxy_baseline_argv_is_exact() {
    let (f, d, _) = (FileKind::File, FileKind::Directory, FileKind::Socket);
    let host = no_files()
        .with("/etc/ld.so.cache", f)
        .with("/etc/ld.so.conf.d", d)
        .with("/etc/nsswitch.conf", f)
        .with("/etc/hosts", f);
    let argv = BwrapArgs::proxy_baseline(
        Some("/run/user/1000/bus".as_bytes()),
        None,
        None,
        "/run/user/1000/bubbler/t/dbus".as_bytes(),
        &host,
    )
    .finished_plain(&["xdg-dbus-proxy".into()], &mut Counter::new());
    assert_eq!(
        strs(&argv),
        vec![
            "--unshare-all",
            "--die-with-parent",
            "--new-session",
            "--ro-bind",
            "/usr",
            "/usr",
            "--symlink",
            "usr/bin",
            "/bin",
            "--symlink",
            "usr/lib",
            "/lib",
            "--symlink",
            "usr/lib64",
            "/lib64",
            "--symlink",
            "usr/bin",
            "/sbin",
            "--size",
            "67108864",
            "--tmpfs",
            "/etc",
            "--ro-bind",
            "/etc/ld.so.cache",
            "/etc/ld.so.cache",
            "--ro-bind",
            "/etc/ld.so.conf.d",
            "/etc/ld.so.conf.d",
            "--ro-bind",
            "/etc/nsswitch.conf",
            "/etc/nsswitch.conf",
            "--proc",
            "/proc",
            "--dev",
            "/dev",
            "--size",
            "67108864",
            "--tmpfs",
            "/tmp",
            "--ro-bind",
            "/run/user/1000/bus",
            "/run/user/1000/bus",
            "--bind",
            "/run/user/1000/bubbler/t/dbus",
            "/run/user/1000/bubbler/t/dbus",
            "--clearenv",
            "--",
            "xdg-dbus-proxy",
        ],
        "an /etc entry that is not in PROXY_ETC must not appear"
    );
    // Without the section there is no bind of the host system bus,
    // and with it the two sockets are bound in argv order.
    assert!(!argv.iter().any(|a| a == b"/run/dbus/system_bus_socket"));
    let both = BwrapArgs::proxy_baseline(
        Some("/run/user/1000/bus".as_bytes()),
        Some("/run/dbus/system_bus_socket".as_bytes()),
        None,
        "/run/user/1000/bubbler/t/dbus".as_bytes(),
        &host,
    )
    .finished_plain(&["xdg-dbus-proxy".into()], &mut Counter::new());
    assert!(
        strs(&both).windows(6).any(|w| w
            == [
                "--ro-bind",
                "/run/user/1000/bus",
                "/run/user/1000/bus",
                "--ro-bind",
                "/run/dbus/system_bus_socket",
                "/run/dbus/system_bus_socket",
            ]),
        "{:?}",
        strs(&both)
    );
    // A system-only proxy never sees the session bus.
    let system_only = BwrapArgs::proxy_baseline(
        None,
        Some("/run/dbus/system_bus_socket".as_bytes()),
        None,
        "/run/user/1000/bubbler/t/dbus".as_bytes(),
        &host,
    )
    .finished_plain(&["xdg-dbus-proxy".into()], &mut Counter::new());
    assert!(!system_only.iter().any(|a| a == b"/run/user/1000/bus"));
}

/// Without a cap a tmpfs grows to half of host RAM, and a sandbox
/// that fills `/tmp` takes the session down with it. Each `--size`
/// has to sit directly in front of the `--tmpfs` it applies to:
/// bwrap(1) says the option affects the next tmpfs only.
#[test]
fn every_tmpfs_carries_its_own_size() {
    let argv = BwrapArgs::baseline(&env(), "/i/home".as_bytes(), &no_files())
        .finished(&["sh".into()], &mut Counter::new());
    let s = strs(&argv);
    for (size, dir) in [
        ("67108864", "/etc"),
        ("2147483648", "/tmp"),
        ("67108864", "/var"),
        ("67108864", "/run"),
    ] {
        assert!(
            s.windows(4).any(|w| w == ["--size", size, "--tmpfs", dir]),
            "{dir} has no cap: {s:?}"
        );
    }
    assert_eq!(
        s.iter().filter(|a| **a == "--tmpfs").count(),
        s.iter().filter(|a| **a == "--size").count(),
        "a tmpfs without a size: {s:?}"
    );

    // The sidecars get the same 64 MiB on both of theirs.
    let argv = BwrapArgs::proxy_baseline(
        Some("/run/user/1000/bus".as_bytes()),
        None,
        None,
        "/run/user/1000/bubbler/t/dbus".as_bytes(),
        &no_files(),
    )
    .finished_plain(&["xdg-dbus-proxy".into()], &mut Counter::new());
    let s = strs(&argv);
    for dir in ["/etc", "/tmp"] {
        assert!(
            s.windows(4)
                .any(|w| w == ["--size", "67108864", "--tmpfs", dir]),
            "{dir} has no cap: {s:?}"
        );
    }
}

/// The accessibility bus is one more host socket the proxy connects
/// to, bound read-only like the other two and only where the plan
/// holds that bus: a socket bound for a bus no section names is a
/// host bus the proxy could still reach.
#[test]
fn the_a11y_host_socket_is_bound_only_where_that_bus_is_proxied() {
    let argv = BwrapArgs::proxy_baseline(
        Some("/run/user/1000/bus".as_bytes()),
        None,
        Some("/run/user/1000/at-spi/bus_0".as_bytes()),
        "/run/user/1000/bubbler/t/dbus".as_bytes(),
        &no_files(),
    )
    .finished_plain(&["xdg-dbus-proxy".into()], &mut Counter::new());
    let s = strs(&argv);
    assert!(
        s.windows(6).any(|w| w
            == [
                "--ro-bind",
                "/run/user/1000/bus",
                "/run/user/1000/bus",
                "--ro-bind",
                "/run/user/1000/at-spi/bus_0",
                "/run/user/1000/at-spi/bus_0",
            ]),
        "{s:?}"
    );
    // The socket the proxy serves for it is created in the one
    // writable bind, not bound in from the host.
    assert!(!s.iter().any(|a| a.ends_with("/dbus/a11y")), "{s:?}");
    let without = BwrapArgs::proxy_baseline(
        Some("/run/user/1000/bus".as_bytes()),
        None,
        None,
        "/run/user/1000/bubbler/t/dbus".as_bytes(),
        &no_files(),
    )
    .finished_plain(&["xdg-dbus-proxy".into()], &mut Counter::new());
    assert!(
        !strs(&without).iter().any(|a| a.contains("at-spi")),
        "{:?}",
        strs(&without)
    );
}

#[test]
fn proxy_sandbox_takes_the_flatpak_info_data_file() {
    let mut args = BwrapArgs::proxy_baseline(
        Some("/run/user/1000/bus".as_bytes()),
        None,
        None,
        "/run/user/1000/bubbler/t/dbus".as_bytes(),
        &no_files(),
    );
    args.ro_bind_data(b"[Application]\n".to_vec(), "/.flatpak-info".as_bytes());
    let argv = args
        .finished_plain(&["xdg-dbus-proxy".into()], &mut Counter::new());
    let s = strs(&argv);
    assert!(
        s.windows(3).any(|w| w
            == [
                "--ro-bind",
                "/run/user/1000/bubbler/i/.flatpak-info",
                "/.flatpak-info"
            ]),
        "{s:?}"
    );
    // No supervisor and no control socket: the proxy is not an instance.
    assert!(!s.contains(&INIT_INSIDE));
    assert!(!s.contains(&"--info-fd"));
}

#[test]
fn etc_is_an_allowlist_of_existing_entries() {
    let (f, d, _) = (FileKind::File, FileKind::Directory, FileKind::Socket);
    let host = no_files()
        .with("/etc/hosts", f)
        .with("/etc/fonts", d)
        .with("/etc/vdpau_wrapper.cfg", f)
        .with("/etc/shadow", f);
    let argv = BwrapArgs::baseline(&env(), "/i/home".as_bytes(), &host)
        .finished(&["sh".into()], &mut Counter::new());
    let s = strs(&argv);
    let pos = |x: &str| s.iter().position(|a| *a == x).unwrap();
    assert!(s.windows(2).any(|w| w == ["--tmpfs", "/etc"]));
    assert!(
        s.windows(3)
            .any(|w| w == ["--ro-bind", "/etc/hosts", "/etc/hosts"])
    );
    assert!(
        s.windows(3)
            .any(|w| w == ["--ro-bind", "/etc/fonts", "/etc/fonts"])
    );
    assert!(s.windows(3).any(|w| w
        == [
            "--ro-bind",
            "/etc/vdpau_wrapper.cfg",
            "/etc/vdpau_wrapper.cfg"
        ]));
    assert!(!s.contains(&"/etc/shadow"));
    assert!(!s.windows(3).any(|w| w == ["--ro-bind", "/etc", "/etc"]));
    assert!(pos("/etc/hosts") > pos("--tmpfs"));
    assert!(s.windows(3).any(|w| w
        == [
            "--ro-bind",
            "/run/user/1000/bubbler/i/etc-passwd",
            "/etc/passwd"
        ]));
    assert!(s.windows(3).any(|w| w
        == [
            "--ro-bind",
            "/run/user/1000/bubbler/i/etc-group",
            "/etc/group"
        ]));
    assert!(pos("/etc/passwd") < pos("--proc"));
    assert!(s.windows(3).any(|w| w == ["--setenv", "USER", "bubbler"]));
    assert!(
        s.windows(3)
            .any(|w| w == ["--setenv", "LOGNAME", "bubbler"])
    );
}

/// `etc "host"` replaces the tmpfs and its allowlist with one bind
/// of the host's whole `/etc`; the synthetic `passwd`/`group` binds
/// still follow it, in the same order, so the host username stays
/// hidden. So do the shadow-suite backups and `subuid`/`subgid`,
/// which name the host account the same way `passwd`/`group` do and
/// are not on the allowlist — but only the ones the host actually
/// has: `/etc/passwd+` here does not exist, and gets no bind of its
/// own to point nowhere.
#[test]
fn binding_the_hosts_etc_replaces_the_tmpfs_and_allowlist_with_one_bind() {
    let (f, d, _) = (FileKind::File, FileKind::Directory, FileKind::Socket);
    let host = no_files()
        .with("/etc/hosts", f)
        .with("/etc/fonts", d)
        .with("/etc/passwd-", f)
        .with("/etc/group-", f)
        .with("/etc/subuid", f)
        .with("/etc/subgid", f);
    let mut args = BwrapArgs::baseline(&env(), "/i/home".as_bytes(), &host);
    args.tag(Origin::Etc);
    args.bind_host_etc(&host);
    let argv = args.finished(&["sh".into()], &mut Counter::new());
    let s = strs(&argv);
    let pos = |x: &str| s.iter().position(|a| *a == x).unwrap();
    assert!(
        s.windows(3).any(|w| w == ["--ro-bind", "/etc", "/etc"]),
        "{s:?}"
    );
    assert!(!s.windows(2).any(|w| w == ["--tmpfs", "/etc"]), "{s:?}");
    assert!(!s.contains(&"/etc/hosts"), "{s:?}");
    assert!(!s.contains(&"/etc/fonts"), "{s:?}");
    assert!(
        s.windows(3).any(|w| w
            == [
                "--ro-bind",
                "/run/user/1000/bubbler/i/etc-passwd",
                "/etc/passwd"
            ]),
        "{s:?}"
    );
    assert!(
        s.windows(3).any(|w| w
            == [
                "--ro-bind",
                "/run/user/1000/bubbler/i/etc-group",
                "/etc/group"
            ]),
        "{s:?}"
    );
    for (src, dest) in [
        ("etc-passwd-", "/etc/passwd-"),
        ("etc-group-", "/etc/group-"),
        ("etc-subuid", "/etc/subuid"),
        ("etc-subgid", "/etc/subgid"),
    ] {
        assert!(
            s.windows(3).any(|w| w
                == [
                    "--ro-bind",
                    format!("/run/user/1000/bubbler/i/{src}").as_str(),
                    dest
                ]),
            "{s:?}"
        );
    }
    assert!(!s.contains(&"/etc/passwd+"), "{s:?}");
    assert!(!s.contains(&"/etc/group+"), "{s:?}");
    assert!(pos("/etc/passwd") > pos("/etc"), "{s:?}");
    assert!(pos("/etc/subgid") < pos("--proc"), "{s:?}");
}

/// The bind, the two synthetic files and the shadow-suite overlay
/// that follows them are all tagged with the `etc` node that asked
/// for them, not left as baseline: `--explain` groups them together
/// rather than folding them into the sandbox that would exist
/// without it.
#[test]
fn binding_the_hosts_etc_tags_the_bind_and_the_synthetic_files_with_its_own_origin() {
    let (f, _, _) = (FileKind::File, FileKind::Directory, FileKind::Socket);
    let host = no_files().with("/etc/subuid", f);
    let mut args = BwrapArgs::baseline(&env(), "/i/home".as_bytes(), &host);
    args.tag(Origin::Etc);
    args.bind_host_etc(&host);
    let argv = args
        .finished_explained(&["sh".into()], &mut Counter::new());
    let etc: Vec<&Explained> = argv.iter().filter(|i| i.origin == Origin::Etc).collect();
    assert_eq!(etc.len(), 4, "{argv:#?}");
    assert_eq!(strs(&etc[0].args), ["--ro-bind", "/etc", "/etc"]);
    assert!(etc[1].args.iter().any(|a| a == "/etc/passwd".as_bytes()), "{etc:#?}");
    assert!(etc[2].args.iter().any(|a| a == "/etc/group".as_bytes()), "{etc:#?}");
    assert!(etc[3].args.iter().any(|a| a == "/etc/subuid".as_bytes()), "{etc:#?}");
}

#[test]
fn the_alsa_configuration_is_in_the_baseline_etc() {
    // alsa-lib reads `/etc/alsa/conf.d`, never `/usr/share/alsa`
    // directly, and pipewire-alsa's `99-pipewire-default.conf` there
    // is what makes `default` the sound server. Without the entry an
    // ALSA client under `pipewire` falls back to the hardware card,
    // whose `/dev/snd` nodes no sandbox has (measured:
    // `cannot find card '0'`).
    let (_, d, _) = (FileKind::File, FileKind::Directory, FileKind::Socket);
    let host = no_files().with("/etc/alsa", d);
    let argv = BwrapArgs::baseline(&env(), "/i/home".as_bytes(), &host)
        .finished(&["sh".into()], &mut Counter::new());
    let s = strs(&argv);
    assert!(
        s.windows(3)
            .any(|w| w == ["--ro-bind", "/etc/alsa", "/etc/alsa"]),
        "{s:?}"
    );
}

#[test]
fn passwd_and_group_content() {
    assert_eq!(
        passwd_content(1000, 1000),
        b"bubbler:x:1000:1000:bubbler:/home/bubbler:/bin/sh\nnobody:x:65534:65534:nobody:/:/bin/sh\n"
            .to_vec()
    );
    assert_eq!(
        group_content(1000),
        b"bubbler:x:1000:\nnobody:x:65534:\n".to_vec()
    );
}

#[test]
fn service_binds_come_after_runtime_dir_and_before_env() {
    let mut args = BwrapArgs::baseline(&env(), "/i/home".as_bytes(), &no_files());
    args.setenv("WAYLAND_DISPLAY".as_bytes(), "wayland-1".as_bytes());
    args.ro_bind(
        "/run/user/1000/wayland-1".as_bytes(),
        "/run/user/1000/wayland-1".as_bytes(),
    );
    args.share_net();
    let finished = args.finished(&["sh".into()], &mut Counter::new());
    let argv = strs(&finished);
    let pos = |s: &str| argv.iter().position(|a| *a == s).unwrap();
    assert_eq!(
        pos("--share-net"),
        1,
        "share-net sits in phase 1 right after --unshare-all"
    );
    assert!(pos("/run/user/1000/wayland-1") > pos("--dir"));
    assert!(pos("/run/user/1000/wayland-1") < pos("--clearenv"));
    assert!(pos("WAYLAND_DISPLAY") > pos("--clearenv"));
}

#[test]
fn the_sandbox_blocks_only_when_asked_to() {
    let plain = BwrapArgs::baseline(&env(), "/i/home".as_bytes(), &no_files())
        .finished(&["sh".into()], &mut Counter::new());
    assert!(!strs(&plain).contains(&"--block-fd"));

    let mut args = BwrapArgs::baseline(&env(), "/i/home".as_bytes(), &no_files());
    args.block_until_released();
    let finished = args.finished(&["sh".into()], &mut Counter::new());
    let s = strs(&finished);
    // Phase 1, and after --info-fd: bwrap writes the info it is blocked
    // for before it reads the block fd.
    assert_eq!(&s[7..11], &["--info-fd", "3", "--block-fd", "4"], "{s:?}");
}

#[test]
fn disabling_user_namespaces_adds_two_phase_one_flags_and_nothing_else() {
    let plain = BwrapArgs::baseline(&env(), "/i/home".as_bytes(), &no_files())
        .finished(&["sh".into()], &mut Counter::new());
    let mut args = BwrapArgs::baseline(&env(), "/i/home".as_bytes(), &no_files());
    args.disable_userns();
    args.disable_userns();
    let hardened = args.finished(&["sh".into()], &mut Counter::new());
    let s = strs(&hardened);
    // Phase 1, and `--unshare-user` with it: bwrap refuses
    // `--disable-userns` on its own, and `--unshare-all` is not enough.
    assert_eq!(&s[9..11], &["--unshare-user", "--disable-userns"], "{s:?}");
    let rest: Vec<&str> = s
        .iter()
        .copied()
        .filter(|a| *a != "--unshare-user" && *a != "--disable-userns")
        .collect();
    assert_eq!(rest, strs(&plain), "nothing else about the sandbox moved");
}

/// A per-run share moves the working directory by replacing the
/// value of the baseline flag, never by adding a second one: bwrap
/// would take the last, and an explanation would show both.
#[test]
fn chdir_replaces_the_baseline_working_directory() {
    let plain = BwrapArgs::baseline(&env(), "/i/home".as_bytes(), &no_files())
        .finished(&["sh".into()], &mut Counter::new());
    let plain = strs(&plain);
    let mut args = BwrapArgs::baseline(&env(), "/i/home".as_bytes(), &no_files());
    args.chdir("/srv/src".as_bytes());
    let finished = args.finished(&["sh".into()], &mut Counter::new());
    let s = strs(&finished);
    assert_eq!(s.iter().filter(|a| **a == "--chdir").count(), 1, "{s:?}");
    let at = s.iter().position(|a| *a == "--chdir").unwrap();
    // Same place in phase 1 the baseline puts it, with only the
    // directory changed.
    assert_eq!(
        plain.iter().position(|a| *a == "--chdir"),
        Some(at),
        "{s:?}"
    );
    assert_eq!(&s[at..at + 2], &["--chdir", "/srv/src"], "{s:?}");
    assert_eq!(
        &plain[at..at + 2],
        &["--chdir", "/home/bubbler"],
        "{plain:?}"
    );
}

#[test]
fn share_net_is_idempotent() {
    let mut args = BwrapArgs::baseline(&env(), "/i/home".as_bytes(), &no_files());
    args.share_net();
    args.share_net();
    let finished = args.finished(&["sh".into()], &mut Counter::new());
    let argv = strs(&finished);
    assert_eq!(argv.iter().filter(|a| **a == "--share-net").count(), 1);
}

#[test]
fn data_items_become_read_only_binds_of_written_files() {
    let mut args = BwrapArgs::baseline(&env(), "/i/home".as_bytes(), &no_files());
    args.ro_bind_data(b"hello".to_vec(), "/etc/x".as_bytes());
    args.ro_bind_data(b"world".to_vec(), "/etc/y".as_bytes());
    let mut rec = Recorder {
        seen: Vec::new(),
        next: Counter::new(),
    };
    let argv = args.finished(&["sh".into()], &mut rec);
    let seen = rec.seen;
    let s = strs(&argv);
    assert!(
        s.windows(3)
            .any(|w| w == ["--ro-bind", "/run/user/1000/bubbler/i/etc-x", "/etc/x"])
    );
    assert!(
        s.windows(3)
            .any(|w| w == ["--ro-bind", "/run/user/1000/bubbler/i/etc-y", "/etc/y"])
    );
    // The baseline's passwd and group came through the same call
    // first, so the two written here are the last two seen.
    assert_eq!(seen[2..], [b"hello".to_vec(), b"world".to_vec()]);
}

#[test]
fn the_command_runs_under_bubbler_init_on_the_allocated_socket_fd() {
    let argv = BwrapArgs::baseline(&env(), "/i/home".as_bytes(), &no_files())
        .finished(&["sh".into()], &mut Counter::new());
    let s = strs(&argv);
    // Fd 3 went to the info pipe; the baseline passwd and group are
    // files, not descriptors, so the control socket is next.
    assert_eq!(
        &s[s.len() - 6..],
        &["--", INIT_INSIDE, "--socket-fd", "4", "--", "sh"]
    );
}

#[test]
fn the_controlling_terminal_switch_reaches_the_supervisor_argv() {
    let mut args = BwrapArgs::baseline(&env(), "/i/home".as_bytes(), &no_files());
    args.ctty();
    let argv = args.finished(&["sh".into()], &mut Counter::new());
    let s = strs(&argv);
    assert_eq!(
        &s[s.len() - 7..],
        &["--", INIT_INSIDE, "--socket-fd", "4", "--ctty", "--", "sh"]
    );
}

/// The server argv is the supervisor's argument, not bwrap's: it
/// follows the switches of the supervisor, ends with the `--` that
/// closes it, and keeps the origin of the node that asked for a
/// display. A sidecar runs no supervisor, so it never carries one.
#[test]
fn the_x11_argv_follows_the_supervisor_switches_and_keeps_its_origin() {
    let mut args = BwrapArgs::baseline(&env(), "/i/home".as_bytes(), &no_files());
    args.ctty();
    args.tag(Origin::Service(2));
    args.x11_server(vec!["/usr/bin/Xwayland".into(), ":0".into()], None);
    args.tag(Origin::Baseline);
    let explained = args
        .clone()
        .finished_explained(&["sh".into()], &mut Counter::new());
    let server = &explained[explained.len() - 2];
    assert_eq!(server.origin, Origin::Service(2));
    assert_eq!(
        strs(&server.args),
        ["--x11", "/usr/bin/Xwayland", ":0", "--"]
    );
    assert_eq!(
        server.note.as_deref(),
        Some(
            "nested Xwayland, started by bubbler-init on the first X connection; \
             -listenfd is added at run time"
        )
    );
    let plain = args
        .finished_plain(&["sh".into()], &mut Counter::new());
    assert!(!strs(&plain).contains(&"--x11"), "{plain:?}");
}

/// A window manager is one more argument of the supervisor's, after
/// the `--` that closes the server argv and before the command's
/// own: the words of the server's command line stay the server's.
#[test]
fn a_window_manager_follows_the_server_argv_it_is_not_part_of() {
    let mut args = BwrapArgs::baseline(&env(), "/i/home".as_bytes(), &no_files());
    args.tag(Origin::Service(2));
    args.x11_server(
        vec!["/usr/bin/Xwayland".into(), ":0".into()],
        Some("openbox".into()),
    );
    args.tag(Origin::Baseline);
    let explained = args
        .finished_explained(&["sh".into()], &mut Counter::new());
    let wm = &explained[explained.len() - 2];
    assert_eq!(wm.origin, Origin::Service(2));
    assert_eq!(strs(&wm.args), ["--wm", "openbox"]);
    assert_eq!(
        wm.note.as_deref(),
        Some("window manager inside the sandbox, started with the server")
    );
    let flat = flatten(explained);
    let tail = [
        "--x11",
        "/usr/bin/Xwayland",
        ":0",
        "--",
        "--wm",
        "openbox",
        "--",
        "sh",
    ];
    assert_eq!(strs(&flat[flat.len() - tail.len()..]), tail, "{flat:?}");
}

#[test]
fn bind_init_maps_the_host_binary_onto_the_fixed_inside_path() {
    let mut args = BwrapArgs::baseline(&env(), "/i/home".as_bytes(), &no_files());
    args.bind_init("/x/bubbler-init".as_bytes());
    let finished = args.finished(&["sh".into()], &mut Counter::new());
    let s = strs(&finished);
    let pos = |x: &str| s.iter().position(|a| *a == x).unwrap();
    assert!(
        s.windows(3)
            .any(|w| w == ["--ro-bind", "/x/bubbler-init", INIT_INSIDE])
    );
    assert!(pos("/x/bubbler-init") > pos("--dir"));
    assert!(pos("/x/bubbler-init") < pos("--clearenv"));
}

/// bwrap cannot make a mount point inside the read-only `/usr`, so
/// the shim needs a writable `/usr/bin` first and a remount to take
/// the write back: without the remount the sandbox can replace or
/// delete anything in it. The three are one sequence in that order,
/// and all of them after the `/usr` the overlay reads from.
#[test]
fn the_flatpak_spawn_shim_is_an_overlay_the_remount_takes_back() {
    let mut args = BwrapArgs::baseline(&env(), "/i/home".as_bytes(), &no_files());
    args.flatpak_spawn_shim("/x/bubbler-init".as_bytes());
    let explained = args
        .finished_explained(&["sh".into()], &mut Counter::new());
    let flat = flatten(explained.clone());
    let s = strs(&flat);
    let pos = |x: &str| s.iter().position(|a| *a == x).unwrap();
    assert!(
        s.windows(4)
            .any(|w| w == ["--overlay-src", "/usr/bin", "--tmp-overlay", "/usr/bin"]),
        "{s:?}"
    );
    assert!(
        s.windows(3)
            .any(|w| w == ["--ro-bind", "/x/bubbler-init", FLATPAK_SPAWN_INSIDE]),
        "{s:?}"
    );
    assert!(pos("--ro-bind") < pos("--overlay-src"), "{s:?}");
    assert!(pos("--overlay-src") < pos(FLATPAK_SPAWN_INSIDE), "{s:?}");
    assert!(pos(FLATPAK_SPAWN_INSIDE) < pos("--remount-ro"), "{s:?}");
    // The overlay is the one operation whose paths do not say what
    // it is there for, so it is the one that carries the note.
    let overlay = explained
        .iter()
        .find(|e| e.args.first().is_some_and(|a| a == b"--overlay-src"))
        .expect("the overlay is in the argv");
    assert_eq!(
        overlay.note.as_deref(),
        Some("flatpak-spawn shim (glycin, gdk-pixbuf)")
    );
}

#[test]
fn the_seccomp_program_follows_the_info_and_block_fds_in_phase_one() {
    let mut args = BwrapArgs::baseline(&env(), "/i/home".as_bytes(), &no_files());
    args.block_until_released();
    args.add_seccomp(b"12345678".to_vec(), "x86_64 + i386");
    let mut rec = Recorder {
        seen: Vec::new(),
        next: Counter::new(),
    };
    let finished = args.finished(&["sh".into()], &mut rec);
    let s = strs(&finished);
    assert_eq!(
        &s[7..13],
        &["--info-fd", "3", "--block-fd", "4", "--add-seccomp-fd", "5",],
        "{s:?}"
    );
    assert_eq!(
        rec.seen[..1],
        [b"12345678".to_vec()],
        "the program is the first data the allocator is handed"
    );
}

#[test]
fn a_sandbox_without_a_filter_has_no_seccomp_flag() {
    let argv = BwrapArgs::baseline(&env(), "/i/home".as_bytes(), &no_files())
        .finished(&["sh".into()], &mut Counter::new());
    assert!(!strs(&argv).contains(&"--add-seccomp-fd"));
}

#[test]
fn symlink_emits_arguments_in_the_service_section() {
    let mut args = BwrapArgs::baseline(&env(), "/i/home".as_bytes(), &no_files());
    args.tag(Origin::Service(0));
    args.ro_bind("/etc".as_bytes(), "/etc".as_bytes());
    args.symlink("usr/lib".as_bytes(), "/lib64".as_bytes());
    let argv = args.finished(&["sh".into()], &mut Counter::new());
    let s = strs(&argv);
    let ro_bind_pos = s
        .windows(3)
        .position(|w| w == ["--ro-bind", "/etc", "/etc"])
        .expect("ro_bind must appear in argv");
    let symlink_pos = s
        .windows(3)
        .position(|w| w == ["--symlink", "usr/lib", "/lib64"])
        .expect("symlink must appear in argv");
    assert!(
        symlink_pos > ro_bind_pos,
        "symlink must appear after the preceding ro_bind in the service phase: {s:?}"
    );
}

#[test]
fn mask_dir_emits_size_tmpfs_and_remount_ro() {
    let mut args = BwrapArgs::baseline(&env(), "/i/home".as_bytes(), &no_files());
    args.tag(Origin::Service(0));
    args.ro_bind("/etc".as_bytes(), "/etc".as_bytes());
    args.mask_dir("/sys/class/drm/card0".as_bytes());
    let argv = args.finished(&["sh".into()], &mut Counter::new());
    let s = strs(&argv);
    let ro_bind_pos = s
        .windows(3)
        .position(|w| w == ["--ro-bind", "/etc", "/etc"])
        .expect("ro_bind must appear in argv");
    let mask_start = s
        .windows(4)
        .position(|w| {
            w[0] == "--size"
                && w[1] == "4096"
                && w[2] == "--tmpfs"
                && w[3] == "/sys/class/drm/card0"
        })
        .expect("mask_dir must emit --size 4096 --tmpfs <dir>");
    assert!(
        mask_start > ro_bind_pos,
        "mask_dir must appear after the preceding ro_bind in the service phase: {s:?}"
    );
    assert_eq!(
        &s[mask_start + 4..mask_start + 6],
        &["--remount-ro", "/sys/class/drm/card0"],
        "mask_dir must follow with --remount-ro: {s:?}"
    );
}

/// What a run has to look at before its baseline is built.
#[test]
fn every_path_the_baseline_asks_about_is_known_beforehand() {
    let paths = baseline_paths();
    assert!(paths.contains(&b"/dev/ntsync".to_vec()));
    assert!(paths.contains(&b"/etc/hosts".to_vec()));
    assert!(!paths.contains(&b"/etc/shadow".to_vec()));
    // And nothing else: a file it did not ask about changes nothing.
    let with = no_files().with("/etc/shadow", FileKind::File);
    assert_eq!(
        BwrapArgs::baseline(&env(), b"/i/home", &with).finished(&[], &mut Counter::new()),
        BwrapArgs::baseline(&env(), b"/i/home", &no_files()).finished(&[], &mut Counter::new())
    );
    assert_eq!(
        strs(&account_paths()),
        [
            "/etc/passwd-",
            "/etc/passwd+",
            "/etc/group-",
            "/etc/group+",
            "/etc/subuid",
            "/etc/subgid"
        ]
    );
}

#[test]
fn each_file_and_descriptor_is_asked_for_in_the_order_it_is_named() {
    let mut args = BwrapArgs::baseline(&env(), b"/i/home", &no_files());
    args.block_until_released();
    args.add_seccomp(b"program".to_vec(), "x86_64");
    args.ro_bind_data(b"x".to_vec(), b"/etc/x");
    let plain = args.plain_requests();
    let asked = args.requests();
    assert_eq!(asked[..plain.len()], plain[..]);
    assert_eq!(asked[plain.len()..], [Request::InitSocket]);
    assert_eq!(asked[0], Request::InfoPipe);
    assert_eq!(asked[1], Request::BlockPipe);
    assert_eq!(
        asked[2],
        Request::Data {
            content: b"program".to_vec()
        }
    );
    assert_eq!(
        asked[5],
        Request::File {
            dest: b"/etc/x".to_vec(),
            content: b"x".to_vec()
        }
    );
}

#[test]
fn an_explanation_of_a_sidecar_is_its_argv() {
    let proxy = || {
        BwrapArgs::proxy_baseline(
            Some(b"/run/user/1000/bus"),
            None,
            None,
            b"/run/user/1000/bubbler/t/dbus",
            &no_files(),
        )
    };
    let command = [
        ("p".into(), Origin::Command),
        ("-v".into(), Origin::Service(3)),
    ];
    let explained = proxy().finish_plain_explained(&command, &[]);
    let argv = proxy().finish_plain(&["p".into(), "-v".into()], &[]);
    assert_eq!(explained.last().unwrap().origin, Origin::Service(3));
    assert_eq!(flatten(explained), argv);
}

#[test]
fn the_tmp_size_replaces_the_baseline_cap() {
    let mut args = BwrapArgs::baseline(&env(), b"/i/home", &no_files());
    args.tmp_size(1024);
    let argv = args.finished(&["sh".into()], &mut Counter::new());
    let s = strs(&argv);
    assert!(s.windows(4).any(|w| w == ["--size", "1024", "--tmpfs", "/tmp"]), "{s:?}");
    assert_eq!(s.iter().filter(|a| **a == "/tmp").count(), 1);
}

#[test]
fn a_mask_comes_after_every_bind_however_it_was_asked_for() {
    let mut args = BwrapArgs::baseline(&env(), b"/i/home", &no_files());
    args.mask_dir(b"/sys/masked");
    args.ro_bind(b"/sys", b"/sys");
    args.dev_bind(b"/dev/a", b"/dev/a");
    args.dev_bind_try(b"/dev/b", b"/dev/b");
    args.bind(b"/rw", b"/rw");
    let argv = args.finished(&["sh".into()], &mut Counter::new());
    let s = strs(&argv);
    let pos = |x: &str| s.iter().position(|a| *a == x).unwrap();
    assert!(pos("/sys/masked") > pos("/rw"), "{s:?}");
    assert!(pos("--dev-bind-try") > pos("--dev-bind"), "{s:?}");
}

#[test]
fn each_sidecar_binds_what_it_serves_and_nothing_else() {
    let argv = BwrapArgs::pw_context_baseline(b"/run/user/1000/pipewire-0", b"/d", &no_files())
        .finish_plain(&["c".into()], &[]);
    let s = strs(&argv);
    assert!(s.windows(3).any(|w| w == ["--bind", "/d", "/tmp"]), "{s:?}");
    let argv = BwrapArgs::pw_pulse_baseline(b"/host", b"/inside", b"/d", &no_files())
        .finish_plain(&["c".into()], &[]);
    let s = strs(&argv);
    assert!(s.windows(3).any(|w| w == ["--ro-bind", "/host", "/inside"]), "{s:?}");
    let argv = BwrapArgs::wl_proxy_baseline(b"/up", &no_files()).finish_plain(&["c".into()], &[]);
    let s = strs(&argv);
    assert!(s.windows(3).any(|w| w == ["--ro-bind", "/up", "/up"]), "{s:?}");
}

#[test]
fn nothing_that_is_asked_of_a_sandbox_undoes_its_isolation() {
    let host = no_files().with("/etc/passwd-", FileKind::File);
    let mut args = BwrapArgs::baseline(&env(), b"/i/home", &host);
    args.share_net();
    args.disable_userns();
    args.chdir(b"/srv");
    args.tmp_size(1);
    args.bind_host_etc(&host);
    args.bind(b"/usr", b"/usr");
    args.setenv(b"A", b"b");
    let argv = args.finished(&["sh".into()], &mut Counter::new());
    let s = strs(&argv);
    assert_eq!(s[0], "--unshare-all");
    assert!(s.contains(&"--die-with-parent") && s.contains(&"--new-session"), "{s:?}");
    let clear = s.iter().position(|a| *a == "--clearenv").unwrap();
    let first_set = s.iter().position(|a| *a == "--setenv").unwrap();
    assert!(clear < first_set, "{s:?}");
    let usr = s.windows(3).position(|w| w == ["--ro-bind", "/usr", "/usr"]);
    assert!(usr.is_some(), "{s:?}");
}

/// Fails every allocation, like a process out of descriptors.
#[test]
fn allocator_failure_is_data_error() {
    let mut args = BwrapArgs::baseline(&env(), b"/i/home", &no_files());
    args.ro_bind_data(b"x".to_vec(), b"/etc/x");
    let given: Vec<Result<Vec<u8>, String>> = args
        .requests()
        .iter()
        .map(|_| Err("no more".to_owned()))
        .collect();
    let r = answered(&given);
    assert!(matches!(r, Err(LaunchError::Data(_))));
}

#[test]
fn the_first_failed_allocation_is_the_one_reported() {
    let ok = |s: &str| Ok::<Vec<u8>, String>(s.into());
    let no = |s: &str| Err::<Vec<u8>, String>(s.into());
    assert_eq!(
        answered(&[ok("3"), ok("4")]),
        Ok(vec![b"3".to_vec(), b"4".to_vec()])
    );
    assert_eq!(
        answered(&[ok("3"), no("a"), no("b")]),
        Err(LaunchError::Data("a".to_owned()))
    );
    assert_eq!(
        LaunchError::Data("a".to_owned()).message(),
        "preparing an fd for bwrap"
    );
}

#[test]
fn the_account_files_agree_line_by_line() {
    let users = String::from_utf8(passwd_content(1000, 985)).unwrap();
    let groups = String::from_utf8(group_content(985)).unwrap();
    assert_eq!(users.lines().count(), groups.lines().count());
    for (user, group) in users.lines().zip(groups.lines()) {
        let user: Vec<&str> = user.split(':').collect();
        let group: Vec<&str> = group.split(':').collect();
        assert_eq!((user[0], user[3]), (group[0], group[2]));
    }
}

#[test]
fn a_mask_asked_for_first_still_comes_after_every_bind() {
    let mut args = BwrapArgs::baseline(&env(), b"/i/home", &no_files());
    args.mask_dir(b"/m");
    args.bind(b"/b", b"/b");
    args.setenv(b"K", b"V");
    let all = args.finished_explained(&["sh".into()], &mut Counter::new());
    let at = |first: &str, last: &str| {
        all.iter()
            .position(|e| {
                let s = strs(&e.args);
                s.first() == Some(&first) && s.last() == Some(&last)
            })
            .unwrap()
    };
    assert!(at("--bind", "/b") < at("--size", "/m"));
    assert_eq!(at("--size", "/m") + 1, at("--remount-ro", "/m"));
    assert!(at("--remount-ro", "/m") < at("--clearenv", "--clearenv"));
    assert!(at("--clearenv", "--clearenv") < at("--setenv", "V"));
}

/// Whatever the calls and their order, the operations come phase by phase, and
/// a failed allocation leaves none of them.
#[test]
fn operations_are_emitted_phase_by_phase_or_not_at_all() {
    let args = || {
        let mut args = BwrapArgs::baseline(&env(), b"/i/home", &no_files());
        args.setenv(b"K", b"V");
        args.mask_dir(b"/m");
        args.bind(b"/b", b"/b");
        args.ro_bind(b"/c", b"/c");
        args
    };
    let given: Vec<Result<Vec<u8>, String>> = answers(args().plain_requests(), &mut Counter::new())
        .into_iter()
        .map(Ok)
        .collect();
    let all = args().emit(&given).unwrap();
    let firsts: Vec<&str> = all.iter().map(|e| strs(&e.args)[0]).collect();
    let tail = &firsts[firsts.iter().position(|f| *f == "--bind").unwrap()..];
    let bind = all.iter().position(|e| strs(&e.args) == ["--bind", "/b", "/b"]).unwrap();
    assert_eq!(strs(&all[bind + 1].args), ["--ro-bind", "/c", "/c"]);
    assert!(tail.contains(&"--clearenv"));
    let cleared = firsts.iter().position(|f| *f == "--clearenv").unwrap();
    assert_eq!(firsts[cleared - 2..cleared], ["--size", "--remount-ro"]);
    assert!(firsts[cleared + 1..].iter().all(|f| *f == "--setenv"));
    assert_eq!(strs(&all.last().unwrap().args), ["--setenv", "K", "V"]);
    let mut failed = given;
    failed[0] = Err("no more".to_owned());
    assert_eq!(
        args().emit(&failed).unwrap_err(),
        LaunchError::Data("no more".to_owned())
    );
}
