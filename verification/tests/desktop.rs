//! Launcher entries.

use bubbler_core::config::InstanceConfig;
use bubbler_core::desktop::entry::{base_key, head, header, lines, split_key};
use bubbler_core::desktop::files::{FileRead, Held};
use bubbler_core::desktop::lookup::{asked, scan, EntryFiles};
use bubbler_core::desktop::names::{is_entry_name, sorted_names};
use bubbler_core::desktop::quote::{exec_program, exec_quote};
use bubbler_core::desktop::{
    generated, may_write, owner, patch, program, remove, render, source, target, validate, Dirs,
};
use bubbler_core::error::DesktopError;
use bubbler_core::host::Canonical;

const KITTY: &str = "\
[Desktop Entry]
Version=1.0
Type=Application
Name=kitty
GenericName=Terminal emulator
Comment=Fast, feature-rich, GPU based terminal
TryExec=kitty
StartupNotify=true
Exec=kitty
Icon=kitty
Categories=System;TerminalEmulator;
X-TerminalArgExec=--
X-TerminalArgTitle=--title
X-TerminalArgAppId=--class
X-TerminalArgDir=--working-directory
X-TerminalArgHold=--hold
";

/// The whole generated entry for the smallest vendor file, so what is copied
/// and what is changed is one comparison.
const KITTY_PATCHED: &str = "\
[Desktop Entry]
Version=1.0
Type=Application
Name=kitty (Bubbler)
GenericName=Terminal emulator
Comment=Fast, feature-rich, GPU based terminal
TryExec=/usr/bin/bubbler
StartupNotify=true
Exec=/usr/bin/bubbler open kt -- kitty
Icon=kitty
Categories=System;TerminalEmulator;
X-TerminalArgExec=--
X-TerminalArgTitle=--title
X-TerminalArgAppId=--class
X-TerminalArgDir=--working-directory
X-TerminalArgHold=--hold
DBusActivatable=false
X-Bubbler-Instance=kt
";

const FIREFOX: &str = "\
# Excerpt of Arch firefox
[Desktop Entry]
Version=1.0
Type=Application
Exec=/usr/lib/firefox/firefox %u
Icon=firefox
DBusActivatable=true
Terminal=false
StartupNotify=true
MimeType=application/json;application/pdf;text/html;
Categories=Network;WebBrowser;
Actions=new-window;new-private-window;open-profile-manager;
Name=Firefox
Name[de]=Firefox
Name[fr]=Firefox

[Desktop Action new-window]
Exec=/usr/lib/firefox/firefox --new-window %u
Name=New Window
Name[fr]=Nouvelle fenêtre

[Desktop Action new-private-window]
Exec=/usr/lib/firefox/firefox --private-window %u
Name=New Private Window
Name[fr]=Nouvelle fenêtre de navigation privée

[Desktop Action open-profile-manager]
Exec=/usr/lib/firefox/firefox --ProfileManager
Name=Open Profile Manager
Name[fr]=Ouvrir le gestionnaire de profils
";

const KEEPASSXC: &str = "\
[Desktop Entry]
Name=KeePassXC
GenericName=Password Manager
Exec=keepassxc %f
TryExec=keepassxc
Icon=keepassxc
StartupWMClass=keepassxc
Terminal=false
Type=Application
Version=1.5
Categories=Utility;Security;Qt;
MimeType=application/x-keepass2;
";

const STEAM: &str = "\
[Desktop Entry]
Name=Steam
Comment=Application for managing and playing games on Steam
Exec=/usr/bin/steam %U
Icon=steam
Terminal=false
Type=Application
Categories=Network;FileTransfer;Game;
MimeType=x-scheme-handler/steam;x-scheme-handler/steamlink;
Actions=Store;Community;Library;Servers;Screenshots;News;Settings;BigPicture;Friends;
PrefersNonDefaultGPU=true
X-KDE-RunOnDiscreteGpu=true

[Desktop Action Store]
Name=Store
Exec=/usr/bin/steam steam://store

[Desktop Action Community]
Name=Community
Exec=/usr/bin/steam steam://url/CommunityHome/

[Desktop Action Library]
Name=Library
Exec=/usr/bin/steam steam://open/games

[Desktop Action Servers]
Name=Servers
Exec=/usr/bin/steam steam://open/servers

[Desktop Action Screenshots]
Name=Screenshots
Exec=/usr/bin/steam steam://open/screenshots

[Desktop Action News]
Name=News
Exec=/usr/bin/steam steam://openurl/https://store.steampowered.com/news

[Desktop Action Settings]
Name=Settings
Exec=/usr/bin/steam steam://open/settings

[Desktop Action BigPicture]
Name=Big Picture
Exec=/usr/bin/steam steam://open/bigpicture

[Desktop Action Friends]
Name=Friends
Exec=/usr/bin/steam steam://open/friends
";

fn patched(text: &str, instance: &str) -> String {
    patch(text, instance, b"/usr/bin/bubbler").unwrap()
}

fn dirs() -> Dirs {
    Dirs {
        user: b"/user".to_vec(),
        system: vec![b"/system".to_vec()],
    }
}

fn config(command: &str) -> InstanceConfig {
    let mut cfg = InstanceConfig::default();
    cfg.command = Some(vec![command.as_bytes().to_vec()]);
    cfg
}

fn hinted(hint: &str) -> InstanceConfig {
    let mut cfg = config("kitty");
    cfg.desktop = Some(hint.to_owned());
    cfg
}

/// The files two directories hold, each as its name and text.
fn files(user: &[(&str, &str)], system: &[(&str, &str)]) -> EntryFiles {
    let mut out = EntryFiles {
        listings: vec![],
        texts: vec![],
    };
    for (dir, held) in [("/user", user), ("/system", system)] {
        let names = held.iter().map(|(n, _)| n.as_bytes().to_vec()).collect();
        out.listings.push((dir.as_bytes().to_vec(), names));
        for (name, text) in held {
            let path = format!("{dir}/{name}");
            out.texts.push((path.into_bytes(), text.to_string()));
        }
    }
    out
}

#[test]
fn a_vendor_entry_is_copied_with_only_the_owned_keys_changed() {
    assert_eq!(patched(KITTY, "kt"), KITTY_PATCHED);
}

#[test]
fn every_action_is_rewritten_and_every_localized_name_is_marked() {
    let out = patched(FIREFOX, "ff");
    for exec in [
        "Exec=/usr/bin/bubbler open ff -- /usr/lib/firefox/firefox %u",
        "Exec=/usr/bin/bubbler open ff -- /usr/lib/firefox/firefox --new-window %u",
        "Exec=/usr/bin/bubbler open ff -- /usr/lib/firefox/firefox --private-window %u",
        "Exec=/usr/bin/bubbler open ff -- /usr/lib/firefox/firefox --ProfileManager",
    ] {
        assert!(out.contains(exec), "{exec}\n{out}");
    }
    for name in ["Name=Firefox (Bubbler)", "Name[de]=Firefox (Bubbler)"] {
        assert!(out.contains(name), "{name}");
    }
    // An action's own name is the quicklist label under an entry that is
    // already marked; marking it again would only be noise.
    assert!(out.contains("\nName=New Window\n"), "{out}");
    assert!(out.contains("\nName[fr]=Nouvelle fenêtre\n"), "{out}");
    // Everything else survives, including the comment lines, the group
    // headers and the blank lines between the actions.
    assert!(out.starts_with("# Excerpt of Arch firefox"), "{out}");
    assert!(out.contains("\nMimeType=application/json;"), "{out}");
    assert!(
        out.contains("\n\n[Desktop Action new-private-window]\n"),
        "{out}"
    );
    assert_eq!(out.lines().count(), FIREFOX.lines().count() + 2);
    assert!(out.ends_with("gestionnaire de profils\n"), "{out}");
}

#[test]
fn the_keys_that_bypass_the_sandbox_are_forced_even_where_they_are_absent() {
    // The marker and `TryExec` are not in the source; both are written at the
    // end of the group they belong to, ahead of the first action group.
    let out = patched(FIREFOX, "ff");
    let head = out.split("[Desktop Action").next().unwrap();
    assert!(head.contains("\nTryExec=/usr/bin/bubbler\n"), "{head}");
    assert!(head.contains("\nX-Bubbler-Instance=ff\n"), "{head}");
    assert_eq!(out.matches("DBusActivatable=false").count(), 1, "{out}");
    assert_eq!(owner(&out).as_deref(), Some("ff"));
    // The source's own `TryExec` is rewritten where it stands.
    let out = patched(KEEPASSXC, "kp");
    assert!(out.contains("\nTryExec=/usr/bin/bubbler\n"), "{out}");
    assert_eq!(out.matches("TryExec=").count(), 1, "{out}");
    assert!(out.contains("DBusActivatable=false"), "{out}");
}

#[test]
fn every_one_of_a_nine_action_entry_s_command_lines_is_rewritten() {
    let out = patched(STEAM, "st");
    // Ten `Exec` lines, ten rewrites: a quicklist entry that was missed would
    // start Steam outside the sandbox from the menu.
    assert_eq!(out.matches("Exec=").count(), 11);
    assert_eq!(out.matches("open st -- ").count(), 10);
    assert!(
        out.contains("Exec=/usr/bin/bubbler open st -- /usr/bin/steam steam://store"),
        "{out}"
    );
    assert_eq!(out.matches("\n[Desktop Action ").count(), 9);
    assert!(out.contains("\nActions=Store;Community;"), "{out}");
    assert_eq!(out.matches("Name=Steam (Bubbler)").count(), 1, "{out}");
    assert!(out.contains("\nName=Store\n"), "{out}");
    // Keys nothing here understands ride through untouched.
    for kept in [
        "\nPrefersNonDefaultGPU=true\n",
        "\nX-KDE-RunOnDiscreteGpu=true\n",
    ] {
        assert!(out.contains(kept), "{kept}");
    }
    assert_eq!(out.lines().count(), STEAM.lines().count() + 3);
}

#[test]
fn a_crlf_entry_keeps_its_line_endings_in_the_keys_that_are_added() {
    let source = "[Desktop Entry]\r\nType=Application\r\nName=A\r\nExec=a %u\r\n";
    let out = patched(source, "i");
    assert_eq!(
        out,
        "[Desktop Entry]\r\nType=Application\r\nName=A (Bubbler)\r\n\
         Exec=/usr/bin/bubbler open i -- a %u\r\nTryExec=/usr/bin/bubbler\r\n\
         DBusActivatable=false\r\nX-Bubbler-Instance=i\r\n"
    );
}

#[test]
fn an_entry_a_launcher_is_told_to_ignore_is_refused() {
    // `Hidden=true` is "strictly equivalent to the .desktop file not existing
    // at all", so a copy of one would be an entry that is there and does
    // nothing.
    let source = "[Desktop Entry]\nType=Application\nName=A\nExec=a\nHidden=true\n";
    assert!(matches!(
        patch(source, "i", b"/usr/bin/bubbler"),
        Err(DesktopError::Hidden)
    ));
    // Not displayed is a different thing: it is still a working entry, and
    // only the scan passes over it.
    let source = "[Desktop Entry]\nType=Application\nName=A\nExec=a\nNoDisplay=true\n";
    assert!(patch(source, "i", b"/usr/bin/bubbler").is_ok());
}

#[test]
fn a_field_code_reaches_the_command_unchanged() {
    let out = patched(KEEPASSXC, "kp");
    assert!(
        out.contains("Exec=/usr/bin/bubbler open kp -- keepassxc %f"),
        "{out}"
    );
}

#[test]
fn a_program_path_that_needs_quoting_is_quoted_once() {
    let out = patch(KITTY, "kt", b"/opt/my apps/bubbler").unwrap();
    assert!(
        out.contains("Exec=\"/opt/my apps/bubbler\" open kt -- kitty"),
        "{out}"
    );
    assert!(out.contains("TryExec=/opt/my apps/bubbler"), "{out}");
    // A percent in the path is a literal one, which an `Exec` value writes
    // `%%`; a single one would read as a field code. `TryExec` takes no field
    // codes and is written as it is.
    let out = patch(KITTY, "kt", b"/opt/100%/bubbler").unwrap();
    assert!(
        out.contains("Exec=/opt/100%%/bubbler open kt -- kitty"),
        "{out}"
    );
    assert!(out.contains("TryExec=/opt/100%/bubbler"), "{out}");
}

#[test]
fn what_is_not_an_application_entry_is_refused() {
    let generated = patched(KITTY, "kt");
    assert!(matches!(
        patch(&generated, "kt", b"/usr/bin/bubbler"),
        Err(DesktopError::Generated(i)) if i == "kt"
    ));
    assert!(matches!(
        patch("[Desktop Entry]\nType=Link\nURL=https://a\n", "kt", b"/b"),
        Err(DesktopError::NoExec)
    ));
    assert!(matches!(
        patch("Exec=kitty\n", "kt", b"/b"),
        Err(DesktopError::NoEntryGroup)
    ));
}

#[test]
fn a_source_that_is_not_a_desktop_entry_at_all_says_so() {
    let path = b"/tmp/binary.desktop".to_vec();
    let read = FileRead::Bytes(vec![0xff, 0xfe, b'\n']);
    assert!(matches!(
        render(&path, &read, "i", b"/usr/bin/bubbler"),
        Err(DesktopError::NotUtf8(p)) if p == path
    ));
    let missing = b"/tmp/gone.desktop".to_vec();
    let read = FileRead::Failed("No such file or directory".to_owned());
    assert!(matches!(
        render(&missing, &read, "i", b"/usr/bin/bubbler"),
        Err(DesktopError::Io(p, why)) if p == missing && why.starts_with("No such file")
    ));
    let read = FileRead::Bytes(KITTY.as_bytes().to_vec());
    assert_eq!(
        render(b"/tmp/kitty.desktop", &read, "kt", b"/usr/bin/bubbler").unwrap(),
        KITTY_PATCHED
    );
}

#[test]
fn a_program_that_is_not_utf8_can_be_named_by_no_entry() {
    assert_eq!(
        patch(KITTY, "kt", b"/opt/\xff/bubbler"),
        Err(DesktopError::ProgramNotUtf8)
    );
}

#[test]
fn the_source_is_the_hint_then_the_command_name_then_the_one_entry_that_runs_it() {
    let held = files(&[], &[("kitty.desktop", KITTY)]);
    let by_name = b"/system/kitty.desktop".to_vec();
    assert_eq!(source(&dirs(), "kt", &config("kitty"), &held).unwrap(), by_name);
    // A command run from an absolute path is looked up by its basename, the
    // way the entry names it.
    assert_eq!(
        source(&dirs(), "kt", &config("/usr/bin/kitty"), &held).unwrap(),
        by_name
    );
    // No `kp.desktop`, one entry whose `Exec` runs `kp`.
    let held = files(
        &[],
        &[
            ("kitty.desktop", KITTY),
            ("org.example.Kp.desktop", "[Desktop Entry]\nExec=kp %f\n"),
        ],
    );
    let scanned = b"/system/org.example.Kp.desktop".to_vec();
    assert_eq!(source(&dirs(), "i", &config("kp"), &held).unwrap(), scanned);
    // The hint wins over both, and names a file, not a path.
    assert_eq!(
        source(&dirs(), "i", &hinted("org.example.Kp.desktop"), &held).unwrap(),
        scanned
    );
    assert!(matches!(
        source(&dirs(), "i", &hinted("nothere.desktop"), &held),
        Err(DesktopError::HintNotFound { name, .. }) if name == "nothere.desktop"
    ));
}

#[test]
fn a_users_own_entry_shadows_the_systems_and_bubblers_own_is_no_source() {
    let held = files(
        &[("kitty.desktop", "[Desktop Entry]\nExec=kitty --mine\n")],
        &[("kitty.desktop", KITTY)],
    );
    assert_eq!(
        source(&dirs(), "kt", &config("kitty"), &held).unwrap(),
        b"/user/kitty.desktop".to_vec()
    );
    // bubbler's own entry for the same file name is skipped, so the vendor's
    // is found again and replacing it stays idempotent.
    let own = patched(KITTY, "kt");
    let held = files(&[("kitty.desktop", &own)], &[("kitty.desktop", KITTY)]);
    assert_eq!(
        source(&dirs(), "kt", &config("kitty"), &held).unwrap(),
        b"/system/kitty.desktop".to_vec()
    );
}

#[test]
fn two_entries_for_one_command_are_listed_rather_than_guessed_between() {
    let first = ("net.example.L.desktop", "[Desktop Entry]\nExec=l %U\n");
    let held = files(
        &[],
        &[
            ("net.example.L1.desktop", "[Desktop Entry]\nExec=l --install %f\n"),
            first,
        ],
    );
    let err = source(&dirs(), "i", &config("l"), &held).unwrap_err();
    let DesktopError::Ambiguous { candidates, .. } = &err else {
        panic!("{err:?}");
    };
    assert_eq!(
        candidates,
        &["net.example.L.desktop", "net.example.L1.desktop"]
    );
    assert!(err.message().contains("`desktop \"<name>.desktop\"`"));
    // The one a launcher does not show is not a candidate at all.
    let held = files(
        &[],
        &[
            first,
            (
                "net.example.L1.desktop",
                "[Desktop Entry]\nExec=l --install %f\nNoDisplay=true\n",
            ),
        ],
    );
    assert_eq!(
        source(&dirs(), "i", &config("l"), &held).unwrap(),
        b"/system/net.example.L.desktop".to_vec()
    );
    // And nothing that runs it at all is its own answer.
    assert!(matches!(
        source(&dirs(), "i", &config("nothing"), &held),
        Err(DesktopError::NotFound { .. })
    ));
    assert!(matches!(
        source(&dirs(), "i", &InstanceConfig::default(), &held),
        Err(DesktopError::NoCommand(i)) if i == "i"
    ));
}

#[test]
fn only_bubblers_own_entry_for_this_instance_is_overwritten() {
    let vendor = b"/usr/share/applications/kitty.desktop";
    let path = target(&dirs(), "kt", vendor, false);
    assert_eq!(path, b"/user/bubbler-kt.desktop".to_vec());
    assert_eq!(
        target(&dirs(), "kt", vendor, true),
        b"/user/kitty.desktop".to_vec()
    );
    assert_eq!(
        target(&dirs(), "kt", b"/", true),
        b"/user/bubbler.desktop".to_vec()
    );
    assert_eq!(may_write(&path, &Held::Nothing, "kt"), Ok(()));
    // Ours for this instance: a plain overwrite.
    let held = Held::File(patched(KITTY, "kt").into_bytes());
    assert_eq!(may_write(&path, &held, "kt"), Ok(()));
    // Ours for another instance, and a file that is not ours at all.
    assert!(matches!(
        may_write(&path, &held, "other"),
        Err(DesktopError::OtherInstance { instance, .. }) if instance == "kt"
    ));
    let foreign = b"/user/kitty.desktop".to_vec();
    assert!(matches!(
        may_write(&foreign, &Held::File(KITTY.as_bytes().to_vec()), "kt"),
        Err(DesktopError::Foreign(p)) if p == foreign
    ));
    assert!(matches!(
        may_write(&foreign, &Held::File(vec![0xff]), "kt"),
        Err(DesktopError::Foreign(p)) if p == foreign
    ));
    // A symlink is never bubbler's, whatever it points at.
    assert!(matches!(
        may_write(b"/user/bubbler-link.desktop", &Held::Link, "kt"),
        Err(DesktopError::Foreign(_))
    ));
    assert!(matches!(
        may_write(&path, &Held::Failed("denied".to_owned()), "kt"),
        Err(DesktopError::Io(p, why)) if p == path && why == "denied"
    ));
}

#[test]
fn remove_deletes_this_instances_entries_and_leaves_every_other_file() {
    let (kt, ff) = (patched(KITTY, "kt"), patched(FIREFOX, "ff"));
    let held = files(
        &[
            ("other.desktop", KITTY),
            ("kitty.desktop", &kt),
            ("notes.txt", &kt),
            ("bubbler-kt.desktop", &kt),
            ("bubbler-ff.desktop", &ff),
        ],
        &[],
    );
    let mine = b"/user/bubbler-kt.desktop".to_vec();
    let shadow = b"/user/kitty.desktop".to_vec();
    let theirs = b"/user/bubbler-ff.desktop".to_vec();
    assert_eq!(
        generated(&dirs(), &held),
        vec![
            (theirs, "ff".to_owned()),
            (mine.clone(), "kt".to_owned()),
            (shadow.clone(), "kt".to_owned()),
        ]
    );
    assert_eq!(remove(&dirs(), "kt", &held).unwrap(), vec![mine, shadow]);
    assert!(matches!(
        remove(&dirs(), "none", &held),
        Err(DesktopError::NotGenerated { instance, dir }) if instance == "none" && dir == b"/user"
    ));
}

#[test]
fn the_entry_names_bubbler_bare_only_where_path_resolves_to_this_binary() {
    let host = Canonical {
        entries: vec![
            (b"/bin/bubbler".to_vec(), b"/bin/bubbler".to_vec()),
            (b"/other/bubbler".to_vec(), b"/other/bubbler".to_vec()),
            (b"/other/link".to_vec(), b"/bin/bubbler".to_vec()),
        ],
    };
    let path = vec![b"/other".to_vec(), b"/bin".to_vec()];
    let own = vec![b"/bin/bubbler".to_vec()];
    let both = vec![b"/other/bubbler".to_vec(), b"/bin/bubbler".to_vec()];
    let exe = b"/bin/bubbler";
    // Nothing of that name earlier on PATH, so the search reaches this one
    // and the bare name is what a launcher resolves.
    assert_eq!(program(exe, &path, &own, &host), b"bubbler".to_vec());
    // A different bubbler earlier on PATH is the one the bare name would
    // start, so this entry has to name its own binary.
    assert_eq!(program(exe, &path, &both, &host), exe.to_vec());
    assert_eq!(program(exe, &[], &both, &host), exe.to_vec());
    // A symlink to this binary is this binary.
    assert_eq!(
        program(b"/other/link", &path[1..], &own, &host),
        b"bubbler".to_vec()
    );
    // One that cannot be resolved is named as it stands.
    assert_eq!(program(b"/gone", &path, &own, &host), b"/gone".to_vec());
}

#[test]
fn a_scan_is_in_order_and_one_entry_shadows_another_of_its_name() {
    let held = files(
        &[("b.desktop", "[Desktop Entry]\nExec=x one\n")],
        &[
            ("b.desktop", "[Desktop Entry]\nExec=x two\n"),
            ("a.desktop", "[Desktop Entry]\nExec=/usr/bin/x\n"),
            ("c.desktop", "[Desktop Entry]\nExec=\"/opt/a b/x\" %u\n"),
            ("d.desktop", "[Desktop Entry]\nExec=x\nHidden=true\n"),
            ("e.txt", "[Desktop Entry]\nExec=x\n"),
            (".desktop", "[Desktop Entry]\nExec=x\n"),
        ],
    );
    assert_eq!(
        scan(&dirs().lookup(), b"x", &held),
        vec![
            b"/user/b.desktop".to_vec(),
            b"/system/a.desktop".to_vec(),
            b"/system/c.desktop".to_vec(),
        ]
    );
}

#[test]
fn only_the_main_group_decides_what_an_entry_is() {
    let text = "[Other]\nExec=no\nHidden=true\n[Desktop Entry]\nExec = first \nExec=second\n\
                NoDisplay=false\nNoDisplay=true\n[Other]\nX-Bubbler-Instance=no\n";
    let found = head(text);
    assert_eq!(found.command.as_deref(), Some("first "));
    assert_eq!(found.marker, None);
    assert!(found.no_display);
    assert!(!found.hidden);
    // A second main group is not read.
    let twice = "[Desktop Entry]\nName=a\n[X]\n[Desktop Entry]\nExec=b\n";
    assert_eq!(head(twice).command, None);
}

#[test]
fn lines_headers_and_keys_are_split_as_they_are_written() {
    assert_eq!(lines("a\r\nb\n\nc\r"), ["a", "b", "", "c\r"]);
    assert_eq!(lines(""), Vec::<String>::new());
    assert_eq!(lines("\n"), [""]);
    assert_eq!(header("[a b]").as_deref(), Some("a b"));
    assert_eq!(header("[]").as_deref(), Some(""));
    assert_eq!(header("["), None);
    assert_eq!(header("[a] "), None);
    assert_eq!(
        split_key("Key \t=  a = b "),
        Some(("Key".to_owned(), "a = b ".to_owned()))
    );
    assert_eq!(split_key("# comment"), None);
    assert_eq!(base_key("Name[de]"), "Name");
    assert_eq!(base_key("Name"), "Name");
}

#[test]
fn a_program_is_quoted_for_what_is_reserved_and_read_back() {
    for (plain, written) in [
        ("/usr/bin/bubbler", "/usr/bin/bubbler"),
        ("a b", "\"a b\""),
        ("a\"b`c$d\\e", "\"a\\\"b\\`c\\$d\\\\e\""),
        ("100%", "100%%"),
        ("a;%", "\"a;%%\""),
    ] {
        assert_eq!(exec_quote(plain), written);
        assert_eq!(
            exec_program(&format!("{written} --flag")),
            Some(plain.replace('%', "%%"))
        );
    }
    assert_eq!(exec_program("  env X=1 a"), Some("env".to_owned()));
    assert_eq!(exec_program("\"never ended"), None);
    for program in [" a", "\tb", "\nc", " \r"] {
        assert_eq!(exec_program(&exec_quote(program)).as_deref(), Some(program));
    }
    assert_eq!(exec_program("  "), None);
    assert_eq!(exec_program("\"\" a"), Some(String::new()));
}

#[test]
fn a_bare_carriage_return_at_the_end_is_read_as_part_of_the_name() {
    // The one shape of source whose generated entry does not read back as the
    // instance's: CRLF lines of which the last is not ended.
    let out = patched("[Desktop Entry]\r\nExec=a", "i");
    assert_eq!(owner(&out).as_deref(), Some("i\r"));
    // With another group after it, or with its last line ended, it does.
    let out = patched("[Desktop Entry]\r\nExec=a\r\n[X]", "i");
    assert_eq!(owner(&out).as_deref(), Some("i"));
    let out = patched("[Desktop Entry]\r\nExec=a\r\n", "i");
    assert_eq!(owner(&out).as_deref(), Some("i"));
}

#[test]
fn names_are_put_in_the_order_of_their_bytes() {
    let names = [&b"b"[..], b"a.desktop", b"a", b"\xff", b"B"];
    let names: Vec<Vec<u8>> = names.iter().map(|n| n.to_vec()).collect();
    let sorted = sorted_names(&names);
    assert_eq!(
        sorted,
        vec![
            b"B".to_vec(),
            b"a".to_vec(),
            b"a.desktop".to_vec(),
            b"b".to_vec(),
            b"\xff".to_vec()
        ]
    );
    assert!(is_entry_name(b"a.desktop"));
    assert!(!is_entry_name(b".desktop"));
    assert!(!is_entry_name(b"a.desktop.bak"));
}

#[test]
fn only_errors_of_the_validator_are_reported() {
    let said = b"a.desktop: hint: x\na.desktop: error: y\na.desktop: \xff error: z\n";
    assert_eq!(
        validate(said),
        ["a.desktop: error: y", "a.desktop: \u{fffd} error: z"]
    );
    assert_eq!(validate(b""), Vec::<String>::new());
}

#[test]
fn every_desktop_error_says_what_to_do() {
    let hint = DesktopError::HintNotFound {
        name: "a.desktop".to_owned(),
        dirs: vec![b"/x".to_vec(), b"/y\xff".to_vec()],
    };
    assert_eq!(hint.message(), "no `a.desktop` in /x, /y\u{fffd}");
    let two = DesktopError::Ambiguous {
        command: "l".to_owned(),
        candidates: vec!["a".to_owned(), "b".to_owned()],
    };
    assert_eq!(
        two.message(),
        "2 desktop entries run `l`: a, b; name one with `desktop \"<name>.desktop\"` in the \
         instance's config.kdl"
    );
    assert_eq!(
        DesktopError::Generated("kt".to_owned()).message(),
        "it is bubbler's own entry for instance `kt`, not an application's"
    );
    assert_eq!(
        DesktopError::Foreign(b"/p".to_vec()).message(),
        "/p exists and is not bubbler's; move it aside first"
    );
}

/// A file that is asked for by its name is asked for in every directory.
#[test]
fn an_entry_is_asked_for_by_name_before_any_directory_is_searched() {
    let dirs = Dirs {
        user: b"/u".to_vec(),
        system: vec![b"/s".to_vec()],
    };
    let mut config = InstanceConfig::default();
    assert!(asked(&dirs, &config).is_empty());
    config.command = Some(vec![b"/usr/bin/kitty".to_vec()]);
    assert_eq!(
        asked(&dirs, &config),
        vec![b"/u/kitty.desktop".to_vec(), b"/s/kitty.desktop".to_vec()]
    );
    config.desktop = Some("x.desktop".to_owned());
    assert_eq!(
        asked(&dirs, &config),
        vec![b"/u/x.desktop".to_vec(), b"/s/x.desktop".to_vec()]
    );
}

/// A program with line feeds in it leaves the entry its instance's own, unless
/// one of its lines opens a group or sets the marker.
#[test]
fn a_program_of_several_lines_still_names_the_instance() {
    for name in ["/a\nb", "/a\n\n=x\"\n", "/a\r\n[b\nc", "/a\n%X-Bubbler-Instance=j", "/a\n[b"] {
        let out = patch(KITTY, "i", name.as_bytes()).unwrap();
        assert_eq!(owner(&out).as_deref(), Some("i"), "{name:?}");
        assert_eq!(
            patch(&out, "j", b"/b"),
            Err(DesktopError::Generated("i".to_owned()))
        );
    }
    for name in ["/a\n[X]", "/a\nX-Bubbler-Instance=j"] {
        let out = patch(KITTY, "i", name.as_bytes()).unwrap();
        assert_ne!(owner(&out).as_deref(), Some("i"), "{name:?}");
    }
}
