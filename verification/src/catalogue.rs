//! What every config node grants, as data: the line a list shows, the cost a
//! reader has to weigh before granting it, and the grammar of the node. One
//! table, read by the config man page and by the interactive editor, so what
//! bubbler takes and what bubbler explains cannot drift.

use vstd::prelude::*;

use crate::config::parse::NODES;
use crate::config::settings::listed;
use crate::text::same_text;

verus! {

/// How far a node reaches when it is written as wide as it can be written.
/// The ceiling, not what one config asks for: a reader deciding whether to
/// grant a node needs the worst it can mean, and [`Grant::cost`] says which
/// spelling reaches it.
#[derive(Debug, Clone, Copy, PartialEq, Eq, Structural)]
pub enum Risk {
    /// One resource, with no authority over anything the sandbox is not
    /// already given.
    Narrow,
    /// Hands over more than the name of the node suggests: a whole class of
    /// devices, a whole tree, or a socket with no filtering of its own.
    Wide,
    /// The sandbox gains power over things outside it — the session, the
    /// user's other applications, or the kernel surface the filter covers.
    Outward,
}

impl Risk {
    /// The level in writing.
    pub fn name(self) -> (r: &'static str)
        ensures
            r@ == (match self {
                Risk::Narrow => "narrow"@,
                Risk::Wide => "wide"@,
                Risk::Outward => "outward"@,
            }),
    {
        match self {
            Risk::Narrow => "narrow",
            Risk::Wide => "wide",
            Risk::Outward => "outward",
        }
    }
}

/// One config node as a reader needs it explained.
#[derive(Debug, Clone, Copy, PartialEq, Eq)]
pub struct Grant {
    /// The KDL node name, as [`crate::config::parse::NODES`] holds it.
    pub node: &'static str,
    /// One line, present tense: what the sandbox gets.
    pub summary: &'static str,
    /// What granting it gives away, which is the part a summary cannot carry.
    /// One to three sentences.
    pub cost: &'static str,
    /// The widest thing the node can be written to grant.
    pub risk: Risk,
    /// How the node is written, with the properties and children it takes.
    pub grammar: &'static str,
}

/// One line of each node, in the order [`NODES`] lists them: what the sandbox
/// gets.
pub const SUMMARIES: [&'static str; 28] = [
    // wayland
    "a Wayland socket the compositor treats as sandboxed",
    // x11
    "an X server of the sandbox's own, or the session's",
    // network
    "a network namespace, the sandbox's own unless the node says otherwise",
    // dri
    "the GPU: /dev/dri, the NVIDIA nodes, and the sysfs a driver reads",
    // pipewire
    "the session's PipeWire socket",
    // pulseaudio
    "the session's PulseAudio socket, and `PULSE_SERVER` pointing at it",
    // gamepad
    "game controllers: /dev/input, and the sysfs and udev data that name them",
    // hidraw
    "every /dev/hidraw* node the host has at launch",
    // camera
    "cameras through the portal, which binds no device at all",
    // home-share
    "one path under $HOME, at the same relative path in the private home",
    // path-share
    "a host path outside the home, at that same path inside",
    // etc-share
    "one entry under /etc, read-only, on top of the baseline allowlist",
    // app-runtime
    "$XDG_RUNTIME_DIR/app/<id>, shared with everything else naming that id",
    // dbus
    "the session bus through a filtering xdg-dbus-proxy, and nothing it does not name",
    // system-bus
    "the system bus through the same proxy, with no default name at all",
    // portals
    "the XDG portal rule bundle plus the /.flatpak-info portals identify the sandbox by",
    // notify
    "talk to org.freedesktop.Notifications",
    // tray
    "talk to org.kde.StatusNotifierWatcher, which is what a tray icon takes",
    // mpris
    "own org.mpris.MediaPlayer2.<name>, so media keys reach the player",
    // a11y
    "the session's accessibility bus, which is how a screen reader reads this app",
    // input-method
    "fcitx5 and IBus over their sandboxed portal names",
    // tty
    "how the sandbox's stdio reaches your terminal",
    // userns
    "whether the sandbox may nest user namespaces of its own",
    // seccomp
    "changes to the default syscall denylist for this instance",
    // env
    "extra environment variables for the command",
    // lint-allow
    "accept one lint finding in this file, with the reason written down",
    // desktop
    "the desktop entry `bubbler desktop` copies this instance's launcher entry from",
    // command
    "the default argv `bubbler run` starts in the sandbox",
];

/// What granting each node gives away, in the same order.
pub const COSTS: [&'static str; 28] = [
    // wayland
    "By default bubbler registers its own socket with the compositor as a security context, \
     and the compositor hides its privileged globals from clients on it: screen capture, \
     reading the clipboard without focus, input injection, overlays and window management, \
     exactly which being the compositor's policy. The application reaches that socket through \
     a proxy of bubbler's, which forwards a clipboard read only just after a key, button or \
     touch of yours, so a sandbox cannot poll the selection in the background for whatever \
     you copy next; `clipboard=\"open\"` forwards every read and logs it instead, and lint \
     warns. On a compositor without the protocol the proxy connects to the session socket and \
     hides the privileged interfaces in the compositor's place, and the run prints a note \
     saying so. `wayland \"host\"` binds the session socket as it is, with no proxy in front \
     of it; lint warns. `x11 \"host\"` bypasses all of this, its server being a client of \
     your session; a bare `x11`'s Xwayland is a client of this socket like any other and is \
     filtered and gated with it.",
    // x11
    "Bare, bubbler starts a rootful Xwayland inside the sandbox as a client of the instance's \
     Wayland socket, on the first X connection, so an instance whose command never speaks X \
     runs no server at all: X clients see only that one, in one compositor window (needs \
     `wayland` and `dri`). Nothing manages those windows unless `wm=` names a program, which \
     the supervisor resolves on the sandbox's `PATH` and runs inside as one more sandboxed \
     process. `\"host\"` binds the session's X socket and cookie instead: X11 has no \
     isolation between clients, so a sandbox on your display can keylog every other client, \
     Xwayland included, and the security context does not apply; lint warns unless the config \
     says why.",
    // network
    "The sandbox reaches the internet, which is where anything it reads can go. `network \
     \"host\"` gives it the host's namespace instead: loopback services, abstract unix \
     sockets, which have no permission checks at all, and the host's interfaces, addresses \
     and VPN tunnels. `allow-port` opens a path from the host's loopback back into the \
     sandbox. `outbound \"deny\"` narrows the isolated namespace to the addresses `allow-out` \
     names, by address and never by name.",
    // dri
    "The device nodes are bound read-write, since bwrap has no read-only device bind, and the \
     sysfs half is `/sys/dev/char`, `/sys/devices/system/cpu` and every `/sys/devices/pci*` \
     root — the attributes of every PCI device on the machine, not only the GPU.",
    // pipewire
    "Capture as well as playback: everything the session exposes, the microphone among it, \
     with no portal in between and no prompt. The `camera` grant is the portal-mediated way \
     to reach a device instead.",
    // pulseaudio
    "The same reach `pipewire` has, through the older protocol: recording as well as playing, \
     with nothing between the sandbox and the server.",
    // gamepad
    "`/dev/input` is every input device the machine has, keyboards included; what stops a \
     sandbox from reading yours is the permissions on the nodes, not bubbler. The \
     `/sys/devices` bind is the whole device tree, and `uinput=#true` lets the sandbox create \
     virtual input devices and type into your session.",
    // hidraw
    "Every HID device on the machine, not the one you meant: a security key, a hardware \
     wallet and whatever else udev has given your login an ACL on. The list is frozen at \
     launch, so a device plugged in later has no node inside.",
    // camera
    "The bare node needs `portals` and hands over nothing: the host daemon opens the device \
     and the instance holds a revocable permission of its own. `nodes=#true` binds every \
     `/dev/video*` and `/dev/media*` the host has instead, a virtual camera among them, with \
     no prompt and no revoking.",
    // home-share
    "The source must resolve inside your home and is bound read-only unless `mode=rw`, which \
     lets the sandbox change what it was shown. A directory holding another application's \
     state (`.config`, `.local/share`) is that application's data, and the linter says so.",
    // path-share
    "Read-only unless `mode=rw`. The paths the sandbox is built out of are refused on both \
     ends — including the instance store, since a sandbox that can write a `config.kdl` \
     grants itself anything on the next run — but everything else on the machine is \
     shareable, and a mountpoint is a whole disk.",
    // etc-share
    "One path component, never a tree of your own choosing, and never the account files: the \
     sandbox generates its own `passwd` and `group`, and binding the host's back in would \
     undo that and hand over the shadow hashes.",
    // app-runtime
    "One id is one trust domain: every sandbox granted it, and every unsandboxed process of \
     yours, can read, write and replace what is in that directory, and no side can tell its \
     peers apart. `mode=rw` is for the side that serves a socket, and it can unlink the one \
     the others connect to.",
    // dbus
    "Each rule is its own grant, and the globs are wide: `own \"org.*\"` claims every name \
     under `org.`. The proxy speaks to the bus with your credentials, so a name the sandbox \
     is given is reached as you — `own \"org.freedesktop.secrets\"` is the login keyring, \
     every secret in it.",
    // system-bus
    "The `talk` list is the entire confinement and it is weaker than the session bus one: the \
     bus and polkit see the proxy, running as your user, so behind a granted name the sandbox \
     is judged an ordinary local process of yours — an `auth_admin` method pops a password \
     prompt with nothing on it to say which sandbox asked. Grant one name at a time, and \
     prefer a portal.",
    // portals
    "Portal operations run outside the sandbox: a file chooser runs on the host and only the \
     file you pick appears inside, under $XDG_RUNTIME_DIR/doc, readable or writable as the \
     portal granted it; `OpenURI` hands a link to a host application. Each one is the user's \
     choice at the time, which is what makes this the narrow way to reach files, cameras and \
     screencasts. Requires `dbus`; the spawn portal is not among the rules. Without a \
     document portal on the host the launch warns and picked files stay unreachable.",
    // notify
    "Desktop notifications, whose text and actions the sandbox writes: the notification is \
     shown as coming from it, and clicking an action calls back into the sandbox. Requires \
     `dbus`.",
    // tray
    "One rule, and the item itself is served on the sandbox's own unique name, so nothing has \
     to be owned. Never widen it to `own \"org.kde.*\"`: that covers the watcher's name, and \
     owning it means impersonating the tray and collecting every other application's items. \
     Requires `dbus`.",
    // mpris
    "The name is owned with your credentials on the session bus, so name the application \
     rather than a prefix: `name=\"*\"` owns the whole player tree and lets the sandbox \
     impersonate every player on the bus. Requires `dbus`.",
    // a11y
    "Assistive tools on the host can read and drive this app's widgets; the app can register \
     itself and nothing else: the keystroke listener and input-injection calls the same bus \
     offers are not in its rules, so it cannot read what you type into your other windows or \
     type into them. The bus itself has no per-client policy, which is why the rule set is \
     fixed and the node takes nothing. Requires `dbus`.",
    // input-method
    "The input method daemon gets the keys typed into this app's text fields, through the \
     portal name that carries no configuration or control interface: the daemons' own names, \
     which can reconfigure, restart or stop them for the whole session, are not granted. On \
     Wayland the compositor already handles input methods with no grant at all; this is the \
     bus path that toolkit IM modules and Xwayland clients take. Requires `dbus`.",
    // tty
    "`pty` is the default: bubbler allocates a pseudoterminal, relays it, and the sandbox \
     never holds a descriptor of your terminal. `passthrough` hands over your own \
     descriptors, which reach the terminal again through `/dev/console`; `none` gives the \
     sandbox no terminal at all.",
    // userns
    "A restriction rather than a grant. `disable` closes the door a nested user namespace \
     opens, and costs the inner sandbox of Firefox and Chromium and anything that nests a \
     container — Steam's pressure-vessel among them. It also fails the launch outright on a \
     host without unprivileged user namespaces.",
    // seccomp
    "`allow` takes names off the list, including the `ioctl` rules that deny `TIOCSTI` and \
     `TIOCLINUX`; `deny` adds names. `disable` loads no filter at all, which hands the \
     sandbox the kernel surface the default covers — the keyring, `bpf`, `perf_event_open`, \
     module loading — and every run of that instance says so on stderr.",
    // env
    "The sandbox starts with a cleared environment, and these are added to it. The variables \
     bubbler owns are refused, and a value that looks like a credential is a lint warning: \
     the config file is not a secret store, and everything in the sandbox can read \
     `/proc/self/environ`.",
    // lint-allow
    "Only warnings and notes can be accepted; an error names something the file cannot do. \
     The reason is required and is the whole value of the node, and a suppression that \
     silences nothing is itself a finding.",
    // desktop
    "A hint for one subcommand: it grants nothing and reaches no host path at launch. Write \
     it where the vendor entry is not named after the command — \
     `org.mozilla.Thunderbird.desktop` for `thunderbird` — so the lookup does not have to \
     guess between candidates.",
    // command
    "One argv, no shell: every argument is passed as written, and none of it is expanded or \
     split. The command is looked up in the sandbox's own `PATH`, so it has to be something \
     the read-only `/usr` inside actually holds.",
];

/// The widest thing each node can be written to grant, in the same order.
pub const RISKS: [Risk; 28] = [
    // wayland
    Risk::Narrow,
    // x11
    Risk::Outward,
    // network
    Risk::Wide,
    // dri
    Risk::Wide,
    // pipewire
    Risk::Wide,
    // pulseaudio
    Risk::Wide,
    // gamepad
    Risk::Outward,
    // hidraw
    Risk::Wide,
    // camera
    Risk::Wide,
    // home-share
    Risk::Wide,
    // path-share
    Risk::Wide,
    // etc-share
    Risk::Narrow,
    // app-runtime
    Risk::Outward,
    // dbus
    Risk::Outward,
    // system-bus
    Risk::Outward,
    // portals
    Risk::Narrow,
    // notify
    Risk::Narrow,
    // tray
    Risk::Narrow,
    // mpris
    Risk::Narrow,
    // a11y
    Risk::Narrow,
    // input-method
    Risk::Narrow,
    // tty
    Risk::Outward,
    // userns
    Risk::Narrow,
    // seccomp
    Risk::Outward,
    // env
    Risk::Narrow,
    // lint-allow
    Risk::Narrow,
    // desktop
    Risk::Narrow,
    // command
    Risk::Narrow,
];

/// How each node is written, in the same order.
pub const GRAMMARS: [&'static str; 28] = [
    // wayland
    "wayland [\"host\"] [clipboard=\"open\"]",
    // x11
    "x11 [\"host\"] [geometry=\"WxH\"] [fullscreen=#true] [grab=#true] [wm=\"<program>\"]",
    // network
    "network [\"host\"|\"none\"] { dns \"<ip>\"; allow-port <n> [udp=#true]; outbound \
     \"deny\"; allow-out \"<ip>[/<len>]\" [port=<n>] [proto=\"tcp\"|\"udp\"]; no-ipv6 }",
    // dri
    "dri",
    // pipewire
    "pipewire",
    // pulseaudio
    "pulseaudio",
    // gamepad
    "gamepad [hidraw=#true] [uinput=#true]",
    // hidraw
    "hidraw",
    // camera
    "camera [nodes=#true]",
    // home-share
    "home-share \"<path under $HOME>\" [mode=ro|rw]",
    // path-share
    "path-share \"<absolute path>\" [mode=ro|rw]",
    // etc-share
    "etc-share \"<entry under /etc>\"",
    // app-runtime
    "app-runtime \"<app.id>\" [mode=ro|rw]",
    // dbus
    "dbus { see|talk|own \"<name>\"; call|broadcast \"<name>=<rule>\" }",
    // system-bus
    "system-bus { see|talk \"<name>\"; call|broadcast \"<name>=<rule>\" }",
    // portals
    "portals",
    // notify
    "notify",
    // tray
    "tray",
    // mpris
    "mpris name=\"<suffix>\"",
    // a11y
    "a11y",
    // input-method
    "input-method",
    // tty
    "tty \"pty\"|\"passthrough\"|\"none\"",
    // userns
    "userns \"allow\"|\"disable\"",
    // seccomp
    "seccomp { allow \"<syscall>\"; deny \"<syscall>\" [errno=\"EPERM\"|\"ENOSYS\"]; disable \
     }",
    // env
    "env KEY=\"value\" ...",
    // lint-allow
    "lint-allow \"<check-id>\" reason=\"<text>\"",
    // desktop
    "desktop \"<name>.desktop\"",
    // command
    "command \"<argv0>\" \"<arg>\" ...",
];

/// The catalogue entry of the `i`th node.
pub open spec fn grant_at(i: int) -> Grant {
    Grant {
        node: NODES@[i],
        summary: SUMMARIES@[i],
        cost: COSTS@[i],
        risk: RISKS@[i],
        grammar: GRAMMARS@[i],
    }
}

fn entry(i: usize) -> (r: Grant)
    requires
        i < NODES@.len(),
    ensures
        r == grant_at(i as int),
{
    Grant {
        node: NODES[i],
        summary: SUMMARIES[i],
        cost: COSTS[i],
        risk: RISKS[i],
        grammar: GRAMMARS[i],
    }
}

/// Every node a config may hold, in the order [`NODES`] lists them, which is
/// the order they are documented in: a node the parser takes and the catalogue
/// does not describe is a grant nothing can explain.
pub fn grants() -> (r: Vec<Grant>)
    ensures
        r@.len() == NODES@.len(),
        forall|i: int| 0 <= i < r@.len() ==> #[trigger] r@[i] == grant_at(i),
{
    let mut out: Vec<Grant> = Vec::new();
    let mut i: usize = 0;
    while i < NODES.len()
        invariant
            i <= NODES@.len(),
            out@.len() == i,
            forall|j: int| 0 <= j < i ==> #[trigger] out@[j] == grant_at(j),
        decreases NODES@.len() - i,
    {
        out.push(entry(i));
        i = i + 1;
    }
    out
}

/// The catalogue entry for the node `node`, if it is one bubbler takes.
pub fn grant(node: &str) -> (r: Option<Grant>)
    ensures
        r is Some <==> listed(NODES@, node@),
        r matches Some(g) ==> g.node@ == node@ && exists|i: int|
            0 <= i < NODES@.len() && g == #[trigger] grant_at(i),
{
    let mut i: usize = 0;
    while i < NODES.len()
        invariant
            i <= NODES@.len(),
            forall|j: int| 0 <= j < i ==> (#[trigger] NODES@[j])@ != node@,
        decreases NODES@.len() - i,
    {
        if same_text(NODES[i], node) {
            assert(NODES@[i as int]@ == node@);
            assert(grant_at(i as int).node@ == node@);
            return Some(entry(i));
        }
        i = i + 1;
    }
    None
}

} // verus!
