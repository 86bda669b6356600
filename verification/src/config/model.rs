//! What a configuration grants: the services, the command and the settings.

use vstd::prelude::*;

use crate::config::address::{cidr_text, Cidr, IpAddr};
use crate::text::{
    byte_views, bytes_of, decimal, decimal_digits, joined, maybe, push_text, utf8,
};

verus! {

/// Whether the sandbox may create user namespaces of its own.
#[derive(Debug, Clone, Copy, PartialEq, Eq, Structural, Default)]
pub enum Userns {
    /// The baseline's `--unshare-all`, which leaves nested user namespaces
    /// working: a browser's own sandbox and Steam's pressure-vessel both
    /// need them.
    #[default]
    Allow,
    /// `--unshare-user --disable-userns`: the sandbox cannot create a
    /// further user namespace, and so cannot regain inside it the
    /// capabilities that make mount and pid namespaces reachable again.
    Disable,
}

/// What `wayland` binds: a socket registered with the compositor as a
/// security context, or the host's socket as it is.
#[derive(Debug, Clone, Copy, PartialEq, Eq, Structural, Default)]
pub enum WaylandMode {
    /// A `wp_security_context_v1` listener the compositor treats as
    /// sandboxed.
    #[default]
    Sandboxed,
    /// The same, but every clipboard read is forwarded and not only one just
    /// after a key, button or touch (`wayland clipboard="open"`).
    OpenClipboard,
    /// The host's socket: the compositor cannot tell the sandbox from the
    /// session (`wayland "host"`).
    Host,
}

/// How the sandbox's stdio reaches the user's terminal.
#[derive(Debug, Clone, Copy, PartialEq, Eq, Structural)]
pub enum TtyMode {
    /// A pseudoterminal of the sandbox's own.
    Pty,
    /// The user's terminal itself.
    Passthrough,
    /// No terminal at all (`tty "none"`).
    Off,
}

/// Whether a shared path is writable inside the sandbox.
#[derive(Debug, Clone, Copy, PartialEq, Eq, Structural)]
pub enum ShareMode {
    /// Bound with `--ro-bind` (default).
    ReadOnly,
    /// Bound with `--bind`.
    ReadWrite,
}

/// What a denied syscall fails with.
#[derive(Debug, Clone, Copy, PartialEq, Eq, Structural)]
pub enum Errno {
    Eperm,
    Enosys,
}

/// What a `network` grant connects the sandbox to.
#[derive(Debug, Clone, Copy, PartialEq, Eq, Structural)]
pub enum NetworkMode {
    /// A network namespace of the sandbox's own, which is the default.
    Isolated,
    /// The host's namespace.
    Host,
    /// No network at all (`network "none"`).
    Off,
}

/// What an isolated network lets out.
#[derive(Debug, Clone, Copy, PartialEq, Eq, Structural)]
pub enum Outbound {
    Allow,
    Deny,
}

/// A transport protocol.
#[derive(Debug, Clone, Copy, PartialEq, Eq, Structural)]
pub enum Proto {
    Tcp,
    Udp,
}

/// A port forwarded into the sandbox.
#[derive(Debug, Clone, Copy, PartialEq, Eq, Structural)]
pub struct Forward {
    pub port: u16,
    pub udp: bool,
}

/// One destination let out: every port and both protocols unless narrowed.
#[derive(Debug, Clone, Copy, PartialEq, Eq, Structural)]
pub struct AllowOut {
    pub dest: Cidr,
    pub port: Option<u16>,
    pub proto: Option<Proto>,
}

/// One destination as it is written in a configuration.
pub open spec fn allow_out_text(a: AllowOut) -> Seq<char> {
    "\""@ + cidr_text(a.dest) + "\""@ + (match a.port {
        Some(port) => " port="@ + decimal_digits(port as nat),
        None => Seq::empty(),
    }) + (match a.proto {
        Some(Proto::Tcp) => " proto=\"tcp\""@,
        Some(Proto::Udp) => " proto=\"udp\""@,
        None => Seq::empty(),
    })
}

impl AllowOut {
    /// This destination as it is written in a configuration.
    pub fn to_text(&self) -> (r: String)
        ensures
            r@ == allow_out_text(*self),
    {
        let mut out = joined(&joined("\"", &self.dest.to_text()), "\"");
        match self.port {
            Some(port) => {
                let port = joined(" port=", &decimal(port as u64));
                push_text(&mut out, &port);
            },
            None => {},
        }
        match self.proto {
            Some(Proto::Tcp) => push_text(&mut out, " proto=\"tcp\""),
            Some(Proto::Udp) => push_text(&mut out, " proto=\"udp\""),
            None => {},
        }
        assert(out@ =~= allow_out_text(*self));
        out
    }
}

/// A network namespace and what it is connected to.
#[derive(Debug, Clone, PartialEq, Eq)]
pub struct NetworkConfig {
    pub mode: NetworkMode,
    /// Resolvers the sandbox's resolver file names.
    pub dns: Vec<IpAddr>,
    pub forwards: Vec<Forward>,
    pub outbound: Outbound,
    pub allow_out: Vec<AllowOut>,
    pub no_ipv6: bool,
}

/// Model of a [`NetworkConfig`].
pub struct NetworkView {
    pub mode: NetworkMode,
    pub dns: Seq<IpAddr>,
    pub forwards: Seq<Forward>,
    pub outbound: Outbound,
    pub allow_out: Seq<AllowOut>,
    pub no_ipv6: bool,
}

impl View for NetworkConfig {
    type V = NetworkView;

    open spec fn view(&self) -> NetworkView {
        NetworkView {
            mode: self.mode,
            dns: self.dns@,
            forwards: self.forwards@,
            outbound: self.outbound,
            allow_out: self.allow_out@,
            no_ipv6: self.no_ipv6,
        }
    }
}

/// An isolated network with nothing configured.
pub open spec fn default_network() -> NetworkView {
    NetworkView {
        mode: NetworkMode::Isolated,
        dns: Seq::empty(),
        forwards: Seq::empty(),
        outbound: Outbound::Allow,
        allow_out: Seq::empty(),
        no_ipv6: false,
    }
}

impl Default for NetworkConfig {
    fn default() -> (r: NetworkConfig)
        ensures
            r@ == default_network(),
    {
        NetworkConfig {
            mode: NetworkMode::Isolated,
            dns: Vec::new(),
            forwards: Vec::new(),
            outbound: Outbound::Allow,
            allow_out: Vec::new(),
            no_ipv6: false,
        }
    }
}

/// Absolute path of the X server started inside the sandbox. A host binary
/// under the read-only `/usr`, so the sandbox holds no copy of its own and
/// cannot replace it.
pub const XWAYLAND: &'static str = "/usr/bin/Xwayland";

/// The window the nested X server draws itself in, as one Wayland client of
/// the sandbox's own compositor connection.
#[derive(Debug, Clone, PartialEq, Eq)]
pub struct NestedX11 {
    /// `<width>x<height>` of the window, `1280x720` unless the node says
    /// otherwise. Ignored when `fullscreen` is set.
    pub geometry: String,
    /// Take the whole output instead of a window, dropping the decorations
    /// with it.
    pub fullscreen: bool,
    /// Keep keyboard and pointer inside the server's window (`-host-grab`,
    /// released with Ctrl+Shift).
    pub grab: bool,
    /// The program that manages the server's windows, resolved on the
    /// sandbox's `PATH`. Nothing does unless the node names one.
    pub wm: Option<String>,
}

/// Model of a [`NestedX11`].
pub struct NestedView {
    pub geometry: Seq<char>,
    pub fullscreen: bool,
    pub grab: bool,
    pub wm: Option<Seq<char>>,
}

impl View for NestedX11 {
    type V = NestedView;

    open spec fn view(&self) -> NestedView {
        NestedView {
            geometry: self.geometry@,
            fullscreen: self.fullscreen,
            grab: self.grab,
            wm: maybe(self.wm),
        }
    }
}

/// The window a bare `x11` node asks for.
pub open spec fn default_window() -> NestedView {
    NestedView { geometry: "1280x720"@, fullscreen: false, grab: false, wm: None }
}

impl Default for NestedX11 {
    fn default() -> (r: NestedX11)
        ensures
            r@ == default_window(),
    {
        NestedX11 { geometry: "1280x720".to_owned(), fullscreen: false, grab: false, wm: None }
    }
}

/// The Xwayland command line of a window.
pub open spec fn server_argv(w: NestedView) -> Seq<Seq<u8>> {
    seq![
        utf8(XWAYLAND@),
        utf8(":0"@),
        utf8("-noreset"@),
        utf8("-nolisten"@),
        utf8("tcp"@),
        utf8("-ac"@),
        utf8("-hidpi"@),
    ] + (if w.fullscreen {
        seq![utf8("-fullscreen"@)]
    } else {
        seq![utf8("-decorate"@), utf8("-geometry"@), utf8(w.geometry)]
    }) + (if w.grab {
        seq![utf8("-host-grab"@)]
    } else {
        Seq::empty()
    })
}

impl NestedX11 {
    /// The Xwayland command line, in the order the server takes it.
    /// `-nolisten tcp` keeps the display off the network and `-noreset`
    /// stops a client's exit from resetting the server; `-ac` is the access
    /// control X11 has no use for here, the display being the sandbox's own.
    pub fn xwayland_argv(&self) -> (r: Vec<Vec<u8>>)
        ensures
            byte_views(r@) == server_argv(self@),
    {
        let mut argv: Vec<Vec<u8>> = Vec::new();
        argv.push(bytes_of(XWAYLAND));
        argv.push(bytes_of(":0"));
        argv.push(bytes_of("-noreset"));
        argv.push(bytes_of("-nolisten"));
        argv.push(bytes_of("tcp"));
        argv.push(bytes_of("-ac"));
        argv.push(bytes_of("-hidpi"));
        // A fullscreen server has no window to decorate or to size.
        if self.fullscreen {
            argv.push(bytes_of("-fullscreen"));
        } else {
            argv.push(bytes_of("-decorate"));
            argv.push(bytes_of("-geometry"));
            argv.push(bytes_of(&self.geometry));
        }
        if self.grab {
            argv.push(bytes_of("-host-grab"));
        }
        assert(byte_views(argv@) =~= server_argv(self@));
        argv
    }
}

/// Which X server an `x11` grant means: one the sandbox runs for itself, or
/// the session's own.
#[derive(Debug, Clone, PartialEq, Eq)]
pub enum X11Mode {
    /// A rootful Xwayland started inside the sandbox, which is a Wayland
    /// client of the instance's own socket: the X clients inside see no
    /// display but this one.
    Nested(NestedX11),
    /// The session's X socket and Xauthority cookie (`x11 "host"`): every X
    /// client on the display can read every other's input and windows, this
    /// sandbox included.
    Host,
}

/// Model of an [`X11Mode`].
pub enum X11View {
    Nested(NestedView),
    Host,
}

impl View for X11Mode {
    type V = X11View;

    open spec fn view(&self) -> X11View {
        match self {
            X11Mode::Nested(w) => X11View::Nested(w@),
            X11Mode::Host => X11View::Host,
        }
    }
}

impl Default for X11Mode {
    fn default() -> (r: X11Mode)
        ensures
            r@ == X11View::Nested(default_window()),
    {
        X11Mode::Nested(NestedX11::default())
    }
}

/// One accepted lint finding: the check it silences and why. Only warnings
/// and notes can be silenced; an error names something the file cannot do,
/// and there is nothing to accept about it.
#[derive(Debug, Clone, PartialEq, Eq)]
pub struct LintAllow {
    /// The id of a check.
    pub id: String,
    /// Why this file accepts the finding. Required: the reason is the whole
    /// value of writing the node down.
    pub reason: String,
}

/// Model of a [`LintAllow`].
pub struct LintAllowView {
    pub id: Seq<char>,
    pub reason: Seq<char>,
}

impl View for LintAllow {
    type V = LintAllowView;

    open spec fn view(&self) -> LintAllowView {
        LintAllowView { id: self.id@, reason: self.reason@ }
    }
}

/// One rule for the filtering D-Bus proxy. `See`, `Talk` and `Own` are the
/// three policy levels for a well-known name; `Call` and `Broadcast` pair a
/// name with an `[METHOD][@PATH]` rule narrowing it to single methods,
/// signals or object subtrees (`xdg-dbus-proxy(1)`).
#[derive(Debug, Clone, PartialEq, Eq)]
pub enum BusRule {
    /// The name is visible: it shows up in `ListNames` and its owner changes
    /// are delivered.
    See(String),
    /// Method calls and signals may be sent to the name; implies `See`.
    Talk(String),
    /// The sandbox may request the name; implies `Talk`.
    Own(String),
    /// Calls to the name are allowed for one rule only.
    Call(String, String),
    /// Broadcast signals from the name are received for one rule only.
    Broadcast(String, String),
}

/// Model of a [`BusRule`].
pub enum BusRuleView {
    See(Seq<char>),
    Talk(Seq<char>),
    Own(Seq<char>),
    Call(Seq<char>, Seq<char>),
    Broadcast(Seq<char>, Seq<char>),
}

impl View for BusRule {
    type V = BusRuleView;

    open spec fn view(&self) -> BusRuleView {
        match self {
            BusRule::See(n) => BusRuleView::See(n@),
            BusRule::Talk(n) => BusRuleView::Talk(n@),
            BusRule::Own(n) => BusRuleView::Own(n@),
            BusRule::Call(n, r) => BusRuleView::Call(n@, r@),
            BusRule::Broadcast(n, r) => BusRuleView::Broadcast(n@, r@),
        }
    }
}

/// The models of a list of rules.
pub open spec fn rule_views(rules: Seq<BusRule>) -> Seq<BusRuleView> {
    Seq::new(rules.len(), |i: int| rules[i]@)
}

/// The name and node word of a policy rule.
pub open spec fn policy_of(rule: BusRuleView) -> Option<(Seq<char>, Seq<char>)> {
    match rule {
        BusRuleView::See(n) => Some((n, "see"@)),
        BusRuleView::Talk(n) => Some((n, "talk"@)),
        BusRuleView::Own(n) => Some((n, "own"@)),
        _ => None,
    }
}

impl BusRule {
    /// The name and node word of a policy rule, or `None` for `call` and
    /// `broadcast`, which narrow a policy rather than set one. A name holds
    /// one policy: two of them for the same name would leave which one the
    /// proxy applies to argument order.
    pub fn policy(&self) -> (r: Option<(&str, &'static str)>)
        ensures
            match r {
                Some((name, word)) => policy_of(self@) == Some((name@, word@)),
                None => policy_of(self@) is None,
            },
    {
        match self {
            BusRule::See(n) => Some((n.as_str(), "see")),
            BusRule::Talk(n) => Some((n.as_str(), "talk")),
            BusRule::Own(n) => Some((n.as_str(), "own")),
            _ => None,
        }
    }
}

/// One granted resource. Order in the config file is irrelevant; the
/// builder's phases decide argv order.
#[allow(inconsistent_fields)]
#[derive(Debug, Clone, PartialEq, Eq)]
pub enum Service {
    /// Access to the compositor: a security-context socket by default, the
    /// host socket under `wayland "host"`.
    Wayland(WaylandMode),
    /// An X display: a nested Xwayland of the sandbox's own by default, the
    /// session's socket and cookie under `x11 "host"`, which offers no
    /// isolation between X clients.
    X11(X11Mode),
    /// A network namespace, and what it is connected to: the sandbox's own
    /// by default, the host's under `network "host"`.
    Network(NetworkConfig),
    /// GPU access: the `/dev/dri` device nodes, bound read-write, plus the
    /// `/sys` entries a userspace driver reads to match a node to its
    /// hardware.
    Dri,
    /// Access to the host PipeWire socket.
    Pipewire,
    /// Access to the host PulseAudio socket.
    Pulseaudio,
    /// Bind `$HOME/<path>` on the host to the same relative path inside the
    /// private home.
    HomeShare {
        /// Relative to `$HOME`; no absolute paths, no `..`.
        path: Vec<u8>,
        /// Read-only unless `mode=rw`.
        mode: ShareMode,
    },
    /// Bind a host path outside the home at that same path inside the
    /// sandbox. Reserved roots (`/etc`, `/home`, `/run`, ...) are refused
    /// when the sandbox is built, not here.
    PathShare {
        /// Absolute, without `.` and `..`.
        path: Vec<u8>,
        /// Read-only unless `mode=rw`.
        mode: ShareMode,
    },
    /// Bind one host `/etc` entry read-only at the same path, on top of the
    /// baseline `/etc` allowlist.
    EtcShare {
        /// Entry name directly under `/etc`.
        name: Vec<u8>,
    },
    /// A session bus filtered by an `xdg-dbus-proxy` sidecar: the sandbox
    /// reaches only what `rules` allow, never the host bus itself.
    Dbus {
        /// Proxy filter rules, in file order; repeats are harmless.
        rules: Vec<BusRule>,
    },
    /// The system bus, filtered by the same `xdg-dbus-proxy` sidecar. The
    /// `rules` list is the whole confinement: behind a granted name the
    /// sandbox is an ordinary process of the user, since the bus sees the
    /// proxy's credentials and not the sandbox's.
    SystemBus {
        /// Proxy filter rules, in file order; never an `own`.
        rules: Vec<BusRule>,
    },
    /// The XDG desktop portal rule bundle plus the `/.flatpak-info` file
    /// portals read to identify the sandbox. Requires [`Service::Dbus`].
    Portals,
    /// Talk to `org.freedesktop.Notifications`. Requires [`Service::Dbus`].
    Notify,
    /// Talk to `org.kde.StatusNotifierWatcher`, which is what registering a
    /// tray icon takes. Requires [`Service::Dbus`].
    Tray,
    /// Game controllers: the `/dev/input` device nodes, which are every
    /// input device the host has, plus the sysfs and udev database entries
    /// that identify them.
    Gamepad {
        /// Also bind every `/dev/hidraw*` node, which is what a controller
        /// driven through hidapi rather than evdev takes.
        hidraw: bool,
        /// Also bind `/dev/uinput`: the sandbox can create virtual input
        /// devices for the whole session.
        uinput: bool,
    },
    /// Every `/dev/hidraw*` node the host has at launch, plus
    /// `/sys/class/hidraw`: the raw HID interfaces a security key, a
    /// hardware wallet or a controller driven through hidapi is opened
    /// through. `gamepad hidraw=#true` grants the same thing.
    Hidraw,
    /// Cameras through `org.freedesktop.portal.Camera`, which needs no
    /// device in the sandbox. Requires [`Service::Portals`], whose
    /// `/.flatpak-info` is what earns the instance a permission of its own
    /// rather than the blanket one every unsandboxed process on the machine
    /// shares.
    Camera {
        /// Also bind the V4L2 device nodes, for the plain V4L2 clients that
        /// will never speak the portal.
        nodes: bool,
    },
    /// Own `org.mpris.MediaPlayer2.<name>` so media keys and player controls
    /// reach the app. Requires [`Service::Dbus`].
    Mpris {
        /// Appended to `org.mpris.MediaPlayer2.`; `*` allowed as the last
        /// element.
        name: String,
    },
    /// The session's accessibility bus, filtered to a fixed set of rules.
    /// Requires [`Service::Dbus`].
    A11y,
    /// Talk to the portals of the input method daemons. Requires
    /// [`Service::Dbus`].
    InputMethod,
    /// Share `$XDG_RUNTIME_DIR/app/<id>` with everything else that names the
    /// same id: the directory applications serve their own sockets in, so
    /// one sandbox can reach another's. One id is one trust domain; nothing
    /// about the boundary tells the peers apart.
    AppRuntime {
        /// Reverse-DNS application id, the directory's name under `app/`.
        id: String,
        /// Read-only unless `mode=rw`. `connect()` works either way, so only
        /// a sandbox that *serves* a socket needs `rw`.
        mode: ShareMode,
    },
}

/// Model of a [`Service`].
#[allow(inconsistent_fields)]
pub enum ServiceView {
    Wayland(WaylandMode),
    X11(X11View),
    Network(NetworkView),
    Dri,
    Pipewire,
    Pulseaudio,
    HomeShare { path: Seq<u8>, mode: ShareMode },
    PathShare { path: Seq<u8>, mode: ShareMode },
    EtcShare { name: Seq<u8> },
    Dbus { rules: Seq<BusRuleView> },
    SystemBus { rules: Seq<BusRuleView> },
    Portals,
    Notify,
    Tray,
    Gamepad { hidraw: bool, uinput: bool },
    Hidraw,
    Camera { nodes: bool },
    Mpris { name: Seq<char> },
    A11y,
    InputMethod,
    AppRuntime { id: Seq<char>, mode: ShareMode },
}

impl View for Service {
    type V = ServiceView;

    open spec fn view(&self) -> ServiceView {
        match self {
            Service::Wayland(m) => ServiceView::Wayland(*m),
            Service::X11(m) => ServiceView::X11(m@),
            Service::Network(n) => ServiceView::Network(n@),
            Service::Dri => ServiceView::Dri,
            Service::Pipewire => ServiceView::Pipewire,
            Service::Pulseaudio => ServiceView::Pulseaudio,
            Service::HomeShare { path, mode } => ServiceView::HomeShare {
                path: path@,
                mode: *mode,
            },
            Service::PathShare { path, mode } => ServiceView::PathShare {
                path: path@,
                mode: *mode,
            },
            Service::EtcShare { name } => ServiceView::EtcShare { name: name@ },
            Service::Dbus { rules } => ServiceView::Dbus { rules: rule_views(rules@) },
            Service::SystemBus { rules } => ServiceView::SystemBus { rules: rule_views(rules@) },
            Service::Portals => ServiceView::Portals,
            Service::Notify => ServiceView::Notify,
            Service::Tray => ServiceView::Tray,
            Service::Gamepad { hidraw, uinput } => ServiceView::Gamepad {
                hidraw: *hidraw,
                uinput: *uinput,
            },
            Service::Hidraw => ServiceView::Hidraw,
            Service::Camera { nodes } => ServiceView::Camera { nodes: *nodes },
            Service::Mpris { name } => ServiceView::Mpris { name: name@ },
            Service::A11y => ServiceView::A11y,
            Service::InputMethod => ServiceView::InputMethod,
            Service::AppRuntime { id, mode } => ServiceView::AppRuntime { id: id@, mode: *mode },
        }
    }
}

/// The models of a list of services.
pub open spec fn service_views(services: Seq<Service>) -> Seq<ServiceView> {
    Seq::new(services.len(), |i: int| services[i]@)
}

/// The KDL node a grant is written as.
pub open spec fn service_node(s: ServiceView) -> Seq<char> {
    match s {
        ServiceView::Wayland(_) => "wayland"@,
        ServiceView::X11(_) => "x11"@,
        ServiceView::Network(_) => "network"@,
        ServiceView::Dri => "dri"@,
        ServiceView::Pipewire => "pipewire"@,
        ServiceView::Pulseaudio => "pulseaudio"@,
        ServiceView::HomeShare { path, mode } => "home-share"@,
        ServiceView::PathShare { path, mode } => "path-share"@,
        ServiceView::EtcShare { name } => "etc-share"@,
        ServiceView::Dbus { rules } => "dbus"@,
        ServiceView::SystemBus { rules } => "system-bus"@,
        ServiceView::Portals => "portals"@,
        ServiceView::Notify => "notify"@,
        ServiceView::Tray => "tray"@,
        ServiceView::Gamepad { hidraw, uinput } => "gamepad"@,
        ServiceView::Hidraw => "hidraw"@,
        ServiceView::Camera { nodes } => "camera"@,
        ServiceView::Mpris { name } => "mpris"@,
        ServiceView::A11y => "a11y"@,
        ServiceView::InputMethod => "input-method"@,
        ServiceView::AppRuntime { id, mode } => "app-runtime"@,
    }
}

impl Service {
    /// The KDL node this grant is written as, which is what the catalogue is
    /// keyed by. Every variant is named here: a grant whose node the
    /// catalogue cannot look up is one nothing can explain to the user.
    pub fn node_name(&self) -> (r: &'static str)
        ensures
            r@ == service_node(self@),
    {
        match self {
            Service::Wayland(_) => "wayland",
            Service::X11(_) => "x11",
            Service::Network(_) => "network",
            Service::Dri => "dri",
            Service::Pipewire => "pipewire",
            Service::Pulseaudio => "pulseaudio",
            Service::HomeShare { path: _, mode: _ } => "home-share",
            Service::PathShare { path: _, mode: _ } => "path-share",
            Service::EtcShare { name: _ } => "etc-share",
            Service::Dbus { rules: _ } => "dbus",
            Service::SystemBus { rules: _ } => "system-bus",
            Service::Portals => "portals",
            Service::Notify => "notify",
            Service::Tray => "tray",
            Service::Gamepad { hidraw: _, uinput: _ } => "gamepad",
            Service::Hidraw => "hidraw",
            Service::Camera { nodes: _ } => "camera",
            Service::Mpris { name: _ } => "mpris",
            Service::A11y => "a11y",
            Service::InputMethod => "input-method",
            Service::AppRuntime { id: _, mode: _ } => "app-runtime",
        }
    }
}

/// Changes to the default seccomp denylist.
#[derive(Debug, Clone, PartialEq, Eq)]
pub struct SeccompConfig {
    /// Syscalls taken off the denylist, in file order.
    pub allow: Vec<String>,
    /// Syscalls put on it, with what they fail with, in file order.
    pub deny: Vec<(String, Errno)>,
    /// No filter at all.
    pub disable: bool,
}

/// Model of a [`SeccompConfig`].
pub struct SeccompView {
    pub allow: Seq<Seq<char>>,
    pub deny: Seq<(Seq<char>, Errno)>,
    pub disable: bool,
}

/// The models of a list of denied syscalls.
pub open spec fn deny_views(deny: Seq<(String, Errno)>) -> Seq<(Seq<char>, Errno)> {
    Seq::new(deny.len(), |i: int| (deny[i].0@, deny[i].1))
}

impl View for SeccompConfig {
    type V = SeccompView;

    open spec fn view(&self) -> SeccompView {
        SeccompView {
            allow: crate::text::text_views(self.allow@),
            deny: deny_views(self.deny@),
            disable: self.disable,
        }
    }
}

/// The default denylist, unchanged.
pub open spec fn default_seccomp() -> SeccompView {
    SeccompView { allow: Seq::empty(), deny: Seq::empty(), disable: false }
}

impl Default for SeccompConfig {
    fn default() -> (r: SeccompConfig)
        ensures
            r@ == default_seccomp(),
    {
        let r = SeccompConfig { allow: Vec::new(), deny: Vec::new(), disable: false };
        assert(r@.allow =~= Seq::empty());
        assert(r@.deny =~= Seq::empty());
        r
    }
}

/// Parsed `config.kdl`.
#[derive(Debug, Clone, PartialEq, Eq)]
pub struct InstanceConfig {
    /// Granted services, in file order.
    pub services: Vec<Service>,
    /// Default argv for `run`, if the file has a `command` node.
    pub command: Option<Vec<Vec<u8>>>,
    /// Extra environment variables, in file order; never a reserved key.
    pub env: Vec<(String, String)>,
    /// How the sandbox's stdio reaches the user's terminal; `pty` unless a
    /// `tty` node says otherwise.
    pub tty: TtyMode,
    /// Changes to the default seccomp denylist; empty unless a `seccomp`
    /// node relaxes or extends it.
    pub seccomp: SeccompConfig,
    /// Whether the sandbox may nest user namespaces; `allow` unless a
    /// `userns` node says otherwise.
    pub userns: Userns,
    /// Lint findings this file has accepted, in file order.
    pub lint_allows: Vec<LintAllow>,
    /// Basename of the desktop entry this instance's launcher entry is
    /// written from, where the command's own entry is not named after it.
    pub desktop: Option<String>,
}

/// Model of an [`InstanceConfig`].
pub struct ConfigView {
    pub services: Seq<ServiceView>,
    pub command: Option<Seq<Seq<u8>>>,
    pub env: Seq<(Seq<char>, Seq<char>)>,
    pub tty: TtyMode,
    pub seccomp: SeccompView,
    pub userns: Userns,
    pub lint_allows: Seq<LintAllowView>,
    pub desktop: Option<Seq<char>>,
}

/// The models of a list of variables.
pub open spec fn env_views(env: Seq<(String, String)>) -> Seq<(Seq<char>, Seq<char>)> {
    Seq::new(env.len(), |i: int| (env[i].0@, env[i].1@))
}

/// The models of a list of accepted findings.
pub open spec fn allow_views(allows: Seq<LintAllow>) -> Seq<LintAllowView> {
    Seq::new(allows.len(), |i: int| allows[i]@)
}

/// The model of a command.
pub open spec fn command_view(command: Option<Vec<Vec<u8>>>) -> Option<Seq<Seq<u8>>> {
    match command {
        Some(argv) => Some(byte_views(argv@)),
        None => None,
    }
}

impl View for InstanceConfig {
    type V = ConfigView;

    open spec fn view(&self) -> ConfigView {
        ConfigView {
            services: service_views(self.services@),
            command: command_view(self.command),
            env: env_views(self.env@),
            tty: self.tty,
            seccomp: self.seccomp@,
            userns: self.userns,
            lint_allows: allow_views(self.lint_allows@),
            desktop: maybe(self.desktop),
        }
    }
}

/// A configuration that grants nothing.
pub open spec fn empty_config() -> ConfigView {
    ConfigView {
        services: Seq::empty(),
        command: None,
        env: Seq::empty(),
        tty: TtyMode::Pty,
        seccomp: default_seccomp(),
        userns: Userns::Allow,
        lint_allows: Seq::empty(),
        desktop: None,
    }
}

impl Default for InstanceConfig {
    fn default() -> (r: InstanceConfig)
        ensures
            r@ == empty_config(),
    {
        let r = InstanceConfig {
            services: Vec::new(),
            command: None,
            env: Vec::new(),
            tty: TtyMode::Pty,
            seccomp: SeccompConfig::default(),
            userns: Userns::Allow,
            lint_allows: Vec::new(),
            desktop: None,
        };
        assert(r@.services =~= Seq::empty());
        assert(r@.env =~= Seq::empty());
        assert(r@.lint_allows =~= Seq::empty());
        r
    }
}

/// Whether sound is granted.
pub open spec fn grants_audio(services: Seq<ServiceView>) -> bool {
    services.contains(ServiceView::Pipewire) || services.contains(ServiceView::Pulseaudio)
}

impl InstanceConfig {
    /// Whether sound is granted: the socket of either sound server.
    pub fn audio(&self) -> (r: bool)
        ensures
            r == grants_audio(self@.services),
    {
        let ghost all = service_views(self.services@);
        let mut i: usize = 0;
        while i < self.services.len()
            invariant
                all == service_views(self.services@),
                i <= self.services@.len(),
                forall|j: int|
                    0 <= j < i ==> #[trigger] all[j] != ServiceView::Pipewire && all[j]
                        != ServiceView::Pulseaudio,
            decreases self.services@.len() - i,
        {
            assert(all[i as int] == self.services@[i as int]@);
            match &self.services[i] {
                Service::Pipewire | Service::Pulseaudio => {
                    assert(all.contains(all[i as int]));
                    return true;
                },
                _ => {},
            }
            i = i + 1;
        }
        false
    }
}

/// One profile layer as written: the same nodes an instance config may hold,
/// plus the `include` names layered underneath it.
#[derive(Debug, Clone, PartialEq, Eq)]
pub struct RawProfile {
    /// The layer's own nodes.
    pub config: InstanceConfig,
    /// Profile names to resolve and merge under this layer, in file order.
    pub includes: Vec<String>,
    /// Whether a `tty` node was written. [`InstanceConfig::tty`] cannot say,
    /// and a layer without the node must not override the one below.
    pub tty_set: bool,
    /// Whether a `userns` node was written, for the same reason
    /// [`RawProfile::tty_set`] exists.
    pub userns_set: bool,
}

/// Model of a [`RawProfile`].
pub struct ProfileView {
    pub config: ConfigView,
    pub includes: Seq<Seq<char>>,
    pub tty_set: bool,
    pub userns_set: bool,
}

impl View for RawProfile {
    type V = ProfileView;

    open spec fn view(&self) -> ProfileView {
        ProfileView {
            config: self.config@,
            includes: crate::text::text_views(self.includes@),
            tty_set: self.tty_set,
            userns_set: self.userns_set,
        }
    }
}

/// Where the nodes of a config are, counting from one. A line is `None` only
/// where a node's span falls outside the text it was parsed from.
#[derive(Debug, Clone, PartialEq, Eq)]
pub struct Lines {
    /// Line of each granted service, parallel to
    /// [`InstanceConfig::services`].
    pub services: Vec<Option<u32>>,
    /// Line of each variable, parallel to [`InstanceConfig::env`]; one `env`
    /// node setting several of them gives them all its own line.
    pub env: Vec<Option<u32>>,
    /// Line of the `userns` node, if the file has one.
    pub userns: Option<u32>,
    /// Line of the `seccomp` node, if the file has one.
    pub seccomp: Option<u32>,
}

/// Model of [`Lines`].
pub struct LinesView {
    pub services: Seq<Option<u32>>,
    pub env: Seq<Option<u32>>,
    pub userns: Option<u32>,
    pub seccomp: Option<u32>,
}

impl View for Lines {
    type V = LinesView;

    open spec fn view(&self) -> LinesView {
        LinesView {
            services: self.services@,
            env: self.env@,
            userns: self.userns,
            seccomp: self.seccomp,
        }
    }
}

/// No lines at all.
pub open spec fn no_lines() -> LinesView {
    LinesView { services: Seq::empty(), env: Seq::empty(), userns: None, seccomp: None }
}

impl Default for Lines {
    fn default() -> (r: Lines)
        ensures
            r@ == no_lines(),
    {
        Lines { services: Vec::new(), env: Vec::new(), userns: None, seccomp: None }
    }
}

} // verus!
