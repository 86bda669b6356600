//! The only place that produces bubblewrap arguments. Arguments are kept in
//! fixed phases because `bwrap(1)` applies filesystem operations in
//! command-line order: a later `--tmpfs /run` would silently hide an earlier
//! socket bind underneath it.

use vstd::prelude::*;

use crate::bwrap_calls::{called, every_call_is_what_its_method_does, Call};
use crate::env::{pair_views, Env, SANDBOX_HOME};
use crate::error::{LaunchError, LaunchErrorView};
use crate::host::{file_kind, FileKind, HostFiles};
use crate::paths::{join, join_path};
use crate::text::{
    byte_views, bytes_of, copy_bytes, decimal, decimal_digits, joined, maybe, push_text, same_bytes,
    utf8,
};

verus! {

/// Which decision put an argument in the argv. Rendering one takes the config
/// it indexes into, so it stays a tag here and text elsewhere.
#[derive(Debug, Clone, Copy, PartialEq, Eq, Structural)]
pub enum Origin {
    /// [`BwrapArgs::baseline`] or [`BwrapArgs::proxy_baseline`]: what every
    /// sandbox is restricted to before a grant relaxes it.
    Baseline,
    /// A compiled seccomp program.
    Seccomp,
    /// A `userns "disable"` node.
    Userns,
    /// A `tmp size=` node, which moves the cap the baseline put on `/tmp`.
    Tmp,
    /// An `etc "host"` node, which replaces the tmpfs allowlist with the
    /// host's whole `/etc`.
    Etc,
    /// `--ctty`, decided by the terminal mode rather than by the config.
    Ctty,
    /// The `/.flatpak-info` document that names the sandbox to the proxy.
    Identity,
    /// Index into the instance config's `services`, in file order.
    Service(usize),
    /// Index into the instance config's `shares`: a `--share` flag.
    Share(usize),
    /// Index into the instance config's `env`, in file order.
    Env(usize),
    /// The `bubbler-init` bind and the supervisor's own arguments.
    Init,
    /// The program the sandbox runs, after the final `--`.
    Command,
}

/// One operation of a bwrap argv with the decision that produced it and, for
/// an argument bwrap reads a generated fd from, what is behind it.
#[derive(Debug, Clone, PartialEq, Eq)]
pub struct Explained {
    /// What put these arguments in the argv.
    pub origin: Origin,
    /// The argv elements of this one operation, in order.
    pub args: Vec<Vec<u8>>,
    /// What an fd number in `args` refers to, for a reader who cannot see
    /// the pipe or the memfd behind it.
    pub note: Option<String>,
}

/// Model of an [`Explained`].
pub struct ExplainedView {
    pub origin: Origin,
    pub args: Seq<Seq<u8>>,
    pub note: Option<Seq<char>>,
}

impl View for Explained {
    type V = ExplainedView;

    open spec fn view(&self) -> ExplainedView {
        ExplainedView {
            origin: self.origin,
            args: byte_views(self.args@),
            note: maybe(self.note),
        }
    }
}

/// The models of a list of operations.
pub open spec fn explained_views(items: Seq<Explained>) -> Seq<ExplainedView> {
    Seq::new(items.len(), |i: int| items[i]@)
}

/// Either the literal arguments of one operation or a generated file that
/// only becomes arguments once something has been allocated for it.
#[derive(Debug, Clone)]
enum Kind {
    /// The elements of one operation, e.g. `--ro-bind SRC DST`.
    Args(Vec<Vec<u8>>),
    /// The same, with what an explanation adds where the paths alone do not
    /// say what the operation is there for.
    Noted {
        args: Vec<Vec<u8>>,
        note: String,
    },
    /// Content written to a host file and bound read-only at `dest`.
    Data {
        content: Vec<u8>,
        dest: Vec<u8>,
    },
    /// `--info-fd`.
    InfoFd,
    /// `--block-fd`.
    BlockFd,
    /// A compiled seccomp program, read by bwrap from an fd.
    Seccomp {
        /// cBPF as `struct sock_filter` bytes; bwrap rejects a length that is
        /// not a multiple of eight.
        program: Vec<u8>,
        /// The architectures the program answers for.
        arches: &'static str,
    },
}

/// Model of what one entry of a phase is.
pub enum KindView {
    Args(Seq<Seq<u8>>),
    Noted { args: Seq<Seq<u8>>, note: Seq<char> },
    Data { content: Seq<u8>, dest: Seq<u8> },
    InfoFd,
    BlockFd,
    Seccomp { program: Seq<u8>, arches: Seq<char> },
}

/// One entry of a phase with the origin that pushed it.
#[derive(Debug, Clone)]
struct Item {
    origin: Origin,
    kind: Kind,
}

/// Model of one entry of a phase.
pub struct ItemView {
    pub origin: Origin,
    pub kind: KindView,
}

spec fn item_view(item: Item) -> ItemView {
    ItemView {
        origin: item.origin,
        kind: match item.kind {
            Kind::Args(args) => KindView::Args(byte_views(args@)),
            Kind::Noted { args, note } => KindView::Noted {
                args: byte_views(args@),
                note: note@,
            },
            Kind::Data { content, dest } => KindView::Data { content: content@, dest: dest@ },
            Kind::InfoFd => KindView::InfoFd,
            Kind::BlockFd => KindView::BlockFd,
            Kind::Seccomp { program, arches } => KindView::Seccomp {
                program: program@,
                arches: arches@,
            },
        },
    }
}

spec fn item_views(items: Seq<Item>) -> Seq<ItemView> {
    Seq::new(items.len(), |i: int| item_view(items[i]))
}

/// Where the `bubbler-init` supervisor is bound inside every sandbox. `/run`
/// is a tmpfs this builder creates, so the bind works whatever the host has
/// installed; a destination under the read-only `/usr` would not.
pub const INIT_INSIDE: &'static str = "/run/bubbler-init";

/// Where the `flatpak-spawn` shim is bound in a sandbox that carries
/// `/.flatpak-info`. Not a free choice: gdk-pixbuf's glycin loaders run the
/// program through `env -i`, which leaves glibc's built-in path to find it.
pub const FLATPAK_SPAWN_INSIDE: &'static str = "/usr/bin/flatpak-spawn";

/// Something that has to be allocated before an argv is complete: what bwrap
/// is told is the fd number or the host path that answers it.
#[derive(Debug, Clone, PartialEq, Eq)]
pub enum Request {
    /// Fd holding `content`, for an `--add-seccomp-fd`.
    Data {
        content: Vec<u8>,
    },
    /// Host path of a file holding `content`, for a `--ro-bind` at `dest`. A
    /// file and not bwrap's own `--ro-bind-data`, which binds a file it has
    /// already unlinked: a sandbox that nests one of its own cannot re-bind
    /// such a destination.
    File {
        dest: Vec<u8>,
        content: Vec<u8>,
    },
    /// Fd of the listening control socket `bubbler-init` serves.
    InitSocket,
    /// Fd bwrap reports the sandbox pid on.
    InfoPipe,
    /// Fd the sandbox is held at until released.
    BlockPipe,
}

/// Model of a [`Request`].
#[allow(inconsistent_fields)]
pub enum RequestView {
    Data { content: Seq<u8> },
    File { dest: Seq<u8>, content: Seq<u8> },
    InitSocket,
    InfoPipe,
    BlockPipe,
}

impl View for Request {
    type V = RequestView;

    open spec fn view(&self) -> RequestView {
        match self {
            Request::Data { content } => RequestView::Data { content: content@ },
            Request::File { dest, content } => RequestView::File {
                dest: dest@,
                content: content@,
            },
            Request::InitSocket => RequestView::InitSocket,
            Request::InfoPipe => RequestView::InfoPipe,
            Request::BlockPipe => RequestView::BlockPipe,
        }
    }
}

/// The models of a list of requests.
pub open spec fn request_views(requests: Seq<Request>) -> Seq<RequestView> {
    Seq::new(requests.len(), |i: int| requests[i]@)
}

/// Ordered, phase-separated bubblewrap arguments.
///
/// Phases: 1 namespaces, 2 filesystem skeleton, 3 runtime dir, 4 service
/// binds, 4b masks, 5 environment, then `--` and the command. Only the
/// baselines make one, so arguments without the baseline restrictions cannot
/// be built.
#[derive(Debug, Clone)]
pub struct BwrapArgs {
    namespaces: Vec<Item>,
    skeleton: Vec<Item>,
    runtime_dir: Vec<Item>,
    binds: Vec<Item>,
    /// What [`BwrapArgs::mask_dir`] covers, emitted after every bind of
    /// phase 4: a mask is only a mask while nothing binds over it.
    masks: Vec<Item>,
    env: Vec<Item>,
    /// `--ctty` in the supervisor's own argv, not a bwrap flag.
    ctty: bool,
    /// The argv of the nested X server the supervisor starts on the first X
    /// connection, an optional window manager to start with it, and the node
    /// that asked for them. Also not bwrap flags.
    x11: Option<(Origin, Vec<Vec<u8>>, Option<Vec<u8>>)>,
    /// Tag every following push carries. Set once per phase of work by
    /// [`BwrapArgs::tag`].
    origin: Origin,
}

/// Model of [`BwrapArgs`].
pub struct BwrapView {
    pub namespaces: Seq<ItemView>,
    pub skeleton: Seq<ItemView>,
    pub runtime_dir: Seq<ItemView>,
    pub binds: Seq<ItemView>,
    pub masks: Seq<ItemView>,
    pub env: Seq<ItemView>,
    pub ctty: bool,
    pub x11: Option<(Origin, Seq<Seq<u8>>, Option<Seq<u8>>)>,
    pub origin: Origin,
}

spec fn server_view(x11: Option<(Origin, Vec<Vec<u8>>, Option<Vec<u8>>)>) -> Option<
    (Origin, Seq<Seq<u8>>, Option<Seq<u8>>),
> {
    match x11 {
        None => None,
        Some((origin, argv, wm)) => Some((origin, byte_views(argv@), maybe(wm))),
    }
}

impl View for BwrapArgs {
    type V = BwrapView;

    closed spec fn view(&self) -> BwrapView {
        BwrapView {
            namespaces: item_views(self.namespaces@),
            skeleton: item_views(self.skeleton@),
            runtime_dir: item_views(self.runtime_dir@),
            binds: item_views(self.binds@),
            masks: item_views(self.masks@),
            env: item_views(self.env@),
            ctty: self.ctty,
            x11: server_view(self.x11),
            origin: self.origin,
        }
    }
}

/// One operation.
pub open spec fn op(origin: Origin, args: Seq<Seq<u8>>) -> ItemView {
    ItemView { origin, kind: KindView::Args(args) }
}

/// A generated file bound read-only.
pub open spec fn data_item(origin: Origin, content: Seq<u8>, dest: Seq<u8>) -> ItemView {
    ItemView { origin, kind: KindView::Data { content, dest } }
}

/// Whether an entry is an operation that `flag` leads. Only the head is
/// compared: a value further along could be anything.
pub open spec fn leads(item: ItemView, flag: Seq<u8>) -> bool {
    match item.kind {
        KindView::Args(args) => args.len() > 0 && args[0] == flag,
        _ => false,
    }
}

/// Where the first operation from `i` on is that `flag` leads.
pub open spec fn first_leading(items: Seq<ItemView>, flag: Seq<u8>, i: int) -> Option<int>
    decreases items.len() - i,
{
    if i < 0 || i >= items.len() {
        None
    } else if leads(items[i], flag) {
        Some(i)
    } else {
        first_leading(items, flag, i + 1)
    }
}

/// Whether an entry is a size-capped tmpfs at `dir`.
pub open spec fn capped_tmpfs(item: ItemView, dir: Seq<u8>) -> bool {
    match item.kind {
        KindView::Args(args) => args.len() >= 2 && args[0] == utf8("--size"@) && args.last() == dir,
        _ => false,
    }
}

/// Where the first such tmpfs from `i` on is.
pub open spec fn first_tmpfs(items: Seq<ItemView>, dir: Seq<u8>, i: int) -> Option<int>
    decreases items.len() - i,
{
    if i < 0 || i >= items.len() {
        None
    } else if capped_tmpfs(items[i], dir) {
        Some(i)
    } else {
        first_tmpfs(items, dir, i + 1)
    }
}

/// Where the first generated file from `i` on is.
pub open spec fn first_data(items: Seq<ItemView>, i: int) -> Option<int>
    decreases items.len() - i,
{
    if i < 0 || i >= items.len() {
        None
    } else if items[i].kind is Data {
        Some(i)
    } else {
        first_data(items, i + 1)
    }
}

/// Cap of the sandbox's `/tmp`, in bytes: 2 GiB. Without one a tmpfs may grow
/// to half of host RAM (`tmpfs(5)`), and a sandbox that fills it takes the
/// session's memory with it. Large enough for a browser's download staging
/// and a build's scratch files.
pub const TMP_SIZE: u64 = 2147483648;

/// Cap of every other tmpfs, in bytes: 64 MiB. `/etc`, `/var` and `/run` hold
/// sockets, generated files and directories, not data.
pub const TMPFS_SIZE: u64 = 67108864;

/// Host `/etc` entries bound read-only when they exist. Everything else in
/// `/etc` is hidden by the tmpfs mounted first.
pub const ETC_ALLOWLIST: [&'static str; 24] = [
    "ld.so.cache",
    "ld.so.conf",
    "ld.so.conf.d",
    "fonts",
    "localtime",
    "machine-id",
    "nsswitch.conf",
    "hosts",
    "host.conf",
    "ssl",
    "ca-certificates",
    "mime.types",
    "xdg",
    "gtk-3.0",
    "gtk-4.0",
    "pulse",
    "pipewire",
    "alsa",
    "drirc",
    "vulkan",
    "glvnd",
    "egl",
    "vdpau_wrapper.cfg",
    "os-release",
];

/// Host `/etc` entries the D-Bus proxy sandbox gets when they exist: what the
/// dynamic loader and name resolution read, and nothing else.
pub const PROXY_ETC: [&'static str; 4] = [
    "ld.so.cache",
    "ld.so.conf",
    "ld.so.conf.d",
    "nsswitch.conf",
];

/// The text of the sandbox's `/etc/passwd`.
pub open spec fn passwd_text(uid: u32, gid: u32) -> Seq<char> {
    "bubbler:x:"@ + decimal_digits(uid as nat) + ":"@ + decimal_digits(gid as nat) + ":bubbler:"@
        + SANDBOX_HOME@ + ":/bin/sh\nnobody:x:65534:65534:nobody:/:/bin/sh\n"@
}

/// The text of the sandbox's `/etc/group`.
pub open spec fn group_text(gid: u32) -> Seq<char> {
    "bubbler:x:"@ + decimal_digits(gid as nat) + ":\nnobody:x:65534:\n"@
}

/// `/etc/passwd` for the sandbox: the fixed `bubbler` user plus `nobody`,
/// which is what files owned by other host users map to in the user
/// namespace.
pub fn passwd_content(uid: u32, gid: u32) -> (r: Vec<u8>)
    ensures
        r@ == utf8(passwd_text(uid, gid)),
{
    let mut s = joined("bubbler:x:", &decimal(uid as u64));
    push_text(&mut s, ":");
    push_text(&mut s, &decimal(gid as u64));
    push_text(&mut s, ":bubbler:");
    push_text(&mut s, SANDBOX_HOME);
    push_text(&mut s, ":/bin/sh\nnobody:x:65534:65534:nobody:/:/bin/sh\n");
    bytes_of(&s)
}

/// `/etc/group` matching [`passwd_content`].
pub fn group_content(gid: u32) -> (r: Vec<u8>)
    ensures
        r@ == utf8(group_text(gid)),
{
    let s = joined(&joined("bubbler:x:", &decimal(gid as u64)), ":\nnobody:x:65534:\n");
    bytes_of(&s)
}

fn push1(v: &mut Vec<Item>, origin: Origin, a: &str)
    ensures
        item_views(final(v)@) == item_views(old(v)@).push(op(origin, seq![utf8(a@)])),
{
    let args: Vec<Vec<u8>> = vec![bytes_of(a)];
    assert(byte_views(args@) =~= seq![utf8(a@)]);
    v.push(Item { origin, kind: Kind::Args(args) });
    assert(item_views(v@) =~= item_views(old(v)@).push(op(origin, seq![utf8(a@)])));
}

fn push2(v: &mut Vec<Item>, origin: Origin, a: &str, b: &[u8])
    ensures
        item_views(final(v)@) == item_views(old(v)@).push(op(origin, seq![utf8(a@), b@])),
{
    let args: Vec<Vec<u8>> = vec![bytes_of(a), copy_bytes(b)];
    assert(byte_views(args@) =~= seq![utf8(a@), b@]);
    v.push(Item { origin, kind: Kind::Args(args) });
    assert(item_views(v@) =~= item_views(old(v)@).push(op(origin, seq![utf8(a@), b@])));
}

fn push3(v: &mut Vec<Item>, origin: Origin, a: &str, b: &[u8], c: &[u8])
    ensures
        item_views(final(v)@) == item_views(old(v)@).push(op(origin, seq![utf8(a@), b@, c@])),
{
    let args: Vec<Vec<u8>> = vec![bytes_of(a), copy_bytes(b), copy_bytes(c)];
    assert(byte_views(args@) =~= seq![utf8(a@), b@, c@]);
    v.push(Item { origin, kind: Kind::Args(args) });
    assert(item_views(v@) =~= item_views(old(v)@).push(op(origin, seq![utf8(a@), b@, c@])));
}

fn push4(v: &mut Vec<Item>, origin: Origin, a: &str, b: &[u8], c: &str, d: &[u8])
    ensures
        item_views(final(v)@) == item_views(old(v)@).push(
            op(origin, seq![utf8(a@), b@, utf8(c@), d@]),
        ),
{
    let args: Vec<Vec<u8>> = vec![bytes_of(a), copy_bytes(b), bytes_of(c), copy_bytes(d)];
    assert(byte_views(args@) =~= seq![utf8(a@), b@, utf8(c@), d@]);
    v.push(Item { origin, kind: Kind::Args(args) });
    assert(item_views(v@) =~= item_views(old(v)@).push(
        op(origin, seq![utf8(a@), b@, utf8(c@), d@]),
    ));
}

fn push_data(v: &mut Vec<Item>, origin: Origin, content: Vec<u8>, dest: &[u8])
    ensures
        item_views(final(v)@) == item_views(old(v)@).push(data_item(origin, content@, dest@)),
{
    v.push(Item { origin, kind: Kind::Data { content, dest: copy_bytes(dest) } });
    assert(item_views(v@) =~= item_views(old(v)@).push(data_item(origin, content@, dest@)));
}

/// A directory of `/usr` linked at the root.
pub open spec fn usr_link(target: Seq<char>, link: Seq<char>) -> ItemView {
    op(Origin::Baseline, seq![utf8("--symlink"@), utf8(target), utf8(link)])
}

/// A path bound read-only at itself.
pub open spec fn own_bind(path: Seq<u8>) -> ItemView {
    op(Origin::Baseline, seq![utf8("--ro-bind"@), path, path])
}

/// A tmpfs of at most `size` bytes. `--size` applies to the next operation
/// only (`bwrap(1)`), so it is part of the same operation as its `--tmpfs`.
pub open spec fn tmpfs(size: u64, dir: Seq<u8>) -> ItemView {
    op(
        Origin::Baseline,
        seq![utf8("--size"@), utf8(decimal_digits(size as nat)), utf8("--tmpfs"@), dir],
    )
}

/// The path of an entry under `/etc`.
pub open spec fn etc_path(name: Seq<char>) -> Seq<u8> {
    join_path(utf8("/etc"@), utf8(name))
}

/// The binds of the first `n` of some `/etc` entries, where they exist.
pub open spec fn etc_binds(
    names: Seq<&'static str>,
    files: Seq<(Seq<u8>, FileKind)>,
    n: int,
) -> Seq<ItemView>
    decreases n,
{
    if n <= 0 {
        Seq::empty()
    } else {
        let path = etc_path(names[n - 1]@);
        let before = etc_binds(names, files, n - 1);
        if file_kind(files, path) is Some {
            before.push(own_bind(path))
        } else {
            before
        }
    }
}

/// The read-only `/usr` and what links into it.
pub open spec fn usr_items() -> Seq<ItemView> {
    seq![
        own_bind(utf8("/usr"@)),
        usr_link("usr/bin"@, "/bin"@),
        usr_link("usr/lib"@, "/lib"@),
        usr_link("usr/lib64"@, "/lib64"@),
        usr_link("usr/bin"@, "/sbin"@),
    ]
}

/// Phase 1 of every sandbox.
pub open spec fn isolation() -> Seq<ItemView> {
    seq![
        op(Origin::Baseline, seq![utf8("--unshare-all"@)]),
        op(Origin::Baseline, seq![utf8("--die-with-parent"@)]),
        op(Origin::Baseline, seq![utf8("--new-session"@)]),
    ]
}

/// Phase 1 of an instance's sandbox.
pub open spec fn baseline_namespaces() -> Seq<ItemView> {
    isolation() + seq![
        op(Origin::Baseline, seq![utf8("--hostname"@), utf8("bubbler"@)]),
        op(Origin::Baseline, seq![utf8("--chdir"@), utf8(SANDBOX_HOME@)]),
        (ItemView { origin: Origin::Baseline, kind: KindView::InfoFd }),
    ]
}

/// The Wine synchronisation device, where the host has it.
pub open spec fn ntsync_items(files: Seq<(Seq<u8>, FileKind)>) -> Seq<ItemView> {
    let path = utf8("/dev/ntsync"@);
    if file_kind(files, path) == Some(FileKind::CharDevice) {
        seq![op(Origin::Baseline, seq![utf8("--dev-bind"@), path, path])]
    } else {
        Seq::empty()
    }
}

/// Phase 2 of an instance's sandbox.
pub open spec fn baseline_skeleton(
    uid: u32,
    gid: u32,
    home: Seq<u8>,
    files: Seq<(Seq<u8>, FileKind)>,
) -> Seq<ItemView> {
    usr_items() + seq![
        op(Origin::Baseline, seq![utf8("--ro-bind-try"@), utf8("/opt"@), utf8("/opt"@)]),
        tmpfs(TMPFS_SIZE, utf8("/etc"@)),
    ] + etc_binds(ETC_ALLOWLIST@, files, 24) + seq![
        data_item(Origin::Baseline, utf8(passwd_text(uid, gid)), utf8("/etc/passwd"@)),
        data_item(Origin::Baseline, utf8(group_text(gid)), utf8("/etc/group"@)),
        op(Origin::Baseline, seq![utf8("--proc"@), utf8("/proc"@)]),
        op(Origin::Baseline, seq![utf8("--dev"@), utf8("/dev"@)]),
    ] + ntsync_items(files) + seq![
        tmpfs(TMP_SIZE, utf8("/tmp"@)),
        tmpfs(TMPFS_SIZE, utf8("/var"@)),
        tmpfs(TMPFS_SIZE, utf8("/run"@)),
        op(Origin::Baseline, seq![utf8("--bind"@), home, utf8(SANDBOX_HOME@)]),
    ]
}

/// A variable set inside the sandbox.
pub open spec fn set_variable(origin: Origin, key: Seq<u8>, value: Seq<u8>) -> ItemView {
    op(origin, seq![utf8("--setenv"@), key, value])
}

/// Phase 5 of an instance's sandbox. Host binaries come first in `PATH`: a
/// file an app drops into its own `~/.local/bin` must never shadow `/usr/bin`
/// for a bare command name.
pub open spec fn baseline_env(
    passthrough: Seq<(Seq<u8>, Seq<u8>)>,
    runtime_dir: Seq<u8>,
) -> Seq<ItemView> {
    let b = Origin::Baseline;
    seq![op(b, seq![utf8("--clearenv"@)])] + passthrough.map_values(
        |p: (Seq<u8>, Seq<u8>)| set_variable(b, p.0, p.1),
    ) + seq![
        set_variable(b, utf8("HOME"@), utf8(SANDBOX_HOME@)),
        set_variable(b, utf8("PATH"@), utf8("/usr/bin:"@ + SANDBOX_HOME@ + "/.local/bin"@)),
        set_variable(b, utf8("XDG_RUNTIME_DIR"@), runtime_dir),
        set_variable(b, utf8("USER"@), utf8("bubbler"@)),
        set_variable(b, utf8("LOGNAME"@), utf8("bubbler"@)),
    ]
}

/// The restrictions every instance's sandbox gets.
pub open spec fn baseline_view(
    uid: u32,
    gid: u32,
    passthrough: Seq<(Seq<u8>, Seq<u8>)>,
    runtime_dir: Seq<u8>,
    home: Seq<u8>,
    files: Seq<(Seq<u8>, FileKind)>,
) -> BwrapView {
    BwrapView {
        namespaces: baseline_namespaces(),
        skeleton: baseline_skeleton(uid, gid, home, files),
        runtime_dir: seq![
            op(
                Origin::Baseline,
                seq![utf8("--perms"@), utf8("0700"@), utf8("--dir"@), runtime_dir],
            ),
        ],
        binds: Seq::empty(),
        masks: Seq::empty(),
        env: baseline_env(passthrough, runtime_dir),
        ctty: false,
        x11: None,
        origin: Origin::Baseline,
    }
}

/// What every sidecar's sandbox starts from.
pub open spec fn sidecar_view(files: Seq<(Seq<u8>, FileKind)>) -> BwrapView {
    BwrapView {
        namespaces: isolation(),
        skeleton: usr_items() + seq![tmpfs(TMPFS_SIZE, utf8("/etc"@))] + etc_binds(
            PROXY_ETC@,
            files,
            4,
        ) + seq![
            op(Origin::Baseline, seq![utf8("--proc"@), utf8("/proc"@)]),
            op(Origin::Baseline, seq![utf8("--dev"@), utf8("/dev"@)]),
            tmpfs(TMPFS_SIZE, utf8("/tmp"@)),
        ],
        runtime_dir: Seq::empty(),
        binds: Seq::empty(),
        masks: Seq::empty(),
        env: seq![op(Origin::Baseline, seq![utf8("--clearenv"@)])],
        ctty: false,
        x11: None,
        origin: Origin::Baseline,
    }
}

/// A sidecar's sandbox with more operations at the end of phase 2.
pub open spec fn with_skeleton(v: BwrapView, more: Seq<ItemView>) -> BwrapView {
    BwrapView { skeleton: v.skeleton + more, ..v }
}

/// The bind of a host bus, where the proxy was asked for it.
pub open spec fn bus_bind(bus: Option<Seq<u8>>) -> Seq<ItemView> {
    match bus {
        Some(path) => seq![own_bind(path)],
        None => Seq::empty(),
    }
}

fn push_usr(v: &mut Vec<Item>)
    ensures
        item_views(final(v)@) == item_views(old(v)@) + usr_items(),
{
    let b = Origin::Baseline;
    push3(v, b, "--ro-bind", "/usr".as_bytes(), "/usr".as_bytes());
    push3(v, b, "--symlink", "usr/bin".as_bytes(), "/bin".as_bytes());
    push3(v, b, "--symlink", "usr/lib".as_bytes(), "/lib".as_bytes());
    push3(v, b, "--symlink", "usr/lib64".as_bytes(), "/lib64".as_bytes());
    push3(v, b, "--symlink", "usr/bin".as_bytes(), "/sbin".as_bytes());
    assert(item_views(v@) =~= item_views(old(v)@) + usr_items());
}

fn push_tmpfs(v: &mut Vec<Item>, size: u64, dir: &str)
    ensures
        item_views(final(v)@) == item_views(old(v)@).push(tmpfs(size, utf8(dir@))),
{
    let digits = decimal(size);
    push4(v, Origin::Baseline, "--size", digits.as_str().as_bytes(), "--tmpfs", dir.as_bytes());
}

fn push_etc(v: &mut Vec<Item>, names: &[&'static str], host: &HostFiles)
    ensures
        item_views(final(v)@) == item_views(old(v)@) + etc_binds(
            names@,
            host@,
            names@.len() as int,
        ),
{
    let ghost first = item_views(v@);
    let mut i: usize = 0;
    assert(first + etc_binds(names@, host@, 0) =~= first);
    while i < names.len()
        invariant
            i <= names@.len(),
            first == item_views(old(v)@),
            item_views(v@) == first + etc_binds(names@, host@, i as int),
        decreases names@.len() - i,
    {
        let path = join("/etc".as_bytes(), names[i].as_bytes());
        assert(path@ == etc_path(names@[i as int]@));
        let ghost before = item_views(v@);
        if host.has(&path) {
            push3(v, Origin::Baseline, "--ro-bind", &path, &path);
        }
        i = i + 1;
        assert(item_views(v@) =~= first + etc_binds(names@, host@, i as int));
    }
}

fn push_isolation(v: &mut Vec<Item>)
    ensures
        item_views(final(v)@) == item_views(old(v)@) + isolation(),
{
    let b = Origin::Baseline;
    push1(v, b, "--unshare-all");
    push1(v, b, "--die-with-parent");
    push1(v, b, "--new-session");
    assert(item_views(v@) =~= item_views(old(v)@) + isolation());
}

/// The host paths a sandbox begins with asking about.
pub open spec fn baseline_asks() -> Seq<Seq<u8>> {
    Seq::new(24, |i: int| etc_path(ETC_ALLOWLIST@[i]@)).push(utf8("/dev/ntsync"@))
}

/// The host paths a baseline asks about: the `/etc` entries it would bind and
/// the device it would.
pub fn baseline_paths() -> (r: Vec<Vec<u8>>)
    ensures
        byte_views(r@) == baseline_asks(),
{
    let mut out: Vec<Vec<u8>> = Vec::new();
    let ghost all = Seq::new(24, |i: int| etc_path(ETC_ALLOWLIST@[i]@));
    let mut i: usize = 0;
    assert(byte_views(out@) =~= all.take(0));
    while i < ETC_ALLOWLIST.len()
        invariant
            all == Seq::new(24, |i: int| etc_path(ETC_ALLOWLIST@[i]@)),
            i <= ETC_ALLOWLIST@.len(),
            byte_views(out@) == all.take(i as int),
        decreases ETC_ALLOWLIST@.len() - i,
    {
        let path = join("/etc".as_bytes(), ETC_ALLOWLIST[i].as_bytes());
        let ghost model = path@;
        out.push(path);
        i = i + 1;
        assert(byte_views(out@) =~= all.take(i - 1).push(model));
        assert(all.take(i as int) =~= all.take(i - 1).push(all[i - 1]));
    }
    assert(all.take(24) =~= all);
    let ghost before = byte_views(out@);
    out.push(bytes_of("/dev/ntsync"));
    assert(byte_views(out@) =~= before.push(utf8("/dev/ntsync"@)));
    out
}

/// The host paths binding the host's `/etc` asks about.
pub open spec fn account_asks() -> Seq<Seq<u8>> {
    seq![
        utf8("/etc/passwd-"@),
        utf8("/etc/passwd+"@),
        utf8("/etc/group-"@),
        utf8("/etc/group+"@),
        utf8("/etc/subuid"@),
        utf8("/etc/subgid"@),
    ]
}

/// The host paths [`BwrapArgs::bind_host_etc`] asks about: the files that name
/// the host account and are covered where they exist.
pub fn account_paths() -> (r: Vec<Vec<u8>>)
    ensures
        byte_views(r@) == account_asks(),
{
    let mut out: Vec<Vec<u8>> = Vec::new();
    out.push(bytes_of("/etc/passwd-"));
    out.push(bytes_of("/etc/passwd+"));
    out.push(bytes_of("/etc/group-"));
    out.push(bytes_of("/etc/group+"));
    out.push(bytes_of("/etc/subuid"));
    out.push(bytes_of("/etc/subgid"));
    assert(byte_views(out@) =~= account_asks());
    out
}

fn instance_namespaces() -> (r: Vec<Item>)
    ensures
        item_views(r@) == baseline_namespaces(),
{
    let b = Origin::Baseline;
    let mut v: Vec<Item> = Vec::new();
    assert(item_views(v@) =~= Seq::empty());
    push_isolation(&mut v);
    push2(&mut v, b, "--hostname", "bubbler".as_bytes());
    // bwrap keeps the working directory it was started in when that path also
    // exists inside, so without --chdir a sandbox started from, say, /tmp
    // would run there instead of in the private home.
    push2(&mut v, b, "--chdir", SANDBOX_HOME.as_bytes());
    // bwrap reports the sandbox pid here; the launcher needs it to signal the
    // supervisor, since bwrap forwards no signals itself.
    let ghost before = item_views(v@);
    v.push(Item { origin: b, kind: Kind::InfoFd });
    assert(item_views(v@) =~= before.push(ItemView { origin: b, kind: KindView::InfoFd }));
    assert(item_views(v@) =~= baseline_namespaces());
    v
}

fn push_etc_files(v: &mut Vec<Item>, env: &Env)
    ensures
        item_views(final(v)@) == item_views(old(v)@) + seq![
            data_item(
                Origin::Baseline,
                utf8(passwd_text(env.uid, env.gid)),
                utf8("/etc/passwd"@),
            ),
            data_item(Origin::Baseline, utf8(group_text(env.gid)), utf8("/etc/group"@)),
            op(Origin::Baseline, seq![utf8("--proc"@), utf8("/proc"@)]),
            op(Origin::Baseline, seq![utf8("--dev"@), utf8("/dev"@)]),
        ],
{
    let b = Origin::Baseline;
    let ghost first = item_views(v@);
    push_data(v, b, passwd_content(env.uid, env.gid), "/etc/passwd".as_bytes());
    push_data(v, b, group_content(env.gid), "/etc/group".as_bytes());
    push2(v, b, "--proc", "/proc".as_bytes());
    push2(v, b, "--dev", "/dev".as_bytes());
    assert(item_views(v@) =~= first + seq![
        data_item(b, utf8(passwd_text(env.uid, env.gid)), utf8("/etc/passwd"@)),
        data_item(b, utf8(group_text(env.gid)), utf8("/etc/group"@)),
        op(b, seq![utf8("--proc"@), utf8("/proc"@)]),
        op(b, seq![utf8("--dev"@), utf8("/dev"@)]),
    ]);
}

// Wine's and Proton's synchronisation primitive: the objects it makes belong
// to the process that opened it, so there is no host state behind it. The
// bind follows `--dev`, which would otherwise hide it.
fn push_ntsync(v: &mut Vec<Item>, host: &HostFiles)
    ensures
        item_views(final(v)@) == item_views(old(v)@) + ntsync_items(host@),
{
    let ntsync = bytes_of("/dev/ntsync");
    match host.file_type(&ntsync) {
        Some(FileKind::CharDevice) => {
            push3(v, Origin::Baseline, "--dev-bind", &ntsync, &ntsync);
        },
        _ => {},
    }
    assert(item_views(v@) =~= item_views(old(v)@) + ntsync_items(host@));
}

fn push_writable(v: &mut Vec<Item>, instance_home: &[u8])
    ensures
        item_views(final(v)@) == item_views(old(v)@) + seq![
            tmpfs(TMP_SIZE, utf8("/tmp"@)),
            tmpfs(TMPFS_SIZE, utf8("/var"@)),
            tmpfs(TMPFS_SIZE, utf8("/run"@)),
            op(Origin::Baseline, seq![utf8("--bind"@), instance_home@, utf8(SANDBOX_HOME@)]),
        ],
{
    let ghost first = item_views(v@);
    push_tmpfs(v, TMP_SIZE, "/tmp");
    push_tmpfs(v, TMPFS_SIZE, "/var");
    push_tmpfs(v, TMPFS_SIZE, "/run");
    push3(v, Origin::Baseline, "--bind", instance_home, SANDBOX_HOME.as_bytes());
    assert(item_views(v@) =~= first + seq![
        tmpfs(TMP_SIZE, utf8("/tmp"@)),
        tmpfs(TMPFS_SIZE, utf8("/var"@)),
        tmpfs(TMPFS_SIZE, utf8("/run"@)),
        op(Origin::Baseline, seq![utf8("--bind"@), instance_home@, utf8(SANDBOX_HOME@)]),
    ]);
}

fn instance_skeleton(env: &Env, instance_home: &[u8], host: &HostFiles) -> (r: Vec<Item>)
    ensures
        item_views(r@) == baseline_skeleton(env.uid, env.gid, instance_home@, host@),
{
    let b = Origin::Baseline;
    let mut v: Vec<Item> = Vec::new();
    assert(item_views(v@) =~= Seq::empty());
    push_usr(&mut v);
    push3(&mut v, b, "--ro-bind-try", "/opt".as_bytes(), "/opt".as_bytes());
    // The tmpfs has to precede the entry binds and the data files, or it
    // would hide them: bwrap applies filesystem operations in argv order.
    push_tmpfs(&mut v, TMPFS_SIZE, "/etc");
    assert(item_views(v@) =~= usr_items() + seq![
        op(b, seq![utf8("--ro-bind-try"@), utf8("/opt"@), utf8("/opt"@)]),
        tmpfs(TMPFS_SIZE, utf8("/etc"@)),
    ]);
    push_etc(&mut v, &ETC_ALLOWLIST, host);
    push_etc_files(&mut v, env);
    push_ntsync(&mut v, host);
    push_writable(&mut v, instance_home);
    v
}

fn instance_env(env: &Env) -> (r: Vec<Item>)
    ensures
        item_views(r@) == baseline_env(pair_views(env.passthrough@), env.runtime_dir@),
{
    let b = Origin::Baseline;
    let mut v: Vec<Item> = Vec::new();
    assert(item_views(v@) =~= Seq::empty());
    push1(&mut v, b, "--clearenv");
    assert(item_views(v@) =~= seq![op(b, seq![utf8("--clearenv"@)])]);
    push_passthrough(&mut v, &env.passthrough);
    let ghost first = item_views(v@);
    push3(&mut v, b, "--setenv", "HOME".as_bytes(), SANDBOX_HOME.as_bytes());
    // Host binaries first: a file an app drops into its own `~/.local/bin`
    // must never shadow `/usr/bin` for a bare command name.
    let path = joined(&joined("/usr/bin:", SANDBOX_HOME), "/.local/bin");
    push3(&mut v, b, "--setenv", "PATH".as_bytes(), path.as_str().as_bytes());
    push3(&mut v, b, "--setenv", "XDG_RUNTIME_DIR".as_bytes(), &env.runtime_dir);
    push3(&mut v, b, "--setenv", "USER".as_bytes(), "bubbler".as_bytes());
    push3(&mut v, b, "--setenv", "LOGNAME".as_bytes(), "bubbler".as_bytes());
    assert(item_views(v@) =~= first + seq![
        set_variable(b, utf8("HOME"@), utf8(SANDBOX_HOME@)),
        set_variable(b, utf8("PATH"@), utf8("/usr/bin:"@ + SANDBOX_HOME@ + "/.local/bin"@)),
        set_variable(b, utf8("XDG_RUNTIME_DIR"@), env.runtime_dir@),
        set_variable(b, utf8("USER"@), utf8("bubbler"@)),
        set_variable(b, utf8("LOGNAME"@), utf8("bubbler"@)),
    ]);
    v
}

impl BwrapArgs {
    fn empty() -> (r: Self)
        ensures
            r@ == (BwrapView {
                namespaces: Seq::empty(),
                skeleton: Seq::empty(),
                runtime_dir: Seq::empty(),
                binds: Seq::empty(),
                masks: Seq::empty(),
                env: Seq::empty(),
                ctty: false,
                x11: None,
                origin: Origin::Baseline,
            }),
    {
        let r = BwrapArgs {
            namespaces: Vec::new(),
            skeleton: Vec::new(),
            runtime_dir: Vec::new(),
            binds: Vec::new(),
            masks: Vec::new(),
            env: Vec::new(),
            ctty: false,
            x11: None,
            origin: Origin::Baseline,
        };
        assert(item_views(r.namespaces@) =~= Seq::empty());
        assert(item_views(r.skeleton@) =~= Seq::empty());
        assert(item_views(r.runtime_dir@) =~= Seq::empty());
        assert(item_views(r.binds@) =~= Seq::empty());
        assert(item_views(r.masks@) =~= Seq::empty());
        assert(item_views(r.env@) =~= Seq::empty());
        r
    }

    /// The restrictions every sandbox gets: all namespaces unshared, no
    /// network, read-only `/usr` `/opt`, an `/etc` that is an allowlist
    /// ([`ETC_ALLOWLIST`]) over a tmpfs plus a synthetic passwd and group,
    /// empty `/tmp` ([`TMP_SIZE`]) `/var` `/run` ([`TMPFS_SIZE`]),
    /// `/dev/ntsync` where the host has that node, a private home at
    /// [`SANDBOX_HOME`], an empty `$XDG_RUNTIME_DIR` at the same path as on
    /// the host and mode 0700 (`--perms` applies to the next operation only,
    /// so it must immediately precede `--dir`), the private home as the
    /// working directory, an `--info-fd` the sandbox pid is reported on,
    /// cleared environment with only locale and terminal passthrough and the
    /// fixed user name. Services relax this explicitly.
    pub fn baseline(env: &Env, instance_home: &[u8], host: &HostFiles) -> (r: Self)
        ensures
            r@ == baseline_view(
                env.uid,
                env.gid,
                pair_views(env.passthrough@),
                env.runtime_dir@,
                instance_home@,
                host@,
            ),
    {
        let mut a = Self::empty();
        a.namespaces = instance_namespaces();
        a.skeleton = instance_skeleton(env, instance_home, host);
        // `--perms` applies to the next operation only, so it stays part of
        // the same operation as the `--dir` it sets the mode of.
        push4(
            &mut a.runtime_dir,
            Origin::Baseline,
            "--perms",
            "0700".as_bytes(),
            "--dir",
            &env.runtime_dir,
        );
        assert(item_views(a.runtime_dir@) =~= seq![
            op(
                Origin::Baseline,
                seq![utf8("--perms"@), utf8("0700"@), utf8("--dir"@), env.runtime_dir@],
            ),
        ]);
        a.env = instance_env(env);
        a
    }

    /// What every sidecar sandbox starts from: the same namespace
    /// restrictions as [`BwrapArgs::baseline`], a read-only `/usr` and a
    /// minimal `/etc` ([`PROXY_ETC`]) so the sidecar binary can start, no
    /// home and no runtime dir of its own. The environment is cleared;
    /// whatever a sidecar needs to reach is an argument of it.
    ///
    /// Nothing of the session is here. Each sidecar adds the one or two paths
    /// it serves, and nothing else.
    pub fn sidecar_baseline(host: &HostFiles) -> (r: Self)
        ensures
            r@ == sidecar_view(host@),
    {
        let mut a = Self::empty();
        let b = Origin::Baseline;
        push_isolation(&mut a.namespaces);
        assert(item_views(a.namespaces@) =~= isolation());
        push_usr(&mut a.skeleton);
        push_tmpfs(&mut a.skeleton, TMPFS_SIZE, "/etc");
        push_etc(&mut a.skeleton, &PROXY_ETC, host);
        push2(&mut a.skeleton, b, "--proc", "/proc".as_bytes());
        push2(&mut a.skeleton, b, "--dev", "/dev".as_bytes());
        push_tmpfs(&mut a.skeleton, TMPFS_SIZE, "/tmp");
        assert(item_views(a.skeleton@) =~= sidecar_view(host@).skeleton);
        push1(&mut a.env, b, "--clearenv");
        assert(item_views(a.env@) =~= sidecar_view(host@).env);
        a
    }

    /// The sandbox the D-Bus proxy sidecar runs in: the sidecar baseline plus
    /// the host socket of each bus it was asked for, read-only, and
    /// `socket_dir` read-write, which is where it creates the filtered
    /// sockets. The addresses are arguments, not environment.
    ///
    /// `socket_dir` is a directory of its own, never the instance's runtime
    /// directory: that one holds the supervisor's control socket, and a
    /// process that reaches it can run commands inside the app.
    pub fn proxy_baseline(
        host_bus: Option<&[u8]>,
        host_system_bus: Option<&[u8]>,
        host_a11y_bus: Option<&[u8]>,
        socket_dir: &[u8],
        host: &HostFiles,
    ) -> (r: Self)
        ensures
            r@ == proxy_view(
                maybe(host_bus),
                maybe(host_system_bus),
                maybe(host_a11y_bus),
                socket_dir@,
                host@,
            ),
            r@ == with_skeleton(
                sidecar_view(host@),
                bus_bind(maybe(host_bus)) + bus_bind(maybe(host_system_bus)) + bus_bind(
                    maybe(host_a11y_bus),
                ) + seq![
                    op(Origin::Baseline, seq![utf8("--bind"@), socket_dir@, socket_dir@]),
                ],
            ),
    {
        let mut a = Self::sidecar_baseline(host);
        let b = Origin::Baseline;
        // Only the buses this proxy was asked for: a socket bound here that
        // no section names is a host bus the proxy could still reach.
        push_bus(&mut a.skeleton, host_bus);
        push_bus(&mut a.skeleton, host_system_bus);
        push_bus(&mut a.skeleton, host_a11y_bus);
        // Read-write because the proxy has to create its socket here, and
        // nothing else of the session is in this directory.
        push3(&mut a.skeleton, b, "--bind", socket_dir, socket_dir);
        assert(item_views(a.skeleton@) =~= sidecar_view(host@).skeleton + (bus_bind(
            maybe(host_bus),
        ) + bus_bind(maybe(host_system_bus)) + bus_bind(maybe(host_a11y_bus)) + seq![
            op(Origin::Baseline, seq![utf8("--bind"@), socket_dir@, socket_dir@]),
        ]));
        a
    }

    /// The sandbox the PipeWire context sidecar runs in: the sidecar
    /// baseline, the session's own `pipewire-0` read-only at its own path,
    /// and `dir` as the whole of `/tmp`, which is where the sidecar creates
    /// its socket.
    pub fn pw_context_baseline(host_socket: &[u8], dir: &[u8], host: &HostFiles) -> (r: Self)
        ensures
            r@ == sound_view(host_socket@, host_socket@, dir@, host@),
            r@ == with_skeleton(
                sidecar_view(host@),
                seq![
                    own_bind(host_socket@),
                    op(Origin::Baseline, seq![utf8("--bind"@), dir@, utf8("/tmp"@)]),
                ],
            ),
    {
        let mut a = Self::sidecar_baseline(host);
        let b = Origin::Baseline;
        push3(&mut a.skeleton, b, "--ro-bind", host_socket, host_socket);
        // After the baseline's own `--tmpfs /tmp`, which this replaces: bwrap
        // applies filesystem operations in the order given.
        push3(&mut a.skeleton, b, "--bind", dir, "/tmp".as_bytes());
        assert(item_views(a.skeleton@) =~= sidecar_view(host@).skeleton + seq![
            own_bind(host_socket@),
            op(Origin::Baseline, seq![utf8("--bind"@), dir@, utf8("/tmp"@)]),
        ]);
        a
    }

    /// The sandbox the private PulseAudio server of a `pulseaudio` grant runs
    /// in: the sidecar baseline, this run's own context socket read-only at
    /// `inside`, and `dir` as the whole of `/tmp`.
    pub fn pw_pulse_baseline(
        socket: &[u8],
        inside: &[u8],
        dir: &[u8],
        host: &HostFiles,
    ) -> (r: Self)
        ensures
            r@ == sound_view(socket@, inside@, dir@, host@),
            r@ == with_skeleton(
                sidecar_view(host@),
                seq![
                    op(Origin::Baseline, seq![utf8("--ro-bind"@), socket@, inside@]),
                    op(Origin::Baseline, seq![utf8("--bind"@), dir@, utf8("/tmp"@)]),
                ],
            ),
    {
        let mut a = Self::sidecar_baseline(host);
        let b = Origin::Baseline;
        push3(&mut a.skeleton, b, "--ro-bind", socket, inside);
        // After the baseline's own `--tmpfs /tmp`, which this replaces: bwrap
        // applies filesystem operations in the order given.
        push3(&mut a.skeleton, b, "--bind", dir, "/tmp".as_bytes());
        assert(item_views(a.skeleton@) =~= sidecar_view(host@).skeleton + seq![
            op(Origin::Baseline, seq![utf8("--ro-bind"@), socket@, inside@]),
            op(Origin::Baseline, seq![utf8("--bind"@), dir@, utf8("/tmp"@)]),
        ]);
        a
    }

    /// The sandbox the Wayland proxy sidecar runs in: the sidecar baseline
    /// plus `upstream`, the compositor socket it forwards the application's
    /// connection to, read-only and at its own path.
    pub fn wl_proxy_baseline(upstream: &[u8], host: &HostFiles) -> (r: Self)
        ensures
            r@ == display_view(upstream@, host@),
            r@ == with_skeleton(sidecar_view(host@), seq![own_bind(upstream@)]),
    {
        let mut a = Self::sidecar_baseline(host);
        push3(&mut a.skeleton, Origin::Baseline, "--ro-bind", upstream, upstream);
        assert(item_views(a.skeleton@) =~= sidecar_view(host@).skeleton + seq![
            own_bind(upstream@),
        ]);
        a
    }
}

fn push_passthrough(v: &mut Vec<Item>, pairs: &Vec<(Vec<u8>, Vec<u8>)>)
    ensures
        item_views(final(v)@) == item_views(old(v)@) + pair_views(pairs@).map_values(
            |p: (Seq<u8>, Seq<u8>)| set_variable(Origin::Baseline, p.0, p.1),
        ),
{
    let ghost first = item_views(v@);
    let ghost all = pair_views(pairs@).map_values(
        |p: (Seq<u8>, Seq<u8>)| set_variable(Origin::Baseline, p.0, p.1),
    );
    let mut i: usize = 0;
    assert(first + all.take(0) =~= first);
    while i < pairs.len()
        invariant
            first == item_views(old(v)@),
            all == pair_views(pairs@).map_values(
                |p: (Seq<u8>, Seq<u8>)| set_variable(Origin::Baseline, p.0, p.1),
            ),
            i <= pairs@.len(),
            item_views(v@) == first + all.take(i as int),
        decreases pairs@.len() - i,
    {
        push3(v, Origin::Baseline, "--setenv", &pairs[i].0, &pairs[i].1);
        assert(all[i as int] == set_variable(
            Origin::Baseline,
            pairs@[i as int].0@,
            pairs@[i as int].1@,
        ));
        i = i + 1;
        assert(item_views(v@) =~= first + all.take(i as int));
    }
    assert(all.take(i as int) =~= all);
}

fn push_bus(v: &mut Vec<Item>, bus: Option<&[u8]>)
    ensures
        item_views(final(v)@) == item_views(old(v)@) + bus_bind(maybe(bus)),
{
    match bus {
        Some(path) => push3(v, Origin::Baseline, "--ro-bind", path, path),
        None => {},
    }
    assert(item_views(v@) =~= item_views(old(v)@) + bus_bind(maybe(bus)));
}

fn item_leads(item: &Item, flag: &str) -> (r: bool)
    ensures
        r == leads(item_view(*item), utf8(flag@)),
{
    match &item.kind {
        Kind::Args(args) => {
            if args.len() == 0 {
                return false;
            }
            assert(byte_views(args@)[0] == args@[0]@);
            same_bytes(&args[0], flag.as_bytes())
        },
        _ => false,
    }
}

fn find_leading(items: &Vec<Item>, flag: &str) -> (r: Option<usize>)
    ensures
        match r {
            Some(i) => first_leading(item_views(items@), utf8(flag@), 0) == Some(i as int) && i
                < items@.len() && leads(item_view(items@[i as int]), utf8(flag@)),
            None => first_leading(item_views(items@), utf8(flag@), 0) is None,
        },
{
    let ghost all = item_views(items@);
    let mut i: usize = 0;
    while i < items.len()
        invariant
            all == item_views(items@),
            i <= items@.len(),
            first_leading(all, utf8(flag@), 0) == first_leading(all, utf8(flag@), i as int),
        decreases items@.len() - i,
    {
        assert(all[i as int] == item_view(items@[i as int]));
        if item_leads(&items[i], flag) {
            return Some(i);
        }
        i = i + 1;
    }
    None
}

fn find_tmpfs(items: &Vec<Item>, dir: &str) -> (r: Option<usize>)
    ensures
        match r {
            Some(i) => first_tmpfs(item_views(items@), utf8(dir@), 0) == Some(i as int) && i
                < items@.len() && capped_tmpfs(item_view(items@[i as int]), utf8(dir@)),
            None => first_tmpfs(item_views(items@), utf8(dir@), 0) is None,
        },
{
    let ghost all = item_views(items@);
    let mut i: usize = 0;
    while i < items.len()
        invariant
            all == item_views(items@),
            i <= items@.len(),
            first_tmpfs(all, utf8(dir@), 0) == first_tmpfs(all, utf8(dir@), i as int),
        decreases items@.len() - i,
    {
        assert(all[i as int] == item_view(items@[i as int]));
        let found = match &items[i].kind {
            Kind::Args(args) => {
                let ghost views = byte_views(args@);
                if args.len() >= 2 {
                    assert(views[0] == args@[0]@);
                    assert(views.last() == args@[args@.len() - 1]@);
                    same_bytes(&args[0], "--size".as_bytes()) && same_bytes(
                        &args[args.len() - 1],
                        dir.as_bytes(),
                    )
                } else {
                    false
                }
            },
            _ => false,
        };
        if found {
            return Some(i);
        }
        i = i + 1;
    }
    None
}

fn find_data(items: &Vec<Item>, from: usize) -> (r: Option<usize>)
    requires
        from <= items@.len(),
    ensures
        match r {
            Some(i) => first_data(item_views(items@), from as int) == Some(i as int) && from <= i
                < items@.len() && item_view(items@[i as int]).kind is Data,
            None => first_data(item_views(items@), from as int) is None,
        },
{
    let ghost all = item_views(items@);
    let mut i: usize = from;
    while i < items.len()
        invariant
            all == item_views(items@),
            from <= i <= items@.len(),
            first_data(all, from as int) == first_data(all, i as int),
        decreases items@.len() - i,
    {
        assert(all[i as int] == item_view(items@[i as int]));
        match &items[i].kind {
            Kind::Data { content: _, dest: _ } => {
                return Some(i);
            },
            _ => {},
        }
        i = i + 1;
    }
    None
}

/// A copy of a list of byte strings.
pub fn copy_list(list: &Vec<Vec<u8>>) -> (r: Vec<Vec<u8>>)
    ensures
        byte_views(r@) == byte_views(list@),
{
    let mut out: Vec<Vec<u8>> = Vec::new();
    let mut i: usize = 0;
    assert(byte_views(out@) =~= byte_views(list@).take(0));
    while i < list.len()
        invariant
            i <= list@.len(),
            byte_views(out@) == byte_views(list@).take(i as int),
        decreases list@.len() - i,
    {
        let ghost before = byte_views(out@);
        let part = copy_bytes(&list[i]);
        let ghost model = part@;
        out.push(part);
        i = i + 1;
        assert(byte_views(out@) =~= before.push(model));
        assert(byte_views(list@).take(i as int) =~= before.push(byte_views(list@)[i - 1]));
    }
    assert(byte_views(list@).take(i as int) =~= byte_views(list@));
    out
}

/// The arguments after the host's network namespace is kept.
pub open spec fn sharing_net(v: BwrapView) -> BwrapView {
    if first_leading(v.namespaces, utf8("--share-net"@), 0) is Some {
        v
    } else {
        BwrapView {
            namespaces: v.namespaces.insert(1, op(v.origin, seq![utf8("--share-net"@)])),
            ..v
        }
    }
}

/// The arguments after nested user namespaces are forbidden.
pub open spec fn without_userns(v: BwrapView) -> BwrapView {
    if first_leading(v.namespaces, utf8("--unshare-user"@), 0) is Some {
        v
    } else {
        BwrapView {
            namespaces: v.namespaces.push(
                op(v.origin, seq![utf8("--unshare-user"@), utf8("--disable-userns"@)]),
            ),
            ..v
        }
    }
}

/// The sandbox of the proxy of the buses.
pub open spec fn proxy_view(
    session: Option<Seq<u8>>,
    system: Option<Seq<u8>>,
    a11y: Option<Seq<u8>>,
    socket_dir: Seq<u8>,
    files: Seq<(Seq<u8>, FileKind)>,
) -> BwrapView {
    with_skeleton(
        sidecar_view(files),
        bus_bind(session) + bus_bind(system) + bus_bind(a11y) + seq![
            op(Origin::Baseline, seq![utf8("--bind"@), socket_dir, socket_dir]),
        ],
    )
}

/// The sandbox of a sidecar that serves sound.
pub open spec fn sound_view(
    socket: Seq<u8>,
    inside: Seq<u8>,
    dir: Seq<u8>,
    files: Seq<(Seq<u8>, FileKind)>,
) -> BwrapView {
    with_skeleton(
        sidecar_view(files),
        seq![
            op(Origin::Baseline, seq![utf8("--ro-bind"@), socket, inside]),
            op(Origin::Baseline, seq![utf8("--bind"@), dir, utf8("/tmp"@)]),
        ],
    )
}

/// The sandbox of the proxy of the display.
pub open spec fn display_view(upstream: Seq<u8>, files: Seq<(Seq<u8>, FileKind)>) -> BwrapView {
    with_skeleton(sidecar_view(files), seq![own_bind(upstream)])
}

/// The arguments with one more operation in phase 4.
pub open spec fn with_bind(v: BwrapView, args: Seq<Seq<u8>>) -> BwrapView {
    BwrapView { binds: v.binds.push(op(v.origin, args)), ..v }
}

/// Whether the working directory is set.
pub open spec fn sets_directory(v: BwrapView) -> bool {
    first_leading(v.namespaces, utf8("--chdir"@), 0) is Some
}

/// The arguments with another working directory.
pub open spec fn in_directory(v: BwrapView, dir: Seq<u8>) -> BwrapView {
    let at = first_leading(v.namespaces, utf8("--chdir"@), 0)->Some_0;
    BwrapView {
        namespaces: v.namespaces.update(
            at,
            op(v.namespaces[at].origin, seq![utf8("--chdir"@), dir]),
        ),
        ..v
    }
}

/// Whether `/tmp` is a size-capped tmpfs.
pub open spec fn caps_tmp(v: BwrapView) -> bool {
    first_tmpfs(v.skeleton, utf8("/tmp"@), 0) is Some
}

/// The arguments with another cap of `/tmp`.
pub open spec fn with_tmp_size(v: BwrapView, bytes: u64) -> BwrapView {
    let at = first_tmpfs(v.skeleton, utf8("/tmp"@), 0)->Some_0;
    let args = v.skeleton[at].kind->Args_0;
    BwrapView {
        skeleton: v.skeleton.update(
            at,
            op(v.origin, args.update(1, utf8(decimal_digits(bytes as nat)))),
        ),
        ..v
    }
}

/// Whether `/etc` is a size-capped tmpfs that two generated files follow.
pub open spec fn has_own_etc(v: BwrapView) -> bool {
    match first_tmpfs(v.skeleton, utf8("/etc"@), 0) {
        None => false,
        Some(start) => match first_data(v.skeleton, start) {
            None => false,
            Some(end) => end + 1 < v.skeleton.len() && v.skeleton[end + 1].kind is Data,
        },
    }
}

/// A generated file over a host path, where the host has that path.
pub open spec fn cover(
    origin: Origin,
    files: Seq<(Seq<u8>, FileKind)>,
    content: Seq<u8>,
    dest: Seq<char>,
) -> Seq<ItemView> {
    if file_kind(files, utf8(dest)) is Some {
        seq![data_item(origin, content, utf8(dest))]
    } else {
        Seq::empty()
    }
}

/// What hides the host account where the host's `/etc` is bound: the same
/// synthetic content over the backups of `passwd` and `group`, and an empty
/// file over `subuid` and `subgid`.
pub open spec fn account_covers(
    origin: Origin,
    files: Seq<(Seq<u8>, FileKind)>,
    passwd: Seq<u8>,
    group: Seq<u8>,
) -> Seq<ItemView> {
    cover(origin, files, passwd, "/etc/passwd-"@) + cover(origin, files, passwd, "/etc/passwd+"@)
        + cover(origin, files, group, "/etc/group-"@) + cover(origin, files, group, "/etc/group+"@)
        + cover(origin, files, Seq::empty(), "/etc/subuid"@) + cover(
        origin,
        files,
        Seq::empty(),
        "/etc/subgid"@,
    )
}

/// The arguments with the host's whole `/etc` in place of the tmpfs and its
/// allowlist. The synthetic files stay where they are, after the bind.
pub open spec fn with_host_etc(v: BwrapView, files: Seq<(Seq<u8>, FileKind)>) -> BwrapView {
    let start = first_tmpfs(v.skeleton, utf8("/etc"@), 0)->Some_0;
    let end = first_data(v.skeleton, start)->Some_0;
    let passwd = v.skeleton[end];
    let group = v.skeleton[end + 1];
    BwrapView {
        skeleton: v.skeleton.take(start) + seq![
            op(v.origin, seq![utf8("--ro-bind"@), utf8("/etc"@), utf8("/etc"@)]),
            (ItemView { origin: v.origin, ..passwd }),
            (ItemView { origin: v.origin, ..group }),
        ] + account_covers(
            v.origin,
            files,
            passwd.kind->Data_content,
            group.kind->Data_content,
        ) + v.skeleton.skip(end + 2),
        ..v
    }
}

fn push_cover(v: &mut Vec<Item>, origin: Origin, host: &HostFiles, content: &[u8], dest: &str)
    ensures
        item_views(final(v)@) == item_views(old(v)@) + cover(origin, host@, content@, dest@),
{
    if host.has(dest.as_bytes()) {
        push_data(v, origin, copy_bytes(content), dest.as_bytes());
    }
    assert(item_views(v@) =~= item_views(old(v)@) + cover(origin, host@, content@, dest@));
}

fn account_files(origin: Origin, host: &HostFiles, passwd: &[u8], group: &[u8]) -> (r: Vec<Item>)
    ensures
        item_views(r@) == account_covers(origin, host@, passwd@, group@),
{
    let mut v: Vec<Item> = Vec::new();
    let none: Vec<u8> = Vec::new();
    assert(item_views(v@) =~= Seq::empty());
    push_cover(&mut v, origin, host, passwd, "/etc/passwd-");
    push_cover(&mut v, origin, host, passwd, "/etc/passwd+");
    push_cover(&mut v, origin, host, group, "/etc/group-");
    push_cover(&mut v, origin, host, group, "/etc/group+");
    // subuid and subgid carry no per-sandbox identity to synthesise, only the
    // host account to hide, so an empty file is enough to cover the
    // mountpoint.
    push_cover(&mut v, origin, host, &none, "/etc/subuid");
    push_cover(&mut v, origin, host, &none, "/etc/subgid");
    assert(none@ =~= Seq::empty());
    assert(item_views(v@) =~= account_covers(origin, host@, passwd@, group@));
    v
}

fn data_content(item: &Item) -> (r: Vec<u8>)
    requires
        item_view(*item).kind is Data,
    ensures
        r@ == item_view(*item).kind->Data_content,
{
    match &item.kind {
        Kind::Data { content, dest: _ } => copy_bytes(content),
        _ => Vec::new(),
    }
}

impl BwrapArgs {
    /// Keep the host network namespace (`--share-net`). Only the `network`
    /// service calls this. Idempotent: `--share-net` is emitted once however
    /// often this is called, and always directly after `--unshare-all`, which
    /// bwrap requires.
    pub fn share_net(&mut self)
        requires
            old(self)@.namespaces.len() >= 1,
        ensures
            final(self)@ == sharing_net(old(self)@),
            final(self)@ == called(old(self)@, Call::ShareNet),
    {
        match find_leading(&self.namespaces, "--share-net") {
            Some(_) => {},
            None => {
                let ghost before = item_views(self.namespaces@);
                let args: Vec<Vec<u8>> = vec![bytes_of("--share-net")];
                assert(byte_views(args@) =~= seq![utf8("--share-net"@)]);
                let item = Item { origin: self.origin, kind: Kind::Args(args) };
                self.namespaces.insert(1, item);
                assert(item_views(self.namespaces@) =~= before.insert(
                    1,
                    op(self.origin, seq![utf8("--share-net"@)]),
                ));
            },
        }
    }

    /// Start the command in `dir` instead of the private home. Replaces the
    /// value of the baseline `--chdir`, so the flag is still emitted once and
    /// in phase 1; the group it explains under stays the baseline's.
    pub fn chdir(&mut self, dir: &[u8])
        requires
            sets_directory(old(self)@),
        ensures
            final(self)@ == in_directory(old(self)@, dir@),
            final(self)@ == called(old(self)@, Call::Chdir(dir@)),
    {
        match find_leading(&self.namespaces, "--chdir") {
            Some(at) => {
                let ghost before = item_views(self.namespaces@);
                let args: Vec<Vec<u8>> = vec![bytes_of("--chdir"), copy_bytes(dir)];
                assert(byte_views(args@) =~= seq![utf8("--chdir"@), dir@]);
                let origin = self.namespaces[at].origin;
                self.namespaces[at] = Item { origin, kind: Kind::Args(args) };
                assert(item_views(self.namespaces@) =~= before.update(
                    at as int,
                    op(origin, seq![utf8("--chdir"@), dir@]),
                ));
            },
            None => {},
        }
    }

    /// Cap the sandbox's `/tmp` at `bytes` instead of [`TMP_SIZE`], and
    /// attribute the operation to the node that asked for it. The value is
    /// replaced where it stands, so `/tmp` is still mounted once and still
    /// ahead of anything bound under it.
    pub fn tmp_size(&mut self, bytes: u64)
        requires
            caps_tmp(old(self)@),
        ensures
            final(self)@ == with_tmp_size(old(self)@, bytes),
            final(self)@ == called(old(self)@, Call::TmpSize(bytes)),
    {
        match find_tmpfs(&self.skeleton, "/tmp") {
            Some(at) => {
                let ghost before = item_views(self.skeleton@);
                let mut args = match &self.skeleton[at].kind {
                    Kind::Args(args) => copy_list(args),
                    _ => Vec::new(),
                };
                let ghost was = byte_views(args@);
                assert(before[at as int].kind->Args_0 == was);
                args[1] = bytes_of(&decimal(bytes));
                assert(byte_views(args@) =~= was.update(1, utf8(decimal_digits(bytes as nat))));
                self.skeleton[at] = Item { origin: self.origin, kind: Kind::Args(args) };
                assert(item_views(self.skeleton@) =~= before.update(
                    at as int,
                    op(self.origin, was.update(1, utf8(decimal_digits(bytes as nat)))),
                ));
            },
            None => {},
        }
    }

    /// Replace the `/etc` tmpfs and its allowlist with one read-only bind of
    /// the host's whole `/etc`, and attribute the bind and the synthetic binds
    /// that follow it to the node that asked for it. The synthetic `passwd`
    /// and `group` binds are left standing where they are, after the
    /// replacement, and joined by the same synthetic content over their
    /// `-`/`+` backups and an empty file over `subuid` and `subgid`, each only
    /// where the host has the mountpoint for it, because those still name the
    /// host account otherwise: the host username stays hidden whichever mode
    /// `/etc` is in.
    pub fn bind_host_etc(&mut self, host: &HostFiles)
        requires
            has_own_etc(old(self)@),
        ensures
            final(self)@ == with_host_etc(old(self)@, host@),
            final(self)@ == called(old(self)@, Call::BindHostEtc(host@)),
    {
        let start = match find_tmpfs(&self.skeleton, "/etc") {
            Some(i) => i,
            None => {
                return;
            },
        };
        let end = match find_data(&self.skeleton, start) {
            Some(i) => i,
            None => {
                return;
            },
        };
        let ghost all = item_views(self.skeleton@);
        assert(all[end as int] == item_view(self.skeleton@[end as int]));
        assert(all[end + 1] == item_view(self.skeleton@[end + 1]));
        let len = self.skeleton.len();
        assert(end + 2 <= len);
        let passwd = data_content(&self.skeleton[end]);
        let group = data_content(&self.skeleton[end + 1]);
        let mut extra = account_files(self.origin, host, &passwd, &group);
        let mut tail = self.skeleton.split_off(end + 2);
        let mut files = self.skeleton.split_off(end);
        self.skeleton.truncate(start);
        assert(item_views(tail@) =~= all.skip(end + 2));
        assert(item_views(files@) =~= all.subrange(end as int, end + 2));
        assert(item_views(self.skeleton@) =~= all.take(start as int));
        push3(&mut self.skeleton, self.origin, "--ro-bind", "/etc".as_bytes(), "/etc".as_bytes());
        let ghost bound = item_views(self.skeleton@);
        files[0].origin = self.origin;
        files[1].origin = self.origin;
        let ghost retagged = item_views(files@);
        assert(retagged =~= seq![
            ItemView { origin: self.origin, ..all[end as int] },
            ItemView { origin: self.origin, ..all[end + 1] },
        ]);
        self.skeleton.append(&mut files);
        assert(item_views(self.skeleton@) =~= bound + retagged);
        let ghost covers = item_views(extra@);
        self.skeleton.append(&mut extra);
        assert(item_views(self.skeleton@) =~= bound + retagged + covers);
        self.skeleton.append(&mut tail);
        assert(item_views(self.skeleton@) =~= bound + retagged + covers + all.skip(end + 2));
        assert(item_views(self.skeleton@) =~= with_host_etc(old(self)@, host@).skeleton);
    }

    /// Tag every argument pushed from here on with `origin`. The caller
    /// stamps it once per phase of work; nothing else has to know.
    pub fn tag(&mut self, origin: Origin)
        ensures
            final(self)@ == (BwrapView { origin, ..old(self)@ }),
            final(self)@ == called(old(self)@, Call::Tag(origin)),
    {
        self.origin = origin;
    }

    /// The tag in force, for a service that hands part of its work to another
    /// node's grant and has to put its own back afterwards.
    pub fn origin(&self) -> (r: Origin)
        ensures
            r == self@.origin,
    {
        self.origin
    }

    /// Forbid nested user namespaces (`bwrap(1)` `--disable-userns`, phase 1).
    /// Idempotent, and it emits `--unshare-user` with the flag: bwrap refuses
    /// `--disable-userns` without it, and `--unshare-all` does not count,
    /// since that asks for the user namespace only if the host has
    /// unprivileged ones.
    pub fn disable_userns(&mut self)
        ensures
            final(self)@ == without_userns(old(self)@),
            final(self)@ == called(old(self)@, Call::DisableUserns),
    {
        // The pair is one operation, and nothing else emits its head, so
        // `--unshare-user` there is what says it has already been added.
        match find_leading(&self.namespaces, "--unshare-user") {
            Some(_) => {},
            None => {
                push2(
                    &mut self.namespaces,
                    self.origin,
                    "--unshare-user",
                    "--disable-userns".as_bytes(),
                );
            },
        }
    }

    /// Hold the sandbox at startup until the launcher lets it go (`bwrap(1)`
    /// `--block-fd`, phase 1). Only a sandbox whose identity still has to be
    /// published waits, and it waits before it execs. After `--info-fd`,
    /// which bwrap writes before it reads this one: the identity is built out
    /// of that document.
    pub fn block_until_released(&mut self)
        ensures
            final(self)@ == (BwrapView {
                namespaces: old(self)@.namespaces.push(
                    ItemView { origin: old(self)@.origin, kind: KindView::BlockFd },
                ),
                ..old(self)@
            }),
            final(self)@ == called(old(self)@, Call::BlockUntilReleased),
    {
        let ghost before = item_views(self.namespaces@);
        self.namespaces.push(Item { origin: self.origin, kind: Kind::BlockFd });
        assert(item_views(self.namespaces@) =~= before.push(
            ItemView { origin: self.origin, kind: KindView::BlockFd },
        ));
    }

    /// Load the compiled seccomp program into the sandbox (`bwrap(1)`
    /// `--add-seccomp-fd`, phase 1). One filter answers for every
    /// architecture and every error, so a sandbox needs exactly one call.
    pub fn add_seccomp(&mut self, program: Vec<u8>, arches: &'static str)
        ensures
            final(self)@ == (BwrapView {
                namespaces: old(self)@.namespaces.push(
                    ItemView {
                        origin: old(self)@.origin,
                        kind: KindView::Seccomp { program: program@, arches: arches@ },
                    },
                ),
                ..old(self)@
            }),
            final(self)@ == called(old(self)@, (Call::AddSeccomp { program: program@, arches: arches@ })),
    {
        let ghost before = item_views(self.namespaces@);
        self.namespaces.push(
            Item { origin: self.origin, kind: Kind::Seccomp { program, arches } },
        );
        assert(item_views(self.namespaces@) =~= before.push(
            ItemView {
                origin: self.origin,
                kind: KindView::Seccomp { program: program@, arches: arches@ },
            },
        ));
    }

    /// Read-only bind of a host path (phase 4).
    pub fn ro_bind(&mut self, src: &[u8], dst: &[u8])
        ensures
            final(self)@ == with_bind(old(self)@, seq![utf8("--ro-bind"@), src@, dst@]),
            final(self)@ == called(old(self)@, Call::RoBind(src@, dst@)),
    {
        proof {
            every_call_is_what_its_method_does(old(self)@, src@, dst@);
        }
        push3(&mut self.binds, self.origin, "--ro-bind", src, dst);
    }

    /// Bind a host path "allowing device access" (`bwrap(1)` `--dev-bind`,
    /// phase 4), which device nodes such as `/dev/dri/renderD128` need. bwrap
    /// has no read-only form of it.
    pub fn dev_bind(&mut self, src: &[u8], dst: &[u8])
        ensures
            final(self)@ == with_bind(old(self)@, seq![utf8("--dev-bind"@), src@, dst@]),
            final(self)@ == called(old(self)@, Call::DevBind(src@, dst@)),
    {
        proof {
            every_call_is_what_its_method_does(old(self)@, src@, dst@);
        }
        push3(&mut self.binds, self.origin, "--dev-bind", src, dst);
    }

    /// Like [`BwrapArgs::dev_bind`] but skipped by bwrap when the source has
    /// gone (`bwrap(1)` `--dev-bind-try`). For nodes enumerated while the argv
    /// is built: hardware unplugged in the moment between that and the exec
    /// must not fail the launch.
    pub fn dev_bind_try(&mut self, src: &[u8], dst: &[u8])
        ensures
            final(self)@ == with_bind(old(self)@, seq![utf8("--dev-bind-try"@), src@, dst@]),
            final(self)@ == called(old(self)@, Call::DevBindTry(src@, dst@)),
    {
        proof {
            every_call_is_what_its_method_does(old(self)@, src@, dst@);
        }
        push3(&mut self.binds, self.origin, "--dev-bind-try", src, dst);
    }

    /// Symlink inside the sandbox (phase 4).
    pub fn symlink(&mut self, target: &[u8], link: &[u8])
        ensures
            final(self)@ == with_bind(old(self)@, seq![utf8("--symlink"@), target@, link@]),
            final(self)@ == called(old(self)@, Call::Symlink(target@, link@)),
    {
        proof {
            every_call_is_what_its_method_does(old(self)@, target@, link@);
        }
        push3(&mut self.binds, self.origin, "--symlink", target, link);
    }

    /// Mask a directory with an empty read-only tmpfs.
    ///
    /// Emitted after every bind of phase 4, whichever grant asked for it and
    /// wherever that grant sits in the file: bind order is semantics, and a
    /// mask a later bind covers is no mask at all.
    pub fn mask_dir(&mut self, dir: &[u8])
        ensures
            final(self)@ == (BwrapView {
                masks: old(self)@.masks.push(
                    op(
                        old(self)@.origin,
                        seq![utf8("--size"@), utf8("4096"@), utf8("--tmpfs"@), dir@],
                    ),
                ).push(op(old(self)@.origin, seq![utf8("--remount-ro"@), dir@])),
                ..old(self)@
            }),
            final(self)@ == called(old(self)@, Call::MaskDir(dir@)),
    {
        proof {
            every_call_is_what_its_method_does(old(self)@, dir@, dir@);
        }
        push4(&mut self.masks, self.origin, "--size", "4096".as_bytes(), "--tmpfs", dir);
        push2(&mut self.masks, self.origin, "--remount-ro", dir);
    }

    /// Read-write bind of a host path (phase 4).
    pub fn bind(&mut self, src: &[u8], dst: &[u8])
        ensures
            final(self)@ == with_bind(old(self)@, seq![utf8("--bind"@), src@, dst@]),
            final(self)@ == called(old(self)@, Call::Bind(src@, dst@)),
    {
        proof {
            every_call_is_what_its_method_does(old(self)@, src@, dst@);
        }
        push3(&mut self.binds, self.origin, "--bind", src, dst);
    }

    /// Bind the host `bubbler-init` binary read-only at [`INIT_INSIDE`] (phase
    /// 4), which is the program every sandbox actually starts.
    pub fn bind_init(&mut self, host_path: &[u8])
        ensures
            final(self)@ == with_bind(
                old(self)@,
                seq![utf8("--ro-bind"@), host_path@, utf8(INIT_INSIDE@)],
            ),
            final(self)@ == called(old(self)@, Call::BindInit(host_path@)),
    {
        proof {
            every_call_is_what_its_method_does(old(self)@, host_path@, host_path@);
        }
        self.ro_bind(host_path, INIT_INSIDE.as_bytes());
    }

    /// Bind the same `bubbler-init` binary a second time, as
    /// [`FLATPAK_SPAWN_INSIDE`] (phase 4), which is what an image loader in a
    /// sandbox carrying `/.flatpak-info` looks for.
    ///
    /// `/usr` is a read-only bind of the host's, and bwrap cannot create a
    /// mount point in it, so `/usr/bin` becomes an overlay of itself with the
    /// writes going to an invisible tmpfs, and then read-only again, since an
    /// overlay left writable is a `/usr/bin` the sandbox can replace program
    /// by program.
    pub fn flatpak_spawn_shim(&mut self, host_path: &[u8])
        ensures
            final(self)@ == (BwrapView {
                binds: old(self)@.binds.push(
                    ItemView {
                        origin: old(self)@.origin,
                        kind: KindView::Noted {
                            args: seq![
                                utf8("--overlay-src"@),
                                utf8("/usr/bin"@),
                                utf8("--tmp-overlay"@),
                                utf8("/usr/bin"@),
                            ],
                            note: "flatpak-spawn shim (glycin, gdk-pixbuf)"@,
                        },
                    },
                ).push(
                    op(
                        old(self)@.origin,
                        seq![utf8("--ro-bind"@), host_path@, utf8(FLATPAK_SPAWN_INSIDE@)],
                    ),
                ).push(op(old(self)@.origin, seq![utf8("--remount-ro"@), utf8("/usr/bin"@)])),
                ..old(self)@
            }),
    {
        // `--overlay-src` does nothing on its own and applies to the next
        // overlay option only (`bwrap(1)`), so it stays part of the same
        // operation as its `--tmp-overlay`.
        let ghost before = item_views(self.binds@);
        let args: Vec<Vec<u8>> = vec![
            bytes_of("--overlay-src"),
            bytes_of("/usr/bin"),
            bytes_of("--tmp-overlay"),
            bytes_of("/usr/bin"),
        ];
        let ghost parts = seq![
            utf8("--overlay-src"@),
            utf8("/usr/bin"@),
            utf8("--tmp-overlay"@),
            utf8("/usr/bin"@),
        ];
        assert(byte_views(args@) =~= parts);
        let note = "flatpak-spawn shim (glycin, gdk-pixbuf)".to_owned();
        self.binds.push(Item { origin: self.origin, kind: Kind::Noted { args, note } });
        assert(item_views(self.binds@) =~= before.push(
            ItemView {
                origin: self.origin,
                kind: KindView::Noted {
                    args: parts,
                    note: "flatpak-spawn shim (glycin, gdk-pixbuf)"@,
                },
            },
        ));
        self.ro_bind(host_path, FLATPAK_SPAWN_INSIDE.as_bytes());
        push2(&mut self.binds, self.origin, "--remount-ro", "/usr/bin".as_bytes());
    }

    /// Bind `content` read-only at `dest` (phase 4), from a host file.
    pub fn ro_bind_data(&mut self, content: Vec<u8>, dest: &[u8])
        ensures
            final(self)@ == (BwrapView {
                binds: old(self)@.binds.push(data_item(old(self)@.origin, content@, dest@)),
                ..old(self)@
            }),
            final(self)@ == called(old(self)@, (Call::RoBindData { content: content@, dest: dest@ })),
    {
        proof {
            every_call_is_what_its_method_does(old(self)@, content@, dest@);
        }
        push_data(&mut self.binds, self.origin, content, dest);
    }

    /// Let the command take its stdin as a controlling terminal: `--ctty` for
    /// the supervisor. Only for a pty that was allocated for this sandbox,
    /// never for a terminal inherited from the user.
    pub fn ctty(&mut self)
        ensures
            final(self)@ == (BwrapView { ctty: true, ..old(self)@ }),
            final(self)@ == called(old(self)@, Call::Ctty),
    {
        self.ctty = true;
    }

    /// Have the supervisor own the display socket and start `argv` on the
    /// first client that connects, with `wm` alongside it: `--x11 <argv> --`
    /// and `--wm <program>` in the supervisor's own arguments, and only there.
    /// A sandbox has one display server at most: a second one would replace
    /// the first silently, so the first is kept.
    pub fn x11_server(&mut self, argv: Vec<Vec<u8>>, wm: Option<Vec<u8>>)
        ensures
            final(self)@ == (BwrapView {
                x11: match old(self)@.x11 {
                    Some(held) => Some(held),
                    None => Some((old(self)@.origin, byte_views(argv@), maybe(wm))),
                },
                ..old(self)@
            }),
            final(self)@ == called(old(self)@, Call::X11Server(byte_views(argv@), maybe(wm))),
    {
        if self.x11.is_none() {
            self.x11 = Some((self.origin, argv, wm));
        }
    }

    /// Set a variable inside the sandbox (phase 5, after `--clearenv`).
    pub fn setenv(&mut self, key: &[u8], value: &[u8])
        ensures
            final(self)@ == (BwrapView {
                env: old(self)@.env.push(set_variable(old(self)@.origin, key@, value@)),
                ..old(self)@
            }),
            final(self)@ == called(old(self)@, Call::Setenv(key@, value@)),
    {
        proof {
            every_call_is_what_its_method_does(old(self)@, key@, value@);
        }
        push3(&mut self.env, self.origin, "--setenv", key, value);
    }
}

/// Every entry, in the order bwrap takes them.
pub open spec fn all_items(v: BwrapView) -> Seq<ItemView> {
    v.namespaces + v.skeleton + v.runtime_dir + v.binds + v.masks + v.env
}

/// What has to be allocated for an entry.
pub open spec fn request_of(kind: KindView) -> Option<RequestView> {
    match kind {
        KindView::Args(_) => None,
        KindView::Noted { args: _, note: _ } => None,
        KindView::Data { content, dest } => Some(RequestView::File { dest, content }),
        KindView::InfoFd => Some(RequestView::InfoPipe),
        KindView::BlockFd => Some(RequestView::BlockPipe),
        KindView::Seccomp { program, arches: _ } => Some(RequestView::Data { content: program }),
    }
}

/// What has to be allocated for the first `n` entries, in order.
pub open spec fn requests_in(items: Seq<ItemView>, n: int) -> Seq<RequestView>
    decreases n,
{
    if n <= 0 {
        Seq::empty()
    } else {
        match request_of(items[n - 1].kind) {
            Some(r) => requests_in(items, n - 1).push(r),
            None => requests_in(items, n - 1),
        }
    }
}

/// What has to be allocated for a sidecar.
pub open spec fn plain_requests_of(v: BwrapView) -> Seq<RequestView> {
    requests_in(all_items(v), all_items(v).len() as int)
}

/// What has to be allocated for a supervised sandbox: its control socket
/// last.
pub open spec fn requests_of(v: BwrapView) -> Seq<RequestView> {
    plain_requests_of(v).push(RequestView::InitSocket)
}

/// What was allocated for the first `n` requests, or the error the first that
/// failed is.
pub open spec fn answered_in(given: Seq<Result<Vec<u8>, String>>, n: int) -> Result<
    Seq<Seq<u8>>,
    LaunchErrorView,
>
    decreases n,
{
    if n <= 0 {
        Ok(Seq::empty())
    } else {
        match answered_in(given, n - 1) {
            Err(e) => Err(e),
            Ok(all) => match given[n - 1] {
                Ok(answer) => Ok(all.push(answer@)),
                Err(why) => Err(LaunchErrorView::Data(why@)),
            },
        }
    }
}

proof fn lemma_failed_stays(given: Seq<Result<Vec<u8>, String>>, n: int, m: int)
    requires
        n <= m,
        answered_in(given, n) is Err,
    ensures
        answered_in(given, m) == answered_in(given, n),
    decreases m - n,
{
    if n < m && m > 0 {
        lemma_failed_stays(given, n, m - 1);
    }
}

/// What was allocated for each request, in order; where one failed, the
/// launch fails with it.
pub fn answered(given: &[Result<Vec<u8>, String>]) -> (r: Result<Vec<Vec<u8>>, LaunchError>)
    ensures
        match r {
            Ok(answers) => answered_in(given@, given@.len() as int) == Ok::<
                Seq<Seq<u8>>,
                LaunchErrorView,
            >(byte_views(answers@)) && answers@.len() == given@.len(),
            Err(e) => answered_in(given@, given@.len() as int) == Err::<
                Seq<Seq<u8>>,
                LaunchErrorView,
            >(e@),
        },
{
    let mut out: Vec<Vec<u8>> = Vec::new();
    let mut i: usize = 0;
    assert(byte_views(out@) =~= Seq::empty());
    while i < given.len()
        invariant
            i <= given@.len(),
            out@.len() == i,
            answered_in(given@, i as int) == Ok::<Seq<Seq<u8>>, LaunchErrorView>(byte_views(out@)),
        decreases given@.len() - i,
    {
        let ghost before = byte_views(out@);
        match &given[i] {
            Ok(answer) => {
                out.push(copy_bytes(answer));
                assert(byte_views(out@) =~= before.push(answer@));
            },
            Err(why) => {
                proof {
                    lemma_failed_stays(given@, i + 1, given@.len() as int);
                }
                return Err(LaunchError::Data(why.clone()));
            },
        }
        i = i + 1;
    }
    Ok(out)
}

/// The arguments an entry becomes, with what was allocated for it.
pub open spec fn explained_item(item: ItemView, answer: Seq<u8>) -> ExplainedView {
    let (args, note): (Seq<Seq<u8>>, Option<Seq<char>>) = match item.kind {
        KindView::Args(args) => (args, None),
        KindView::Noted { args, note } => (args, Some(note)),
        KindView::Data { content, dest } => (
            seq![utf8("--ro-bind"@), answer, dest],
            Some("generated file, "@ + decimal_digits(content.len()) + " bytes"@),
        ),
        KindView::InfoFd => (
            seq![utf8("--info-fd"@), answer],
            Some("pipe: bwrap reports the sandbox pid on it"@),
        ),
        KindView::BlockFd => (
            seq![utf8("--block-fd"@), answer],
            Some("pipe: the sandbox waits on it until bubbler lets it go"@),
        ),
        KindView::Seccomp { program, arches } => (
            seq![utf8("--add-seccomp-fd"@), answer],
            Some("filter, "@ + decimal_digits(program.len()) + " bytes, "@ + arches),
        ),
    };
    ExplainedView { origin: item.origin, args, note }
}

/// The operations of the first `n` entries.
pub open spec fn explained_in(items: Seq<ItemView>, answers: Seq<Seq<u8>>, n: int) -> Seq<
    ExplainedView,
>
    decreases n,
{
    if n <= 0 {
        Seq::empty()
    } else {
        explained_in(items, answers, n - 1).push(
            explained_item(items[n - 1], answers[requests_in(items, n - 1).len() as int]),
        )
    }
}

/// The operations of every entry.
pub open spec fn emitted(v: BwrapView, answers: Seq<Seq<u8>>) -> Seq<ExplainedView> {
    explained_in(all_items(v), answers, all_items(v).len() as int)
}

/// The operations of every entry, from what came of each allocation.
pub open spec fn emit_of(v: BwrapView, given: Seq<Result<Vec<u8>, String>>) -> Result<
    Seq<ExplainedView>,
    LaunchErrorView,
> {
    match answered_in(given, given.len() as int) {
        Ok(answers) => Ok(emitted(v, answers)),
        Err(e) => Err(e),
    }
}

/// The supervisor's own arguments.
pub open spec fn supervisor(v: BwrapView, socket: Seq<u8>) -> Seq<ExplainedView> {
    seq![
        ExplainedView {
            origin: Origin::Init,
            args: seq![utf8("--"@), utf8(INIT_INSIDE@), utf8("--socket-fd"@), socket],
            note: Some("socket: the exec channel bubbler-init serves"@),
        },
    ] + (if v.ctty {
        seq![ExplainedView { origin: Origin::Ctty, args: seq![utf8("--ctty"@)], note: None }]
    } else {
        Seq::empty()
    }) + (match v.x11 {
        None => Seq::empty(),
        Some((origin, argv, wm)) => seq![
            ExplainedView {
                origin,
                args: seq![utf8("--x11"@)] + argv + seq![utf8("--"@)],
                note: Some(
                    "nested Xwayland, started by bubbler-init on the first X connection; -listenfd is added at run time"@,
                ),
            },
        ] + (match wm {
            None => Seq::empty(),
            Some(wm) => seq![
                ExplainedView {
                    origin,
                    args: seq![utf8("--wm"@), wm],
                    note: Some("window manager inside the sandbox, started with the server"@),
                },
            ],
        }),
    })
}

/// The operations of a supervised sandbox that runs `command`.
pub open spec fn finished(v: BwrapView, command: Seq<Seq<u8>>, answers: Seq<Seq<u8>>) -> Seq<
    ExplainedView,
> {
    (emitted(v, answers) + supervisor(v, answers[plain_requests_of(v).len() as int])).push(
        ExplainedView {
            origin: Origin::Command,
            args: seq![utf8("--"@)] + command,
            note: None,
        },
    )
}

/// The elements of the first `n` operations.
pub open spec fn flat(items: Seq<ExplainedView>, n: int) -> Seq<Seq<u8>>
    decreases n,
{
    if n <= 0 {
        Seq::empty()
    } else {
        flat(items, n - 1) + items[n - 1].args
    }
}

/// The argv some operations make up.
pub open spec fn flattened(items: Seq<ExplainedView>) -> Seq<Seq<u8>> {
    flat(items, items.len() as int)
}

/// The argv of a sidecar that runs `command`.
pub open spec fn finished_plain(v: BwrapView, command: Seq<Seq<u8>>, answers: Seq<Seq<u8>>) -> Seq<
    Seq<u8>,
> {
    flattened(emitted(v, answers)).push(utf8("--"@)) + command
}

/// One element of a sidecar's command.
pub open spec fn element(arg: Seq<u8>, origin: Origin) -> ExplainedView {
    ExplainedView { origin, args: seq![arg], note: None }
}

/// The operations of a sidecar whose command carries an origin per element.
pub open spec fn explained_plain(
    v: BwrapView,
    command: Seq<(Seq<u8>, Origin)>,
    answers: Seq<Seq<u8>>,
) -> Seq<ExplainedView> {
    emitted(v, answers).push(element(utf8("--"@), Origin::Command)) + command.map_values(
        |c: (Seq<u8>, Origin)| element(c.0, c.1),
    )
}

/// The models of a command that carries an origin per element.
pub open spec fn command_views(command: Seq<(Vec<u8>, Origin)>) -> Seq<(Seq<u8>, Origin)> {
    Seq::new(command.len(), |i: int| (command[i].0@, command[i].1))
}

proof fn lemma_requests_prefix(a: Seq<ItemView>, b: Seq<ItemView>, n: int)
    requires
        0 <= n <= a.len(),
    ensures
        requests_in(a + b, n) == requests_in(a, n),
    decreases n,
{
    if n > 0 {
        lemma_requests_prefix(a, b, n - 1);
        assert((a + b)[n - 1] == a[n - 1]);
    }
}

proof fn lemma_requests_concat(a: Seq<ItemView>, b: Seq<ItemView>, n: int)
    requires
        0 <= n <= b.len(),
    ensures
        requests_in(a + b, a.len() + n) == requests_in(a, a.len() as int) + requests_in(b, n),
    decreases n,
{
    lemma_requests_prefix(a, b, a.len() as int);
    if n > 0 {
        lemma_requests_concat(a, b, n - 1);
        assert((a + b)[a.len() + n - 1] == b[n - 1]);
        assert(requests_in(a + b, a.len() + n) =~= requests_in(a, a.len() as int) + requests_in(
            b,
            n,
        ));
    } else {
        assert(requests_in(a, a.len() as int) + requests_in(b, 0) =~= requests_in(
            a,
            a.len() as int,
        ));
    }
}

fn item_request(item: &Item) -> (r: Option<Request>)
    ensures
        match r {
            Some(x) => request_of(item_view(*item).kind) == Some(x@),
            None => request_of(item_view(*item).kind) is None,
        },
{
    match &item.kind {
        Kind::Args(_) => None,
        Kind::Noted { args: _, note: _ } => None,
        Kind::Data { content, dest } => Some(
            Request::File { dest: copy_bytes(dest), content: copy_bytes(content) },
        ),
        Kind::InfoFd => Some(Request::InfoPipe),
        Kind::BlockFd => Some(Request::BlockPipe),
        Kind::Seccomp { program, arches: _ } => Some(
            Request::Data { content: copy_bytes(program) },
        ),
    }
}

fn push_requests(out: &mut Vec<Request>, items: &Vec<Item>)
    ensures
        request_views(final(out)@) == request_views(old(out)@) + requests_in(
            item_views(items@),
            items@.len() as int,
        ),
{
    let ghost first = request_views(out@);
    let ghost all = item_views(items@);
    let mut i: usize = 0;
    assert(first + requests_in(all, 0) =~= first);
    while i < items.len()
        invariant
            all == item_views(items@),
            first == request_views(old(out)@),
            i <= items@.len(),
            request_views(out@) == first + requests_in(all, i as int),
        decreases items@.len() - i,
    {
        assert(all[i as int] == item_view(items@[i as int]));
        let ghost before = request_views(out@);
        match item_request(&items[i]) {
            Some(r) => {
                let ghost model = r@;
                out.push(r);
                assert(request_views(out@) =~= before.push(model));
            },
            None => {},
        }
        i = i + 1;
        assert(request_views(out@) =~= first + requests_in(all, i as int));
    }
}

fn explain(item: &Item, answer: Option<&Vec<u8>>) -> (r: Explained)
    requires
        request_of(item_view(*item).kind) is Some ==> answer is Some,
    ensures
        answer matches Some(a) ==> r@ == explained_item(item_view(*item), a@),
        request_of(item_view(*item).kind) is None ==> (forall|a: Seq<u8>|
            r@ == #[trigger] explained_item(item_view(*item), a)),
{
    let fd = match answer {
        Some(a) => copy_bytes(a),
        None => Vec::new(),
    };
    let ghost given = fd@;
    let (args, note): (Vec<Vec<u8>>, Option<String>) = match &item.kind {
        Kind::Args(args) => (copy_list(args), None),
        Kind::Noted { args, note } => (copy_list(args), Some(note.clone())),
        Kind::Data { content, dest } => {
            let args: Vec<Vec<u8>> = vec![bytes_of("--ro-bind"), fd, copy_bytes(dest)];
            assert(byte_views(args@) =~= seq![utf8("--ro-bind"@), given, dest@]);
            let size = decimal(content.len() as u64);
            (args, Some(joined(&joined("generated file, ", &size), " bytes")))
        },
        Kind::InfoFd => {
            let args: Vec<Vec<u8>> = vec![bytes_of("--info-fd"), fd];
            assert(byte_views(args@) =~= seq![utf8("--info-fd"@), given]);
            (args, Some("pipe: bwrap reports the sandbox pid on it".to_owned()))
        },
        Kind::BlockFd => {
            let args: Vec<Vec<u8>> = vec![bytes_of("--block-fd"), fd];
            assert(byte_views(args@) =~= seq![utf8("--block-fd"@), given]);
            (args, Some("pipe: the sandbox waits on it until bubbler lets it go".to_owned()))
        },
        Kind::Seccomp { program, arches } => {
            let args: Vec<Vec<u8>> = vec![bytes_of("--add-seccomp-fd"), fd];
            assert(byte_views(args@) =~= seq![utf8("--add-seccomp-fd"@), given]);
            let size = decimal(program.len() as u64);
            let note = joined(&joined(&joined("filter, ", &size), " bytes, "), arches);
            (args, Some(note))
        },
    };
    Explained { origin: item.origin, args, note }
}

proof fn lemma_requests_grow(items: Seq<ItemView>, a: int, b: int)
    requires
        a <= b,
    ensures
        requests_in(items, a).len() <= requests_in(items, b).len(),
    decreases b - a,
{
    if a < b {
        lemma_requests_grow(items, a, b - 1);
    }
}

fn explain_all(items: &Vec<Item>, answers: &[Vec<u8>]) -> (r: Vec<Explained>)
    requires
        requests_in(item_views(items@), items@.len() as int).len() <= answers@.len(),
    ensures
        explained_views(r@) == explained_in(
            item_views(items@),
            byte_views(answers@),
            items@.len() as int,
        ),
{
    let ghost all = item_views(items@);
    let ghost given = byte_views(answers@);
    let mut out: Vec<Explained> = Vec::new();
    let mut used: usize = 0;
    let mut i: usize = 0;
    assert(explained_views(out@) =~= Seq::empty());
    while i < items.len()
        invariant
            all == item_views(items@),
            given == byte_views(answers@),
            i <= items@.len(),
            requests_in(all, items@.len() as int).len() <= answers@.len(),
            used == requests_in(all, i as int).len(),
            explained_views(out@) == explained_in(all, given, i as int),
        decreases items@.len() - i,
    {
        proof {
            lemma_requests_grow(all, i as int, items@.len() as int);
            lemma_requests_grow(all, i + 1, items@.len() as int);
            assert(all[i as int] == item_view(items@[i as int]));
        }
        let ghost before = explained_views(out@);
        let needed = match &items[i].kind {
            Kind::Args(_) => false,
            Kind::Noted { args: _, note: _ } => false,
            _ => true,
        };
        let line = if needed {
            assert(given[used as int] == answers@[used as int]@);
            explain(&items[i], Some(&answers[used]))
        } else {
            explain(&items[i], None)
        };
        assert(line@ == explained_item(all[i as int], given[used as int]));
        let ghost model = line@;
        out.push(line);
        assert(explained_views(out@) =~= before.push(model));
        if needed {
            used = used + 1;
        }
        i = i + 1;
    }
    out
}

/// The argv again: the operations concatenated, element for element. Public
/// so a caller that had to look at the operations can still hand bwrap
/// exactly what [`BwrapArgs::finish`] would have.
pub fn flatten(items: Vec<Explained>) -> (r: Vec<Vec<u8>>)
    ensures
        byte_views(r@) == flattened(explained_views(items@)),
{
    let ghost all = explained_views(items@);
    let mut out: Vec<Vec<u8>> = Vec::new();
    let mut i: usize = 0;
    assert(byte_views(out@) =~= Seq::empty());
    while i < items.len()
        invariant
            all == explained_views(items@),
            i <= items@.len(),
            byte_views(out@) == flat(all, i as int),
        decreases items@.len() - i,
    {
        assert(all[i as int] == items@[i as int]@);
        let ghost before = byte_views(out@);
        let mut args = copy_list(&items[i].args);
        let ghost more = byte_views(args@);
        out.append(&mut args);
        assert(byte_views(out@) =~= before + more);
        i = i + 1;
    }
    out
}

fn copy_slice(list: &[Vec<u8>]) -> (r: Vec<Vec<u8>>)
    ensures
        byte_views(r@) == byte_views(list@),
{
    let mut out: Vec<Vec<u8>> = Vec::new();
    let mut i: usize = 0;
    assert(byte_views(out@) =~= byte_views(list@).take(0));
    while i < list.len()
        invariant
            i <= list@.len(),
            byte_views(out@) == byte_views(list@).take(i as int),
        decreases list@.len() - i,
    {
        let ghost before = byte_views(out@);
        let part = copy_bytes(&list[i]);
        let ghost model = part@;
        out.push(part);
        i = i + 1;
        assert(byte_views(out@) =~= before.push(model));
        assert(byte_views(list@).take(i as int) =~= before.push(byte_views(list@)[i - 1]));
    }
    assert(byte_views(list@).take(i as int) =~= byte_views(list@));
    out
}

fn push_explained(
    out: &mut Vec<Explained>,
    origin: Origin,
    args: Vec<Vec<u8>>,
    note: Option<String>,
)
    ensures
        explained_views(final(out)@) == explained_views(old(out)@).push(
            ExplainedView { origin, args: byte_views(args@), note: maybe(note) },
        ),
{
    out.push(Explained { origin, args, note });
    assert(explained_views(out@) =~= explained_views(old(out)@).push(
        ExplainedView { origin, args: byte_views(args@), note: maybe(note) },
    ));
}

impl BwrapArgs {
    /// What has to be allocated before a sidecar's argv is complete, in the
    /// order the argv names it.
    pub fn plain_requests(&self) -> (r: Vec<Request>)
        ensures
            request_views(r@) == plain_requests_of(self@),
    {
        let mut out: Vec<Request> = Vec::new();
        assert(request_views(out@) =~= Seq::empty());
        push_requests(&mut out, &self.namespaces);
        push_requests(&mut out, &self.skeleton);
        push_requests(&mut out, &self.runtime_dir);
        push_requests(&mut out, &self.binds);
        push_requests(&mut out, &self.masks);
        push_requests(&mut out, &self.env);
        proof {
            let v = self@;
            let a = v.namespaces;
            let b = a + v.skeleton;
            let c = b + v.runtime_dir;
            let d = c + v.binds;
            let e = d + v.masks;
            lemma_requests_concat(a, v.skeleton, v.skeleton.len() as int);
            lemma_requests_concat(b, v.runtime_dir, v.runtime_dir.len() as int);
            lemma_requests_concat(c, v.binds, v.binds.len() as int);
            lemma_requests_concat(d, v.masks, v.masks.len() as int);
            lemma_requests_concat(e, v.env, v.env.len() as int);
            assert(request_views(out@) =~= plain_requests_of(self@));
        }
        out
    }

    /// What has to be allocated before a supervised sandbox's argv is
    /// complete, in the order the argv names it.
    pub fn requests(&self) -> (r: Vec<Request>)
        ensures
            request_views(r@) == requests_of(self@),
    {
        let mut out = self.plain_requests();
        let ghost before = request_views(out@);
        out.push(Request::InitSocket);
        assert(request_views(out@) =~= before.push(RequestView::InitSocket));
        out
    }

    fn emit_phases(self, answers: &[Vec<u8>]) -> (r: Vec<Explained>)
        requires
            plain_requests_of(self@).len() <= answers@.len(),
        ensures
            explained_views(r@) == emitted(self@, byte_views(answers@)),
    {
        let BwrapArgs {
            namespaces,
            mut skeleton,
            mut runtime_dir,
            mut binds,
            mut masks,
            mut env,
            ctty: _,
            x11: _,
            origin: _,
        } = self;
        let mut all = namespaces;
        all.append(&mut skeleton);
        all.append(&mut runtime_dir);
        all.append(&mut binds);
        all.append(&mut masks);
        all.append(&mut env);
        assert(item_views(all@) =~= all_items(self@));
        explain_all(&all, answers)
    }

    /// The operations of every phase, in order, with what was allocated for
    /// each request in its place; where an allocation failed, the launch fails
    /// with it.
    pub fn emit(self, given: &[Result<Vec<u8>, String>]) -> (r: Result<Vec<Explained>, LaunchError>)
        requires
            answered_in(given@, given@.len() as int) is Ok ==> plain_requests_of(self@).len()
                <= given@.len(),
        ensures
            match r {
                Ok(items) => emit_of(self@, given@) == Ok::<Seq<ExplainedView>, LaunchErrorView>(
                    explained_views(items@),
                ),
                Err(e) => emit_of(self@, given@) == Err::<Seq<ExplainedView>, LaunchErrorView>(e@),
            },
    {
        match answered(given) {
            Ok(answers) => Ok(self.emit_phases(&answers)),
            Err(e) => Err(e),
        }
    }

    /// Concatenate the phases, with `answers` in the places of what was
    /// requested, then append `--` and the command wrapped in
    /// [`INIT_INSIDE`], which supervises it and serves the exec channel. The
    /// result is the complete argv after `bwrap`.
    pub fn finish(self, command: &[Vec<u8>], answers: &[Vec<u8>]) -> (r: Vec<Vec<u8>>)
        requires
            answers@.len() == requests_of(self@).len(),
        ensures
            byte_views(r@) == flattened(
                finished(self@, byte_views(command@), byte_views(answers@)),
            ),
    {
        flatten(self.finish_explained(command, answers))
    }

    /// [`BwrapArgs::finish`] with every operation kept apart and tagged with
    /// what produced it. Flattening the result is the argv again, element for
    /// element.
    pub fn finish_explained(self, command: &[Vec<u8>], answers: &[Vec<u8>]) -> (r: Vec<Explained>)
        requires
            answers@.len() == requests_of(self@).len(),
        ensures
            explained_views(r@) == finished(self@, byte_views(command@), byte_views(answers@)),
    {
        let mut this = self;
        let ctty = this.ctty;
        let x11 = this.x11.take();
        let ghost v = self@;
        let ghost given = byte_views(answers@);
        let socket = copy_bytes(&answers[answers.len() - 1]);
        assert(socket@ == given[plain_requests_of(v).len() as int]);
        assert(all_items(this@) == all_items(v));
        let mut out = this.emit_phases(answers);
        let ghost sockets = socket@;
        let args: Vec<Vec<u8>> = vec![
            bytes_of("--"),
            bytes_of(INIT_INSIDE),
            bytes_of("--socket-fd"),
            socket,
        ];
        assert(byte_views(args@) =~= seq![
            utf8("--"@),
            utf8(INIT_INSIDE@),
            utf8("--socket-fd"@),
            sockets,
        ]);
        let ghost first = explained_views(out@);
        push_explained(
            &mut out,
            Origin::Init,
            args,
            Some("socket: the exec channel bubbler-init serves".to_owned()),
        );
        if ctty {
            let args: Vec<Vec<u8>> = vec![bytes_of("--ctty")];
            assert(byte_views(args@) =~= seq![utf8("--ctty"@)]);
            push_explained(&mut out, Origin::Ctty, args, None);
        }
        match x11 {
            Some((origin, argv, wm)) => {
                let ghost server = byte_views(argv@);
                let mut args: Vec<Vec<u8>> = vec![bytes_of("--x11")];
                let mut argv = argv;
                args.append(&mut argv);
                // The supervisor reads the server's argv up to this `--`; the
                // window manager and the command's own argv follow it.
                args.push(bytes_of("--"));
                assert(byte_views(args@) =~= seq![utf8("--x11"@)] + server + seq![utf8("--"@)]);
                push_explained(
                    &mut out,
                    origin,
                    args,
                    Some(
                        "nested Xwayland, started by bubbler-init on the first X connection; -listenfd is added at run time".to_owned(),
                    ),
                );
                match wm {
                    Some(wm) => {
                        let ghost manager = wm@;
                        let args: Vec<Vec<u8>> = vec![bytes_of("--wm"), wm];
                        assert(byte_views(args@) =~= seq![utf8("--wm"@), manager]);
                        push_explained(
                            &mut out,
                            origin,
                            args,
                            Some(
                                "window manager inside the sandbox, started with the server".to_owned(),
                            ),
                        );
                    },
                    None => {},
                }
            },
            None => {},
        }
        assert(explained_views(out@) =~= first + supervisor(v, sockets));
        let mut args: Vec<Vec<u8>> = vec![bytes_of("--")];
        let mut tail = copy_slice(command);
        args.append(&mut tail);
        assert(byte_views(args@) =~= seq![utf8("--"@)] + byte_views(command@));
        push_explained(&mut out, Origin::Command, args, None);
        out
    }

    /// Like [`BwrapArgs::finish`] but running `command` directly. Only
    /// sidecars use it: they have no exec channel to serve, so there is
    /// nothing for `bubbler-init` to supervise.
    pub fn finish_plain(self, command: &[Vec<u8>], answers: &[Vec<u8>]) -> (r: Vec<Vec<u8>>)
        requires
            answers@.len() == plain_requests_of(self@).len(),
        ensures
            byte_views(r@) == finished_plain(
                self@,
                byte_views(command@),
                byte_views(answers@),
            ),
    {
        let mut out = flatten(self.emit_phases(answers));
        let ghost first = byte_views(out@);
        out.push(bytes_of("--"));
        assert(byte_views(out@) =~= first.push(utf8("--"@)));
        let ghost more = byte_views(out@);
        let mut tail = copy_slice(command);
        let ghost rest = byte_views(tail@);
        out.append(&mut tail);
        assert(byte_views(out@) =~= more + rest);
        out
    }

    /// [`BwrapArgs::finish_plain`] with every operation kept apart and tagged,
    /// `command` carrying an origin per element: a sidecar's argv is its rule
    /// list, and each rule belongs to the node that asked for it.
    pub fn finish_plain_explained(
        self,
        command: &[(Vec<u8>, Origin)],
        answers: &[Vec<u8>],
    ) -> (r: Vec<Explained>)
        requires
            answers@.len() == plain_requests_of(self@).len(),
        ensures
            explained_views(r@) == explained_plain(
                self@,
                command_views(command@),
                byte_views(answers@),
            ),
    {
        let mut out = self.emit_phases(answers);
        let separator: Vec<Vec<u8>> = vec![bytes_of("--")];
        assert(byte_views(separator@) =~= seq![utf8("--"@)]);
        push_explained(&mut out, Origin::Command, separator, None);
        let ghost first = explained_views(out@);
        let ghost all = command_views(command@).map_values(
            |c: (Seq<u8>, Origin)| element(c.0, c.1),
        );
        let mut i: usize = 0;
        assert(first + all.take(0) =~= first);
        while i < command.len()
            invariant
                all == command_views(command@).map_values(
                    |c: (Seq<u8>, Origin)| element(c.0, c.1),
                ),
                i <= command@.len(),
                explained_views(out@) == first + all.take(i as int),
            decreases command@.len() - i,
        {
            let args: Vec<Vec<u8>> = vec![copy_bytes(&command[i].0)];
            assert(byte_views(args@) =~= seq![command@[i as int].0@]);
            push_explained(&mut out, command[i].1, args, None);
            assert(all[i as int] == element(command@[i as int].0@, command@[i as int].1));
            i = i + 1;
            assert(explained_views(out@) =~= first + all.take(i as int));
        }
        assert(all.take(i as int) =~= all);
        out
    }
}

} // verus!
