//! Host environment facts needed to build a sandbox. Filled in by the
//! program, so that nothing here reads the process environment itself.

use vstd::prelude::*;

use crate::text::{same_bytes, utf8};

verus! {

/// Path of the private home inside every sandbox. Fixed so host home paths
/// are not part of the sandbox layout; the synthetic `/etc/passwd` names its
/// owner `bubbler`, so the host user name stays hidden too.
pub const SANDBOX_HOME: &'static str = "/home/bubbler";

/// Where a desktop entry is looked up when `$XDG_DATA_DIRS` is unset, as the
/// XDG base directory specification names them.
pub const DEFAULT_DATA_DIRS: [&'static str; 2] = ["/usr/local/share", "/usr/share"];

/// Environment variables copied from the host into the sandbox when set:
/// terminal and locale. `LC_*` is not listed here; [`is_passthrough`] is the
/// whole policy. `TZ` may name a path, so this is not a value-only list.
pub const PASSTHROUGH_VARS: [&'static str; 5] = ["TERM", "LANG", "LANGUAGE", "COLORTERM", "TZ"];

/// Whether a host variable is copied into the sandbox.
pub open spec fn passes_through(name: Seq<u8>) -> bool {
    ||| name.len() >= 3 && name.take(3) == utf8("LC_"@)
    ||| exists|i: int| 0 <= i < PASSTHROUGH_VARS@.len() && utf8((#[trigger] PASSTHROUGH_VARS@[i])@) == name
}

/// Whether a host variable is copied into the sandbox: one of
/// [`PASSTHROUGH_VARS`] or an `LC_*` locale override. Compared by bytes,
/// since environment names need not be UTF-8.
pub fn is_passthrough(name: &[u8]) -> (r: bool)
    ensures
        r == passes_through(name@),
{
    if name.len() >= 3 {
        let head = vstd::slice::slice_subrange(name, 0, 3);
        assert(head@ =~= name@.take(3));
        if same_bytes(head, "LC_".as_bytes()) {
            return true;
        }
    }
    let mut i: usize = 0;
    while i < PASSTHROUGH_VARS.len()
        invariant
            i <= PASSTHROUGH_VARS@.len(),
            !(name@.len() >= 3 && name@.take(3) == utf8("LC_"@)),
            forall|j: int| 0 <= j < i ==> utf8((#[trigger] PASSTHROUGH_VARS@[j])@) != name@,
        decreases PASSTHROUGH_VARS@.len() - i,
    {
        if same_bytes(PASSTHROUGH_VARS[i].as_bytes(), name) {
            assert(utf8(PASSTHROUGH_VARS@[i as int]@) == name@);
            return true;
        }
        i = i + 1;
    }
    false
}

/// Host-side facts the builder and services need.
#[derive(Debug, Clone)]
pub struct Env {
    /// Real `$HOME`; source of `home-share` paths.
    pub home: Vec<u8>,
    /// `$XDG_DATA_HOME` (or `$HOME/.local/share`); instances live under it.
    pub data_home: Vec<u8>,
    /// `$XDG_CONFIG_HOME` (or `$HOME/.config`); the user's profile layer
    /// lives in `bubbler/profiles/` under it.
    pub config_home: Vec<u8>,
    /// `$XDG_DATA_DIRS` (or `/usr/local/share:/usr/share`), in precedence
    /// order; where an application's own desktop entry is looked up, under
    /// `$XDG_DATA_HOME`'s copy of the same name. Absolute: a relative entry
    /// is invalid, and is dropped before this is filled in.
    pub data_dirs: Vec<Vec<u8>>,
    /// `$XDG_RUNTIME_DIR`; required, sockets live here.
    pub runtime_dir: Vec<u8>,
    /// Real user id; unchanged inside the sandbox, so synthetic
    /// `/etc/passwd` entries must use it.
    pub uid: u32,
    /// Real group id; unchanged inside the sandbox.
    pub gid: u32,
    /// `$WAYLAND_DISPLAY` if set.
    pub wayland_display: Option<Vec<u8>>,
    /// `$DISPLAY` if set.
    pub display: Option<Vec<u8>>,
    /// `$XAUTHORITY` if set.
    pub xauthority: Option<Vec<u8>>,
    /// Already-filtered `(name, value)` pairs that were set on the host,
    /// selected by [`is_passthrough`].
    pub passthrough: Vec<(Vec<u8>, Vec<u8>)>,
    /// Host path of the `bubbler-init` binary to bind into the sandbox,
    /// overriding the usual search.
    pub init_override: Option<Vec<u8>>,
    /// `$DBUS_SESSION_BUS_ADDRESS` as the host set it; only a `unix:path=`
    /// address names a socket that can be proxied.
    pub dbus_address: Option<Vec<u8>>,
    /// `$DBUS_SYSTEM_BUS_ADDRESS` as the host set it; the compiled-in
    /// `/run/dbus/system_bus_socket` is used when it names none.
    pub dbus_system_address: Option<Vec<u8>>,
    /// `$AT_SPI_BUS_ADDRESS` as the host set it: where the session says its
    /// accessibility bus is.
    pub at_spi_bus_address: Option<Vec<u8>>,
    /// Run the D-Bus proxy with `--log`.
    pub dbus_log: bool,
    /// Run the egress proxy so that every tunnel it opens is printed.
    pub net_proxy_log: bool,
    /// The seccomp filter logs what it would have denied instead of denying
    /// it. Not a sandbox at all.
    pub seccomp_log: bool,
    /// One extra path `path-share` accepts at either end.
    pub test_allow_path: Option<Vec<u8>>,
    /// Directory holding the system profile layer.
    pub profile_dir_override: Option<Vec<u8>>,
    /// Host path of the proxy binary to run instead of the one on `PATH`.
    pub proxy_override: Option<Vec<u8>>,
    /// Host path of the pasta binary to run instead of the one on `PATH`.
    pub pasta_override: Option<Vec<u8>>,
    /// Host path of the Wayland proxy binary to run instead of the installed
    /// one.
    pub wl_proxy_override: Option<Vec<u8>>,
    /// Host path of the egress proxy binary to run instead of the installed
    /// one.
    pub net_proxy_override: Option<Vec<u8>>,
}

/// The models of a list of variables.
pub open spec fn pair_views(pairs: Seq<(Vec<u8>, Vec<u8>)>) -> Seq<(Seq<u8>, Seq<u8>)> {
    Seq::new(pairs.len(), |i: int| (pairs[i].0@, pairs[i].1@))
}

} // verus!
