//! The nodes that grant a share, a display or a device.

use vstd::prelude::*;

use crate::config::address::{find_char, position};
use crate::config::document::{entries_view, EntryView, Node, NodeView, Scalar, ScalarView};
use crate::config::model::{
    default_window, NestedView, NestedX11, ShareMode, WaylandMode, X11Mode, X11View,
};
use crate::config::node::{
    bad, bad_node, children_fault, digit, fold, is_digit, reject_children, repeated_prop,
    repeated_property, unknown_prop, unknown_property,
};
use crate::dbus::identity::{is_valid_app_id, valid_app_id};
use crate::error::{ConfigError, ConfigErrorView};
use crate::paths::{
    build, component_views, components, path_components, path_of, Component, ComponentView,
};
use crate::text::{chars_of, copy_bytes, joined, maybe, outcome, same_bytes, same_text, utf8};

verus! {

/// What a share names.
#[derive(Debug, Clone, Copy, PartialEq, Eq, Structural)]
pub enum ShareKind {
    /// A path below the home directory.
    Home,
    /// An absolute path.
    Path,
    /// An application id.
    App,
}

/// What a share's argument is called.
pub open spec fn share_word(kind: ShareKind) -> Seq<char> {
    match kind {
        ShareKind::App => "id"@,
        _ => "path"@,
    }
}

/// Whether every component from `i` on is a plain name.
pub open spec fn plain_from(parts: Seq<ComponentView>, i: int) -> bool {
    forall|j: int| i <= j < parts.len() ==> (#[trigger] parts[j]) is Normal
}

/// Why a share's value is refused.
pub open spec fn share_fault(kind: ShareKind, s: Seq<char>) -> Option<Seq<char>> {
    let parts = components(utf8(s));
    match kind {
        ShareKind::Home => if s.len() > 0 && plain_from(parts, 0) {
            None
        } else {
            Some("path must be relative to the home directory and contain no `..`"@)
        },
        ShareKind::Path => if parts.len() > 0 && parts[0] is Root && plain_from(parts, 1) {
            None
        } else {
            Some("path must be absolute and contain no `.` or `..` component"@)
        },
        ShareKind::App => if valid_app_id(s) {
            None
        } else {
            Some(
                "expects an application id such as \"org.example.App\": at least two `.`-separated elements of letters, digits and `_`, `-` allowed in the last"@,
            )
        },
    }
}

/// One more entry of a share.
pub open spec fn share_step(
    node: NodeView,
    kind: ShareKind,
    state: (Option<Seq<char>>, ShareMode),
    e: EntryView,
) -> Result<(Option<Seq<char>>, ShareMode), ConfigErrorView> {
    match e.name {
        None => if state.0 is Some {
            Err(bad_node(node, "expects exactly one "@ + share_word(kind) + " argument"@))
        } else {
            match e.value {
                ScalarView::Text(s) => match share_fault(kind, s) {
                    Some(reason) => Err(bad_node(node, reason)),
                    None => Ok((Some(s), state.1)),
                },
                _ => Err(bad_node(node, share_word(kind) + " must be a string"@)),
            }
        },
        Some(prop) => if prop == "mode"@ {
            match e.value {
                ScalarView::Text(s) => if s == "ro"@ {
                    Ok((state.0, ShareMode::ReadOnly))
                } else if s == "rw"@ {
                    Ok((state.0, ShareMode::ReadWrite))
                } else {
                    Err(bad_node(node, "mode must be \"ro\" or \"rw\""@))
                },
                _ => Err(bad_node(node, "mode must be \"ro\" or \"rw\""@)),
            }
        } else {
            Err(unknown_property(node, prop))
        },
    }
}

/// The walk over a share's entries.
pub open spec fn share_steps(node: NodeView, kind: ShareKind) -> spec_fn(
    (Option<Seq<char>>, ShareMode),
    EntryView,
) -> Result<(Option<Seq<char>>, ShareMode), ConfigErrorView> {
    |state: (Option<Seq<char>>, ShareMode), e: EntryView| share_step(node, kind, state, e)
}

/// `<node> "<value>" [mode=ro|rw]`: the value as written and the mode.
pub open spec fn share_of(node: NodeView, kind: ShareKind) -> Result<
    (Seq<char>, ShareMode),
    ConfigErrorView,
> {
    match fold(
        node.entries,
        0,
        (None::<Seq<char>>, ShareMode::ReadOnly),
        share_steps(node, kind),
    ) {
        Err(e) => Err(e),
        Ok((value, mode)) => match children_fault(node) {
            Some(e) => Err(e),
            None => match value {
                None => Err(
                    bad_node(node, "expects exactly one "@ + share_word(kind) + " argument"@),
                ),
                Some(s) => Ok((s, mode)),
            },
        },
    }
}

/// A path without repeated separators, `.` and a trailing separator.
pub open spec fn normalised(s: Seq<char>) -> Seq<u8> {
    path_of(components(utf8(s)))
}

fn all_plain(parts: &Vec<Component>, from: usize) -> (r: bool)
    requires
        from <= parts@.len(),
    ensures
        r == plain_from(component_views(parts@), from as int),
{
    let ghost all = component_views(parts@);
    let mut i: usize = from;
    while i < parts.len()
        invariant
            all == component_views(parts@),
            from <= i <= parts@.len(),
            forall|j: int| from <= j < i ==> (#[trigger] all[j]) is Normal,
        decreases parts@.len() - i,
    {
        assert(all[i as int] == parts@[i as int]@);
        match &parts[i] {
            Component::Normal(_) => {},
            _ => {
                assert(!(all[i as int] is Normal));
                return false;
            },
        }
        i = i + 1;
    }
    true
}

fn share_word_of(kind: ShareKind) -> (r: &'static str)
    ensures
        r@ == share_word(kind),
{
    match kind {
        ShareKind::App => "id",
        _ => "path",
    }
}

/// Why a share's value is refused: only plain relative paths under the home,
/// only absolute paths whose every other component is a normal name, and
/// only application ids, so that an id can never name another runtime entry.
fn share_refusal(kind: ShareKind, s: &str) -> (r: Option<&'static str>)
    ensures
        match r {
            Some(reason) => share_fault(kind, s@) == Some(reason@),
            None => share_fault(kind, s@) is None,
        },
{
    match kind {
        ShareKind::Home => {
            let parts = path_components(s.as_bytes());
            if !s.is_empty() && all_plain(&parts, 0) {
                None
            } else {
                Some("path must be relative to the home directory and contain no `..`")
            }
        },
        ShareKind::Path => {
            let parts = path_components(s.as_bytes());
            let ghost all = component_views(parts@);
            let rooted = if parts.len() > 0 {
                assert(all[0] == parts@[0]@);
                match &parts[0] {
                    Component::Root => true,
                    _ => false,
                }
            } else {
                false
            };
            if rooted && all_plain(&parts, 1) {
                None
            } else {
                Some("path must be absolute and contain no `.` or `..` component")
            }
        },
        ShareKind::App => {
            if is_valid_app_id(s) {
                None
            } else {
                Some(
                    "expects an application id such as \"org.example.App\": at least two `.`-separated elements of letters, digits and `_`, `-` allowed in the last",
                )
            }
        },
    }
}

/// `<node> "<value>" [mode=ro|rw]`, the shape `home-share`, `path-share` and
/// `app-runtime` have in common; `kind` decides which values the node
/// accepts.
pub fn parse_share(node: &Node, kind: ShareKind) -> (r: Result<(String, ShareMode), ConfigError>)
    ensures
        match r {
            Ok((s, mode)) => share_of(node@, kind) == Ok::<
                (Seq<char>, ShareMode),
                ConfigErrorView,
            >((s@, mode)),
            Err(e) => share_of(node@, kind) == Err::<(Seq<char>, ShareMode), ConfigErrorView>(e@),
        },
{
    let ghost all = node@.entries;
    let ghost steps = share_steps(node@, kind);
    let ghost total = fold(all, 0, (None::<Seq<char>>, ShareMode::ReadOnly), steps);
    let mut value: Option<String> = None;
    let mut mode = ShareMode::ReadOnly;
    let mut i: usize = 0;
    while i < node.entries.len()
        invariant
            all == node@.entries,
            all == entries_view(node.entries@),
            steps == share_steps(node@, kind),
            total == fold(all, 0, (None::<Seq<char>>, ShareMode::ReadOnly), steps),
            i <= node.entries@.len(),
            total == fold(all, i as int, (maybe(value), mode), steps),
        decreases node.entries@.len() - i,
    {
        let e = &node.entries[i];
        assert(all[i as int] == e@);
        assert(steps((maybe(value), mode), e@) == share_step(
            node@,
            kind,
            (maybe(value), mode),
            e@,
        ));
        match &e.name {
            None => {
                if value.is_some() {
                    let reason = joined(
                        &joined("expects exactly one ", share_word_of(kind)),
                        " argument",
                    );
                    return Err(bad(node, &reason));
                }
                match &e.value {
                    Scalar::Text(s) => {
                        match share_refusal(kind, s) {
                            Some(reason) => {
                                return Err(bad(node, reason));
                            },
                            None => {
                                value = Some(s.clone());
                            },
                        }
                    },
                    _ => {
                        let reason = joined(share_word_of(kind), " must be a string");
                        return Err(bad(node, &reason));
                    },
                }
            },
            Some(prop) => {
                if !same_text(prop, "mode") {
                    return Err(unknown_prop(node, prop));
                }
                match &e.value {
                    Scalar::Text(s) => {
                        if same_text(s, "ro") {
                            mode = ShareMode::ReadOnly;
                        } else if same_text(s, "rw") {
                            mode = ShareMode::ReadWrite;
                        } else {
                            return Err(bad(node, "mode must be \"ro\" or \"rw\""));
                        }
                    },
                    _ => {
                        return Err(bad(node, "mode must be \"ro\" or \"rw\""));
                    },
                }
            },
        }
        i = i + 1;
    }
    match reject_children(node) {
        Ok(()) => {},
        Err(e) => {
            return Err(e);
        },
    }
    match value {
        Some(s) => Ok((s, mode)),
        None => {
            let reason = joined(&joined("expects exactly one ", share_word_of(kind)), " argument");
            Err(bad(node, &reason))
        },
    }
}

/// A path without repeated separators, `.` and a trailing separator.
pub fn normalise(s: &str) -> (r: Vec<u8>)
    ensures
        r@ == normalised(s@),
{
    let parts = path_components(s.as_bytes());
    build(&parts)
}

/// `/etc` entries `etc-share` may not name: the sandbox generates its own
/// `passwd` and `group`, and binding the host's account files back in would
/// undo that and leak the shadow hashes. The `-` and `+` forms are the backup
/// and NIS-compatibility files next to them.
pub const RESERVED_ETC: [&'static str; 12] = [
    "passwd",
    "passwd-",
    "passwd+",
    "group",
    "group-",
    "group+",
    "shadow",
    "shadow-",
    "shadow+",
    "gshadow",
    "gshadow-",
    "gshadow+",
];

/// The first of some texts from `i` on whose bytes are `name`.
pub open spec fn entry_named(list: Seq<&'static str>, name: Seq<u8>, i: int) -> Option<Seq<char>>
    decreases list.len() - i,
{
    if i < 0 || i >= list.len() {
        None
    } else if utf8(list[i]@) == name {
        Some(list[i]@)
    } else {
        entry_named(list, name, i + 1)
    }
}

/// The entry directly under `/etc` a text names, or why it is refused.
pub open spec fn etc_entry(node: NodeView, s: Seq<char>) -> Result<Seq<u8>, ConfigErrorView> {
    let parts = components(utf8(s));
    if parts.len() != 1 || !(parts[0] is Normal) {
        Err(bad_node(node, "name must be a single entry directly under /etc"@))
    } else {
        match entry_named(RESERVED_ETC@, parts[0]->Normal_0, 0) {
            Some(owned) => Err(bad_node(node, "the sandbox owns /etc/"@ + owned)),
            None => Ok(parts[0]->Normal_0),
        }
    }
}

/// One more entry of an `etc-share`.
pub open spec fn etc_step(node: NodeView, state: Option<Seq<u8>>, e: EntryView) -> Result<
    Option<Seq<u8>>,
    ConfigErrorView,
> {
    match e.name {
        Some(prop) => Err(unknown_property(node, prop)),
        None => if state is Some {
            Err(bad_node(node, "expects exactly one name argument"@))
        } else {
            match e.value {
                ScalarView::Text(s) => match etc_entry(node, s) {
                    Ok(name) => Ok(Some(name)),
                    Err(err) => Err(err),
                },
                _ => Err(bad_node(node, "name must be a string"@)),
            }
        },
    }
}

/// The walk over an `etc-share`'s entries.
pub open spec fn etc_steps(node: NodeView) -> spec_fn(Option<Seq<u8>>, EntryView) -> Result<
    Option<Seq<u8>>,
    ConfigErrorView,
> {
    |state: Option<Seq<u8>>, e: EntryView| etc_step(node, state, e)
}

/// `etc-share "<name>"`: the name.
pub open spec fn etc_share_of(node: NodeView) -> Result<Seq<u8>, ConfigErrorView> {
    match fold(node.entries, 0, None::<Seq<u8>>, etc_steps(node)) {
        Err(e) => Err(e),
        Ok(name) => match children_fault(node) {
            Some(e) => Err(e),
            None => match name {
                None => Err(bad_node(node, "expects exactly one name argument"@)),
                Some(name) => Ok(name),
            },
        },
    }
}

fn etc_name(node: &Node, s: &str) -> (r: Result<Vec<u8>, ConfigError>)
    ensures
        outcome(r) == etc_entry(node@, s@),
{
    let parts = path_components(s.as_bytes());
    let ghost all = component_views(parts@);
    if parts.len() != 1 {
        return Err(bad(node, "name must be a single entry directly under /etc"));
    }
    assert(all[0] == parts@[0]@);
    let name = match &parts[0] {
        Component::Normal(name) => name,
        _ => {
            return Err(bad(node, "name must be a single entry directly under /etc"));
        },
    };
    let mut i: usize = 0;
    while i < RESERVED_ETC.len()
        invariant
            i <= RESERVED_ETC@.len(),
            entry_named(RESERVED_ETC@, name@, 0) == entry_named(RESERVED_ETC@, name@, i as int),
            all == components(utf8(s@)),
            all.len() == 1,
            all[0] == ComponentView::Normal(name@),
        decreases RESERVED_ETC@.len() - i,
    {
        if same_bytes(RESERVED_ETC[i].as_bytes(), name) {
            return Err(bad(node, &joined("the sandbox owns /etc/", RESERVED_ETC[i])));
        }
        i = i + 1;
    }
    Ok(copy_bytes(name))
}

/// `etc-share "<name>"`: one host `/etc` entry.
pub fn parse_etc_share(node: &Node) -> (r: Result<Vec<u8>, ConfigError>)
    ensures
        outcome(r) == etc_share_of(node@),
{
    let ghost all = node@.entries;
    let ghost steps = etc_steps(node@);
    let ghost total = fold(all, 0, None::<Seq<u8>>, steps);
    let mut name: Option<Vec<u8>> = None;
    let mut i: usize = 0;
    while i < node.entries.len()
        invariant
            all == node@.entries,
            all == entries_view(node.entries@),
            steps == etc_steps(node@),
            total == fold(all, 0, None::<Seq<u8>>, steps),
            i <= node.entries@.len(),
            total == fold(all, i as int, maybe(name), steps),
        decreases node.entries@.len() - i,
    {
        let e = &node.entries[i];
        assert(all[i as int] == e@);
        assert(steps(maybe(name), e@) == etc_step(node@, maybe(name), e@));
        match &e.name {
            Some(prop) => {
                return Err(unknown_prop(node, prop));
            },
            None => {},
        }
        if name.is_some() {
            return Err(bad(node, "expects exactly one name argument"));
        }
        match &e.value {
            Scalar::Text(s) => {
                match etc_name(node, s) {
                    Ok(n) => {
                        name = Some(n);
                    },
                    Err(err) => {
                        return Err(err);
                    },
                }
            },
            _ => {
                return Err(bad(node, "name must be a string"));
            },
        }
        i = i + 1;
    }
    match reject_children(node) {
        Ok(()) => {},
        Err(e) => {
            return Err(e);
        },
    }
    match name {
        Some(n) => Ok(n),
        None => Err(bad(node, "expects exactly one name argument")),
    }
}

/// What a `wayland` node has said so far: its one mode argument, and that the
/// clipboard is open.
pub struct WaylandState {
    pub mode: Option<WaylandMode>,
    pub open: bool,
}

/// One more entry of a `wayland` node: its one mode argument, or
/// `clipboard="open"`.
pub open spec fn wayland_step(node: NodeView, state: WaylandState, e: EntryView) -> Result<
    WaylandState,
    ConfigErrorView,
> {
    match e.name {
        Some(prop) => if prop != "clipboard"@ {
            Err(unknown_property(node, prop))
        } else if state.open {
            Err(repeated_property(node, prop))
        } else {
            match e.value {
                ScalarView::Text(s) => if s == "open"@ {
                    Ok(WaylandState { open: true, ..state })
                } else {
                    Err(bad_node(node, "clipboard must be `open`, got `"@ + s + "`"@))
                },
                _ => Err(bad_node(node, "clipboard must be \"open\""@)),
            }
        },
        None => if state.mode is Some {
            Err(bad_node(node, "expects at most one mode argument"@))
        } else {
            match e.value {
                ScalarView::Text(s) => if s == "host"@ {
                    Ok(WaylandState { mode: Some(WaylandMode::Host), ..state })
                } else {
                    Err(
                        ConfigErrorView::BadArgument {
                            node: "wayland"@,
                            reason: "expected `host`, got `"@ + s + "`"@,
                        },
                    )
                },
                _ => Err(bad_node(node, "mode must be \"host\""@)),
            }
        },
    }
}

/// The walk over a `wayland` node's entries.
pub open spec fn wayland_steps(node: NodeView) -> spec_fn(WaylandState, EntryView) -> Result<
    WaylandState,
    ConfigErrorView,
> {
    |state: WaylandState, e: EntryView| wayland_step(node, state, e)
}

/// A `wayland` node that has said nothing.
pub open spec fn wayland_start() -> WaylandState {
    WaylandState { mode: None, open: false }
}

/// `wayland ["host"] [clipboard="open"]`: which socket is meant. The property
/// with `"host"` is an error rather than a value dropped quietly: no proxy
/// stands in front of the session's socket, so no read is held back there.
pub open spec fn wayland_of(node: NodeView) -> Result<WaylandMode, ConfigErrorView> {
    match children_fault(node) {
        Some(e) => Err(e),
        None => match fold(node.entries, 0, wayland_start(), wayland_steps(node)) {
            Err(e) => Err(e),
            Ok(state) => match state.mode {
                Some(m) => if state.open {
                    Err(bad_node(node, "\"host\" takes no properties"@))
                } else {
                    Ok(m)
                },
                None => Ok(
                    if state.open {
                        WaylandMode::OpenClipboard
                    } else {
                        WaylandMode::Sandboxed
                    },
                ),
            },
        },
    }
}

/// `wayland ["host"] [clipboard="open"]`: which socket is meant.
pub fn parse_wayland(node: &Node) -> (r: Result<WaylandMode, ConfigError>)
    ensures
        match r {
            Ok(m) => wayland_of(node@) == Ok::<WaylandMode, ConfigErrorView>(m),
            Err(e) => wayland_of(node@) == Err::<WaylandMode, ConfigErrorView>(e@),
        },
{
    match reject_children(node) {
        Ok(()) => {},
        Err(e) => {
            return Err(e);
        },
    }
    let ghost all = node@.entries;
    let ghost steps = wayland_steps(node@);
    let ghost total = fold(all, 0, wayland_start(), steps);
    let mut mode: Option<WaylandMode> = None;
    let mut open = false;
    let mut i: usize = 0;
    while i < node.entries.len()
        invariant
            children_fault(node@) is None,
            all == node@.entries,
            all == entries_view(node.entries@),
            steps == wayland_steps(node@),
            total == fold(all, 0, wayland_start(), steps),
            i <= node.entries@.len(),
            total == fold(all, i as int, (WaylandState { mode, open }), steps),
        decreases node.entries@.len() - i,
    {
        let e = &node.entries[i];
        let ghost state = WaylandState { mode, open };
        assert(all[i as int] == e@);
        assert(steps(state, e@) == wayland_step(node@, state, e@));
        match &e.name {
            Some(prop) => {
                if !same_text(prop, "clipboard") {
                    return Err(unknown_prop(node, prop));
                }
                if open {
                    return Err(repeated_prop(node, prop));
                }
                match &e.value {
                    Scalar::Text(s) => {
                        if !same_text(s, "open") {
                            let reason = joined(&joined("clipboard must be `open`, got `", s), "`");
                            return Err(bad(node, &reason));
                        }
                        open = true;
                    },
                    _ => {
                        return Err(bad(node, "clipboard must be \"open\""));
                    },
                }
            },
            None => {
                if mode.is_some() {
                    return Err(bad(node, "expects at most one mode argument"));
                }
                match &e.value {
                    Scalar::Text(s) => {
                        if !same_text(s, "host") {
                            return Err(
                                ConfigError::BadArgument {
                                    node: "wayland".to_owned(),
                                    reason: joined(&joined("expected `host`, got `", s), "`"),
                                },
                            );
                        }
                        mode = Some(WaylandMode::Host);
                    },
                    _ => {
                        return Err(bad(node, "mode must be \"host\""));
                    },
                }
            },
        }
        i = i + 1;
    }
    match mode {
        Some(m) => {
            if open {
                return Err(bad(node, "\"host\" takes no properties"));
            }
            Ok(m)
        },
        None => Ok(
            if open {
                WaylandMode::OpenClipboard
            } else {
                WaylandMode::Sandboxed
            },
        ),
    }
}

/// Whether a text is a positive number in its canonical spelling: digits
/// without a sign or a leading zero, of at most 32 bits.
pub open spec fn positive(part: Seq<char>) -> bool {
    &&& part.len() > 0
    &&& forall|i: int| 0 <= i < part.len() ==> digit(#[trigger] part[i])
    &&& part[0] != '0'
    &&& crate::config::address::digits_value(part, 10) <= u32::MAX
}

/// The window size a text is: `<width>x<height>`, both positive. The
/// spelling is canonical already, so it is the text itself.
pub open spec fn geometry_of(s: Seq<char>) -> Option<Seq<char>> {
    match find_char(s, 'x', 0) {
        None => None,
        Some(at) => if positive(s.take(at)) && positive(s.skip(at + 1)) {
            Some(s)
        } else {
            None
        },
    }
}

fn is_positive(part: &[char]) -> (r: bool)
    ensures
        r == positive(part@),
{
    if part.len() == 0 || part[0] == '0' {
        return false;
    }
    let mut n: u64 = 0;
    let mut i: usize = 0;
    assert(part@.take(0) =~= Seq::empty());
    while i < part.len()
        invariant
            part@.len() > 0,
            part@[0] != '0',
            i <= part@.len(),
            forall|j: int| 0 <= j < i ==> digit(#[trigger] part@[j]),
            n <= u32::MAX,
            n == crate::config::address::digits_value(part@.take(i as int), 10),
        decreases part@.len() - i,
    {
        let c = part[i];
        if !is_digit(c) {
            assert(!digit(part@[i as int]));
            return false;
        }
        assert(part@.take(i + 1).drop_last() =~= part@.take(i as int));
        n = n * 10 + (c as u64 - 48);
        i = i + 1;
        if n > u32::MAX as u64 {
            proof {
                lemma_value_grows(part@, i as int);
            }
            return false;
        }
    }
    assert(part@.take(i as int) =~= part@);
    true
}

/// A number is at least what its first digits are.
proof fn lemma_value_grows(s: Seq<char>, i: int)
    requires
        0 <= i <= s.len(),
    ensures
        crate::config::address::digits_value(s.take(i), 10)
            <= crate::config::address::digits_value(s, 10),
    decreases s.len() - i,
{
    if i < s.len() {
        lemma_value_grows(s, i + 1);
        assert(s.take(i + 1).drop_last() =~= s.take(i));
    } else {
        assert(s.take(i) =~= s);
    }
}

/// `<width>x<height>`, both positive decimals, as Xwayland's `-geometry`
/// takes it. No sign, no leading zero, no unit: `-1`, `01` and `1280px` are
/// all things Xwayland would read as something else.
pub fn parse_geometry(s: &str) -> (r: Option<String>)
    ensures
        maybe(r) == geometry_of(s@),
{
    let chars = chars_of(s);
    match position(&chars, 'x') {
        None => None,
        Some(at) => {
            let w = vstd::slice::slice_subrange(chars.as_slice(), 0, at);
            let h = vstd::slice::slice_subrange(chars.as_slice(), at + 1, chars.len());
            assert(w@ =~= s@.take(at as int));
            assert(h@ =~= s@.skip(at + 1));
            if is_positive(w) && is_positive(h) {
                Some(s.to_owned())
            } else {
                None
            }
        },
    }
}

/// What an `x11` node has said so far.
pub struct X11State {
    pub host: bool,
    pub geometry: Option<Seq<char>>,
    pub fullscreen: Option<bool>,
    pub grab: Option<bool>,
    pub wm: Option<Seq<char>>,
}

/// A property that is `#true` or `#false` and written once.
pub open spec fn flag_property(
    node: NodeView,
    prop: Seq<char>,
    was: Option<bool>,
    value: ScalarView,
) -> Result<bool, ConfigErrorView> {
    if was is Some {
        Err(repeated_property(node, prop))
    } else {
        match value {
            ScalarView::Bool(b) => Ok(b),
            _ => Err(bad_node(node, prop + " must be #true or #false"@)),
        }
    }
}

/// One more entry of an `x11` node.
pub open spec fn x11_step(node: NodeView, state: X11State, e: EntryView) -> Result<
    X11State,
    ConfigErrorView,
> {
    match e.name {
        None => if state.host {
            Err(bad_node(node, "expects at most one mode argument"@))
        } else {
            match e.value {
                ScalarView::Text(s) => if s == "host"@ {
                    Ok(X11State { host: true, ..state })
                } else {
                    Err(bad_node(node, "expected `host`, got `"@ + s + "`"@))
                },
                _ => Err(bad_node(node, "mode must be \"host\""@)),
            }
        },
        Some(prop) => if prop == "geometry"@ {
            if state.geometry is Some {
                Err(repeated_property(node, prop))
            } else {
                match e.value {
                    ScalarView::Text(s) => match geometry_of(s) {
                        Some(g) => Ok(X11State { geometry: Some(g), ..state }),
                        None => Err(
                            bad_node(
                                node,
                                "geometry must be `<width>x<height>`, got `"@ + s + "`"@,
                            ),
                        ),
                    },
                    _ => Err(bad_node(node, "geometry must be a string like \"1280x720\""@)),
                }
            }
        } else if prop == "fullscreen"@ {
            match flag_property(node, prop, state.fullscreen, e.value) {
                Ok(b) => Ok(X11State { fullscreen: Some(b), ..state }),
                Err(err) => Err(err),
            }
        } else if prop == "grab"@ {
            match flag_property(node, prop, state.grab, e.value) {
                Ok(b) => Ok(X11State { grab: Some(b), ..state }),
                Err(err) => Err(err),
            }
        } else if prop == "wm"@ {
            if state.wm is Some {
                Err(repeated_property(node, prop))
            } else {
                match e.value {
                    ScalarView::Text(s) => if s.len() > 0 {
                        Ok(X11State { wm: Some(s), ..state })
                    } else {
                        Err(bad_node(node, "wm must name a program"@))
                    },
                    _ => Err(bad_node(node, "wm must be a string"@)),
                }
            }
        } else {
            Err(unknown_property(node, prop))
        },
    }
}

/// The walk over an `x11` node's entries.
pub open spec fn x11_steps(node: NodeView) -> spec_fn(X11State, EntryView) -> Result<
    X11State,
    ConfigErrorView,
> {
    |state: X11State, e: EntryView| x11_step(node, state, e)
}

/// An `x11` node that has said nothing.
pub open spec fn x11_start() -> X11State {
    X11State { host: false, geometry: None, fullscreen: None, grab: None, wm: None }
}

/// What is said, or `default` where nothing is.
pub open spec fn said<T>(o: Option<T>, default: T) -> T {
    match o {
        Some(t) => t,
        None => default,
    }
}

/// `x11 ["host"] [geometry="WxH"] [fullscreen=#true] [grab=#true]
/// [wm="<program>"]`: which server is meant. A property with `"host"` is an error rather than a value
/// dropped quietly: the session's server is not this sandbox's to size.
pub open spec fn x11_of(node: NodeView) -> Result<X11View, ConfigErrorView> {
    match children_fault(node) {
        Some(e) => Err(e),
        None => match fold(node.entries, 0, x11_start(), x11_steps(node)) {
            Err(e) => Err(e),
            Ok(state) => if state.host {
                if state.geometry is Some || state.fullscreen is Some || state.grab is Some
                    || state.wm is Some {
                    Err(bad_node(node, "\"host\" takes no properties"@))
                } else {
                    Ok(X11View::Host)
                }
            } else {
                Ok(
                    X11View::Nested(
                        NestedView {
                            geometry: said(state.geometry, default_window().geometry),
                            fullscreen: said(state.fullscreen, default_window().fullscreen),
                            grab: said(state.grab, default_window().grab),
                            wm: state.wm,
                        },
                    ),
                )
            },
        },
    }
}

fn flag_of(node: &Node, prop: &str, was: Option<bool>, value: &Scalar) -> (r: Result<
    bool,
    ConfigError,
>)
    ensures
        match r {
            Ok(b) => flag_property(node@, prop@, was, value@) == Ok::<bool, ConfigErrorView>(b),
            Err(e) => flag_property(node@, prop@, was, value@) == Err::<bool, ConfigErrorView>(e@),
        },
{
    if was.is_some() {
        return Err(repeated_prop(node, prop));
    }
    match value {
        Scalar::Bool(b) => Ok(*b),
        _ => Err(bad(node, &joined(prop, " must be #true or #false"))),
    }
}

/// `x11 ["host"] [geometry="WxH"] [fullscreen=#true] [grab=#true]
/// [wm="<program>"]`: the bare node is a nested Xwayland the properties describe the window of.
pub fn parse_x11(node: &Node) -> (r: Result<X11Mode, ConfigError>)
    ensures
        outcome(r) == x11_of(node@),
{
    match reject_children(node) {
        Ok(()) => {},
        Err(e) => {
            return Err(e);
        },
    }
    let ghost all = node@.entries;
    let ghost steps = x11_steps(node@);
    let ghost total = fold(all, 0, x11_start(), steps);
    let mut host = false;
    let mut geometry: Option<String> = None;
    let mut fullscreen: Option<bool> = None;
    let mut grab: Option<bool> = None;
    let mut wm: Option<String> = None;
    let mut i: usize = 0;
    while i < node.entries.len()
        invariant
            children_fault(node@) is None,
            all == node@.entries,
            all == entries_view(node.entries@),
            steps == x11_steps(node@),
            total == fold(all, 0, x11_start(), steps),
            i <= node.entries@.len(),
            total == fold(
                all,
                i as int,
                (X11State { host, geometry: maybe(geometry), fullscreen, grab, wm: maybe(wm) }),
                steps,
            ),
        decreases node.entries@.len() - i,
    {
        let e = &node.entries[i];
        let ghost state = X11State {
            host,
            geometry: maybe(geometry),
            fullscreen,
            grab,
            wm: maybe(wm),
        };
        assert(all[i as int] == e@);
        assert(steps(state, e@) == x11_step(node@, state, e@));
        match &e.name {
            None => {
                if host {
                    return Err(bad(node, "expects at most one mode argument"));
                }
                match &e.value {
                    Scalar::Text(s) => {
                        if !same_text(s, "host") {
                            return Err(
                                bad(node, &joined(&joined("expected `host`, got `", s), "`")),
                            );
                        }
                        host = true;
                    },
                    _ => {
                        return Err(bad(node, "mode must be \"host\""));
                    },
                }
            },
            Some(prop) => {
                // Written twice, the two entries disagree about the window
                // and the winner would be a matter of their order in the
                // line.
                if same_text(prop, "geometry") {
                    if geometry.is_some() {
                        return Err(repeated_prop(node, prop));
                    }
                    match &e.value {
                        Scalar::Text(s) => {
                            match parse_geometry(s) {
                                Some(g) => {
                                    geometry = Some(g);
                                },
                                None => {
                                    let reason = joined(
                                        &joined("geometry must be `<width>x<height>`, got `", s),
                                        "`",
                                    );
                                    return Err(bad(node, &reason));
                                },
                            }
                        },
                        _ => {
                            return Err(bad(node, "geometry must be a string like \"1280x720\""));
                        },
                    }
                } else if same_text(prop, "fullscreen") {
                    match flag_of(node, prop, fullscreen, &e.value) {
                        Ok(b) => {
                            fullscreen = Some(b);
                        },
                        Err(err) => {
                            return Err(err);
                        },
                    }
                } else if same_text(prop, "grab") {
                    match flag_of(node, prop, grab, &e.value) {
                        Ok(b) => {
                            grab = Some(b);
                        },
                        Err(err) => {
                            return Err(err);
                        },
                    }
                } else if same_text(prop, "wm") {
                    if wm.is_some() {
                        return Err(repeated_prop(node, prop));
                    }
                    match &e.value {
                        Scalar::Text(s) => {
                            if chars_of(s).len() == 0 {
                                return Err(bad(node, "wm must name a program"));
                            }
                            wm = Some(s.clone());
                        },
                        _ => {
                            return Err(bad(node, "wm must be a string"));
                        },
                    }
                } else {
                    return Err(unknown_prop(node, prop));
                }
            },
        }
        i = i + 1;
    }
    if host {
        if geometry.is_some() || fullscreen.is_some() || grab.is_some() || wm.is_some() {
            return Err(bad(node, "\"host\" takes no properties"));
        }
        return Ok(X11Mode::Host);
    }
    let default = NestedX11::default();
    Ok(
        X11Mode::Nested(
            NestedX11 {
                geometry: match geometry {
                    Some(g) => g,
                    None => default.geometry,
                },
                fullscreen: match fullscreen {
                    Some(b) => b,
                    None => default.fullscreen,
                },
                grab: match grab {
                    Some(b) => b,
                    None => default.grab,
                },
                wm,
            },
        ),
    )
}

/// One more entry of a `gamepad` node.
pub open spec fn gamepad_step(
    node: NodeView,
    state: (Option<bool>, Option<bool>),
    e: EntryView,
) -> Result<(Option<bool>, Option<bool>), ConfigErrorView> {
    match e.name {
        None => Err(bad_node(node, "takes no arguments"@)),
        Some(prop) => if prop == "hidraw"@ {
            match flag_property(node, prop, state.0, e.value) {
                Ok(b) => Ok((Some(b), state.1)),
                Err(err) => Err(err),
            }
        } else if prop == "uinput"@ {
            match flag_property(node, prop, state.1, e.value) {
                Ok(b) => Ok((state.0, Some(b))),
                Err(err) => Err(err),
            }
        } else {
            Err(unknown_property(node, prop))
        },
    }
}

/// The walk over a `gamepad` node's entries.
pub open spec fn gamepad_steps(node: NodeView) -> spec_fn(
    (Option<bool>, Option<bool>),
    EntryView,
) -> Result<(Option<bool>, Option<bool>), ConfigErrorView> {
    |state: (Option<bool>, Option<bool>), e: EntryView| gamepad_step(node, state, e)
}

/// `gamepad [hidraw=#true] [uinput=#true]`: the two device classes added.
pub open spec fn gamepad_of(node: NodeView) -> Result<(bool, bool), ConfigErrorView> {
    match fold(node.entries, 0, (None::<bool>, None::<bool>), gamepad_steps(node)) {
        Err(e) => Err(e),
        Ok((hidraw, uinput)) => match children_fault(node) {
            Some(e) => Err(e),
            None => Ok((said(hidraw, false), said(uinput, false))),
        },
    }
}

/// `gamepad [hidraw=#true] [uinput=#true]`: the bare node is the evdev grant,
/// and each property adds one more class of device node to it.
pub fn parse_gamepad(node: &Node) -> (r: Result<(bool, bool), ConfigError>)
    ensures
        match r {
            Ok(x) => gamepad_of(node@) == Ok::<(bool, bool), ConfigErrorView>(x),
            Err(e) => gamepad_of(node@) == Err::<(bool, bool), ConfigErrorView>(e@),
        },
{
    let ghost all = node@.entries;
    let ghost steps = gamepad_steps(node@);
    let ghost total = fold(all, 0, (None::<bool>, None::<bool>), steps);
    let mut hidraw: Option<bool> = None;
    let mut uinput: Option<bool> = None;
    let mut i: usize = 0;
    while i < node.entries.len()
        invariant
            all == node@.entries,
            all == entries_view(node.entries@),
            steps == gamepad_steps(node@),
            total == fold(all, 0, (None::<bool>, None::<bool>), steps),
            i <= node.entries@.len(),
            total == fold(all, i as int, (hidraw, uinput), steps),
        decreases node.entries@.len() - i,
    {
        let e = &node.entries[i];
        assert(all[i as int] == e@);
        assert(steps((hidraw, uinput), e@) == gamepad_step(node@, (hidraw, uinput), e@));
        match &e.name {
            None => {
                return Err(bad(node, "takes no arguments"));
            },
            Some(prop) => {
                if same_text(prop, "hidraw") {
                    match flag_of(node, prop, hidraw, &e.value) {
                        Ok(b) => {
                            hidraw = Some(b);
                        },
                        Err(err) => {
                            return Err(err);
                        },
                    }
                } else if same_text(prop, "uinput") {
                    match flag_of(node, prop, uinput, &e.value) {
                        Ok(b) => {
                            uinput = Some(b);
                        },
                        Err(err) => {
                            return Err(err);
                        },
                    }
                } else {
                    return Err(unknown_prop(node, prop));
                }
            },
        }
        i = i + 1;
    }
    match reject_children(node) {
        Ok(()) => {},
        Err(e) => {
            return Err(e);
        },
    }
    Ok(
        (
            match hidraw {
                Some(b) => b,
                None => false,
            },
            match uinput {
                Some(b) => b,
                None => false,
            },
        ),
    )
}

/// One more entry of a `camera` node.
pub open spec fn camera_step(node: NodeView, state: Option<bool>, e: EntryView) -> Result<
    Option<bool>,
    ConfigErrorView,
> {
    match e.name {
        None => Err(bad_node(node, "takes no arguments"@)),
        Some(prop) => if prop == "nodes"@ {
            match flag_property(node, prop, state, e.value) {
                Ok(b) => Ok(Some(b)),
                Err(err) => Err(err),
            }
        } else {
            Err(unknown_property(node, prop))
        },
    }
}

/// The walk over a `camera` node's entries.
pub open spec fn camera_steps(node: NodeView) -> spec_fn(Option<bool>, EntryView) -> Result<
    Option<bool>,
    ConfigErrorView,
> {
    |state: Option<bool>, e: EntryView| camera_step(node, state, e)
}

/// `camera [nodes=#true]`: whether the device nodes are added.
pub open spec fn camera_of(node: NodeView) -> Result<bool, ConfigErrorView> {
    match fold(node.entries, 0, None::<bool>, camera_steps(node)) {
        Err(e) => Err(e),
        Ok(nodes) => match children_fault(node) {
            Some(e) => Err(e),
            None => Ok(said(nodes, false)),
        },
    }
}

/// `camera [nodes=#true]`: the bare node is the portal grant, which binds
/// nothing, and the property adds the V4L2 device nodes to it.
pub fn parse_camera(node: &Node) -> (r: Result<bool, ConfigError>)
    ensures
        match r {
            Ok(x) => camera_of(node@) == Ok::<bool, ConfigErrorView>(x),
            Err(e) => camera_of(node@) == Err::<bool, ConfigErrorView>(e@),
        },
{
    let ghost all = node@.entries;
    let ghost steps = camera_steps(node@);
    let ghost total = fold(all, 0, None::<bool>, steps);
    let mut nodes: Option<bool> = None;
    let mut i: usize = 0;
    while i < node.entries.len()
        invariant
            all == node@.entries,
            all == entries_view(node.entries@),
            steps == camera_steps(node@),
            total == fold(all, 0, None::<bool>, steps),
            i <= node.entries@.len(),
            total == fold(all, i as int, nodes, steps),
        decreases node.entries@.len() - i,
    {
        let e = &node.entries[i];
        assert(all[i as int] == e@);
        assert(steps(nodes, e@) == camera_step(node@, nodes, e@));
        match &e.name {
            None => {
                return Err(bad(node, "takes no arguments"));
            },
            Some(prop) => {
                if !same_text(prop, "nodes") {
                    return Err(unknown_prop(node, prop));
                }
                match flag_of(node, prop, nodes, &e.value) {
                    Ok(b) => {
                        nodes = Some(b);
                    },
                    Err(err) => {
                        return Err(err);
                    },
                }
            },
        }
        i = i + 1;
    }
    match reject_children(node) {
        Ok(()) => {},
        Err(e) => {
            return Err(e);
        },
    }
    Ok(
        match nodes {
            Some(b) => b,
            None => false,
        },
    )
}

} // verus!
