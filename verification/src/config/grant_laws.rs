//! What a grant says is what is granted, entry by entry.

use vstd::prelude::*;

use crate::config::bus::{mpris_of, mpris_step, mpris_steps, name_glob};
use crate::config::document::{EntryView, NodeView, ScalarView};
use crate::config::entry_laws::{
    argument, arguments, lemma_times, lemma_walk, properties, property, times, told,
};
use crate::config::grants::{
    camera_of, camera_step, camera_steps, etc_entry, etc_share_of, etc_step, etc_steps, gamepad_of,
    gamepad_step, gamepad_steps, geometry_of, share_fault, share_of, share_step, share_steps,
    wayland_of, wayland_start, wayland_step, wayland_steps, x11_of, x11_start, x11_step, x11_steps,
    ShareKind, WaylandState, X11State,
};
use crate::config::model::{NetworkMode, ShareMode, WaylandMode, X11View};
use crate::config::network::{
    forward_of, forward_step, forward_steps, mode_step, mode_steps, network_mode_of,
};
use crate::error::ConfigErrorView;

verus! {

/// What a switch says: what is written, and off where nothing is.
pub open spec fn switched(value: Option<ScalarView>) -> bool {
    value == Some(ScalarView::Bool(true))
}

/// Whether an entry of an `allow-port` node is one it may have.
pub open spec fn port_entry(e: EntryView) -> bool {
    match e.name {
        None => e.value matches ScalarView::Integer(n) && 1 <= n <= 65535,
        Some(prop) => prop == "udp"@ && e.value is Bool,
    }
}

/// What has been read of the node after `k` entries.
spec fn port_read(entries: Seq<EntryView>, k: int, st: (Option<u16>, Option<bool>)) -> bool {
    let none: Option<Seq<char>> = None;
    &&& forall|i: int| 0 <= i < k ==> port_entry(#[trigger] entries[i])
    &&& times(entries, none, k) == (if st.0 is Some { 1nat } else { 0 })
    &&& times(entries, Some("udp"@), k) == (if st.1 is Some { 1nat } else { 0 })
    &&& match told(entries, none, k) {
        Some(ScalarView::Integer(x)) => st.0 matches Some(p) && p == x,
        _ => st.0 is None,
    }
    &&& st.1 == match told(entries, Some("udp"@), k) {
        Some(ScalarView::Bool(b)) => Some(b),
        _ => None,
    }
}

/// An `allow-port` node is accepted when it names one port and says `udp` at
/// most once; the port forwarded is the one written, over UDP where that is
/// switched on and over TCP elsewhere.
pub proof fn a_forwarded_port_is_the_one_written(node: NodeView)
    ensures
        forward_of(node) is Ok <==> {
            &&& forall|i: int| 0 <= i < node.entries.len() ==> port_entry(#[trigger] node.entries[i])
            &&& arguments(node) == 1
            &&& properties(node, "udp"@) <= 1
        },
        forward_of(node) matches Ok(f) ==> {
            &&& argument(node) matches Some(ScalarView::Integer(n)) && f.port == n
            &&& f.udp == switched(property(node, "udp"@))
        },
{
    let none: Option<Seq<char>> = None;
    let entries = node.entries;
    let n = entries.len() as int;
    let steps = forward_steps(node);
    let keeps = |k: int, st: (Option<u16>, Option<bool>)| port_read(entries, k, st);
    assert forall|j: int, s: (Option<u16>, Option<bool>)|
        0 <= j < n && #[trigger] keeps(j, s) implies (steps(s, entries[j]) matches Ok(t) ==> keeps(
        j + 1,
        t,
    )) by {
        assert(steps(s, entries[j]) == forward_step(node, s, entries[j]));
    }
    let start = (None::<u16>, None::<bool>);
    assert(keeps(0, start));
    lemma_walk(entries, 0, start, steps, keeps);
    if forall|i: int| 0 <= i < n ==> port_entry(#[trigger] entries[i]) {
        if times(entries, none, n) <= 1 && times(entries, Some("udp"@), n) <= 1 {
            assert forall|j: int, s: (Option<u16>, Option<bool>)|
                0 <= j < n && #[trigger] keeps(j, s) implies steps(s, entries[j]) is Ok by {
                assert(steps(s, entries[j]) == forward_step(node, s, entries[j]));
                assert(port_entry(entries[j]));
            lemma_times(entries, none, j + 1, n);
            lemma_times(entries, Some("udp"@), j + 1, n);
            }
        }
    }
    lemma_times(entries, none, n, n);
    lemma_times(entries, Some("udp"@), n, n);
}

/// Whether an entry of a `network` node is one it may have.
pub open spec fn mode_entry(e: EntryView) -> bool {
    e.name is None && (e.value == ScalarView::Text("host"@) || e.value == ScalarView::Text(
        "none"@,
    ))
}

/// What has been read of the node after `k` entries.
spec fn mode_read(entries: Seq<EntryView>, k: int, st: Option<NetworkMode>) -> bool {
    let none: Option<Seq<char>> = None;
    &&& forall|i: int| 0 <= i < k ==> mode_entry(#[trigger] entries[i])
    &&& times(entries, none, k) == (if st is Some { 1nat } else { 0 })
    &&& st == match told(entries, none, k) {
        Some(ScalarView::Text(s)) => Some(
            if s == "host"@ {
                NetworkMode::Host
            } else {
                NetworkMode::Off
            },
        ),
        _ => None,
    }
}

proof fn lemma_mode_words()
    ensures
        "host"@ != "none"@,
{
    reveal_strlit("host");
    reveal_strlit("none");
    assert("host"@[0] != "none"@[0]);
}

/// A `network` node has at most one mode, the host's or none, and is isolated
/// where it says neither.
pub proof fn a_network_has_the_mode_written(node: NodeView)
    ensures
        network_mode_of(node) is Ok <==> {
            &&& forall|i: int| 0 <= i < node.entries.len() ==> mode_entry(#[trigger] node.entries[i])
            &&& arguments(node) <= 1
        },
        network_mode_of(node) matches Ok(mode) ==> {
            &&& mode == NetworkMode::Host <==> argument(node) == Some(ScalarView::Text("host"@))
            &&& mode == NetworkMode::Off <==> argument(node) == Some(ScalarView::Text("none"@))
            &&& mode == NetworkMode::Isolated <==> argument(node) is None
        },
{
    let none: Option<Seq<char>> = None;
    let entries = node.entries;
    let n = entries.len() as int;
    lemma_mode_words();
    let steps = mode_steps(node);
    let keeps = |k: int, st: Option<NetworkMode>| mode_read(entries, k, st);
    assert forall|j: int, s: Option<NetworkMode>|
        0 <= j < n && #[trigger] keeps(j, s) implies (steps(s, entries[j]) matches Ok(t) ==> keeps(
        j + 1,
        t,
    )) by {
        lemma_mode_words();
        assert(steps(s, entries[j]) == mode_step(node, s, entries[j]));
    }
    let start = None::<NetworkMode>;
    assert(keeps(0, start));
    lemma_walk(entries, 0, start, steps, keeps);
    if forall|i: int| 0 <= i < n ==> mode_entry(#[trigger] entries[i]) {
        if times(entries, none, n) <= 1 {
            assert forall|j: int, s: Option<NetworkMode>|
                0 <= j < n && #[trigger] keeps(j, s) implies steps(s, entries[j]) is Ok by {
        lemma_mode_words();
                assert(steps(s, entries[j]) == mode_step(node, s, entries[j]));
                assert(mode_entry(entries[j]));
            lemma_times(entries, none, j + 1, n);
            }
        }
    }
    lemma_times(entries, none, n, n);
}

/// Whether an entry of a share is one it may have.
pub open spec fn share_entry(e: EntryView, kind: ShareKind) -> bool {
    match e.name {
        None => e.value matches ScalarView::Text(s) && share_fault(kind, s) is None,
        Some(prop) => prop == "mode"@ && (e.value == ScalarView::Text("ro"@) || e.value
            == ScalarView::Text("rw"@)),
    }
}

/// What has been read of the node after `k` entries.
spec fn share_read(entries: Seq<EntryView>, k: int, st: (Option<Seq<char>>, ShareMode), kind: ShareKind) -> bool {
    let none: Option<Seq<char>> = None;
    &&& forall|i: int| 0 <= i < k ==> share_entry(#[trigger] entries[i], kind)
    &&& times(entries, none, k) == (if st.0 is Some { 1nat } else { 0 })
    &&& st.0 == match told(entries, none, k) {
        Some(ScalarView::Text(s)) => Some(s),
        _ => None,
    }
    &&& st.1 == (if told(entries, Some("mode"@), k) == Some(ScalarView::Text("rw"@)) {
        ShareMode::ReadWrite
    } else {
        ShareMode::ReadOnly
    })
}

proof fn lemma_share_words()
    ensures
        "ro"@ != "rw"@,
{
    reveal_strlit("ro");
    reveal_strlit("rw");
    assert("ro"@[1] != "rw"@[1]);
}

/// A share is of the one thing it names, as it is written, and writable where
/// the last `mode` says so and only there.
pub proof fn a_share_is_of_what_it_names(node: NodeView, kind: ShareKind)
    ensures
        share_of(node, kind) is Ok <==> {
            &&& forall|i: int| 0 <= i < node.entries.len() ==> share_entry(#[trigger] node.entries[i], kind)
            &&& arguments(node) == 1
            &&& node.children is None
        },
        share_of(node, kind) matches Ok((s, mode)) ==> {
            &&& argument(node) == Some(ScalarView::Text(s))
            &&& mode == ShareMode::ReadWrite <==> property(node, "mode"@) == Some(
                ScalarView::Text("rw"@),
            )
        },
{
    let none: Option<Seq<char>> = None;
    let entries = node.entries;
    let n = entries.len() as int;
    let steps = share_steps(node, kind);
    let keeps = |k: int, st: (Option<Seq<char>>, ShareMode)| share_read(entries, k, st, kind);
    assert forall|j: int, s: (Option<Seq<char>>, ShareMode)|
        0 <= j < n && #[trigger] keeps(j, s) implies (steps(s, entries[j]) matches Ok(t) ==> keeps(
        j + 1,
        t,
    )) by {
        lemma_share_words();
        assert(steps(s, entries[j]) == share_step(node, kind, s, entries[j]));
    }
    let start = (None::<Seq<char>>, ShareMode::ReadOnly);
    assert(keeps(0, start));
    lemma_walk(entries, 0, start, steps, keeps);
    if forall|i: int| 0 <= i < n ==> share_entry(#[trigger] entries[i], kind) {
        if times(entries, none, n) <= 1 {
            assert forall|j: int, s: (Option<Seq<char>>, ShareMode)|
                0 <= j < n && #[trigger] keeps(j, s) implies steps(s, entries[j]) is Ok by {
        lemma_share_words();
                assert(steps(s, entries[j]) == share_step(node, kind, s, entries[j]));
                assert(share_entry(entries[j], kind));
            lemma_times(entries, none, j + 1, n);
            }
        }
    }
    lemma_times(entries, none, n, n);
}

/// Whether an entry of an `etc-share` node is one it may have.
pub open spec fn etc_named(e: EntryView, node: NodeView) -> bool {
    e.name is None && (e.value matches ScalarView::Text(s) && etc_entry(node, s) is Ok)
}

/// What has been read of the node after `k` entries.
spec fn etc_read(entries: Seq<EntryView>, k: int, st: Option<Seq<u8>>, node: NodeView) -> bool {
    let none: Option<Seq<char>> = None;
    &&& forall|i: int| 0 <= i < k ==> etc_named(#[trigger] entries[i], node)
    &&& times(entries, none, k) == (if st is Some { 1nat } else { 0 })
    &&& match told(entries, none, k) {
        Some(ScalarView::Text(s)) => st matches Some(name) && etc_entry(node, s) == Ok::<
            Seq<u8>,
            ConfigErrorView,
        >(name),
        _ => st is None,
    }
}

/// An `etc-share` node shares the one entry it names.
pub proof fn an_etc_share_is_of_what_it_names(node: NodeView)
    ensures
        etc_share_of(node) is Ok <==> {
            &&& forall|i: int| 0 <= i < node.entries.len() ==> etc_named(#[trigger] node.entries[i], node)
            &&& arguments(node) == 1
            &&& node.children is None
        },
        etc_share_of(node) matches Ok(name) ==> argument(node) matches Some(ScalarView::Text(s))
            && etc_entry(node, s) == Ok::<Seq<u8>, ConfigErrorView>(name),
{
    let none: Option<Seq<char>> = None;
    let entries = node.entries;
    let n = entries.len() as int;
    let steps = etc_steps(node);
    let keeps = |k: int, st: Option<Seq<u8>>| etc_read(entries, k, st, node);
    assert forall|j: int, s: Option<Seq<u8>>|
        0 <= j < n && #[trigger] keeps(j, s) implies (steps(s, entries[j]) matches Ok(t) ==> keeps(
        j + 1,
        t,
    )) by {
        assert(steps(s, entries[j]) == etc_step(node, s, entries[j]));
    }
    let start = None::<Seq<u8>>;
    assert(keeps(0, start));
    lemma_walk(entries, 0, start, steps, keeps);
    if forall|i: int| 0 <= i < n ==> etc_named(#[trigger] entries[i], node) {
        if times(entries, none, n) <= 1 {
            assert forall|j: int, s: Option<Seq<u8>>|
                0 <= j < n && #[trigger] keeps(j, s) implies steps(s, entries[j]) is Ok by {
                assert(steps(s, entries[j]) == etc_step(node, s, entries[j]));
                assert(etc_named(entries[j], node));
            lemma_times(entries, none, j + 1, n);
            }
        }
    }
    lemma_times(entries, none, n, n);
}

/// Whether an entry of a `wayland` node is one it may have.
pub open spec fn wayland_entry(e: EntryView) -> bool {
    match e.name {
        None => e.value == ScalarView::Text("host"@),
        Some(prop) => prop == "clipboard"@ && e.value == ScalarView::Text("open"@),
    }
}

/// What has been read of the node after `k` entries.
spec fn wayland_read(entries: Seq<EntryView>, k: int, st: WaylandState) -> bool {
    let none: Option<Seq<char>> = None;
    &&& forall|i: int| 0 <= i < k ==> wayland_entry(#[trigger] entries[i])
    &&& times(entries, none, k) == (if st.mode is Some { 1nat } else { 0 })
    &&& times(entries, Some("clipboard"@), k) == (if st.open { 1nat } else { 0 })
    &&& st.mode is Some ==> st.mode == Some(WaylandMode::Host)
}

/// A `wayland` node is accepted with nothing, with `"host"` or with an open
/// clipboard, each once and not both; the host's socket is granted where it
/// says `"host"` and only there, and the clipboard is open where it says so
/// and only there.
pub proof fn a_wayland_grant_is_the_one_written(node: NodeView)
    ensures
        wayland_of(node) is Ok <==> {
            &&& forall|i: int| 0 <= i < node.entries.len() ==> wayland_entry(#[trigger] node.entries[i])
            &&& arguments(node) + properties(node, "clipboard"@) <= 1
            &&& node.children is None
        },
        wayland_of(node) matches Ok(mode) ==> {
            &&& mode == WaylandMode::Host <==> arguments(node) == 1
            &&& mode == WaylandMode::OpenClipboard <==> properties(node, "clipboard"@) == 1
            &&& mode == WaylandMode::Sandboxed <==> arguments(node) + properties(
                node,
                "clipboard"@,
            ) == 0
        },
{
    let none: Option<Seq<char>> = None;
    let entries = node.entries;
    let n = entries.len() as int;
    let steps = wayland_steps(node);
    let keeps = |k: int, st: WaylandState| wayland_read(entries, k, st);
    assert forall|j: int, s: WaylandState|
        0 <= j < n && #[trigger] keeps(j, s) implies (steps(s, entries[j]) matches Ok(t) ==> keeps(
        j + 1,
        t,
    )) by {
        assert(steps(s, entries[j]) == wayland_step(node, s, entries[j]));
    }
    let start = wayland_start();
    assert(keeps(0, start));
    lemma_walk(entries, 0, start, steps, keeps);
    if forall|i: int| 0 <= i < n ==> wayland_entry(#[trigger] entries[i]) {
        if times(entries, none, n) <= 1 && times(entries, Some("clipboard"@), n) <= 1 {
            assert forall|j: int, s: WaylandState|
                0 <= j < n && #[trigger] keeps(j, s) implies steps(s, entries[j]) is Ok by {
                assert(steps(s, entries[j]) == wayland_step(node, s, entries[j]));
                assert(wayland_entry(entries[j]));
            lemma_times(entries, none, j + 1, n);
            lemma_times(entries, Some("clipboard"@), j + 1, n);
            }
        }
    }
    lemma_times(entries, none, n, n);
    lemma_times(entries, Some("clipboard"@), n, n);
}

/// Whether an entry of an `x11` node is one it may have.
pub open spec fn x11_entry(e: EntryView) -> bool {
    match e.name {
        None => e.value == ScalarView::Text("host"@),
        Some(prop) => {
            ||| prop == "geometry"@ && (e.value matches ScalarView::Text(s) && geometry_of(s) is Some)
            ||| (prop == "fullscreen"@ || prop == "grab"@) && e.value is Bool
            ||| prop == "wm"@ && (e.value matches ScalarView::Text(s) && s.len() > 0)
        },
    }
}

/// What has been read of the node after `k` entries.
spec fn x11_read(entries: Seq<EntryView>, k: int, st: X11State) -> bool {
    let none: Option<Seq<char>> = None;
    &&& forall|i: int| 0 <= i < k ==> x11_entry(#[trigger] entries[i])
    &&& k == times(entries, none, k) + times(entries, Some("geometry"@), k) + times(
        entries,
        Some("fullscreen"@),
        k,
    ) + times(entries, Some("grab"@), k) + times(entries, Some("wm"@), k)
    &&& times(entries, none, k) == (if st.host { 1nat } else { 0 })
    &&& times(entries, Some("geometry"@), k) == (if st.geometry is Some { 1nat } else { 0 })
    &&& times(entries, Some("fullscreen"@), k) == (if st.fullscreen is Some { 1nat } else { 0 })
    &&& times(entries, Some("grab"@), k) == (if st.grab is Some { 1nat } else { 0 })
    &&& times(entries, Some("wm"@), k) == (if st.wm is Some { 1nat } else { 0 })
    &&& st.geometry == match told(entries, Some("geometry"@), k) {
        Some(ScalarView::Text(s)) => Some(s),
        _ => None,
    }
    &&& st.wm == match told(entries, Some("wm"@), k) {
        Some(ScalarView::Text(s)) => Some(s),
        _ => None,
    }
    &&& st.fullscreen == match told(entries, Some("fullscreen"@), k) {
        Some(ScalarView::Bool(b)) => Some(b),
        _ => None,
    }
    &&& st.grab == match told(entries, Some("grab"@), k) {
        Some(ScalarView::Bool(b)) => Some(b),
        _ => None,
    }
}

proof fn lemma_x11_words()
    ensures
        "geometry"@ != "fullscreen"@,
        "geometry"@ != "grab"@,
        "geometry"@ != "wm"@,
        "fullscreen"@ != "grab"@,
        "fullscreen"@ != "wm"@,
        "grab"@ != "wm"@,
{
    reveal_strlit("geometry");
    reveal_strlit("fullscreen");
    reveal_strlit("grab");
    reveal_strlit("wm");
    assert("geometry"@.len() == 8);
    assert("fullscreen"@.len() == 10);
    assert("grab"@.len() == 4);
    assert("wm"@.len() == 2);
}

proof fn lemma_x11_read(node: NodeView, j: int, s: X11State)
    requires
        0 <= j < node.entries.len(),
        x11_read(node.entries, j, s),
    ensures
        x11_step(node, s, node.entries[j]) matches Ok(t) ==> x11_read(node.entries, j + 1, t),
{
    lemma_x11_words();
    let e = node.entries[j];
    let entries = node.entries;
    if x11_step(node, s, e) is Ok {
        let t = x11_step(node, s, e)->Ok_0;
        assert(x11_entry(e));
        let none: Option<Seq<char>> = None;
        assert(times(entries, none, j + 1) == (if t.host { 1nat } else { 0 }));
        assert(times(entries, Some("geometry"@), j + 1) == (if t.geometry is Some { 1nat } else { 0 }));
        assert(times(entries, Some("fullscreen"@), j + 1) == (if t.fullscreen is Some { 1nat } else { 0 }));
        assert(times(entries, Some("grab"@), j + 1) == (if t.grab is Some { 1nat } else { 0 }));
        assert(times(entries, Some("wm"@), j + 1) == (if t.wm is Some { 1nat } else { 0 }));
    }
}

proof fn lemma_x11_taken(node: NodeView, j: int, s: X11State)
    requires
        0 <= j < node.entries.len(),
        x11_read(node.entries, j, s),
        x11_entry(node.entries[j]),
        times(node.entries, None, j + 1) <= 1,
        times(node.entries, Some("geometry"@), j + 1) <= 1,
        times(node.entries, Some("fullscreen"@), j + 1) <= 1,
        times(node.entries, Some("grab"@), j + 1) <= 1,
        times(node.entries, Some("wm"@), j + 1) <= 1,
    ensures
        x11_step(node, s, node.entries[j]) is Ok,
{
    lemma_x11_words();
}

/// An `x11` node is accepted with `"host"` alone, or with its properties, each
/// once. The nested server has the size, the window manager and the switches
/// that are written, each whatever the others are.
pub proof fn an_x11_grant_is_the_one_written(node: NodeView)
    ensures
        x11_of(node) is Ok <==> {
            &&& forall|i: int| 0 <= i < node.entries.len() ==> x11_entry(#[trigger] node.entries[i])
            &&& properties(node, "geometry"@) <= 1
            &&& properties(node, "fullscreen"@) <= 1
            &&& properties(node, "grab"@) <= 1
            &&& properties(node, "wm"@) <= 1
            &&& arguments(node) == 0 || arguments(node) == 1 && node.entries.len() == 1
            &&& node.children is None
        },
        x11_of(node) matches Ok(mode) ==> {
            &&& mode is Host <==> arguments(node) == 1
            &&& mode matches X11View::Nested(nested) ==> {
                &&& match property(node, "geometry"@) {
                    Some(v) => v == ScalarView::Text(nested.geometry),
                    None => nested.geometry == "1280x720"@,
                }
                &&& nested.fullscreen == switched(property(node, "fullscreen"@))
                &&& nested.grab == switched(property(node, "grab"@))
                &&& match property(node, "wm"@) {
                    Some(v) => nested.wm matches Some(wm) && v == ScalarView::Text(wm),
                    None => nested.wm is None,
                }
            }
        },
{
    let none: Option<Seq<char>> = None;
    let entries = node.entries;
    let n = entries.len() as int;
    let steps = x11_steps(node);
    let keeps = |k: int, st: X11State| x11_read(entries, k, st);
    assert forall|j: int, s: X11State|
        0 <= j < n && #[trigger] keeps(j, s) implies (steps(s, entries[j]) matches Ok(t) ==> keeps(
        j + 1,
        t,
    )) by {
        lemma_x11_read(node, j, s);
        assert(steps(s, entries[j]) == x11_step(node, s, entries[j]));
    }
    let start = x11_start();
    assert(keeps(0, start));
    lemma_walk(entries, 0, start, steps, keeps);
    if forall|i: int| 0 <= i < n ==> x11_entry(#[trigger] entries[i]) {
        if times(entries, none, n) <= 1 && times(entries, Some("geometry"@), n) <= 1 && times(entries, Some("fullscreen"@), n) <= 1 && times(entries, Some("grab"@), n) <= 1 && times(entries, Some("wm"@), n) <= 1 {
            assert forall|j: int, s: X11State|
                0 <= j < n && #[trigger] keeps(j, s) implies steps(s, entries[j]) is Ok by {
                assert(steps(s, entries[j]) == x11_step(node, s, entries[j]));
            lemma_times(entries, none, j + 1, n);
            lemma_times(entries, Some("geometry"@), j + 1, n);
            lemma_times(entries, Some("fullscreen"@), j + 1, n);
            lemma_times(entries, Some("grab"@), j + 1, n);
            lemma_times(entries, Some("wm"@), j + 1, n);
                lemma_x11_taken(node, j, s);
            }
        }
    }
    lemma_times(entries, none, n, n);
    lemma_times(entries, Some("geometry"@), n, n);
    lemma_times(entries, Some("fullscreen"@), n, n);
    lemma_times(entries, Some("grab"@), n, n);
    lemma_times(entries, Some("wm"@), n, n);
}

/// Whether an entry of a `gamepad` node is one it may have.
pub open spec fn gamepad_entry(e: EntryView) -> bool {
    (e.name == Some("hidraw"@) || e.name == Some("uinput"@)) && e.value is Bool
}

/// What has been read of the node after `k` entries.
spec fn gamepad_read(entries: Seq<EntryView>, k: int, st: (Option<bool>, Option<bool>)) -> bool {
    let none: Option<Seq<char>> = None;
    &&& forall|i: int| 0 <= i < k ==> gamepad_entry(#[trigger] entries[i])
    &&& times(entries, Some("hidraw"@), k) == (if st.0 is Some { 1nat } else { 0 })
    &&& times(entries, Some("uinput"@), k) == (if st.1 is Some { 1nat } else { 0 })
    &&& st.0 == match told(entries, Some("hidraw"@), k) {
        Some(ScalarView::Bool(b)) => Some(b),
        _ => None,
    }
    &&& st.1 == match told(entries, Some("uinput"@), k) {
        Some(ScalarView::Bool(b)) => Some(b),
        _ => None,
    }
}

proof fn lemma_gamepad_words()
    ensures
        "hidraw"@ != "uinput"@,
{
    reveal_strlit("hidraw");
    reveal_strlit("uinput");
    assert("hidraw"@[0] != "uinput"@[0]);
}

/// A `gamepad` node grants what is switched on in it, each switch whatever the
/// other is.
pub proof fn a_gamepad_grants_what_is_switched_on(node: NodeView)
    ensures
        gamepad_of(node) is Ok <==> {
            &&& forall|i: int| 0 <= i < node.entries.len() ==> gamepad_entry(#[trigger] node.entries[i])
            &&& properties(node, "hidraw"@) <= 1
            &&& properties(node, "uinput"@) <= 1
            &&& node.children is None
        },
        gamepad_of(node) matches Ok((hidraw, uinput)) ==> {
            &&& hidraw == switched(property(node, "hidraw"@))
            &&& uinput == switched(property(node, "uinput"@))
        },
{
    let none: Option<Seq<char>> = None;
    let entries = node.entries;
    let n = entries.len() as int;
    let steps = gamepad_steps(node);
    let keeps = |k: int, st: (Option<bool>, Option<bool>)| gamepad_read(entries, k, st);
    assert forall|j: int, s: (Option<bool>, Option<bool>)|
        0 <= j < n && #[trigger] keeps(j, s) implies (steps(s, entries[j]) matches Ok(t) ==> keeps(
        j + 1,
        t,
    )) by {
        lemma_gamepad_words();
        assert(steps(s, entries[j]) == gamepad_step(node, s, entries[j]));
    }
    let start = (None::<bool>, None::<bool>);
    assert(keeps(0, start));
    lemma_walk(entries, 0, start, steps, keeps);
    if forall|i: int| 0 <= i < n ==> gamepad_entry(#[trigger] entries[i]) {
        if times(entries, Some("hidraw"@), n) <= 1 && times(entries, Some("uinput"@), n) <= 1 {
            assert forall|j: int, s: (Option<bool>, Option<bool>)|
                0 <= j < n && #[trigger] keeps(j, s) implies steps(s, entries[j]) is Ok by {
        lemma_gamepad_words();
                assert(steps(s, entries[j]) == gamepad_step(node, s, entries[j]));
                assert(gamepad_entry(entries[j]));
            lemma_times(entries, Some("hidraw"@), j + 1, n);
            lemma_times(entries, Some("uinput"@), j + 1, n);
            }
        }
    }
    lemma_times(entries, none, n, n);
    lemma_times(entries, Some("hidraw"@), n, n);
    lemma_times(entries, Some("uinput"@), n, n);
}

/// Whether an entry of a `camera` node is one it may have.
pub open spec fn camera_entry(e: EntryView) -> bool {
    e.name == Some("nodes"@) && e.value is Bool
}

/// What has been read of the node after `k` entries.
spec fn camera_read(entries: Seq<EntryView>, k: int, st: Option<bool>) -> bool {
    let none: Option<Seq<char>> = None;
    &&& forall|i: int| 0 <= i < k ==> camera_entry(#[trigger] entries[i])
    &&& times(entries, Some("nodes"@), k) == (if st is Some { 1nat } else { 0 })
    &&& st == match told(entries, Some("nodes"@), k) {
        Some(ScalarView::Bool(b)) => Some(b),
        _ => None,
    }
}

/// A `camera` node grants the device nodes where that is switched on.
pub proof fn a_camera_grants_what_is_switched_on(node: NodeView)
    ensures
        camera_of(node) is Ok <==> {
            &&& forall|i: int| 0 <= i < node.entries.len() ==> camera_entry(#[trigger] node.entries[i])
            &&& properties(node, "nodes"@) <= 1
            &&& node.children is None
        },
        camera_of(node) matches Ok(nodes) ==> nodes == switched(property(node, "nodes"@)),
{
    let none: Option<Seq<char>> = None;
    let entries = node.entries;
    let n = entries.len() as int;
    let steps = camera_steps(node);
    let keeps = |k: int, st: Option<bool>| camera_read(entries, k, st);
    assert forall|j: int, s: Option<bool>|
        0 <= j < n && #[trigger] keeps(j, s) implies (steps(s, entries[j]) matches Ok(t) ==> keeps(
        j + 1,
        t,
    )) by {
        assert(steps(s, entries[j]) == camera_step(node, s, entries[j]));
    }
    let start = None::<bool>;
    assert(keeps(0, start));
    lemma_walk(entries, 0, start, steps, keeps);
    if forall|i: int| 0 <= i < n ==> camera_entry(#[trigger] entries[i]) {
        if times(entries, Some("nodes"@), n) <= 1 {
            assert forall|j: int, s: Option<bool>|
                0 <= j < n && #[trigger] keeps(j, s) implies steps(s, entries[j]) is Ok by {
                assert(steps(s, entries[j]) == camera_step(node, s, entries[j]));
                assert(camera_entry(entries[j]));
            lemma_times(entries, Some("nodes"@), j + 1, n);
            }
        }
    }
    lemma_times(entries, none, n, n);
    lemma_times(entries, Some("nodes"@), n, n);
}

/// Whether an entry of an `mpris` node is one it may have.
pub open spec fn mpris_entry(e: EntryView) -> bool {
    e.name == Some("name"@) && (e.value matches ScalarView::Text(s) && name_glob(s, 1))
}

/// What has been read of the node after `k` entries.
spec fn mpris_read(entries: Seq<EntryView>, k: int, st: Option<Seq<char>>) -> bool {
    let none: Option<Seq<char>> = None;
    &&& forall|i: int| 0 <= i < k ==> mpris_entry(#[trigger] entries[i])
    &&& st == match told(entries, Some("name"@), k) {
        Some(ScalarView::Text(s)) => Some(s),
        _ => None,
    }
    &&& st is Some <==> times(entries, Some("name"@), k) > 0
}

/// An `mpris` node grants the last name it gives, as it is written.
pub proof fn an_mpris_name_is_the_one_written(node: NodeView)
    ensures
        mpris_of(node) is Ok <==> {
            &&& forall|i: int| 0 <= i < node.entries.len() ==> mpris_entry(#[trigger] node.entries[i])
            &&& properties(node, "name"@) > 0
            &&& node.children is None
        },
        mpris_of(node) matches Ok(name) ==> property(node, "name"@) == Some(ScalarView::Text(name)),
{
    let none: Option<Seq<char>> = None;
    let entries = node.entries;
    let n = entries.len() as int;
    let steps = mpris_steps(node);
    let keeps = |k: int, st: Option<Seq<char>>| mpris_read(entries, k, st);
    assert forall|j: int, s: Option<Seq<char>>|
        0 <= j < n && #[trigger] keeps(j, s) implies (steps(s, entries[j]) matches Ok(t) ==> keeps(
        j + 1,
        t,
    )) by {
        assert(steps(s, entries[j]) == mpris_step(node, s, entries[j]));
    }
    let start = None::<Seq<char>>;
    assert(keeps(0, start));
    lemma_walk(entries, 0, start, steps, keeps);
    if forall|i: int| 0 <= i < n ==> mpris_entry(#[trigger] entries[i]) {
        if true {
            assert forall|j: int, s: Option<Seq<char>>|
                0 <= j < n && #[trigger] keeps(j, s) implies steps(s, entries[j]) is Ok by {
                assert(steps(s, entries[j]) == mpris_step(node, s, entries[j]));
                assert(mpris_entry(entries[j]));
            }
        }
    }
    lemma_times(entries, none, n, n);
}

} // verus!
