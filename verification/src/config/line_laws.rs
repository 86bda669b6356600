//! Every line is its node's, and lines come in the order of the text.

use vstd::prelude::*;
use vstd::utf8::encode_utf8_valid_utf8;

use crate::config::bounds::{lemma_boundary_inside, line_of, newlines};
use crate::config::document::{in_order, EntryView, NodeView, ScalarView};
use crate::config::laws::{
    an_accepted_layer_is_sound, what_is_granted_is_what_is_written, written_lines,
};
use crate::config::model::{no_lines, LinesView};
use crate::config::node::fold;
use crate::config::parse::{
    empty_layer, layer_of, layer_step, layer_steps, requested, with_node, LayerView,
};
use crate::config::settings::{env_step, env_steps, NamesView};
use crate::text::utf8;

verus! {

/// The variable an entry of an `env` node sets.
pub open spec fn variable_of(e: EntryView) -> (Seq<char>, Seq<char>) {
    (
        match e.name {
            Some(key) => key,
            None => Seq::empty(),
        },
        match e.value {
            ScalarView::Text(value) => value,
            _ => Seq::empty(),
        },
    )
}

/// The variables an `env` node sets, one for each of its entries.
pub open spec fn variables(node: NodeView) -> Seq<(Seq<char>, Seq<char>)> {
    Seq::new(node.entries.len(), |i: int| variable_of(node.entries[i]))
}

/// The variables the first `n` nodes set, in order.
pub open spec fn written_env(nodes: Seq<NodeView>, n: int) -> Seq<(Seq<char>, Seq<char>)>
    decreases n,
{
    if n <= 0 {
        Seq::empty()
    } else if nodes[n - 1].name == "env"@ {
        written_env(nodes, n - 1) + variables(nodes[n - 1])
    } else {
        written_env(nodes, n - 1)
    }
}

/// The lines of the variables the first `n` nodes set: of each the line of
/// its node.
pub open spec fn env_lines(text: Seq<char>, nodes: Seq<NodeView>, n: int) -> Seq<Option<u32>>
    decreases n,
{
    if n <= 0 {
        Seq::empty()
    } else if nodes[n - 1].name == "env"@ {
        env_lines(text, nodes, n - 1) + Seq::new(
            nodes[n - 1].entries.len(),
            |i: int| line_of(text, nodes[n - 1].offset),
        )
    } else {
        env_lines(text, nodes, n - 1)
    }
}

/// The line of the last of the first `n` nodes with a name.
pub open spec fn named_line(
    text: Seq<char>,
    nodes: Seq<NodeView>,
    name: Seq<char>,
    n: int,
) -> Option<u32>
    decreases n,
{
    if n <= 0 {
        None
    } else if nodes[n - 1].name == name {
        line_of(text, nodes[n - 1].offset)
    } else {
        named_line(text, nodes, name, n - 1)
    }
}

proof fn lemma_variables(node: NodeView, i: int, env: Seq<(Seq<char>, Seq<char>)>)
    requires
        0 <= i <= node.entries.len(),
    ensures
        fold(node.entries, i, env, env_steps(node)) matches Ok(all) ==> all == env + variables(
            node,
        ).skip(i),
    decreases node.entries.len() - i,
{
    let more = variables(node);
    if i < node.entries.len() {
        let steps = env_steps(node);
        let e = node.entries[i];
        assert(steps(env, e) == env_step(node, env, e));
        if let Ok(next) = steps(env, e) {
            lemma_variables(node, i + 1, next);
            assert(next == env.push(variable_of(e)));
            assert(env + more.skip(i) =~= next + more.skip(i + 1));
        }
    } else {
        assert(env + more.skip(i) =~= env);
    }
}

proof fn lemma_env_lines(
    text: Seq<char>,
    profile: bool,
    names: NamesView,
    nodes: Seq<NodeView>,
    i: int,
    layer: LayerView,
    lines: LinesView,
)
    requires
        0 <= i <= nodes.len(),
        layer.profile.config.env == written_env(nodes, i),
        lines.env == env_lines(text, nodes, i),
        lines.env.len() == layer.profile.config.env.len(),
        lines.userns == named_line(text, nodes, "userns"@, i),
        lines.seccomp == named_line(text, nodes, "seccomp"@, i),
    ensures
        fold(nodes, i, (layer, lines), layer_steps(text, profile, names)) matches Ok((all, at))
            ==> {
            &&& all.profile.config.env == written_env(nodes, nodes.len() as int)
            &&& at.env == env_lines(text, nodes, nodes.len() as int)
            &&& at.userns == named_line(text, nodes, "userns"@, nodes.len() as int)
            &&& at.seccomp == named_line(text, nodes, "seccomp"@, nodes.len() as int)
        },
    decreases nodes.len() - i,
{
    if i < nodes.len() {
        let steps = layer_steps(text, profile, names);
        let node = nodes[i];
        assert(steps((layer, lines), node) == layer_step(
            text,
            profile,
            names,
            (layer, lines),
            node,
        ));
        if let Ok((next, more)) = steps((layer, lines), node) {
            lemma_env_node(layer, node, profile, names);
            let line = line_of(text, node.offset);
            if node.name == "env"@ {
                assert(more.env =~= lines.env + Seq::new(
                    node.entries.len(),
                    |k: int| line_of(text, node.offset),
                ));
            } else {
                assert(more.env =~= lines.env);
            }
            lemma_env_lines(text, profile, names, nodes, i + 1, next, more);
        }
    }
}

/// Only an `env` node sets variables, and it sets all of its own.
proof fn lemma_env_node(layer: LayerView, node: NodeView, profile: bool, names: NamesView)
    ensures
        with_node(layer, node, profile, names) matches Ok(next) ==> next.profile.config.env == (
        if node.name == "env"@ {
            layer.profile.config.env + variables(node)
        } else {
            layer.profile.config.env
        }),
{
    if node.name == "env"@ {
        lemma_words_differ();
        assert(requested(node) is None);
        lemma_variables(node, 0, layer.profile.config.env);
        assert(variables(node).skip(0) =~= variables(node));
    }
}

/// `env` is the name of no other node.
proof fn lemma_words_differ()
    ensures
        "env"@ != "dri"@,
        "env"@ != "pipewire"@,
        "env"@ != "pulseaudio"@,
        "env"@ != "portals"@,
        "env"@ != "notify"@,
        "env"@ != "tray"@,
        "env"@ != "hidraw"@,
        "env"@ != "a11y"@,
        "env"@ != "input-method"@,
        "env"@ != "home-share"@,
        "env"@ != "path-share"@,
        "env"@ != "app-runtime"@,
        "env"@ != "etc-share"@,
        "env"@ != "dbus"@,
        "env"@ != "wayland"@,
        "env"@ != "x11"@,
        "env"@ != "network"@,
        "env"@ != "gamepad"@,
        "env"@ != "camera"@,
        "env"@ != "system-bus"@,
        "env"@ != "mpris"@,
        "env"@ != "tty"@,
        "env"@ != "userns"@,
        "env"@ != "seccomp"@,
{
    reveal_strlit("env");
    assert("env"@.len() == 3);
    reveal_strlit("dri");
    assert("dri"@.len() == 3);
    reveal_strlit("pipewire");
    assert("pipewire"@.len() == 8);
    reveal_strlit("pulseaudio");
    assert("pulseaudio"@.len() == 10);
    reveal_strlit("portals");
    assert("portals"@.len() == 7);
    reveal_strlit("notify");
    assert("notify"@.len() == 6);
    reveal_strlit("tray");
    assert("tray"@.len() == 4);
    reveal_strlit("hidraw");
    assert("hidraw"@.len() == 6);
    reveal_strlit("a11y");
    assert("a11y"@.len() == 4);
    reveal_strlit("input-method");
    assert("input-method"@.len() == 12);
    reveal_strlit("home-share");
    assert("home-share"@.len() == 10);
    reveal_strlit("path-share");
    assert("path-share"@.len() == 10);
    reveal_strlit("app-runtime");
    assert("app-runtime"@.len() == 11);
    reveal_strlit("etc-share");
    assert("etc-share"@.len() == 9);
    reveal_strlit("dbus");
    assert("dbus"@.len() == 4);
    reveal_strlit("wayland");
    assert("wayland"@.len() == 7);
    reveal_strlit("x11");
    assert("x11"@.len() == 3);
    reveal_strlit("network");
    assert("network"@.len() == 7);
    reveal_strlit("gamepad");
    assert("gamepad"@.len() == 7);
    reveal_strlit("camera");
    assert("camera"@.len() == 6);
    reveal_strlit("system-bus");
    assert("system-bus"@.len() == 10);
    reveal_strlit("mpris");
    assert("mpris"@.len() == 5);
    reveal_strlit("tty");
    assert("tty"@.len() == 3);
    reveal_strlit("userns");
    assert("userns"@.len() == 6);
    reveal_strlit("seccomp");
    assert("seccomp"@.len() == 7);
    assert("dri"@[0] != 'e');
    assert("x11"@[0] != 'e');
    assert("tty"@[0] != 'e');
}

/// Every variable of an accepted layer is one that an `env` node sets, in
/// order and on the line of that node; and the lines of the `userns` and of
/// the `seccomp` node are those of the nodes of that name.
pub proof fn every_variable_is_on_its_nodes_line(
    text: Seq<char>,
    nodes: Seq<NodeView>,
    profile: bool,
    names: NamesView,
)
    ensures
        layer_of(text, nodes, profile, names) matches Ok((layer, lines)) ==> {
            &&& layer.config.env == written_env(nodes, nodes.len() as int)
            &&& lines.env == env_lines(text, nodes, nodes.len() as int)
            &&& lines.env.len() == layer.config.env.len()
            &&& lines.userns == named_line(text, nodes, "userns"@, nodes.len() as int)
            &&& lines.seccomp == named_line(text, nodes, "seccomp"@, nodes.len() as int)
        },
{
    lemma_env_lines(text, profile, names, nodes, 0, empty_layer(), no_lines());
    an_accepted_layer_is_sound(text, nodes, profile, names);
}

/// Whether lines never decrease.
pub open spec fn ascending(lines: Seq<Option<u32>>) -> bool {
    forall|i: int, j: int|
        #![trigger lines[i], lines[j]]
        0 <= i < j < lines.len() && lines[i] is Some && lines[j] is Some ==> lines[i]->Some_0
            <= lines[j]->Some_0
}

proof fn lemma_newlines_grow(b: Seq<u8>, i: int, j: int)
    requires
        0 <= i <= j <= b.len(),
    ensures
        newlines(b.take(i)) <= newlines(b.take(j)),
    decreases j - i,
{
    if i < j {
        lemma_newlines_grow(b, i, j - 1);
        assert(b.take(j).drop_last() =~= b.take(j - 1));
    }
}

proof fn lemma_line_grows(text: Seq<char>, a: nat, b: nat)
    requires
        a <= b,
    ensures
        line_of(text, a) is Some && line_of(text, b) is Some ==> line_of(text, a)->Some_0
            <= line_of(text, b)->Some_0,
{
    if line_of(text, a) is Some && line_of(text, b) is Some {
        encode_utf8_valid_utf8(text);
        lemma_boundary_inside(utf8(text), b as int);
        lemma_newlines_grow(utf8(text), a as int, b as int);
    }
}

/// Whether lines are those of offsets that never decrease and are none past
/// the first `n` nodes.
spec fn lines_at(
    text: Seq<char>,
    nodes: Seq<NodeView>,
    n: int,
    lines: Seq<Option<u32>>,
    offsets: Seq<nat>,
) -> bool {
    &&& lines.len() == offsets.len()
    &&& forall|k: int|
        0 <= k < lines.len() ==> #[trigger] lines[k] == line_of(text, offsets[k])
    &&& forall|j: int, k: int|
        #![trigger offsets[j], offsets[k]]
        0 <= j < k < offsets.len() ==> offsets[j] <= offsets[k]
    &&& n <= 0 ==> offsets.len() == 0
    &&& forall|k: int| 0 <= k < offsets.len() ==> #[trigger] offsets[k] <= nodes[n - 1].offset
}

/// More lines of one node behind those of earlier ones.
proof fn lemma_lines_added(
    text: Seq<char>,
    nodes: Seq<NodeView>,
    n: int,
    lines: Seq<Option<u32>>,
    offsets: Seq<nat>,
    count: nat,
)
    requires
        0 < n <= nodes.len(),
        in_order(nodes),
        lines_at(text, nodes, n - 1, lines, offsets),
    ensures
        lines_at(
            text,
            nodes,
            n,
            lines + Seq::new(count, |k: int| line_of(text, nodes[n - 1].offset)),
            offsets + Seq::new(count, |k: int| nodes[n - 1].offset),
        ),
{
    let last = nodes[n - 1].offset;
    let more = offsets + Seq::new(count, |k: int| last);
    assert forall|k: int| 0 <= k < offsets.len() implies #[trigger] offsets[k] <= last by {
        assert(n - 1 > 0 && offsets[k] <= nodes[n - 2].offset);
        assert(nodes[n - 2].offset <= nodes[n - 1].offset);
    }
    assert forall|k: int| 0 <= k < more.len() implies #[trigger] more[k] <= last by {
        if k < offsets.len() {
            assert(more[k] == offsets[k]);
        }
    }
    assert forall|j: int, k: int|
        #![trigger more[j], more[k]]
        0 <= j < k < more.len() implies more[j] <= more[k] by {
        if k < offsets.len() {
            assert(more[j] == offsets[j] && more[k] == offsets[k]);
        }
    }
}

proof fn lemma_service_offsets(text: Seq<char>, nodes: Seq<NodeView>, n: int) -> (offsets: Seq<nat>)
    requires
        0 <= n <= nodes.len(),
        in_order(nodes),
    ensures
        lines_at(text, nodes, n, written_lines(text, nodes, n), offsets),
    decreases n,
{
    if n == 0 {
        Seq::empty()
    } else {
        let before = lemma_service_offsets(text, nodes, n - 1);
        let lines = written_lines(text, nodes, n - 1);
        let last = nodes[n - 1].offset;
        let count: nat = match requested(nodes[n - 1]) {
            Some(Ok(_)) => 1,
            _ => 0,
        };
        lemma_lines_added(text, nodes, n, lines, before, count);
        assert(written_lines(text, nodes, n) =~= lines + Seq::new(
            count,
            |k: int| line_of(text, nodes[n - 1].offset),
        ));
        before + Seq::new(count, |k: int| last)
    }
}

proof fn lemma_env_offsets(text: Seq<char>, nodes: Seq<NodeView>, n: int) -> (offsets: Seq<nat>)
    requires
        0 <= n <= nodes.len(),
        in_order(nodes),
    ensures
        lines_at(text, nodes, n, env_lines(text, nodes, n), offsets),
    decreases n,
{
    if n == 0 {
        Seq::empty()
    } else {
        let before = lemma_env_offsets(text, nodes, n - 1);
        let lines = env_lines(text, nodes, n - 1);
        let last = nodes[n - 1].offset;
        let count: nat = if nodes[n - 1].name == "env"@ {
            nodes[n - 1].entries.len()
        } else {
            0
        };
        lemma_lines_added(text, nodes, n, lines, before, count);
        assert(env_lines(text, nodes, n) =~= lines + Seq::new(
            count,
            |k: int| line_of(text, nodes[n - 1].offset),
        ));
        before + Seq::new(count, |k: int| last)
    }
}

proof fn lemma_ascending(
    text: Seq<char>,
    nodes: Seq<NodeView>,
    n: int,
    lines: Seq<Option<u32>>,
    offsets: Seq<nat>,
)
    requires
        lines_at(text, nodes, n, lines, offsets),
    ensures
        ascending(lines),
{
    assert forall|i: int, j: int|
        #![trigger lines[i], lines[j]]
        0 <= i < j < lines.len() && lines[i] is Some && lines[j] is Some implies lines[i]->Some_0
        <= lines[j]->Some_0 by {
        assert(offsets[i] <= offsets[j]);
        lemma_line_grows(text, offsets[i], offsets[j]);
    }
}

/// The lines of services and of variables never decrease: the nodes of a text
/// are read one after the other.
pub proof fn lines_never_decrease(
    text: Seq<char>,
    nodes: Seq<NodeView>,
    profile: bool,
    names: NamesView,
)
    requires
        in_order(nodes),
    ensures
        layer_of(text, nodes, profile, names) matches Ok((layer, lines)) ==> ascending(
            lines.services,
        ) && ascending(lines.env),
{
    let n = nodes.len() as int;
    what_is_granted_is_what_is_written(text, nodes, profile, names);
    every_variable_is_on_its_nodes_line(text, nodes, profile, names);
    let services = lemma_service_offsets(text, nodes, n);
    lemma_ascending(text, nodes, n, written_lines(text, nodes, n), services);
    let env = lemma_env_offsets(text, nodes, n);
    lemma_ascending(text, nodes, n, env_lines(text, nodes, n), env);
}

} // verus!
