//! A node that is refused is told by its own name.

use vstd::prelude::*;

use crate::config::address::Cidr;
use crate::config::bus::{mpris_of, mpris_step, mpris_steps};
use crate::config::document::{EntryView, NodeView};
use crate::config::grants::{
    camera_of, camera_step, camera_steps, etc_share_of, etc_step, etc_steps, gamepad_of,
    gamepad_step, gamepad_steps, share_of, share_step, share_steps, wayland_of, wayland_start,
    wayland_step, wayland_steps, x11_of, x11_start, x11_step, x11_steps, ShareKind, WaylandState,
    X11State,
};
use crate::config::model::{NetworkMode, Proto, ShareMode};
use crate::config::network::{
    allow_out_of, allow_out_step, allow_out_steps, forward_of, forward_step, forward_steps,
    mode_step, mode_steps, network_mode_of,
};
use crate::config::node::{first_property, fold, one_string, only_string};
use crate::config::settings::{
    command_of, command_step, command_steps, desktop_of, env_of, env_step, env_steps, lint_allow_of,
    lint_step, lint_steps, tty_of, userns_of, NamesView,
};
use crate::error::ConfigErrorView;

verus! {

/// Whether an error is told of a node: by its name, and where it is of a
/// property by one the node has.
pub open spec fn told_of(node: NodeView, e: ConfigErrorView) -> bool {
    match e {
        ConfigErrorView::BadArgument { node: name, reason: _ } => name == node.name,
        ConfigErrorView::UnknownProperty { node: name, prop } => name == node.name && exists|i: int|
            0 <= i < node.entries.len() && (#[trigger] node.entries[i]).name == Some(prop),
        ConfigErrorView::Duplicate(_) => true,
        _ => false,
    }
}

proof fn lemma_refused<S>(
    node: NodeView,
    i: int,
    state: S,
    step: spec_fn(S, EntryView) -> Result<S, ConfigErrorView>,
)
    requires
        0 <= i <= node.entries.len(),
        forall|s: S, j: int|
            0 <= j < node.entries.len() ==> (#[trigger] step(s, node.entries[j]) matches Err(e)
                ==> told_of(node, e)),
    ensures
        fold(node.entries, i, state, step) matches Err(e) ==> told_of(node, e),
    decreases node.entries.len() - i,
{
    if i < node.entries.len() {
        let got = step(state, node.entries[i]);
        if let Ok(next) = got {
            lemma_refused(node, i + 1, next, step);
        }
    }
}

proof fn lemma_first_property(node: NodeView, i: int)
    requires
        0 <= i,
    ensures
        first_property(node.entries, i) matches Some(prop) ==> exists|k: int|
            0 <= k < node.entries.len() && (#[trigger] node.entries[k]).name == Some(prop),
    decreases node.entries.len() - i,
{
    if i < node.entries.len() {
        if node.entries[i].name is None {
            lemma_first_property(node, i + 1);
        }
    }
}

proof fn lemma_allow_out(node: NodeView)
    requires
        node.name == "allow-out"@,
    ensures
        allow_out_of(node) matches Err(e) ==> told_of(node, e),
{
    let steps = allow_out_steps(node);
    assert forall|s: (Option<Cidr>, Option<u16>, Option<Proto>), j: int| 0 <= j < node.entries.len() implies (#[trigger] steps(
        s,
        node.entries[j],
    ) matches Err(e) ==> told_of(node, e)) by {
        let one = allow_out_step(node, s, node.entries[j]);
        assert(steps(s, node.entries[j]) == one);
        if let Err(ConfigErrorView::UnknownProperty { node: _, prop }) = one {
            assert(node.entries[j].name == Some(prop));
        }
    }
    lemma_refused(node, 0, (None::<Cidr>, None::<u16>, None::<Proto>), steps);
}

proof fn lemma_forward(node: NodeView)
    ensures
        forward_of(node) matches Err(e) ==> told_of(node, e),
{
    let steps = forward_steps(node);
    assert forall|s: (Option<u16>, Option<bool>), j: int| 0 <= j < node.entries.len() implies (#[trigger] steps(
        s,
        node.entries[j],
    ) matches Err(e) ==> told_of(node, e)) by {
        let one = forward_step(node, s, node.entries[j]);
        assert(steps(s, node.entries[j]) == one);
        if let Err(ConfigErrorView::UnknownProperty { node: _, prop }) = one {
            assert(node.entries[j].name == Some(prop));
        }
    }
    lemma_refused(node, 0, (None::<u16>, None::<bool>), steps);
}

proof fn lemma_mode(node: NodeView)
    requires
        node.name == "network"@,
    ensures
        network_mode_of(node) matches Err(e) ==> told_of(node, e),
{
    let steps = mode_steps(node);
    assert forall|s: Option<NetworkMode>, j: int| 0 <= j < node.entries.len() implies (#[trigger] steps(
        s,
        node.entries[j],
    ) matches Err(e) ==> told_of(node, e)) by {
        let one = mode_step(node, s, node.entries[j]);
        assert(steps(s, node.entries[j]) == one);
        if let Err(ConfigErrorView::UnknownProperty { node: _, prop }) = one {
            assert(node.entries[j].name == Some(prop));
        }
    }
    lemma_refused(node, 0, None::<NetworkMode>, steps);
}

proof fn lemma_share(node: NodeView, kind: ShareKind)
    ensures
        share_of(node, kind) matches Err(e) ==> told_of(node, e),
{
    let steps = share_steps(node, kind);
    assert forall|s: (Option<Seq<char>>, ShareMode), j: int| 0 <= j < node.entries.len() implies (#[trigger] steps(
        s,
        node.entries[j],
    ) matches Err(e) ==> told_of(node, e)) by {
        let one = share_step(node, kind, s, node.entries[j]);
        assert(steps(s, node.entries[j]) == one);
        if let Err(ConfigErrorView::UnknownProperty { node: _, prop }) = one {
            assert(node.entries[j].name == Some(prop));
        }
    }
    lemma_refused(node, 0, (None::<Seq<char>>, ShareMode::ReadOnly), steps);
}

proof fn lemma_etc_share(node: NodeView)
    ensures
        etc_share_of(node) matches Err(e) ==> told_of(node, e),
{
    let steps = etc_steps(node);
    assert forall|s: Option<Seq<u8>>, j: int| 0 <= j < node.entries.len() implies (#[trigger] steps(
        s,
        node.entries[j],
    ) matches Err(e) ==> told_of(node, e)) by {
        let one = etc_step(node, s, node.entries[j]);
        assert(steps(s, node.entries[j]) == one);
        if let Err(ConfigErrorView::UnknownProperty { node: _, prop }) = one {
            assert(node.entries[j].name == Some(prop));
        }
    }
    lemma_refused(node, 0, None::<Seq<u8>>, steps);
}

proof fn lemma_wayland(node: NodeView)
    requires
        node.name == "wayland"@,
    ensures
        wayland_of(node) matches Err(e) ==> told_of(node, e),
{
    let steps = wayland_steps(node);
    assert forall|s: WaylandState, j: int| 0 <= j < node.entries.len() implies (#[trigger] steps(
        s,
        node.entries[j],
    ) matches Err(e) ==> told_of(node, e)) by {
        let one = wayland_step(node, s, node.entries[j]);
        assert(steps(s, node.entries[j]) == one);
        if let Err(ConfigErrorView::UnknownProperty { node: _, prop }) = one {
            assert(node.entries[j].name == Some(prop));
        }
    }
    lemma_refused(node, 0, wayland_start(), steps);
}

proof fn lemma_x11(node: NodeView)
    ensures
        x11_of(node) matches Err(e) ==> told_of(node, e),
{
    let steps = x11_steps(node);
    assert forall|s: X11State, j: int| 0 <= j < node.entries.len() implies (#[trigger] steps(
        s,
        node.entries[j],
    ) matches Err(e) ==> told_of(node, e)) by {
        let one = x11_step(node, s, node.entries[j]);
        assert(steps(s, node.entries[j]) == one);
        if let Err(ConfigErrorView::UnknownProperty { node: _, prop }) = one {
            assert(node.entries[j].name == Some(prop));
        }
    }
    lemma_refused(node, 0, x11_start(), steps);
}

proof fn lemma_gamepad(node: NodeView)
    ensures
        gamepad_of(node) matches Err(e) ==> told_of(node, e),
{
    let steps = gamepad_steps(node);
    assert forall|s: (Option<bool>, Option<bool>), j: int| 0 <= j < node.entries.len() implies (#[trigger] steps(
        s,
        node.entries[j],
    ) matches Err(e) ==> told_of(node, e)) by {
        let one = gamepad_step(node, s, node.entries[j]);
        assert(steps(s, node.entries[j]) == one);
        if let Err(ConfigErrorView::UnknownProperty { node: _, prop }) = one {
            assert(node.entries[j].name == Some(prop));
        }
    }
    lemma_refused(node, 0, (None::<bool>, None::<bool>), steps);
}

proof fn lemma_camera(node: NodeView)
    ensures
        camera_of(node) matches Err(e) ==> told_of(node, e),
{
    let steps = camera_steps(node);
    assert forall|s: Option<bool>, j: int| 0 <= j < node.entries.len() implies (#[trigger] steps(
        s,
        node.entries[j],
    ) matches Err(e) ==> told_of(node, e)) by {
        let one = camera_step(node, s, node.entries[j]);
        assert(steps(s, node.entries[j]) == one);
        if let Err(ConfigErrorView::UnknownProperty { node: _, prop }) = one {
            assert(node.entries[j].name == Some(prop));
        }
    }
    lemma_refused(node, 0, None::<bool>, steps);
}

proof fn lemma_mpris(node: NodeView)
    ensures
        mpris_of(node) matches Err(e) ==> told_of(node, e),
{
    let steps = mpris_steps(node);
    assert forall|s: Option<Seq<char>>, j: int| 0 <= j < node.entries.len() implies (#[trigger] steps(
        s,
        node.entries[j],
    ) matches Err(e) ==> told_of(node, e)) by {
        let one = mpris_step(node, s, node.entries[j]);
        assert(steps(s, node.entries[j]) == one);
        if let Err(ConfigErrorView::UnknownProperty { node: _, prop }) = one {
            assert(node.entries[j].name == Some(prop));
        }
    }
    lemma_refused(node, 0, None::<Seq<char>>, steps);
}

proof fn lemma_command(node: NodeView)
    ensures
        command_of(node) matches Err(e) ==> told_of(node, e),
{
    let steps = command_steps(node);
    assert forall|s: Seq<Seq<u8>>, j: int| 0 <= j < node.entries.len() implies (#[trigger] steps(
        s,
        node.entries[j],
    ) matches Err(e) ==> told_of(node, e)) by {
        let one = command_step(node, s, node.entries[j]);
        assert(steps(s, node.entries[j]) == one);
        if let Err(ConfigErrorView::UnknownProperty { node: _, prop }) = one {
            assert(node.entries[j].name == Some(prop));
        }
    }
    lemma_refused(node, 0, Seq::<Seq<u8>>::empty(), steps);
}

proof fn lemma_env(node: NodeView, env: Seq<(Seq<char>, Seq<char>)>)
    ensures
        env_of(node, env) matches Err(e) ==> told_of(node, e),
{
    let steps = env_steps(node);
    assert forall|s: Seq<(Seq<char>, Seq<char>)>, j: int| 0 <= j < node.entries.len() implies (#[trigger] steps(
        s,
        node.entries[j],
    ) matches Err(e) ==> told_of(node, e)) by {
        let one = env_step(node, s, node.entries[j]);
        assert(steps(s, node.entries[j]) == one);
        if let Err(ConfigErrorView::UnknownProperty { node: _, prop }) = one {
            assert(node.entries[j].name == Some(prop));
        }
    }
    lemma_refused(node, 0, env, steps);
}

proof fn lemma_lint(node: NodeView, names: NamesView)
    ensures
        lint_allow_of(node, names) matches Err(e) ==> told_of(node, e),
{
    let steps = lint_steps(node);
    assert forall|s: (Option<Seq<char>>, Option<Seq<char>>), j: int| 0 <= j < node.entries.len() implies (#[trigger] steps(
        s,
        node.entries[j],
    ) matches Err(e) ==> told_of(node, e)) by {
        let one = lint_step(node, s, node.entries[j]);
        assert(steps(s, node.entries[j]) == one);
        if let Err(ConfigErrorView::UnknownProperty { node: _, prop }) = one {
            assert(node.entries[j].name == Some(prop));
        }
    }
    lemma_refused(node, 0, (None::<Seq<char>>, None::<Seq<char>>), steps);
}

/// Whatever a node is refused for, the error names it, and a property that it
/// does not take is one it has: of a grant with more to it than its name.
pub proof fn a_refused_grant_is_told_by_its_name(node: NodeView, kind: ShareKind)
    ensures
        node.name == "allow-out"@ ==> (allow_out_of(node) matches Err(e) ==> told_of(node, e)),
        forward_of(node) matches Err(e) ==> told_of(node, e),
        node.name == "network"@ ==> (network_mode_of(node) matches Err(e) ==> told_of(node, e)),
        share_of(node, kind) matches Err(e) ==> told_of(node, e),
        etc_share_of(node) matches Err(e) ==> told_of(node, e),
        node.name == "wayland"@ ==> (wayland_of(node) matches Err(e) ==> told_of(node, e)),
        x11_of(node) matches Err(e) ==> told_of(node, e),
        gamepad_of(node) matches Err(e) ==> told_of(node, e),
        camera_of(node) matches Err(e) ==> told_of(node, e),
        mpris_of(node) matches Err(e) ==> told_of(node, e),
{
    if node.name == "allow-out"@ {
        lemma_allow_out(node);
    }
    if node.name == "network"@ {
        lemma_mode(node);
    }
    if node.name == "wayland"@ {
        lemma_wayland(node);
    }
    lemma_forward(node);
    lemma_share(node, kind);
    lemma_etc_share(node);
    lemma_x11(node);
    lemma_gamepad(node);
    lemma_camera(node);
    lemma_mpris(node);
}

/// Whatever a setting is refused for, the error names it too.
pub proof fn a_refused_setting_is_told_by_its_name(
    node: NodeView,
    env: Seq<(Seq<char>, Seq<char>)>,
    names: NamesView,
)
    ensures
        command_of(node) matches Err(e) ==> told_of(node, e),
        env_of(node, env) matches Err(e) ==> told_of(node, e),
        lint_allow_of(node, names) matches Err(e) ==> told_of(node, e),
        desktop_of(node) matches Err(e) ==> told_of(node, e),
        node.name == "userns"@ ==> (userns_of(node) matches Err(e) ==> told_of(node, e)),
        node.name == "tty"@ ==> (tty_of(node) matches Err(e) ==> told_of(node, e)),
        one_string(node) matches Err(e) ==> told_of(node, e),
        only_string(node) matches Err(e) ==> told_of(node, e),
{
    lemma_command(node);
    lemma_env(node, env);
    lemma_lint(node, names);
    lemma_first_property(node, 0);
}

} // verus!
