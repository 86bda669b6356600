//! What holds of the settings of every configuration that is accepted.

use vstd::prelude::*;

use crate::config::document::NodeView;
use crate::config::model::{default_seccomp, no_lines, ConfigView, LinesView, SeccompView};
use crate::config::node::{fold, forbidden};
use crate::config::parse::{
    empty_layer, layer_of, layer_step, layer_steps, with_node, with_setting, LayerView,
};
use crate::config::settings::{
    command_step, command_steps, entry_file, lint_allow_of, lint_reason, seccomp_step,
    seccomp_steps, syscalls_of, syscalls_step, syscalls_steps, NamesView,
};
use crate::error::ConfigErrorView;
use crate::text::utf8;

verus! {

/// Whether some bytes are an argument that can be passed on: a text without
/// what ends an argument or a line.
pub open spec fn plain_argument(arg: Seq<u8>) -> bool {
    exists|s: Seq<char>| arg == #[trigger] utf8(s) && forbidden(s, 0) is None
}

/// Whether every argument of a list can be passed on.
pub open spec fn plain_arguments(argv: Seq<Seq<u8>>) -> bool {
    forall|i: int| 0 <= i < argv.len() ==> plain_argument(#[trigger] argv[i])
}

/// Whether every name of a list is a syscall.
pub open spec fn known_syscalls(list: Seq<Seq<char>>, names: NamesView) -> bool {
    forall|i: int| 0 <= i < list.len() ==> names.syscalls.contains(#[trigger] list[i])
}

/// Whether the changes to the denylist are of syscalls there are, and `prctl`
/// stays allowed.
pub open spec fn sound_seccomp(cfg: SeccompView, names: NamesView) -> bool {
    &&& known_syscalls(cfg.allow, names)
    &&& forall|i: int|
        0 <= i < cfg.deny.len() ==> names.syscalls.contains((#[trigger] cfg.deny[i]).0)
            && cfg.deny[i].0 != "prctl"@
}

/// Whether every setting of a configuration can take effect: a command that
/// can be run, a filter of syscalls there are, accepted findings of checks
/// that report no error, each once and with a reason, and an entry that is a
/// file name.
pub open spec fn sound_settings(cfg: ConfigView, names: NamesView) -> bool {
    &&& cfg.command matches Some(argv) ==> argv.len() > 0 && plain_arguments(argv)
    &&& sound_seccomp(cfg.seccomp, names)
    &&& forall|i: int|
        0 <= i < cfg.lint_allows.len() ==> lint_reason(
            names,
            (#[trigger] cfg.lint_allows[i]).id,
            Some(cfg.lint_allows[i].reason),
        ) is None
    &&& forall|i: int, j: int|
        #![trigger cfg.lint_allows[i], cfg.lint_allows[j]]
        0 <= i < j < cfg.lint_allows.len() ==> cfg.lint_allows[i].id != cfg.lint_allows[j].id
    &&& cfg.desktop matches Some(name) ==> entry_file(name)
}

proof fn lemma_command(node: NodeView, i: int, argv: Seq<Seq<u8>>)
    requires
        plain_arguments(argv),
    ensures
        fold(node.entries, i, argv, command_steps(node)) matches Ok(all) ==> plain_arguments(all),
    decreases node.entries.len() - i,
{
    if 0 <= i < node.entries.len() {
        let steps = command_steps(node);
        let e = node.entries[i];
        assert(steps(argv, e) == command_step(node, argv, e));
        if let Ok(next) = steps(argv, e) {
            assert(plain_arguments(next)) by {
                assert forall|k: int| 0 <= k < next.len() implies plain_argument(
                    #[trigger] next[k],
                ) by {
                    if k < argv.len() {
                        assert(next[k] == argv[k]);
                    } else {
                        let s = e.value->Text_0;
                        assert(next[k] == utf8(s));
                    }
                }
            }
            lemma_command(node, i + 1, next);
        }
    }
}

proof fn lemma_syscalls(node: NodeView, names: NamesView, i: int, list: Seq<Seq<char>>)
    requires
        known_syscalls(list, names),
    ensures
        fold(node.entries, i, list, syscalls_steps(node, names)) matches Ok(all)
            ==> known_syscalls(all, names),
    decreases node.entries.len() - i,
{
    if 0 <= i < node.entries.len() {
        let steps = syscalls_steps(node, names);
        let e = node.entries[i];
        assert(steps(list, e) == syscalls_step(node, names, list, e));
        if let Ok(next) = steps(list, e) {
            assert forall|k: int| 0 <= k < next.len() implies names.syscalls.contains(
                #[trigger] next[k],
            ) by {
                if k < list.len() {
                    assert(next[k] == list[k]);
                }
            }
            lemma_syscalls(node, names, i + 1, next);
        }
    }
}

proof fn lemma_seccomp_step(names: NamesView, cfg: SeccompView, child: NodeView)
    requires
        sound_seccomp(cfg, names),
    ensures
        seccomp_step(names, cfg, child) matches Ok(next) ==> sound_seccomp(next, names),
{
    lemma_syscalls(child, names, 0, Seq::empty());
    if let Ok(next) = seccomp_step(names, cfg, child) {
        if let Ok(all) = syscalls_of(child, names) {
            assert forall|k: int| 0 <= k < next.allow.len() implies names.syscalls.contains(
                #[trigger] next.allow[k],
            ) by {
                if k < cfg.allow.len() {
                    assert(next.allow[k] == cfg.allow[k]);
                } else {
                    assert(next.allow[k] == all[k - cfg.allow.len()]);
                }
            }
            assert forall|k: int| 0 <= k < next.deny.len() implies names.syscalls.contains(
                (#[trigger] next.deny[k]).0,
            ) && next.deny[k].0 != "prctl"@ by {
                if k < cfg.deny.len() {
                    assert(next.deny[k] == cfg.deny[k]);
                } else {
                    let name = all[k - cfg.deny.len()];
                    assert(next.deny[k].0 == name);
                    assert(all.contains(name));
                }
            }
        }
    }
}

proof fn lemma_seccomp(
    names: NamesView,
    children: Seq<NodeView>,
    i: int,
    cfg: SeccompView,
)
    requires
        sound_seccomp(cfg, names),
    ensures
        fold(children, i, cfg, seccomp_steps(names)) matches Ok(all) ==> sound_seccomp(all, names),
    decreases children.len() - i,
{
    if 0 <= i < children.len() {
        let steps = seccomp_steps(names);
        assert(steps(cfg, children[i]) == seccomp_step(names, cfg, children[i]));
        lemma_seccomp_step(names, cfg, children[i]);
        if let Ok(next) = steps(cfg, children[i]) {
            lemma_seccomp(names, children, i + 1, next);
        }
    }
}

proof fn lemma_setting(layer: LayerView, node: NodeView, profile: bool, names: NamesView)
    requires
        sound_settings(layer.profile.config, names),
    ensures
        with_setting(layer, node, profile, names) matches Ok(next) ==> sound_settings(
            next.profile.config,
            names,
        ),
{
    let cfg = layer.profile.config;
    if let Ok(next) = with_setting(layer, node, profile, names) {
        let after = next.profile.config;
        if node.name == "command"@ {
            lemma_command(node, 0, Seq::empty());
        }
        if node.name == "seccomp"@ {
            if let Some(children) = node.children {
                lemma_seccomp(names, children, 0, default_seccomp());
            }
        }
        if node.name == "lint-allow"@ {
            let was = cfg.lint_allows;
            let all = after.lint_allows;
            if let Ok(allow) = lint_allow_of(node, names) {
                if all.len() > was.len() {
                    assert(all == was.push(allow));
                    assert forall|i: int| 0 <= i < all.len() implies lint_reason(
                        names,
                        (#[trigger] all[i]).id,
                        Some(all[i].reason),
                    ) is None by {
                        if i < was.len() {
                            assert(all[i] == was[i]);
                        }
                    }
                    assert forall|i: int, j: int|
                        #![trigger all[i], all[j]]
                        0 <= i < j < all.len() implies all[i].id != all[j].id by {
                        assert(all[i] == was[i]);
                        if j < was.len() {
                            assert(all[j] == was[j]);
                        }
                    }
                }
            }
        }
    }
}

proof fn lemma_layer(
    text: Seq<char>,
    profile: bool,
    names: NamesView,
    nodes: Seq<NodeView>,
    i: int,
    layer: LayerView,
    lines: LinesView,
)
    requires
        sound_settings(layer.profile.config, names),
    ensures
        fold(nodes, i, (layer, lines), layer_steps(text, profile, names)) matches Ok((all, _))
            ==> sound_settings(all.profile.config, names),
    decreases nodes.len() - i,
{
    if 0 <= i < nodes.len() {
        let steps = layer_steps(text, profile, names);
        let node = nodes[i];
        assert(steps((layer, lines), node) == layer_step(
            text,
            profile,
            names,
            (layer, lines),
            node,
        ));
        lemma_setting(layer, node, profile, names);
        if let Ok((next, more)) = steps((layer, lines), node) {
            assert(with_node(layer, node, profile, names) == Ok::<LayerView, ConfigErrorView>(next));
            lemma_layer(text, profile, names, nodes, i + 1, next, more);
        }
    }
}

/// Every setting of an accepted layer can take effect: a command has an
/// argument and none that would end an argument or a line, a filter names
/// syscalls there are and never denies `prctl`, a finding is accepted once,
/// with a reason, and never an error, and a launcher entry is a file name.
pub proof fn every_setting_can_take_effect(
    text: Seq<char>,
    nodes: Seq<NodeView>,
    profile: bool,
    names: NamesView,
)
    ensures
        layer_of(text, nodes, profile, names) matches Ok((layer, _)) ==> sound_settings(
            layer.config,
            names,
        ),
{
    lemma_layer(text, profile, names, nodes, 0, empty_layer(), no_lines());
}

} // verus!
