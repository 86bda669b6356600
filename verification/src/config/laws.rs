//! What holds of every configuration that is accepted.

use vstd::prelude::*;

use crate::config::bounds::{
    bounds_fault, first_too_deep, line_of, token_stop, CLOSE, MAX_BYTES, MAX_NESTING, OPEN,
};
use crate::config::document::{EntryView, NodeView, ScalarView};
use crate::config::grants::{
    entry_named, etc_step, etc_steps, geometry_of, normalised, plain_from, share_fault, share_of,
    share_step, share_steps, ShareKind, RESERVED_ETC,
};
use crate::config::model::{no_lines, service_node, LinesView, ProfileView, ServiceView, ShareMode};
use crate::config::node::{fold, forbidden};
use crate::config::parse::{
    bundle, clash, clashes, empty_layer, first_bundle, granted, layer_of, layer_step, layer_steps,
    nested_x11, requested, text_layer, with_node, LayerView, NODES,
};
use crate::config::plain::{
    comment_from, count, cut_end, cut_of, first_odd, handed, hushed_from, muted, nodes_from,
    plain_step, tangled_line, text_start, weight, Count, ScanView, BUDGET,
};
use crate::config::settings::{
    env_key, env_step, env_steps, has_key, listed, NamesView, RESERVED_ENV,
};
use crate::dbus::identity::valid_app_id;
use crate::dbus_wire::signature::char_at;
use crate::error::{ConfigErrorView, KdlFaultView};
use crate::paths::{
    components, is_name, lemma_components, lemma_components_of_path, lemma_some_component,
    plain_parts,
};
use crate::text::{lemma_utf8_injective, utf8};

verus! {

/// Whether every variable may be set, and is set once.
pub open spec fn sound_env(env: Seq<(Seq<char>, Seq<char>)>) -> bool {
    &&& forall|i: int|
        #![trigger env[i]]
        0 <= i < env.len() ==> env_key(env[i].0) && !listed(RESERVED_ENV@, env[i].0) && forbidden(
            env[i].1,
            0,
        ) is None
    &&& forall|i: int, j: int|
        #![trigger env[i], env[j]]
        0 <= i < j < env.len() ==> env[i].0 != env[j].0
}

/// Whether no two services clash.
pub open spec fn no_clash(services: Seq<ServiceView>) -> bool {
    forall|i: int, j: int|
        #![trigger services[i], services[j]]
        0 <= i < j < services.len() ==> !clash(services[i], services[j])
}

/// What holds of a layer and its lines while they are read.
pub open spec fn sound_layer(layer: LayerView, lines: LinesView, profile: bool) -> bool {
    let cfg = layer.profile.config;
    &&& sound_env(cfg.env)
    &&& no_clash(cfg.services)
    &&& lines.services.len() == cfg.services.len()
    &&& lines.env.len() == cfg.env.len()
    &&& !profile ==> layer.profile.includes.len() == 0
}

proof fn lemma_env_fold(
    node: NodeView,
    entries: Seq<EntryView>,
    i: int,
    env: Seq<(Seq<char>, Seq<char>)>,
)
    requires
        sound_env(env),
    ensures
        fold(entries, i, env, env_steps(node)) matches Ok(all) ==> sound_env(all) && env.len()
            <= all.len(),
    decreases entries.len() - i,
{
    if 0 <= i < entries.len() {
        let steps = env_steps(node);
        assert(steps(env, entries[i]) == env_step(node, env, entries[i]));
        if let Ok(next) = steps(env, entries[i]) {
            let key = entries[i].name->Some_0;
            assert(!has_key(env, key));
            assert forall|a: int, b: int|
                #![trigger next[a], next[b]]
                0 <= a < b < next.len() implies next[a].0 != next[b].0 by {
                if b == env.len() {
                    assert(env[a].0 != key);
                } else {
                    assert(next[a] == env[a] && next[b] == env[b]);
                }
            }
            assert forall|a: int| #![trigger next[a]] 0 <= a < next.len() implies env_key(next[a].0)
                && !listed(RESERVED_ENV@, next[a].0) && forbidden(next[a].1, 0) is None by {
                if a < env.len() {
                    assert(next[a] == env[a]);
                }
            }
            lemma_env_fold(node, entries, i + 1, next);
        }
    }
}

proof fn lemma_step(
    text: Seq<char>,
    profile: bool,
    names: NamesView,
    layer: LayerView,
    lines: LinesView,
    node: NodeView,
)
    requires
        sound_layer(layer, lines, profile),
    ensures
        layer_step(text, profile, names, (layer, lines), node) matches Ok((next, more))
            ==> sound_layer(next, more, profile),
{
    if let Ok(next) = with_node(layer, node, profile, names) {
        let services = layer.profile.config.services;
        lemma_env_fold(node, node.entries, 0, layer.profile.config.env);
        if let Some(wanted) = requested(node) {
            let new = wanted->Ok_0;
            let all = next.profile.config.services;
            assert(all == services.push(new));
            assert(!clashes(services, new));
            assert forall|a: int, b: int|
                #![trigger all[a], all[b]]
                0 <= a < b < all.len() implies !clash(all[a], all[b]) by {
                if b == services.len() {
                    assert(!clash(services[a], new));
                } else {
                    assert(all[a] == services[a] && all[b] == services[b]);
                }
            }
        }
    }
}

proof fn lemma_fold(
    text: Seq<char>,
    profile: bool,
    names: NamesView,
    nodes: Seq<NodeView>,
    i: int,
    layer: LayerView,
    lines: LinesView,
)
    requires
        sound_layer(layer, lines, profile),
    ensures
        fold(nodes, i, (layer, lines), layer_steps(text, profile, names)) matches Ok((next, more))
            ==> sound_layer(next, more, profile),
    decreases nodes.len() - i,
{
    if 0 <= i < nodes.len() {
        let steps = layer_steps(text, profile, names);
        assert(steps((layer, lines), nodes[i]) == layer_step(
            text,
            profile,
            names,
            (layer, lines),
            nodes[i],
        ));
        lemma_step(text, profile, names, layer, lines, nodes[i]);
        if let Ok((next, more)) = steps((layer, lines), nodes[i]) {
            lemma_fold(text, profile, names, nodes, i + 1, next, more);
        }
    }
}

/// Of every layer that is accepted: each variable may be set and is set once,
/// no two grants clash, and every service and variable has its line.
pub proof fn an_accepted_layer_is_sound(
    text: Seq<char>,
    nodes: Seq<NodeView>,
    profile: bool,
    names: NamesView,
)
    ensures
        layer_of(text, nodes, profile, names) matches Ok((layer, lines)) ==> {
            &&& sound_env(layer.config.env)
            &&& no_clash(layer.config.services)
            &&& lines.services.len() == layer.config.services.len()
            &&& lines.env.len() == layer.config.env.len()
        },
{
    lemma_fold(text, profile, names, nodes, 0, empty_layer(), no_lines());
}

/// An accepted instance config takes nothing from another file: it names no
/// other layer, and what its services require is granted in it.
pub proof fn an_accepted_instance_stands_alone(
    text: Seq<char>,
    nodes: Seq<NodeView>,
    names: NamesView,
)
    ensures
        layer_of(text, nodes, false, names) matches Ok((layer, lines)) ==> {
            let services = layer.config.services;
            &&& layer.includes.len() == 0
            &&& (forall|i: int| 0 <= i < services.len() && bundle(#[trigger] services[i])
                ==> granted(services, "dbus"@))
            &&& (granted(services, "camera"@) ==> granted(services, "portals"@))
            &&& (nested_x11(services) ==> granted(services, "wayland"@) && granted(
                services,
                "dri"@,
            ))
        },
{
    lemma_fold(text, false, names, nodes, 0, empty_layer(), no_lines());
    if let Ok((layer, lines)) = layer_of(text, nodes, false, names) {
        let services = layer.config.services;
        assert forall|i: int| 0 <= i < services.len() && bundle(#[trigger] services[i]) implies granted(
            services,
            "dbus"@,
        ) by {
            lemma_first_bundle(services, 0, i);
        }
    }
}

proof fn lemma_first_bundle(services: Seq<ServiceView>, i: int, k: int)
    requires
        0 <= i <= k < services.len(),
        bundle(services[k]),
    ensures
        first_bundle(services, i) is Some,
    decreases k - i,
{
    if i < k && !bundle(services[i]) {
        lemma_first_bundle(services, i + 1, k);
    }
}

/// A profile layer is refused for what one of its own nodes says, never for
/// what another layer may grant.
pub proof fn a_profile_layer_may_leave_a_grant_to_another(
    text: Seq<char>,
    nodes: Seq<NodeView>,
    names: NamesView,
)
    ensures
        layer_of(text, nodes, true, names) is Ok <==> fold(
            nodes,
            0,
            (empty_layer(), no_lines()),
            layer_steps(text, true, names),
        ) is Ok,
{
}

/// A window size is accepted in its canonical spelling only, and given back
/// as it was written.
pub proof fn a_window_size_is_written_back_as_it_was_read(s: Seq<char>)
    ensures
        geometry_of(s) matches Some(t) ==> t == s && geometry_of(t) == Some(t),
{
}

/// The services the first `n` nodes ask for, in order.
pub open spec fn written(nodes: Seq<NodeView>, n: int) -> Seq<ServiceView>
    decreases n,
{
    if n <= 0 {
        Seq::empty()
    } else {
        match requested(nodes[n - 1]) {
            Some(Ok(service)) => written(nodes, n - 1).push(service),
            _ => written(nodes, n - 1),
        }
    }
}

/// The lines of the first `n` nodes that ask for a service, in order.
pub open spec fn written_lines(text: Seq<char>, nodes: Seq<NodeView>, n: int) -> Seq<Option<u32>>
    decreases n,
{
    if n <= 0 {
        Seq::empty()
    } else {
        match requested(nodes[n - 1]) {
            Some(Ok(_)) => written_lines(text, nodes, n - 1).push(
                line_of(text, nodes[n - 1].offset),
            ),
            _ => written_lines(text, nodes, n - 1),
        }
    }
}

/// Whether a node is one a layer may hold.
pub open spec fn known_node(name: Seq<char>, profile: bool) -> bool {
    listed(NODES@, name) || (profile && name == "include"@)
}

/// A service is written as the node it is named after.
#[verifier::spinoff_prover]
#[verifier::rlimit(60)]
proof fn lemma_requested(node: NodeView)
    ensures
        requested(node) matches Some(Ok(service)) ==> service_node(service) == node.name,
{
}

proof fn lemma_written(
    text: Seq<char>,
    profile: bool,
    names: NamesView,
    nodes: Seq<NodeView>,
    i: int,
    layer: LayerView,
    lines: LinesView,
)
    requires
        0 <= i <= nodes.len(),
        layer.profile.config.services == written(nodes, i),
        lines.services == written_lines(text, nodes, i),
        lines.services.len() == layer.profile.config.services.len(),
    ensures
        fold(nodes, i, (layer, lines), layer_steps(text, profile, names)) matches Ok((all, at))
            ==> {
            &&& all.profile.config.services == written(nodes, nodes.len() as int)
            &&& at.services == written_lines(text, nodes, nodes.len() as int)
            &&& forall|k: int|
                i <= k < nodes.len() ==> known_node((#[trigger] nodes[k]).name, profile)
        },
    decreases nodes.len() - i,
{
    if i < nodes.len() {
        let steps = layer_steps(text, profile, names);
        let node = nodes[i];
        assert(steps((layer, lines), node) == layer_step(
            text,
            profile,
            names,
            (layer, lines),
            node,
        ));
        if let Ok((next, more)) = steps((layer, lines), node) {
            let line = line_of(text, node.offset);
            let had = layer.profile.config.services.len();
            let has = next.profile.config.services.len();
            match requested(node) {
                Some(Ok(service)) => {
                    assert(next.profile.config.services == written(nodes, i).push(service));
                    assert(has == had + 1);
                    assert(more.services =~= lines.services.push(line));
                },
                _ => {
                    assert(next.profile.config.services == layer.profile.config.services);
                    assert(more.services =~= lines.services);
                },
            }
            assert(next.profile.config.services == written(nodes, i + 1));
            assert(more.services == written_lines(text, nodes, i + 1));
            lemma_written(text, profile, names, nodes, i + 1, next, more);
            assert(known_node(node.name, profile));
        }
    }
}

proof fn lemma_written_names(nodes: Seq<NodeView>, n: int, k: int)
    requires
        0 <= n <= nodes.len(),
        0 <= k < written(nodes, n).len(),
    ensures
        exists|i: int|
            0 <= i < n && (#[trigger] nodes[i]).name == service_node(written(nodes, n)[k]),
    decreases n,
{
    if n > 0 {
        lemma_requested(nodes[n - 1]);
        if k < written(nodes, n - 1).len() {
            lemma_written_names(nodes, n - 1, k);
            assert(written(nodes, n)[k] == written(nodes, n - 1)[k]);
            let i = choose|i: int|
                0 <= i < n - 1 && (#[trigger] nodes[i]).name == service_node(
                    written(nodes, n - 1)[k],
                );
            assert(0 <= i < n);
        } else {
            assert(nodes[n - 1].name == service_node(written(nodes, n)[k]));
        }
    }
}

/// A file grants exactly what it says: what an accepted layer grants is what
/// its nodes ask for, in order and each on its node's line, and a node that is
/// not known is never passed over. Nothing is granted without a node of that
/// name.
pub proof fn what_is_granted_is_what_is_written(
    text: Seq<char>,
    nodes: Seq<NodeView>,
    profile: bool,
    names: NamesView,
)
    ensures
        layer_of(text, nodes, profile, names) matches Ok((layer, lines)) ==> {
            let services = layer.config.services;
            &&& services == written(nodes, nodes.len() as int)
            &&& lines.services == written_lines(text, nodes, nodes.len() as int)
            &&& forall|i: int|
                0 <= i < nodes.len() ==> known_node((#[trigger] nodes[i]).name, profile)
            &&& forall|k: int|
                0 <= k < services.len() ==> exists|i: int|
                    0 <= i < nodes.len() && (#[trigger] nodes[i]).name == service_node(
                        #[trigger] services[k],
                    )
        },
        nodes.len() == 0 ==> (layer_of(text, nodes, profile, names) matches Ok((layer, lines))
            && layer.config.services.len() == 0),
{
    lemma_written(text, profile, names, nodes, 0, empty_layer(), no_lines());
    if let Ok((layer, lines)) = layer_of(text, nodes, profile, names) {
        let services = layer.config.services;
        assert forall|k: int| 0 <= k < services.len() implies exists|i: int|
            0 <= i < nodes.len() && (#[trigger] nodes[i]).name == service_node(
                #[trigger] services[k],
            ) by {
            lemma_written_names(nodes, nodes.len() as int, k);
        }
    }
}

/// A text past the bounds is refused for that, whatever a parser would make of
/// it: an instance's, a profile's, and where only its lines are asked for.
pub proof fn a_text_past_the_bounds_is_refused_unparsed(
    text: Seq<char>,
    parsed: Result<Seq<NodeView>, Seq<KdlFaultView>>,
    profile: bool,
    names: NamesView,
)
    ensures
        bounds_fault(text) matches Some(e) ==> text_layer(text, parsed, profile, names) == Err::<
            (ProfileView, LinesView),
            ConfigErrorView,
        >(e),
        utf8(text).len() > MAX_BYTES ==> bounds_fault(text) is Some,
{
}

/// How many `{` there are from `i` on.
pub open spec fn braces_from(b: Seq<u8>, i: int) -> nat
    decreases b.len() - i,
{
    if i < 0 || i >= b.len() {
        0
    } else {
        braces_from(b, i + 1) + (if b[i] == OPEN {
            1nat
        } else {
            0nat
        })
    }
}

proof fn lemma_braces_skip(b: Seq<u8>, i: int, j: int)
    requires
        0 <= i <= j <= b.len(),
    ensures
        braces_from(b, j) <= braces_from(b, i),
    decreases j - i,
{
    if i < j {
        lemma_braces_skip(b, i + 1, j);
    }
}

proof fn lemma_few_braces(b: Seq<u8>, i: int, depth: nat)
    requires
        0 <= i <= b.len(),
        depth + braces_from(b, i) <= MAX_NESTING,
    ensures
        first_too_deep(b, i, depth) is None,
    decreases b.len() - i,
{
    if i < b.len() {
        if b[i] == OPEN {
            lemma_few_braces(b, i + 1, depth + 1);
        } else if b[i] == CLOSE {
            lemma_few_braces(
                b,
                i + 1,
                if depth == 0 {
                    0
                } else {
                    (depth - 1) as nat
                },
            );
        } else if i < token_stop(b, i) <= b.len() {
            lemma_braces_skip(b, i, token_stop(b, i));
            lemma_few_braces(b, token_stop(b, i), depth);
        }
    }
}

proof fn lemma_count_shrinks(s: Seq<char>, i: int, j: int, what: Count)
    requires
        0 <= i <= j <= s.len(),
    ensures
        count(s, j, s.len() as int, what) <= count(s, i, s.len() as int, what),
    decreases j - i,
{
    if i < j {
        lemma_count_shrinks(s, i + 1, j, what);
    }
}

proof fn lemma_comment_from(s: Seq<char>, i: int, j: int)
    requires
        0 <= i <= j <= s.len(),
    ensures
        i <= comment_from(s, i) <= comment_from(s, j) <= s.len(),
    decreases s.len() - i,
{
    if i < j {
        lemma_comment_from(s, i + 1, j);
    } else if i < s.len() {
        lemma_comment_from(s, i + 1, i + 1);
    }
}

/// A step of the scan opens no more blocks than it passes `{`.
proof fn lemma_step_opens(s: Seq<char>, i: int, scan: ScanView)
    requires
        0 <= i < s.len(),
    ensures
        plain_step(s, i, scan) matches Some((end, next)) ==> i < end <= s.len()
            ==> next.levels.len() + count(s, end, s.len() as int, Count::Opens)
            <= scan.levels.len() + count(s, i, s.len() as int, Count::Opens),
{
    if let Some((end, next)) = plain_step(s, i, scan) {
        if i < end <= s.len() {
            lemma_count_shrinks(s, i + 1, end, Count::Opens);
            assert(next.levels.len() > scan.levels.len() ==> s[i] == '{' && next.levels.len()
                == scan.levels.len() + 1);
        }
    }
}

proof fn lemma_light(s: Seq<char>, i: int, scan: ScanView)
    requires
        0 <= i <= s.len(),
        weight(s, i, scan.levels.len()) <= BUDGET,
    ensures
        first_odd(s, i, scan) matches Some((at, depth)) ==> weight(s, at, depth) <= BUDGET,
    decreases s.len() - i,
{
    if i < s.len() {
        lemma_step_opens(s, i, scan);
        if let Some((end, next)) = plain_step(s, i, scan) {
            if i < end <= s.len() {
                lemma_count_shrinks(s, i, end, Count::Dashes);
                lemma_count_shrinks(s, i, end, Count::Strays);
                lemma_comment_from(s, i, end);
                lemma_count_shrinks(s, comment_from(s, i), comment_from(s, end), Count::Marks);
                lemma_light(s, end, next);
            }
        }
    }
}

/// A text of a size that is taken is never refused for its depth when it has
/// no more braces than may be nested.
pub proof fn a_text_with_few_braces_is_parsed(text: Seq<char>)
    requires
        utf8(text).len() <= MAX_BYTES,
        braces_from(utf8(text), 0) <= MAX_NESTING,
    ensures
        bounds_fault(text) is None,
{
    lemma_few_braces(utf8(text), 0, 0);
}

/// A text is handed over to its end when it is plain, and when the whole of it
/// weighs no more than there is room for.
pub proof fn a_plain_text_is_handed_over_whole(text: Seq<char>)
    ensures
        first_odd(text, nodes_from(text), text_start()) is None || weight(text, nodes_from(text), 0)
            <= BUDGET ==> tangled_line(text) is None && handed(text).len() == text.len(),
{
    lemma_hushed_len(text, nodes_from(text), text_start(), text);
    if weight(text, nodes_from(text), 0) <= BUDGET {
        lemma_light(text, nodes_from(text), text_start());
        assert(text.take(text.len() as int) =~= text);
    }
}

proof fn lemma_hushed(s: Seq<char>, i: int, scan: ScanView, out: Seq<char>, k: int)
    requires
        out.len() == s.len(),
        0 <= k < s.len(),
        out[k] == s[k] || out[k] == ' ' && (s[k] == '*' || s[k] == '/'),
    ensures
        ({
            let all = hushed_from(s, i, scan, out);
            &&& all.len() == s.len()
            &&& all[k] == s[k] || all[k] == ' ' && (s[k] == '*' || s[k] == '/')
        }),
    decreases s.len() - i,
{
    if 0 <= i < s.len() {
        if let Some((end, next)) = plain_step(s, i, scan) {
            if i < end <= s.len() {
                let now = if s[i] == '/' && char_at(s, i + 1, '*') {
                    muted(out, i + 2, end - 2)
                } else {
                    out
                };
                lemma_hushed(s, end, next, now, k);
            }
        }
    }
}

proof fn lemma_hushed_len(s: Seq<char>, i: int, scan: ScanView, out: Seq<char>)
    requires
        out.len() == s.len(),
    ensures
        hushed_from(s, i, scan, out).len() == s.len(),
    decreases s.len() - i,
{
    if 0 <= i < s.len() {
        if let Some((end, next)) = plain_step(s, i, scan) {
            if i < end <= s.len() {
                let now = if s[i] == '/' && char_at(s, i + 1, '*') {
                    muted(out, i + 2, end - 2)
                } else {
                    out
                };
                lemma_hushed_len(s, end, next, now);
            }
        }
    }
}

proof fn lemma_same_width(a: Seq<char>, b: Seq<char>)
    requires
        a.len() == b.len(),
        forall|k: int|
            0 <= k < a.len() ==> #[trigger] a[k] == b[k] || a[k] == ' ' && (b[k] == '*' || b[k]
                == '/'),
    ensures
        utf8(a).len() == utf8(b).len(),
    decreases a.len(),
{
    if a.len() > 0 {
        let (x, y) = (a.drop_first(), b.drop_first());
        assert forall|k: int| 0 <= k < x.len() implies #[trigger] x[k] == y[k] || x[k] == ' ' && (
        y[k] == '*' || y[k] == '/') by {
            assert(x[k] == a[k + 1]);
        }
        lemma_same_width(x, y);
        assert(a[0] == b[0] || a[0] == ' ' && (b[0] == '*' || b[0] == '/'));
    }
}

proof fn lemma_odd_inside(s: Seq<char>, i: int, scan: ScanView)
    requires
        0 <= i,
    ensures
        first_odd(s, i, scan) matches Some((at, _)) ==> 0 <= at < s.len(),
    decreases s.len() - i,
{
    if i < s.len() {
        if let Some((end, next)) = plain_step(s, i, scan) {
            if i < end <= s.len() {
                lemma_odd_inside(s, end, next);
            }
        }
    }
}

proof fn lemma_cut_end(s: Seq<char>, i: int, end: int, depth: nat)
    requires
        0 <= i <= end,
    ensures
        i <= cut_end(s, i, end, depth) <= end,
    decreases end - i,
{
    if !(end <= i || weight(s.take(end), i, depth) <= BUDGET) {
        lemma_cut_end(s, i, i + (end - i) / 2, depth);
    }
}

/// A text is cut off inside.
proof fn lemma_cut_inside(s: Seq<char>)
    ensures
        cut_of(s) matches Some((i, end)) ==> 0 <= i <= end < s.len(),
{
    lemma_odd_inside(s, nodes_from(s), text_start());
    if let Some((i, depth)) = first_odd(s, nodes_from(s), text_start()) {
        lemma_cut_end(s, i, s.len() as int, depth);
    }
}

/// What the parser is handed is the text or its beginning, but for some `*`
/// and `/` that are left blank, and every character of it begins at the byte
/// where it began.
pub proof fn what_is_handed_over_is_the_text_but_for_marks(text: Seq<char>, n: int)
    requires
        0 <= n <= handed(text).len(),
    ensures
        handed(text).len() <= text.len(),
        forall|k: int|
            0 <= k < handed(text).len() ==> #[trigger] handed(text)[k] == text[k] || handed(text)[k] == ' '
                && (text[k] == '*' || text[k] == '/'),
        utf8(handed(text).take(n)).len() == utf8(text.take(n)).len(),
{
    let given = handed(text);
    lemma_hushed_len(text, nodes_from(text), text_start(), text);
    lemma_cut_inside(text);
    assert forall|k: int| 0 <= k < given.len() implies #[trigger] given[k] == text[k] || given[k]
        == ' ' && (text[k] == '*' || text[k] == '/') by {
        lemma_hushed(text, nodes_from(text), text_start(), text, k);
    }
    let (a, b) = (given.take(n), text.take(n));
    assert forall|k: int| 0 <= k < a.len() implies #[trigger] a[k] == b[k] || a[k] == ' ' && (b[k]
        == '*' || b[k] == '/') by {
        assert(a[k] == given[k]);
    }
    lemma_same_width(a, b);
}

/// Whether a share reaches nothing but what it may: one of the home a path
/// inside it and never the home itself, one of the host an absolute path, one
/// of `/etc` an entry directly in it that the sandbox does not own, and one of
/// the runtime directory an application's; none of them leads anywhere else by
/// a `..`.
pub open spec fn share_in_bounds(service: ServiceView) -> bool {
    match service {
        ServiceView::HomeShare { path, mode: _ } => components(path).len() > 0 && plain_from(
            components(path),
            0,
        ),
        ServiceView::PathShare { path, mode: _ } => {
            &&& components(path).len() > 0
            &&& components(path)[0] is Root
            &&& plain_from(components(path), 1)
        },
        ServiceView::EtcShare { name } => is_name(name) && entry_named(RESERVED_ETC@, name, 0)
            is None,
        ServiceView::AppRuntime { id, mode: _ } => valid_app_id(id),
        _ => true,
    }
}

proof fn lemma_share(
    node: NodeView,
    kind: ShareKind,
    i: int,
    state: (Option<Seq<char>>, ShareMode),
)
    requires
        state.0 matches Some(s) ==> share_fault(kind, s) is None,
    ensures
        fold(node.entries, i, state, share_steps(node, kind)) matches Ok((value, _)) ==> (
        value matches Some(s) ==> share_fault(kind, s) is None),
    decreases node.entries.len() - i,
{
    if 0 <= i < node.entries.len() {
        let steps = share_steps(node, kind);
        let e = node.entries[i];
        assert(steps(state, e) == share_step(node, kind, state, e));
        if let Ok(next) = steps(state, e) {
            lemma_share(node, kind, i + 1, next);
        }
    }
}

proof fn lemma_etc_name(node: NodeView, i: int, state: Option<Seq<u8>>)
    requires
        state matches Some(name) ==> is_name(name) && entry_named(RESERVED_ETC@, name, 0) is None,
    ensures
        fold(node.entries, i, state, etc_steps(node)) matches Ok(found) ==> (found matches Some(
            name,
        ) ==> is_name(name) && entry_named(RESERVED_ETC@, name, 0) is None),
    decreases node.entries.len() - i,
{
    if 0 <= i < node.entries.len() {
        let steps = etc_steps(node);
        let e = node.entries[i];
        assert(steps(state, e) == etc_step(node, state, e));
        if let ScalarView::Text(s) = e.value {
            lemma_components(utf8(s));
        }
        if let Ok(next) = steps(state, e) {
            lemma_etc_name(node, i + 1, next);
        }
    }
}

proof fn lemma_normalised(s: Seq<char>)
    requires
        ({
            let parts = components(utf8(s));
            plain_from(parts, 0) || parts.len() > 0 && parts[0] is Root && plain_from(parts, 1)
        }),
    ensures
        components(normalised(s)) == components(utf8(s)),
{
    let parts = components(utf8(s));
    lemma_components(utf8(s));
    assert(plain_parts(parts));
    lemma_components_of_path(parts);
}

proof fn lemma_share_in_bounds(node: NodeView)
    ensures
        requested(node) matches Some(Ok(service)) ==> share_in_bounds(service),
{
    let start = (None::<Seq<char>>, ShareMode::ReadOnly);
    lemma_share(node, ShareKind::Home, 0, start);
    lemma_share(node, ShareKind::Path, 0, start);
    lemma_share(node, ShareKind::App, 0, start);
    lemma_etc_name(node, 0, None);
    if let Ok((s, _)) = share_of(node, ShareKind::Home) {
        lemma_normalised(s);
        assert(utf8(s).len() > 0) by {
            if utf8(s).len() == 0 {
                assert(utf8(Seq::<char>::empty()) =~= Seq::<u8>::empty());
                assert(utf8(s) =~= utf8(Seq::<char>::empty()));
                lemma_utf8_injective(s, Seq::empty());
            }
        }
        lemma_some_component(utf8(s));
    }
    if let Ok((s, _)) = share_of(node, ShareKind::Path) {
        lemma_normalised(s);
    }
}

proof fn lemma_written_in_bounds(nodes: Seq<NodeView>, n: int)
    requires
        0 <= n <= nodes.len(),
    ensures
        forall|k: int|
            0 <= k < written(nodes, n).len() ==> share_in_bounds(#[trigger] written(nodes, n)[k]),
    decreases n,
{
    if n > 0 {
        lemma_written_in_bounds(nodes, n - 1);
        lemma_share_in_bounds(nodes[n - 1]);
        let all = written(nodes, n);
        let before = written(nodes, n - 1);
        assert forall|k: int| 0 <= k < all.len() implies share_in_bounds(#[trigger] all[k]) by {
            if k < before.len() {
                assert(all[k] == before[k]);
            }
        }
    }
}

/// Whatever a layer shares of the host's files, it reaches nothing but what
/// that share may.
pub proof fn every_share_stays_in_its_bounds(
    text: Seq<char>,
    nodes: Seq<NodeView>,
    profile: bool,
    names: NamesView,
)
    ensures
        layer_of(text, nodes, profile, names) matches Ok((layer, _)) ==> forall|k: int|
            0 <= k < layer.config.services.len() ==> share_in_bounds(
                #[trigger] layer.config.services[k],
            ),
{
    what_is_granted_is_what_is_written(text, nodes, profile, names);
    lemma_written_in_bounds(nodes, nodes.len() as int);
}

} // verus!
