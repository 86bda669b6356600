//! What a `network` node says is what is granted, child by child.

use vstd::prelude::*;

use crate::config::address::{ip_of, ipv6, loopback, IpAddr};
use crate::config::document::{NodeView, ScalarView};
use crate::config::entry_laws::lemma_walk;
use crate::config::model::{default_network, AllowOut, Forward, NetworkMode, NetworkView, Outbound};
use crate::config::network::{
    allow_out_of, dns_of, forward_of, network_mode_of, network_of, network_reason, network_step,
    network_steps, NetworkState,
};
use crate::config::node::{first_property, fold, one_string};
use crate::error::ConfigErrorView;

verus! {

/// What the first `n` nodes of a name say, in their order.
pub open spec fn gathered<T>(
    nodes: Seq<NodeView>,
    name: Seq<char>,
    read: spec_fn(NodeView) -> T,
    n: int,
) -> Seq<T>
    decreases n,
{
    if n <= 0 {
        Seq::empty()
    } else if nodes[n - 1].name == name {
        gathered(nodes, name, read, n - 1).push(read(nodes[n - 1]))
    } else {
        gathered(nodes, name, read, n - 1)
    }
}

/// The one string a node has, which is all it has.
pub open spec fn sole(node: NodeView) -> Option<Seq<char>> {
    if node.entries.len() == 1 && node.entries[0].name is None {
        match node.entries[0].value {
            ScalarView::Text(s) => Some(s),
            _ => None,
        }
    } else {
        None
    }
}

/// A node is read as one string exactly where that is all it has.
pub proof fn one_string_is_all_there_is(node: NodeView)
    ensures
        one_string(node) is Ok <==> sole(node) is Some,
        one_string(node) matches Ok(s) ==> sole(node) == Some(s),
{
    reveal_with_fuel(first_property, 2);
    if node.entries.len() == 1 {
        assert(first_property(node.entries, 1) is None);
    }
}

/// The address a `dns` node names.
pub open spec fn resolver() -> spec_fn(NodeView) -> Option<IpAddr> {
    |c: NodeView|
        match sole(c) {
            Some(s) => ip_of(s),
            None => None,
        }
}

/// A `dns` node is of the one address it has.
pub proof fn a_resolver_is_the_one_written(node: NodeView)
    ensures
        dns_of(node) matches Ok(ip) ==> resolver()(node) == Some(ip),
        dns_of(node) is Ok <==> resolver()(node) is Some,
{
    one_string_is_all_there_is(node);
}

/// The port an `allow-port` node forwards.
pub open spec fn forwarded() -> spec_fn(NodeView) -> Option<Forward> {
    |c: NodeView|
        match forward_of(c) {
            Ok(f) => Some(f),
            Err(_) => None,
        }
}

/// The destination an `allow-out` node lets out.
pub open spec fn let_out() -> spec_fn(NodeView) -> Option<AllowOut> {
    |c: NodeView|
        match allow_out_of(c) {
            Ok(a) => Some(a),
            Err(_) => None,
        }
}

/// What an `outbound` node says.
pub open spec fn outbound_word() -> spec_fn(NodeView) -> Option<Seq<char>> {
    |c: NodeView| sole(c)
}

/// What a node that only has to be there says.
pub open spec fn present() -> spec_fn(NodeView) -> bool {
    |c: NodeView| true
}

/// Whether a node carries no type annotation and has no children.
pub open spec fn bare(c: NodeView) -> bool {
    &&& !c.typed
    &&& forall|i: int| 0 <= i < c.entries.len() ==> !(#[trigger] c.entries[i]).typed
    &&& c.children is None
}

/// Whether a child of a network of a mode is one it may have.
pub open spec fn network_child(
    ips: spec_fn(NodeView) -> Option<IpAddr>,
    ports: spec_fn(NodeView) -> Option<Forward>,
    dests: spec_fn(NodeView) -> Option<AllowOut>,
    mode: NetworkMode,
    c: NodeView,
) -> bool {
    &&& bare(c)
    &&& {
        ||| c.name == "dns"@ && (ips(c) matches Some(ip) && !(mode == NetworkMode::Isolated
            && loopback(ip)))
        ||| c.name == "allow-port"@ && ports(c) is Some
        ||| c.name == "allow-out"@ && dests(c) is Some
        ||| c.name == "no-ipv6"@ && c.entries.len() == 0
        ||| c.name == "outbound"@ && (sole(c) == Some("allow"@) || sole(c) == Some("deny"@))
    }
}

/// The values of what was read.
pub open spec fn somes<T>(s: Seq<T>) -> Seq<Option<T>> {
    s.map_values(|t: T| Some(t))
}

/// What a network says after its first `k` children.
pub open spec fn network_read(
    children: Seq<NodeView>,
    ips: spec_fn(NodeView) -> Option<IpAddr>,
    ports: spec_fn(NodeView) -> Option<Forward>,
    dests: spec_fn(NodeView) -> Option<AllowOut>,
    mode: NetworkMode,
    k: int,
    st: NetworkState,
) -> bool {
    let words = gathered(children, "outbound"@, outbound_word(), k);
    let dns = gathered(children, "dns"@, ips, k);
    let forwards = gathered(children, "allow-port"@, ports, k);
    let outs = gathered(children, "allow-out"@, dests, k);
    let absent = gathered(children, "no-ipv6"@, present(), k);
    &&& forall|i: int| 0 <= i < k ==> network_child(ips, ports, dests, mode, #[trigger] children[i])
    &&& st.0.mode == mode
    &&& somes(st.0.dns) == dns && dns.no_duplicates()
    &&& somes(st.0.forwards) == forwards && forwards.no_duplicates()
    &&& somes(st.0.allow_out) == outs && outs.no_duplicates()
    &&& st.0.no_ipv6 == (absent.len() > 0) && absent.len() <= 1
    &&& st.1 == (words.len() > 0) && words.len() <= 1
    &&& st.0.outbound == Outbound::Deny <==> words == seq![Some("deny"@)]
}

proof fn lemma_network_words()
    ensures
        "dns"@ != "allow-port"@,
        "dns"@ != "no-ipv6"@,
        "dns"@ != "outbound"@,
        "dns"@ != "allow-out"@,
        "allow-port"@ != "no-ipv6"@,
        "allow-port"@ != "outbound"@,
        "allow-port"@ != "allow-out"@,
        "no-ipv6"@ != "outbound"@,
        "no-ipv6"@ != "allow-out"@,
        "outbound"@ != "allow-out"@,
        "allow"@ != "deny"@,
{
    reveal_strlit("dns");
    reveal_strlit("allow-port");
    reveal_strlit("no-ipv6");
    reveal_strlit("outbound");
    reveal_strlit("allow-out");
    reveal_strlit("allow");
    reveal_strlit("deny");
    assert("dns"@.len() == 3);
    assert("allow-port"@.len() == 10);
    assert("no-ipv6"@.len() == 7);
    assert("outbound"@.len() == 8);
    assert("allow-out"@.len() == 9);
    assert("allow"@.len() == 5);
    assert("deny"@.len() == 4);
}

proof fn lemma_somes<T>(s: Seq<T>, t: T)
    ensures
        somes(s.push(t)) == somes(s).push(Some(t)),
        somes(s).contains(Some(t)) <==> s.contains(t),
        somes(s).no_duplicates() && !s.contains(t) ==> somes(s).push(Some(t)).no_duplicates(),
        somes(s).push(Some(t)).no_duplicates() ==> !s.contains(t),
{
    assert(somes(s.push(t)) =~= somes(s).push(Some(t)));
    if s.contains(t) {
        let k = s.index_of(t);
        assert(somes(s)[k] == Some(t));
        let all = somes(s).push(Some(t));
        assert(all[k] == all[s.len() as int]);
    }
    if somes(s).contains(Some(t)) {
        let k = somes(s).index_of(Some(t));
        assert(s[k] == t);
    }
}

/// What a child adds: nothing to the lists of other names.
proof fn lemma_gathered(nodes: Seq<NodeView>, j: int)
    requires
        0 <= j < nodes.len(),
    ensures
        forall|name: Seq<char>, read: spec_fn(NodeView) -> Option<IpAddr>|
            #[trigger] gathered(nodes, name, read, j + 1) == (if nodes[j].name == name {
                gathered(nodes, name, read, j).push(read(nodes[j]))
            } else {
                gathered(nodes, name, read, j)
            }),
        forall|name: Seq<char>, read: spec_fn(NodeView) -> Option<Forward>|
            #[trigger] gathered(nodes, name, read, j + 1) == (if nodes[j].name == name {
                gathered(nodes, name, read, j).push(read(nodes[j]))
            } else {
                gathered(nodes, name, read, j)
            }),
        forall|name: Seq<char>, read: spec_fn(NodeView) -> Option<AllowOut>|
            #[trigger] gathered(nodes, name, read, j + 1) == (if nodes[j].name == name {
                gathered(nodes, name, read, j).push(read(nodes[j]))
            } else {
                gathered(nodes, name, read, j)
            }),
        forall|name: Seq<char>, read: spec_fn(NodeView) -> Option<Seq<char>>|
            #[trigger] gathered(nodes, name, read, j + 1) == (if nodes[j].name == name {
                gathered(nodes, name, read, j).push(read(nodes[j]))
            } else {
                gathered(nodes, name, read, j)
            }),
        forall|name: Seq<char>, read: spec_fn(NodeView) -> bool|
            #[trigger] gathered(nodes, name, read, j + 1) == (if nodes[j].name == name {
                gathered(nodes, name, read, j).push(read(nodes[j]))
            } else {
                gathered(nodes, name, read, j)
            }),
{
}

/// What a child makes of what was said before it, or why it is refused.
pub open spec fn network_next(
    st: NetworkState,
    c: NodeView,
    ip: Option<IpAddr>,
    f: Option<Forward>,
    a: Option<AllowOut>,
    word: Option<Seq<char>>,
) -> Option<NetworkState> {
    let cfg = st.0;
    if !bare(c) {
        None
    } else if c.name == "dns"@ {
        match ip {
            Some(ip) => if (cfg.mode == NetworkMode::Isolated && loopback(ip)) || cfg.dns.contains(
                ip,
            ) {
                None
            } else {
                Some((NetworkView { dns: cfg.dns.push(ip), ..cfg }, st.1))
            },
            None => None,
        }
    } else if c.name == "allow-port"@ {
        match f {
            Some(f) => if cfg.forwards.contains(f) {
                None
            } else {
                Some((NetworkView { forwards: cfg.forwards.push(f), ..cfg }, st.1))
            },
            None => None,
        }
    } else if c.name == "allow-out"@ {
        match a {
            Some(a) => if cfg.allow_out.contains(a) {
                None
            } else {
                Some((NetworkView { allow_out: cfg.allow_out.push(a), ..cfg }, st.1))
            },
            None => None,
        }
    } else if c.name == "no-ipv6"@ {
        if c.entries.len() > 0 || cfg.no_ipv6 {
            None
        } else {
            Some((NetworkView { no_ipv6: true, ..cfg }, st.1))
        }
    } else if c.name == "outbound"@ && !st.1 {
        if word == Some("allow"@) {
            Some((NetworkView { outbound: Outbound::Allow, ..cfg }, true))
        } else if word == Some("deny"@) {
            Some((NetworkView { outbound: Outbound::Deny, ..cfg }, true))
        } else {
            None
        }
    } else {
        None
    }
}

proof fn lemma_network_next(st: NetworkState, c: NodeView)
    ensures
        match network_step(st, c) {
            Ok(t) => network_next(
                st,
                c,
                resolver()(c),
                forwarded()(c),
                let_out()(c),
                sole(c),
            ) == Some(t),
            Err(_) => network_next(
                st,
                c,
                resolver()(c),
                forwarded()(c),
                let_out()(c),
                sole(c),
            ) is None,
        },
{
    lemma_network_words();
    one_string_is_all_there_is(c);
    a_resolver_is_the_one_written(c);
}

/// Whether nothing of what a network says is said twice.
pub open spec fn network_once(
    children: Seq<NodeView>,
    ips: spec_fn(NodeView) -> Option<IpAddr>,
    ports: spec_fn(NodeView) -> Option<Forward>,
    dests: spec_fn(NodeView) -> Option<AllowOut>,
    k: int,
) -> bool {
    &&& gathered(children, "dns"@, ips, k).no_duplicates()
    &&& gathered(children, "allow-port"@, ports, k).no_duplicates()
    &&& gathered(children, "allow-out"@, dests, k).no_duplicates()
    &&& gathered(children, "no-ipv6"@, present(), k).len() <= 1
    &&& gathered(children, "outbound"@, outbound_word(), k).len() <= 1
}

proof fn lemma_once_shrinks(
    children: Seq<NodeView>,
    ips: spec_fn(NodeView) -> Option<IpAddr>,
    ports: spec_fn(NodeView) -> Option<Forward>,
    dests: spec_fn(NodeView) -> Option<AllowOut>,
    j: int,
    k: int,
)
    requires
        0 <= j <= k <= children.len(),
        network_once(children, ips, ports, dests, k),
    ensures
        network_once(children, ips, ports, dests, j),
    decreases k - j,
{
    if j < k {
        lemma_gathered(children, k - 1);
        let dns = gathered(children, "dns"@, ips, k - 1);
        let more = gathered(children, "dns"@, ips, k);
        assert forall|a: int, b: int| 0 <= a < b < dns.len() implies dns[a] != dns[b] by {
            assert(more[a] == dns[a] && more[b] == dns[b]);
        }
        let forwards = gathered(children, "allow-port"@, ports, k - 1);
        let more = gathered(children, "allow-port"@, ports, k);
        assert forall|a: int, b: int|
            0 <= a < b < forwards.len() implies forwards[a] != forwards[b] by {
            assert(more[a] == forwards[a] && more[b] == forwards[b]);
        }
        let outs = gathered(children, "allow-out"@, dests, k - 1);
        let more = gathered(children, "allow-out"@, dests, k);
        assert forall|a: int, b: int| 0 <= a < b < outs.len() implies outs[a] != outs[b] by {
            assert(more[a] == outs[a] && more[b] == outs[b]);
        }
        lemma_once_shrinks(children, ips, ports, dests, j, k - 1);
    }
}

#[verifier::spinoff_prover]
proof fn lemma_network_read(
    children: Seq<NodeView>,
    ips: spec_fn(NodeView) -> Option<IpAddr>,
    ports: spec_fn(NodeView) -> Option<Forward>,
    dests: spec_fn(NodeView) -> Option<AllowOut>,
    mode: NetworkMode,
    j: int,
    s: NetworkState,
)
    requires
        0 <= j < children.len(),
        network_read(children, ips, ports, dests, mode, j, s),
    ensures
        network_next(
            s,
            children[j],
            ips(children[j]),
            ports(children[j]),
            dests(children[j]),
            sole(children[j]),
        ) matches Some(t) ==> network_read(children, ips, ports, dests, mode, j + 1, t),
        network_child(ips, ports, dests, mode, children[j]) && network_once(children, ips, ports, dests, j + 1) ==> network_next(
            s,
            children[j],
            ips(children[j]),
            ports(children[j]),
            dests(children[j]),
            sole(children[j]),
        ) is Some,
{
    let c = children[j];
    lemma_network_words();
    lemma_gathered(children, j);
    if let Some(ip) = ips(c) {
        lemma_somes(s.0.dns, ip);
    }
    if let Some(f) = ports(c) {
        lemma_somes(s.0.forwards, f);
    }
    if let Some(a) = dests(c) {
        lemma_somes(s.0.allow_out, a);
    }
    let words = gathered(children, "outbound"@, outbound_word(), j);
    if words.len() == 0 {
        assert(words.push(sole(c)) =~= seq![sole(c)]);
        assert(words.push(sole(c))[0] == sole(c));
        assert(seq![Some("deny"@)][0] == Some("deny"@));
    }
}

/// The children of a node.
pub open spec fn children_of(node: NodeView) -> Seq<NodeView> {
    match node.children {
        Some(c) => c,
        None => Seq::empty(),
    }
}

/// Whether a network that says these things can honour them.
pub open spec fn honoured(cfg: NetworkView, filtered: bool) -> bool {
    &&& cfg.mode == NetworkMode::Off ==> cfg.dns.len() == 0
    &&& cfg.mode != NetworkMode::Isolated ==> cfg.forwards.len() == 0 && !cfg.no_ipv6 && !filtered
        && cfg.allow_out.len() == 0
    &&& cfg.no_ipv6 ==> {
        &&& forall|i: int| 0 <= i < cfg.dns.len() ==> !ipv6(#[trigger] cfg.dns[i])
        &&& forall|i: int|
            0 <= i < cfg.allow_out.len() ==> !ipv6((#[trigger] cfg.allow_out[i]).dest.addr)
    }
    &&& cfg.allow_out.len() > 0 ==> cfg.outbound == Outbound::Deny
}

proof fn lemma_honoured(st: NetworkState)
    ensures
        network_reason(st) is None <==> honoured(st.0, st.1),
{
}

/// A granted network is what its node says: the mode of its argument, the
/// resolvers, the forwarded ports and the destinations of its children, each
/// kind in the order it is written and none left out or added, outbound
/// traffic denied where that is said and only there, and IPv6 off where that
/// is said and only there.
pub proof fn a_network_is_what_its_node_says(node: NodeView)
    ensures
        network_of(node) matches Ok(cfg) ==> {
            let all = children_of(node);
            let n = all.len() as int;
            let words = gathered(all, "outbound"@, outbound_word(), n);
            &&& network_mode_of(node) == Ok::<NetworkMode, ConfigErrorView>(cfg.mode)
            &&& forall|i: int|
                0 <= i < n ==> network_child(
                    resolver(),
                    forwarded(),
                    let_out(),
                    cfg.mode,
                    #[trigger] all[i],
                )
            &&& network_once(all, resolver(), forwarded(), let_out(), n)
            &&& somes(cfg.dns) == gathered(all, "dns"@, resolver(), n)
            &&& somes(cfg.forwards) == gathered(all, "allow-port"@, forwarded(), n)
            &&& somes(cfg.allow_out) == gathered(all, "allow-out"@, let_out(), n)
            &&& cfg.no_ipv6 <==> gathered(all, "no-ipv6"@, present(), n).len() == 1
            &&& cfg.outbound == Outbound::Deny <==> words == seq![Some("deny"@)]
            &&& honoured(cfg, words.len() > 0)
        },
{
    if let Ok(mode) = network_mode_of(node) {
        lemma_network_walk(children_of(node), mode);
        let start = (NetworkView { mode, ..default_network() }, false);
        if let Ok(st) = fold(children_of(node), 0, start, network_steps()) {
            lemma_honoured(st);
        }
    }
}

/// A network whose children are each ones it may have, say nothing twice and
/// can be honoured together is accepted.
pub proof fn a_network_that_can_be_honoured_is_accepted(node: NodeView, cfg: NetworkView)
    requires
        network_mode_of(node) == Ok::<NetworkMode, ConfigErrorView>(cfg.mode),
        forall|i: int|
            0 <= i < children_of(node).len() ==> network_child(
                resolver(),
                forwarded(),
                let_out(),
                cfg.mode,
                #[trigger] children_of(node)[i],
            ),
        network_once(
            children_of(node),
            resolver(),
            forwarded(),
            let_out(),
            children_of(node).len() as int,
        ),
        network_read(
            children_of(node),
            resolver(),
            forwarded(),
            let_out(),
            cfg.mode,
            children_of(node).len() as int,
            (
                cfg,
                gathered(
                    children_of(node),
                    "outbound"@,
                    outbound_word(),
                    children_of(node).len() as int,
                ).len() > 0,
            ),
        ),
        honoured(
            cfg,
            gathered(
                children_of(node),
                "outbound"@,
                outbound_word(),
                children_of(node).len() as int,
            ).len() > 0,
        ),
    ensures
        network_of(node) == Ok::<NetworkView, ConfigErrorView>(cfg),
{
    let all = children_of(node);
    let mode = cfg.mode;
    lemma_network_walk(all, mode);
    let start = (NetworkView { mode, ..default_network() }, false);
    let st = fold(all, 0, start, network_steps())->Ok_0;
    lemma_somes_equal(st.0.dns, cfg.dns);
    lemma_somes_equal(st.0.forwards, cfg.forwards);
    lemma_somes_equal(st.0.allow_out, cfg.allow_out);
    assert(st.0 == cfg);
    lemma_honoured(st);
}

proof fn lemma_somes_equal<T>(a: Seq<T>, b: Seq<T>)
    ensures
        somes(a) == somes(b) ==> a == b,
{
    if somes(a) == somes(b) {
        assert(a.len() == somes(a).len());
        assert forall|i: int| 0 <= i < a.len() implies a[i] == b[i] by {
            assert(somes(a)[i] == somes(b)[i]);
        }
        assert(a =~= b);
    }
}

proof fn lemma_network_walk(children: Seq<NodeView>, mode: NetworkMode)
    ensures
        ({
            let n = children.len() as int;
            let end = fold(
                children,
                0,
                (NetworkView { mode, ..default_network() }, false),
                network_steps(),
            );
            &&& end matches Ok(st) ==> network_read(
                children,
                resolver(),
                forwarded(),
                let_out(),
                mode,
                n,
                st,
            )
            &&& (forall|i: int|
                0 <= i < n ==> network_child(
                    resolver(),
                    forwarded(),
                    let_out(),
                    mode,
                    #[trigger] children[i],
                )) && network_once(children, resolver(), forwarded(), let_out(), n) ==> end is Ok
        }),
{
    let n = children.len() as int;
    let (ips, ports, dests) = (resolver(), forwarded(), let_out());
    let steps = network_steps();
    let start = (NetworkView { mode, ..default_network() }, false);
    let keeps = |k: int, st: NetworkState| network_read(children, ips, ports, dests, mode, k, st);
    assert forall|j: int, s: NetworkState|
        0 <= j < n && #[trigger] keeps(j, s) implies (steps(s, children[j]) matches Ok(t) ==> keeps(
        j + 1,
        t,
    )) by {
        lemma_network_read(children, ips, ports, dests, mode, j, s);
        lemma_network_next(s, children[j]);
        assert(steps(s, children[j]) == network_step(s, children[j]));
    }
    assert(somes(start.0.dns) =~= gathered(children, "dns"@, ips, 0));
    assert(somes(start.0.forwards) =~= gathered(children, "allow-port"@, ports, 0));
    assert(somes(start.0.allow_out) =~= gathered(children, "allow-out"@, dests, 0));
    assert(gathered(children, "outbound"@, outbound_word(), 0).len() != seq![
        Some("deny"@),
    ].len());
    assert(keeps(0, start));
    lemma_walk(children, 0, start, steps, keeps);
    if (forall|i: int|
        0 <= i < n ==> network_child(ips, ports, dests, mode, #[trigger] children[i]))
        && network_once(children, ips, ports, dests, n) {
        assert forall|j: int, s: NetworkState|
            0 <= j < n && #[trigger] keeps(j, s) implies steps(s, children[j]) is Ok by {
            lemma_once_shrinks(children, ips, ports, dests, j + 1, n);
            lemma_network_read(children, ips, ports, dests, mode, j, s);
            lemma_network_next(s, children[j]);
            assert(steps(s, children[j]) == network_step(s, children[j]));
        }
    }
}

} // verus!
