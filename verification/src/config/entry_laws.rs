//! What a node says is what is read of it, entry by entry.

use vstd::prelude::*;

use crate::config::address::{cidr_of, Cidr};
use crate::config::document::{EntryView, NodeView, ScalarView};
use crate::config::model::Proto;
use crate::config::network::{allow_out_of, allow_out_step, allow_out_steps};
use crate::config::node::fold;
use crate::error::ConfigErrorView;

verus! {

/// What every step keeps is kept by the walk, and a walk of which no step is
/// refused is not refused.
pub proof fn lemma_walk<S, T>(
    items: Seq<T>,
    i: int,
    state: S,
    step: spec_fn(S, T) -> Result<S, ConfigErrorView>,
    keeps: spec_fn(int, S) -> bool,
)
    requires
        0 <= i <= items.len(),
        keeps(i, state),
        forall|j: int, s: S|
            0 <= j < items.len() && #[trigger] keeps(j, s) ==> (step(s, items[j]) matches Ok(t)
                ==> keeps(j + 1, t)),
    ensures
        fold(items, i, state, step) matches Ok(end) ==> keeps(items.len() as int, end),
        (forall|j: int, s: S|
            0 <= j < items.len() && #[trigger] keeps(j, s) ==> step(s, items[j]) is Ok) ==> fold(
            items,
            i,
            state,
            step,
        ) is Ok,
    decreases items.len() - i,
{
    if i < items.len() {
        assert(keeps(i, state));
        if let Ok(next) = step(state, items[i]) {
            lemma_walk(items, i + 1, next, step, keeps);
        }
    }
}

/// What the last of the first `n` entries with a name holds; an argument has
/// none.
pub open spec fn told(entries: Seq<EntryView>, name: Option<Seq<char>>, n: int) -> Option<ScalarView>
    decreases n,
{
    if n <= 0 {
        None
    } else if entries[n - 1].name == name {
        Some(entries[n - 1].value)
    } else {
        told(entries, name, n - 1)
    }
}

/// How many of the first `n` entries have a name.
pub open spec fn times(entries: Seq<EntryView>, name: Option<Seq<char>>, n: int) -> nat
    decreases n,
{
    if n <= 0 {
        0
    } else {
        times(entries, name, n - 1) + (if entries[n - 1].name == name {
            1nat
        } else {
            0nat
        })
    }
}

/// What a node says of a property.
pub open spec fn property(node: NodeView, name: Seq<char>) -> Option<ScalarView> {
    told(node.entries, Some(name), node.entries.len() as int)
}

/// What a node says of its argument.
pub open spec fn argument(node: NodeView) -> Option<ScalarView> {
    told(node.entries, None, node.entries.len() as int)
}

/// How often a node has a property.
pub open spec fn properties(node: NodeView, name: Seq<char>) -> nat {
    times(node.entries, Some(name), node.entries.len() as int)
}

/// How many arguments a node has.
pub open spec fn arguments(node: NodeView) -> nat {
    times(node.entries, None, node.entries.len() as int)
}

pub proof fn lemma_times(entries: Seq<EntryView>, name: Option<Seq<char>>, a: int, b: int)
    requires
        a <= b,
    ensures
        times(entries, name, a) <= times(entries, name, b),
        told(entries, name, b) is Some <==> times(entries, name, b) > 0,
    decreases b,
{
    if b > 0 {
        if a < b {
            lemma_times(entries, name, a, b - 1);
        } else {
            lemma_times(entries, name, b - 1, b - 1);
        }
    }
}

/// Whether an entry of an `allow-out` node is one it may have.
pub open spec fn out_entry(dests: spec_fn(Seq<char>) -> Option<Cidr>, e: EntryView) -> bool {
    match e.name {
        None => e.value matches ScalarView::Text(s) && dests(s) is Some,
        Some(prop) => prop == "port"@ && (e.value matches ScalarView::Integer(n) && 1 <= n <= 65535)
            || prop == "proto"@ && (e.value == ScalarView::Text("tcp"@) || e.value
            == ScalarView::Text("udp"@)),
    }
}

/// What has been read of an `allow-out` node after `k` entries.
pub open spec fn out_read(
    entries: Seq<EntryView>,
    dests: spec_fn(Seq<char>) -> Option<Cidr>,
    k: int,
    st: (Option<Cidr>, Option<u16>, Option<Proto>),
) -> bool {
    let none: Option<Seq<char>> = None;
    &&& forall|i: int| 0 <= i < k ==> out_entry(dests, #[trigger] entries[i])
    &&& times(entries, none, k) == (if st.0 is Some { 1nat } else { 0 })
    &&& times(entries, Some("port"@), k) == (if st.1 is Some { 1nat } else { 0 })
    &&& times(entries, Some("proto"@), k) == (if st.2 is Some { 1nat } else { 0 })
    &&& st.0 == match told(entries, none, k) {
        Some(ScalarView::Text(s)) => dests(s),
        _ => None,
    }
    &&& match told(entries, Some("port"@), k) {
        Some(ScalarView::Integer(x)) => st.1 matches Some(p) && p == x,
        _ => st.1 is None,
    }
    &&& st.2 == match told(entries, Some("proto"@), k) {
        Some(ScalarView::Text(s)) => Some(
            if s == "udp"@ {
                Proto::Udp
            } else {
                Proto::Tcp
            },
        ),
        _ => None,
    }
}

proof fn lemma_out_words()
    ensures
        "port"@ != "proto"@,
        "tcp"@ != "udp"@,
{
    reveal_strlit("port");
    reveal_strlit("proto");
    reveal_strlit("tcp");
    reveal_strlit("udp");
    assert("port"@.len() != "proto"@.len());
    assert("tcp"@[0] != "udp"@[0]);
}

/// What an entry makes of what has been read before it.
pub open spec fn out_next(
    dests: spec_fn(Seq<char>) -> Option<Cidr>,
    s: (Option<Cidr>, Option<u16>, Option<Proto>),
    e: EntryView,
) -> Option<(Option<Cidr>, Option<u16>, Option<Proto>)> {
    match (e.name, e.value) {
        (None, ScalarView::Text(x)) => if s.0 is None && dests(x) is Some {
            Some((dests(x), s.1, s.2))
        } else {
            None
        },
        (Some(prop), ScalarView::Integer(n)) => if prop == "port"@ && s.1 is None && 1 <= n <= 65535 {
            Some((s.0, Some(n as u16), s.2))
        } else {
            None
        },
        (Some(prop), ScalarView::Text(x)) => if prop == "proto"@ && s.2 is None && (x == "tcp"@ || x
            == "udp"@) {
            Some(
                (
                    s.0,
                    s.1,
                    Some(
                        if x == "udp"@ {
                            Proto::Udp
                        } else {
                            Proto::Tcp
                        },
                    ),
                ),
            )
        } else {
            None
        },
        _ => None,
    }
}

proof fn lemma_out_read(
    entries: Seq<EntryView>,
    dests: spec_fn(Seq<char>) -> Option<Cidr>,
    j: int,
    s: (Option<Cidr>, Option<u16>, Option<Proto>),
)
    requires
        0 <= j < entries.len(),
        out_read(entries, dests, j, s),
    ensures
        out_next(dests, s, entries[j]) matches Some(t) ==> out_read(entries, dests, j + 1, t),
        ({
            &&& out_entry(dests, entries[j])
            &&& times(entries, None, j + 1) <= 1
            &&& times(entries, Some("port"@), j + 1) <= 1
            &&& times(entries, Some("proto"@), j + 1) <= 1
        }) ==> out_next(dests, s, entries[j]) is Some,
{
    lemma_out_words();
}

proof fn lemma_out_next(
    node: NodeView,
    dests: spec_fn(Seq<char>) -> Option<Cidr>,
    s: (Option<Cidr>, Option<u16>, Option<Proto>),
    e: EntryView,
)
    requires
        forall|x: Seq<char>| #[trigger] dests(x) == cidr_of(x),
    ensures
        match allow_out_step(node, s, e) {
            Ok(t) => out_next(dests, s, e) == Some(t),
            Err(_) => out_next(dests, s, e) is None,
        },
{
    lemma_out_words();
}

/// The block a text names.
pub open spec fn dests() -> spec_fn(Seq<char>) -> Option<Cidr> {
    |s: Seq<char>| cidr_of(s)
}

/// An `allow-out` node is accepted when it names one destination and says its
/// port and its protocol at most once each; the destination, the port and the
/// protocol let out are those written, whatever else is, and every port and
/// both protocols where none is.
pub proof fn an_allowed_destination_is_the_one_written(node: NodeView)
    ensures
        allow_out_of(node) is Ok <==> {
            &&& forall|i: int| 0 <= i < node.entries.len() ==> out_entry(dests(), #[trigger] node.entries[i])
            &&& arguments(node) == 1
            &&& properties(node, "port"@) <= 1
            &&& properties(node, "proto"@) <= 1
        },
        allow_out_of(node) matches Ok(a) ==> {
            &&& argument(node) matches Some(ScalarView::Text(s)) && cidr_of(s) == Some(a.dest)
            &&& match property(node, "port"@) {
                Some(ScalarView::Integer(n)) => a.port matches Some(port) && port == n,
                _ => a.port is None,
            }
            &&& a.proto == match property(node, "proto"@) {
                Some(ScalarView::Text(s)) => Some(
                    if s == "udp"@ {
                        Proto::Udp
                    } else {
                        Proto::Tcp
                    },
                ),
                _ => None,
            }
        },
{
    let none: Option<Seq<char>> = None;
    let entries = node.entries;
    let n = entries.len() as int;
    let steps = allow_out_steps(node);
    let keeps = |k: int, st: (Option<Cidr>, Option<u16>, Option<Proto>)| out_read(entries, dests(), k, st);
    assert forall|j: int, s: (Option<Cidr>, Option<u16>, Option<Proto>)|
        0 <= j < n && #[trigger] keeps(j, s) implies (steps(s, entries[j]) matches Ok(t) ==> keeps(
        j + 1,
        t,
    )) by {
        lemma_out_read(entries, dests(), j, s);
            lemma_out_next(node, dests(), s, entries[j]);
        assert(steps(s, entries[j]) == allow_out_step(node, s, entries[j]));
    }
    let start = (None::<Cidr>, None::<u16>, None::<Proto>);
    assert(keeps(0, start));
    lemma_walk(entries, 0, start, steps, keeps);
    if (forall|i: int| 0 <= i < n ==> out_entry(dests(), #[trigger] entries[i])) && arguments(node) == 1
        && properties(node, "port"@) <= 1 && properties(node, "proto"@) <= 1 {
        assert forall|j: int, s: (Option<Cidr>, Option<u16>, Option<Proto>)|
            0 <= j < n && #[trigger] keeps(j, s) implies steps(s, entries[j]) is Ok by {
            lemma_out_read(entries, dests(), j, s);
            lemma_out_next(node, dests(), s, entries[j]);
            assert(steps(s, entries[j]) == allow_out_step(node, s, entries[j]));
            assert(out_entry(dests(), entries[j]));
            lemma_times(entries, none, j + 1, n);
            lemma_times(entries, Some("port"@), j + 1, n);
            lemma_times(entries, Some("proto"@), j + 1, n);
        }
    }
    lemma_times(entries, none, n, n);
}

} // verus!
