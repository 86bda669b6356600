//! What is written of a model.

use vstd::arithmetic::power2::pow2;
use vstd::prelude::*;

use crate::catalogue::{grant_at, COSTS, GRAMMARS, RISKS, SUMMARIES};
use crate::config::address::{
    address_bits, address_number, cidr_of, cidr_text, find_char, ip_of, prefix_length, Cidr, IpAddr,
};
use crate::config::document::NodeView;
use crate::config::grants::{entry_named, etc_entry, RESERVED_ETC};
use crate::config::model::{
    allow_out_text, grants_audio, policy_of, server_argv, AllowOut, BusRuleView, NestedView, Proto,
    ServiceView,
};
use crate::config::parse::NODES;
use crate::config::value_laws::lemma_find;
use crate::config::word_laws::a_prefix_length_is_read_of_its_digits;
use crate::error::ConfigErrorView;
use crate::paths::{components, ComponentView};
use crate::text::{decimal_digits, utf8};

verus! {

proof fn lemma_block(
    s: Seq<char>,
    c: Cidr,
    ips: spec_fn(Seq<char>) -> Option<IpAddr>,
)
    requires
        forall|x: Seq<char>| #[trigger] ips(x) == ip_of(x),
    ensures
        cidr_of(s) == Some(c) <==> {
            let bits = address_bits(c.addr);
            ||| !s.contains('/') && ips(s) == Some(c.addr) && c.len == bits
            ||| exists|a: Seq<char>|
                {
                    &&& s == #[trigger] a.push('/') + decimal_digits(c.len as nat)
                    &&& !a.contains('/')
                    &&& ips(a) == Some(c.addr)
                    &&& c.len <= bits
                    &&& address_number(c.addr) % pow2((bits - c.len) as nat) == 0
                }
        },
{
    lemma_find(s, '/', 0);
    if let Some(at) = find_char(s, '/', 0) {
        let (a, b) = (s.take(at), s.skip(at + 1));
        assert(s[at] == '/');
        assert(s.contains('/'));
        assert(s =~= a.push('/') + b);
        assert(!a.contains('/')) by {
            if a.contains('/') {
                let k = a.index_of('/');
                assert(s[k] == '/');
            }
        }
        assert(ips(a) == ip_of(a));
        a_prefix_length_is_read_of_its_digits(b, address_bits(c.addr), c.len as nat);
        if cidr_of(s) == Some(c) {
            let len = prefix_length(b, address_bits(c.addr))->Some_0;
            a_prefix_length_is_read_of_its_digits(b, address_bits(c.addr), len);
            assert(s == a.push('/') + decimal_digits(c.len as nat));
        }
        assert forall|x: Seq<char>|
            s == #[trigger] x.push('/') + decimal_digits(c.len as nat) && !x.contains(
                '/',
            ) implies x == a && b == decimal_digits(c.len as nat) by {
            let n = x.len() as int;
            assert(s[n] == '/');
            assert(at == n) by {
                if at < n {
                    assert(x[at] == s[at]);
                    assert(x.contains(x[at]));
                }
            }
            assert(x =~= a);
            assert(b =~= decimal_digits(c.len as nat));
        }
    } else {
        assert(!s.contains('/'));
        assert(ips(s) == ip_of(s));
        assert forall|x: Seq<char>|
            s == #[trigger] x.push('/') + decimal_digits(c.len as nat) implies false by {
            assert(s[x.len() as int] == '/');
        }
    }
}

/// A block is read exactly of an address alone, which is all of its bits, or
/// of an address, a slash and the digits of a length that its bits hold, with
/// no bit set past that.
pub proof fn a_block_is_an_address_and_a_length(s: Seq<char>, c: Cidr)
    ensures
        cidr_of(s) == Some(c) <==> {
            let bits = address_bits(c.addr);
            ||| !s.contains('/') && ip_of(s) == Some(c.addr) && c.len == bits
            ||| exists|a: Seq<char>|
                {
                    &&& s == #[trigger] a.push('/') + decimal_digits(c.len as nat)
                    &&& !a.contains('/')
                    &&& ip_of(a) == Some(c.addr)
                    &&& c.len <= bits
                    &&& address_number(c.addr) % pow2((bits - c.len) as nat) == 0
                }
        },
{
    let ips = |x: Seq<char>| ip_of(x);
    lemma_block(s, c, ips);
    assert forall|x: Seq<char>| #[trigger] ips(x) == ip_of(x) by {}
}

/// A destination is written as it can be read: the block in quotes, its port
/// and its protocol where it has them.
pub proof fn a_destination_is_written_as_it_is_read(a: AllowOut)
    ensures
        a.port is None && a.proto is None ==> allow_out_text(a) == seq!['"'] + cidr_text(a.dest)
            + seq!['"'],
        a.port matches Some(port) ==> a.proto is None ==> allow_out_text(a) == seq!['"']
            + cidr_text(a.dest) + "\" port="@ + decimal_digits(port as nat),
        a.port is None && a.proto == Some(Proto::Tcp) ==> allow_out_text(a) == seq!['"']
            + cidr_text(a.dest) + "\" proto=\"tcp\""@,
        a.port matches Some(port) ==> a.proto == Some(Proto::Udp) ==> allow_out_text(a) == seq!['"']
            + cidr_text(a.dest) + "\" port="@ + decimal_digits(port as nat) + " proto=\"udp\""@,
{
    reveal_strlit("\"");
    reveal_strlit(" port=");
    reveal_strlit("\" port=");
    reveal_strlit(" proto=\"tcp\"");
    reveal_strlit("\" proto=\"tcp\"");
    let quoted = seq!['"'] + cidr_text(a.dest);
    if let Some(port) = a.port {
        assert(allow_out_text(a) =~= quoted + "\" port="@ + decimal_digits(port as nat) + (
        match a.proto {
            Some(Proto::Tcp) => " proto=\"tcp\""@,
            Some(Proto::Udp) => " proto=\"udp\""@,
            None => Seq::empty(),
        }));
        if a.proto is None {
            assert(allow_out_text(a) =~= quoted + "\" port="@ + decimal_digits(port as nat));
        }
    } else if a.proto is None {
        assert(allow_out_text(a) =~= quoted + seq!['"']);
    } else if a.proto == Some(Proto::Tcp) {
        assert(allow_out_text(a) =~= quoted + "\" proto=\"tcp\""@);
    }
}

/// The nested server fills the screen or has a window of the size asked for,
/// never both; it grabs the input where that is asked for and only there; and
/// it listens on no network whatever is asked.
pub proof fn the_nested_server_is_the_one_asked_for(w: NestedView)
    ensures
        ({
            let argv = server_argv(w);
            let n = argv.len() as int;
            &&& argv.len() == 7 + (if w.fullscreen { 1int } else { 3 }) + (if w.grab {
                1int
            } else {
                0
            })
            &&& argv[1] == utf8(":0"@)
            &&& argv[2] == utf8("-noreset"@)
            &&& argv[3] == utf8("-nolisten"@) && argv[4] == utf8("tcp"@)
            &&& argv[5] == utf8("-ac"@) && argv[6] == utf8("-hidpi"@)
            &&& w.fullscreen ==> argv[7] == utf8("-fullscreen"@)
            &&& !w.fullscreen ==> argv[7] == utf8("-decorate"@) && argv[8] == utf8("-geometry"@)
                && argv[9] == utf8(w.geometry)
            &&& w.grab ==> argv[n - 1] == utf8("-host-grab"@)
        }),
{
}

/// Sound is granted where the socket of either server is, wherever that stands
/// among the grants.
pub proof fn sound_is_granted_with_either_server(services: Seq<ServiceView>)
    ensures
        grants_audio(services) <==> exists|i: int|
            0 <= i < services.len() && (#[trigger] services[i] is Pipewire
                || services[i] is Pulseaudio),
{
    assert forall|i: int|
        0 <= i < services.len() && (#[trigger] services[i] is Pipewire
            || services[i] is Pulseaudio) implies grants_audio(services) by {
        assert(services[i] == ServiceView::Pipewire || services[i] == ServiceView::Pulseaudio);
        assert(services.contains(services[i]));
    }
    if services.contains(ServiceView::Pipewire) {
        assert(services[services.index_of(ServiceView::Pipewire)] is Pipewire);
    }
    if services.contains(ServiceView::Pulseaudio) {
        assert(services[services.index_of(ServiceView::Pulseaudio)] is Pulseaudio);
    }
}

/// A rule sets the policy of its word for its name where it is one of a name
/// alone, and none where it filters messages.
pub proof fn a_rule_sets_the_policy_of_its_word(name: Seq<char>, filter: Seq<char>)
    ensures
        policy_of(BusRuleView::See(name)) == Some((name, "see"@)),
        policy_of(BusRuleView::Talk(name)) == Some((name, "talk"@)),
        policy_of(BusRuleView::Own(name)) == Some((name, "own"@)),
        policy_of(BusRuleView::Call(name, filter)) is None,
        policy_of(BusRuleView::Broadcast(name, filter)) is None,
{
}

proof fn lemma_entry_named(list: Seq<&'static str>, name: Seq<u8>, i: int)
    requires
        0 <= i <= list.len(),
    ensures
        entry_named(list, name, i) is None <==> forall|k: int|
            i <= k < list.len() ==> utf8((#[trigger] list[k])@) != name,
        entry_named(list, name, i) matches Some(owned) ==> utf8(owned) == name,
    decreases list.len() - i,
{
    if i < list.len() && utf8(list[i]@) != name {
        lemma_entry_named(list, name, i + 1);
    } else if i < list.len() {
        assert(utf8(list[i]@) == name);
    }
}

/// An entry of `/etc` can be shared exactly where it is one name and none the
/// sandbox keeps for itself: not the accounts, the groups or their shadows,
/// nor a backup of any.
pub proof fn an_entry_of_etc_is_one_name_of_the_hosts(node: NodeView, s: Seq<char>, name: Seq<u8>)
    ensures
        etc_entry(node, s) == Ok::<Seq<u8>, ConfigErrorView>(name) <==> {
            &&& components(utf8(s)) == seq![ComponentView::Normal(name)]
            &&& name != utf8("passwd"@) && name != utf8("passwd-"@) && name != utf8("passwd+"@)
            &&& name != utf8("group"@) && name != utf8("group-"@) && name != utf8("group+"@)
            &&& name != utf8("shadow"@) && name != utf8("shadow-"@) && name != utf8("shadow+"@)
            &&& name != utf8("gshadow"@) && name != utf8("gshadow-"@) && name != utf8("gshadow+"@)
        },
{
    let parts = components(utf8(s));
    let all = RESERVED_ETC@;
    assert(all[0]@ == "passwd"@ && all[1]@ == "passwd-"@ && all[2]@ == "passwd+"@);
    assert(all[3]@ == "group"@ && all[4]@ == "group-"@ && all[5]@ == "group+"@);
    assert(all[6]@ == "shadow"@ && all[7]@ == "shadow-"@ && all[8]@ == "shadow+"@);
    assert(all[9]@ == "gshadow"@ && all[10]@ == "gshadow-"@ && all[11]@ == "gshadow+"@);
    lemma_entry_named(all, name, 0);
    if etc_entry(node, s) == Ok::<Seq<u8>, ConfigErrorView>(name) {
        assert(parts =~= seq![ComponentView::Normal(name)]);
    }
    if parts == seq![ComponentView::Normal(name)] {
        assert(parts[0] == ComponentView::Normal(name));
        assert(parts.len() == 1);
    }
}

/// The catalogue describes the nodes in the order a configuration lists them,
/// each by its own entry of every list.
pub proof fn every_node_is_described_by_its_own_entry(i: int)
    requires
        0 <= i < NODES@.len(),
    ensures
        grant_at(i).node == NODES@[i],
        grant_at(i).summary == SUMMARIES@[i],
        grant_at(i).cost == COSTS@[i],
        grant_at(i).risk == RISKS@[i],
        grant_at(i).grammar == GRAMMARS@[i],
{
}

} // verus!
