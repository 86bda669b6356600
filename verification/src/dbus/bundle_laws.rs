//! What each grant brings to a bus, rule by rule.

use vstd::prelude::*;

use crate::config::model::{BusRuleView, ServiceView};
use crate::dbus::identity::{identity_text, instance_app_id};
use crate::dbus::plan::{
    all_added, bundle_args, explicit, explicit_args, first_a11y, first_session, first_system,
    has_rule, plan_of, rendered, RuleView,
};
use crate::dbus::plan_laws::every_rule_is_one_a_node_asked_for;
use crate::text::utf8;

verus! {

/// The one rule an `mpris` grant brings lets the sandbox own a name: after
/// `--own=` stands the players' prefix and then the name as it was written,
/// with a wildcard in it or without.
pub proof fn an_mpris_grant_owns_its_name(name: Seq<char>)
    ensures
        bundle_args(ServiceView::Mpris { name }).len() == 1,
        exists|rule: Seq<char>|
            {
                &&& bundle_args(ServiceView::Mpris { name })[0] == #[trigger] utf8(rule)
                &&& rule.take(6) == "--own="@
                &&& rule.skip(6) == "org.mpris.MediaPlayer2."@ + name
            },
{
    let rule = "--own=org.mpris.MediaPlayer2."@ + name;
    reveal_strlit("--own=org.mpris.MediaPlayer2.");
    reveal_strlit("--own=");
    reveal_strlit("org.mpris.MediaPlayer2.");
    assert(rule.take(6) =~= "--own="@);
    assert(rule.skip(6) =~= "org.mpris.MediaPlayer2."@ + name);
    assert(bundle_args(ServiceView::Mpris { name })[0] == utf8(rule));
}

/// The rules every other grant brings: the portals, the notifications, the
/// tray and the input methods those of their own names, and no other grant
/// any.
pub proof fn every_bundle_is_of_its_own_names(service: ServiceView)
    ensures
        service is Notify ==> bundle_args(service) == seq![
            utf8("--talk=org.freedesktop.Notifications"@),
        ],
        service is Tray ==> bundle_args(service) == seq![
            utf8("--talk=org.kde.StatusNotifierWatcher"@),
        ],
        service is InputMethod ==> bundle_args(service) == seq![
            utf8("--talk=org.freedesktop.portal.Fcitx"@),
            utf8("--talk=org.freedesktop.portal.IBus"@),
        ],
        service is Portals ==> bundle_args(service) == seq![
            utf8("--talk=org.freedesktop.portal.Desktop"@),
            utf8("--talk=org.freedesktop.portal.Documents"@),
            utf8("--talk=org.freedesktop.portal.FileChooser"@),
            utf8("--call=org.freedesktop.portal.*=*"@),
            utf8("--broadcast=org.freedesktop.portal.*=@/org/freedesktop/portal/*"@),
        ],
        bundle_args(service).len() > 0 <==> (service is Notify || service is Tray
            || service is InputMethod || service is Portals || service is Mpris),
{
    assert(service is InputMethod ==> bundle_args(service) =~= seq![
        utf8("--talk=org.freedesktop.portal.Fcitx"@),
        utf8("--talk=org.freedesktop.portal.IBus"@),
    ]);
    assert(service is Portals ==> bundle_args(service) =~= seq![
        utf8("--talk=org.freedesktop.portal.Desktop"@),
        utf8("--talk=org.freedesktop.portal.Documents"@),
        utf8("--talk=org.freedesktop.portal.FileChooser"@),
        utf8("--call=org.freedesktop.portal.*=*"@),
        utf8("--broadcast=org.freedesktop.portal.*=@/org/freedesktop/portal/*"@),
    ]);
}

/// A rule a node writes is handed on as what it is: its word, then its name as
/// it was written, then, where it filters messages, an `=` and the filter.
pub proof fn a_rule_is_handed_on_as_it_is_written(name: Seq<char>, filter: Seq<char>)
    ensures
        rendered(BusRuleView::See(name)).take(6) == "--see="@,
        rendered(BusRuleView::See(name)).skip(6) == name,
        rendered(BusRuleView::Talk(name)).take(7) == "--talk="@,
        rendered(BusRuleView::Talk(name)).skip(7) == name,
        rendered(BusRuleView::Own(name)).take(6) == "--own="@,
        rendered(BusRuleView::Own(name)).skip(6) == name,
        rendered(BusRuleView::Call(name, filter)).take(7) == "--call="@,
        rendered(BusRuleView::Call(name, filter)).skip(7) == name.push('=') + filter,
        rendered(BusRuleView::Broadcast(name, filter)).take(12) == "--broadcast="@,
        rendered(BusRuleView::Broadcast(name, filter)).skip(12) == name.push('=') + filter,
{
    reveal_strlit("--see=");
    reveal_strlit("--talk=");
    reveal_strlit("--own=");
    reveal_strlit("--call=");
    reveal_strlit("--broadcast=");
    reveal_strlit("=");
    assert(rendered(BusRuleView::See(name)).take(6) =~= "--see="@);
    assert(rendered(BusRuleView::See(name)).skip(6) =~= name);
    assert(rendered(BusRuleView::Talk(name)).take(7) =~= "--talk="@);
    assert(rendered(BusRuleView::Talk(name)).skip(7) =~= name);
    assert(rendered(BusRuleView::Own(name)).take(6) =~= "--own="@);
    assert(rendered(BusRuleView::Own(name)).skip(6) =~= name);
    assert(rendered(BusRuleView::Call(name, filter)).take(7) =~= "--call="@);
    assert(rendered(BusRuleView::Call(name, filter)).skip(7) =~= name.push('=') + filter);
    assert(rendered(BusRuleView::Broadcast(name, filter)).take(12) =~= "--broadcast="@);
    assert(rendered(BusRuleView::Broadcast(name, filter)).skip(12) =~= name.push('=') + filter);
}

proof fn lemma_in_order(args: Seq<Seq<u8>>, n: int, node: nat)
    requires
        0 <= n <= args.len(),
        forall|i: int, j: int|
            #![trigger args[i], args[j]]
            0 <= i < j < args.len() ==> args[i] != args[j],
    ensures
        all_added(Seq::empty(), args, n, node).len() == n,
        forall|i: int|
            0 <= i < n ==> #[trigger] all_added(Seq::empty(), args, n, node)[i] == (RuleView {
                arg: args[i],
                node,
            }),
    decreases n,
{
    if n > 0 {
        lemma_in_order(args, n - 1, node);
        let rest = all_added(Seq::empty(), args, n - 1, node);
        assert forall|k: int| 0 <= k < rest.len() implies (#[trigger] rest[k]).arg != args[n
            - 1] by {
            assert(args[k] != args[n - 1]);
        }
    }
}

/// The rules a node writes stand in the order it writes them, each under that
/// node, where none is written twice.
pub proof fn rules_stand_in_the_order_they_are_written(rules: Seq<BusRuleView>, node: nat)
    ensures
        (forall|i: int, j: int|
            #![trigger rules[i], rules[j]]
            0 <= i < j < rules.len() ==> utf8(rendered(rules[i])) != utf8(rendered(rules[j])))
            ==> {
            &&& explicit(rules, node).len() == rules.len()
            &&& forall|i: int|
                0 <= i < rules.len() ==> #[trigger] explicit(rules, node)[i] == (RuleView {
                    arg: utf8(rendered(rules[i])),
                    node,
                })
        },
{
    if forall|i: int, j: int|
        #![trigger rules[i], rules[j]]
        0 <= i < j < rules.len() ==> utf8(rendered(rules[i])) != utf8(rendered(rules[j])) {
        let args = explicit_args(rules);
        assert forall|i: int, j: int|
            #![trigger args[i], args[j]]
            0 <= i < j < args.len() implies args[i] != args[j] by {
            assert(args[i] == utf8(rendered(rules[i])));
            assert(args[j] == utf8(rendered(rules[j])));
        }
        lemma_in_order(args, rules.len() as int, node);
    }
}

proof fn lemma_first_of(services: Seq<ServiceView>, i: int)
    requires
        0 <= i,
    ensures
        match first_session(services, i) {
            Some(k) => i <= k < services.len() && services[k] is Dbus && forall|j: int|
                i <= j < k ==> !(#[trigger] services[j] is Dbus),
            None => forall|j: int| i <= j < services.len() ==> !(#[trigger] services[j] is Dbus),
        },
        match first_system(services, i) {
            Some(k) => i <= k < services.len() && services[k] is SystemBus && forall|j: int|
                i <= j < k ==> !(#[trigger] services[j] is SystemBus),
            None => forall|j: int|
                i <= j < services.len() ==> !(#[trigger] services[j] is SystemBus),
        },
        match first_a11y(services, i) {
            Some(k) => i <= k < services.len() && services[k] is A11y && forall|j: int|
                i <= j < k ==> !(#[trigger] services[j] is A11y),
            None => forall|j: int| i <= j < services.len() ==> !(#[trigger] services[j] is A11y),
        },
    decreases services.len() - i,
{
    if i < services.len() {
        lemma_first_of(services, i + 1);
    }
}

/// A plan is made where a bus is granted, and filters each bus that is, under
/// the first node that grants it; it is for portals where they are granted.
/// On the session bus stand the rules its node writes and those every bundle
/// brings.
pub proof fn a_plan_is_of_the_buses_that_are_granted(services: Seq<ServiceView>, instance: Seq<char>)
    ensures
        plan_of(services, instance) is Some <==> exists|i: int|
            0 <= i < services.len() && (#[trigger] services[i] is Dbus || services[i] is SystemBus),
        plan_of(services, instance) matches Some(p) ==> {
            &&& p.session is Some <==> exists|i: int|
                0 <= i < services.len() && #[trigger] services[i] is Dbus
            &&& p.system is Some <==> exists|i: int|
                0 <= i < services.len() && #[trigger] services[i] is SystemBus
            &&& p.a11y is Some <==> exists|i: int|
                0 <= i < services.len() && #[trigger] services[i] is A11y
            &&& p.portals <==> exists|i: int|
                0 <= i < services.len() && #[trigger] services[i] is Portals
            &&& p.session matches Some(s) ==> {
                let own = services[s.node as int]->Dbus_rules;
                &&& s.node < services.len() && services[s.node as int] is Dbus
                &&& forall|j: int| 0 <= j < s.node ==> !(#[trigger] services[j] is Dbus)
                &&& forall|j: int|
                    0 <= j < own.len() ==> has_rule(s.rules, utf8(rendered(#[trigger] own[j])))
                &&& forall|k: int, j: int|
                    0 <= k < services.len() && 0 <= j < bundle_args(services[k]).len()
                        ==> has_rule(s.rules, #[trigger] bundle_args(services[k])[j])
            }
            &&& p.system matches Some(s) ==> {
                let own = services[s.node as int]->SystemBus_rules;
                &&& s.node < services.len() && services[s.node as int] is SystemBus
                &&& forall|j: int| 0 <= j < s.node ==> !(#[trigger] services[j] is SystemBus)
                &&& forall|j: int|
                    0 <= j < own.len() ==> has_rule(s.rules, utf8(rendered(#[trigger] own[j])))
            }
            &&& p.a11y matches Some(s) ==> s.node < services.len()
                && services[s.node as int] is A11y
        },
{
    lemma_first_of(services, 0);
    every_rule_is_one_a_node_asked_for(services, instance);
    if let Some(p) = plan_of(services, instance) {
        if p.portals {
            let i = services.index_of(ServiceView::Portals);
            assert(services[i] is Portals);
        }
        assert forall|i: int| 0 <= i < services.len() && #[trigger] services[i] is Portals implies
            p.portals by {
            assert(services[i] == ServiceView::Portals);
        }
        if let Some(s) = p.session {
            let own = services[s.node as int]->Dbus_rules;
            assert forall|j: int| 0 <= j < own.len() implies has_rule(
                s.rules,
                utf8(rendered(#[trigger] own[j])),
            ) by {
                assert(explicit_args(own)[j] == utf8(rendered(own[j])));
            }
        }
        if let Some(s) = p.system {
            let own = services[s.node as int]->SystemBus_rules;
            assert forall|j: int| 0 <= j < own.len() implies has_rule(
                s.rules,
                utf8(rendered(#[trigger] own[j])),
            ) by {
                assert(explicit_args(own)[j] == utf8(rendered(own[j])));
            }
        }
    }
}

/// A plan carries the identity of its instance: the id made of its name, and
/// what the sandbox is told to be, with an instance where portals are granted.
pub proof fn a_plan_carries_the_identity_of_its_instance(
    services: Seq<ServiceView>,
    instance: Seq<char>,
)
    ensures
        plan_of(services, instance) matches Some(p) ==> {
            &&& p.app_id == instance_app_id(instance)
            &&& p.flatpak_info == utf8(identity_text(instance, p.portals))
        },
{
}

} // verus!
