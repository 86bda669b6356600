//! What holds of every plan's rules.

use vstd::prelude::*;

use crate::config::model::ServiceView;
use crate::dbus::plan::{
    all_added, bundle_args, bundled, explicit, explicit_args, first_a11y, first_session,
    first_system, fixed_args, has_rule, plan_of, RuleView, A11Y_RULES,
};

verus! {

/// Whether every rule of a list stands in `before` or is one of the arguments,
/// from `node`.
spec fn from_args(
    rules: Seq<RuleView>,
    before: Seq<RuleView>,
    args: Seq<Seq<u8>>,
    node: nat,
) -> bool {
    forall|i: int|
        0 <= i < rules.len() ==> before.contains(#[trigger] rules[i]) || (rules[i].node == node
            && args.contains(rules[i].arg))
}

proof fn lemma_all_added(before: Seq<RuleView>, args: Seq<Seq<u8>>, n: int, node: nat)
    requires
        0 <= n <= args.len(),
    ensures
        from_args(all_added(before, args, n, node), before, args, node),
        forall|arg: Seq<u8>|
            has_rule(before, arg) ==> #[trigger] has_rule(all_added(before, args, n, node), arg),
        forall|k: int|
            0 <= k < n ==> has_rule(all_added(before, args, n, node), #[trigger] args[k]),
    decreases n,
{
    let all = all_added(before, args, n, node);
    if n > 0 {
        lemma_all_added(before, args, n - 1, node);
        let rest = all_added(before, args, n - 1, node);
        let arg = args[n - 1];
        assert(args.contains(arg));
        assert forall|a: Seq<u8>| has_rule(rest, a) implies #[trigger] has_rule(all, a) by {
            let i = choose|i: int| 0 <= i < rest.len() && (#[trigger] rest[i]).arg == a;
            assert(all[i] == rest[i]);
        }
        assert(has_rule(all, arg)) by {
            if !has_rule(rest, arg) {
                assert(all[rest.len() as int].arg == arg);
            }
        }
        assert forall|i: int| 0 <= i < all.len() implies before.contains(#[trigger] all[i]) || (
        all[i].node == node && args.contains(all[i].arg)) by {
            if i < rest.len() {
                assert(all[i] == rest[i]);
            }
        }
    } else {
        assert forall|i: int| 0 <= i < all.len() implies before.contains(#[trigger] all[i]) || (
        all[i].node == node && args.contains(all[i].arg)) by {
            assert(before[i] == all[i]);
        }
    }
}

/// Whether a rule of the session bus is one its node asked for: the bus's own
/// node a rule written in it, and any other what that service brings.
pub open spec fn asked_for(services: Seq<ServiceView>, bus: int, rule: RuleView) -> bool {
    &&& rule.node < services.len()
    &&& (rule.node == bus && explicit_args(services[bus]->Dbus_rules).contains(rule.arg))
        || bundle_args(services[rule.node as int]).contains(rule.arg)
}

proof fn lemma_bundled(services: Seq<ServiceView>, bus: int, before: Seq<RuleView>, n: int)
    requires
        0 <= n <= services.len(),
        forall|i: int| 0 <= i < before.len() ==> asked_for(services, bus, #[trigger] before[i]),
    ensures
        forall|i: int|
            0 <= i < bundled(before, services, n).len() ==> asked_for(
                services,
                bus,
                #[trigger] bundled(before, services, n)[i],
            ),
        forall|arg: Seq<u8>|
            has_rule(before, arg) ==> #[trigger] has_rule(bundled(before, services, n), arg),
        forall|k: int, j: int|
            0 <= k < n && 0 <= j < bundle_args(services[k]).len() ==> has_rule(
                bundled(before, services, n),
                #[trigger] bundle_args(services[k])[j],
            ),
    decreases n,
{
    if n > 0 {
        lemma_bundled(services, bus, before, n - 1);
        let rest = bundled(before, services, n - 1);
        let args = bundle_args(services[n - 1]);
        let all = bundled(before, services, n);
        lemma_all_added(rest, args, args.len() as int, (n - 1) as nat);
        assert forall|i: int| 0 <= i < all.len() implies asked_for(
            services,
            bus,
            #[trigger] all[i],
        ) by {
            if rest.contains(all[i]) {
                let k = choose|k: int| 0 <= k < rest.len() && rest[k] == all[i];
                assert(asked_for(services, bus, rest[k]));
            }
        }
        assert forall|k: int, j: int|
            0 <= k < n && 0 <= j < bundle_args(services[k]).len() implies has_rule(
            all,
            #[trigger] bundle_args(services[k])[j],
        ) by {
            if k < n - 1 {
                assert(has_rule(rest, bundle_args(services[k])[j]));
            }
        }
    }
}

proof fn lemma_first(services: Seq<ServiceView>, i: int)
    requires
        0 <= i,
    ensures
        first_session(services, i) matches Some(k) ==> i <= k < services.len(),
        first_system(services, i) matches Some(k) ==> i <= k < services.len(),
        first_a11y(services, i) matches Some(k) ==> i <= k < services.len(),
    decreases services.len() - i,
{
    if i < services.len() {
        lemma_first(services, i + 1);
    }
}

/// Every rule of a bus is one a node asked for, under that node: the session
/// bus has the rules its node writes and those the bundles bring, and all of
/// them; the system bus has those its own node writes and nothing else; and
/// the accessibility bus has its fixed ones and nothing of the configuration.
pub proof fn every_rule_is_one_a_node_asked_for(services: Seq<ServiceView>, instance: Seq<char>)
    ensures
        plan_of(services, instance) matches Some(p) ==> {
            &&& p.session matches Some(s) ==> {
                let bus = s.node as int;
                &&& forall|i: int|
                    0 <= i < s.rules.len() ==> asked_for(services, bus, #[trigger] s.rules[i])
                &&& forall|j: int|
                    0 <= j < explicit_args(services[bus]->Dbus_rules).len() ==> has_rule(
                        s.rules,
                        #[trigger] explicit_args(services[bus]->Dbus_rules)[j],
                    )
                &&& forall|k: int, j: int|
                    0 <= k < services.len() && 0 <= j < bundle_args(services[k]).len()
                        ==> has_rule(s.rules, #[trigger] bundle_args(services[k])[j])
            }
            &&& p.system matches Some(s) ==> {
                let own = explicit_args(services[s.node as int]->SystemBus_rules);
                &&& forall|i: int|
                    0 <= i < s.rules.len() ==> (#[trigger] s.rules[i]).node == s.node
                        && own.contains(s.rules[i].arg)
                &&& forall|j: int| 0 <= j < own.len() ==> has_rule(s.rules, #[trigger] own[j])
            }
            &&& p.a11y matches Some(s) ==> {
                let fixed = fixed_args(A11Y_RULES@);
                &&& forall|i: int|
                    0 <= i < s.rules.len() ==> (#[trigger] s.rules[i]).node == s.node
                        && fixed.contains(s.rules[i].arg)
                &&& forall|j: int| 0 <= j < fixed.len() ==> has_rule(s.rules, #[trigger] fixed[j])
            }
        },
{
    lemma_first(services, 0);
    let none = Seq::<RuleView>::empty();
    if let Some(bus) = first_session(services, 0) {
        let own = services[bus]->Dbus_rules;
        let args = explicit_args(own);
        lemma_all_added(none, args, args.len() as int, bus as nat);
        let before = explicit(own, bus as nat);
        assert forall|i: int| 0 <= i < before.len() implies asked_for(
            services,
            bus,
            #[trigger] before[i],
        ) by {
            assert(!none.contains(before[i]));
        }
        lemma_bundled(services, bus, before, services.len() as int);
    }
    if let Some(bus) = first_system(services, 0) {
        let args = explicit_args(services[bus]->SystemBus_rules);
        lemma_all_added(none, args, args.len() as int, bus as nat);
    }
    if let Some(bus) = first_a11y(services, 0) {
        lemma_all_added(none, fixed_args(A11Y_RULES@), 9, bus as nat);
    }
}

} // verus!
