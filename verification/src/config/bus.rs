//! The nodes that grant a bus: `dbus`, `system-bus` and `mpris`.

use vstd::prelude::*;

use crate::config::address::{find_char, position};
use crate::config::document::{
    entries_view, lemma_node_view, node_views, EntryView, Node, NodeView, Scalar, ScalarView,
};
use crate::config::model::{policy_of, rule_views, BusRule, BusRuleView};
use crate::config::node::{
    argument_fault, bad, bad_node, children_fault, digit, fold, is_digit, is_letter, letter,
    one_string, one_string_arg, reject_arguments, reject_children, reject_types, type_fault,
    unknown_prop, unknown_property,
};
use crate::error::{ConfigError, ConfigErrorView};
use crate::split::{part_views, split_chars, split_on};
use crate::text::{
    chars_of, is_white_space, joined, maybe, outcome, same_text, text_of, white_space,
};

verus! {

/// An element of a bus name: `[A-Za-z_-][A-Za-z0-9_-]*`.
pub open spec fn name_element(s: Seq<char>) -> bool {
    &&& s.len() > 0
    &&& !digit(s[0])
    &&& forall|i: int|
        0 <= i < s.len() ==> letter(#[trigger] s[i]) || digit(s[i]) || s[i] == '_' || s[i] == '-'
}

/// At least `min` name elements joined by `.`, where the last may be `*` to
/// cover the name and every name below it.
pub open spec fn name_glob(s: Seq<char>, min: nat) -> bool {
    let elements = split_on(s, '.');
    &&& elements.len() >= min
    &&& forall|i: int|
        0 <= i < elements.len() ==> name_element(#[trigger] elements[i]) || (i == elements.len() - 1
            && elements[i] == seq!['*'])
}

/// Whether a text is an element of a bus name.
pub fn is_name_element(s: &[char]) -> (r: bool)
    ensures
        r == name_element(s@),
{
    if s.len() == 0 || is_digit(s[0]) {
        return false;
    }
    let mut i: usize = 0;
    while i < s.len()
        invariant
            i <= s@.len(),
            forall|j: int|
                0 <= j < i ==> letter(#[trigger] s@[j]) || digit(s@[j]) || s@[j] == '_' || s@[j]
                    == '-',
        decreases s@.len() - i,
    {
        let c = s[i];
        if !(is_letter(c) || is_digit(c) || c == '_' || c == '-') {
            assert(!letter(s@[i as int]));
            return false;
        }
        i = i + 1;
    }
    true
}

/// Whether a text is at least `min_elements` name elements joined by `.`,
/// the last of which may be `*`. `mpris name` is a suffix of a bus name, so
/// one element is enough there.
pub fn is_name_glob(s: &str, min_elements: usize) -> (r: bool)
    ensures
        r == name_glob(s@, min_elements as nat),
{
    let chars = chars_of(s);
    let elements = split_chars(&chars, '.');
    let ghost all = split_on(s@, '.');
    if elements.len() < min_elements {
        return false;
    }
    let mut i: usize = 0;
    while i < elements.len()
        invariant
            part_views(elements@) == all,
            all == split_on(s@, '.'),
            elements@.len() >= min_elements,
            i <= elements@.len(),
            forall|j: int|
                0 <= j < i ==> name_element(#[trigger] all[j]) || (j == all.len() - 1 && all[j]
                    == seq!['*']),
        decreases elements@.len() - i,
    {
        let element = &elements[i];
        assert(all[i as int] == element@);
        if !is_name_element(element) {
            let star = i == elements.len() - 1 && element.len() == 1 && element[0] == '*';
            if !star {
                assert(all[i as int] == seq!['*'] ==> element@.len() == 1 && element@[0] == '*');
                return false;
            }
            assert(element@ =~= seq!['*']);
        }
        i = i + 1;
    }
    true
}

/// A D-Bus well-known name: at least two `[A-Za-z_-][A-Za-z0-9_-]*` elements
/// joined by `.`, where the last may be `*` to cover the name and every name
/// below it.
pub fn is_bus_name(s: &str) -> (r: bool)
    ensures
        r == name_glob(s@, 2),
{
    is_name_glob(s, 2)
}

/// The bus name a text is.
pub open spec fn bus_name_of(node: NodeView, s: Seq<char>) -> Result<Seq<char>, ConfigErrorView> {
    if name_glob(s, 2) {
        Ok(s)
    } else {
        Err(
            bad_node(
                node,
                "expects a D-Bus well-known name such as \"org.example.App\", optionally ending in `.*`"@,
            ),
        )
    }
}

/// The value is not echoed back: it is arbitrary text and may hold the
/// control bytes the error message would then carry.
fn bus_name(node: &Node, s: &str) -> (r: Result<String, ConfigError>)
    ensures
        outcome(r) == bus_name_of(node@, s@),
{
    if !is_bus_name(s) {
        return Err(
            bad(
                node,
                "expects a D-Bus well-known name such as \"org.example.App\", optionally ending in `.*`",
            ),
        );
    }
    Ok(s.to_owned())
}

/// A method or signal rule: not empty, and without white space or nul.
pub open spec fn member_rule(s: Seq<char>) -> bool {
    s.len() > 0 && forall|i: int|
        0 <= i < s.len() ==> !white_space(#[trigger] s[i]) && s[i] != '\0'
}

fn is_member_rule(s: &[char]) -> (r: bool)
    ensures
        r == member_rule(s@),
{
    let mut i: usize = 0;
    while i < s.len()
        invariant
            i <= s@.len(),
            forall|j: int| 0 <= j < i ==> !white_space(#[trigger] s@[j]) && s@[j] != '\0',
        decreases s@.len() - i,
    {
        if is_white_space(s[i]) || s[i] == '\0' {
            assert(white_space(s@[i as int]) || s@[i as int] == '\0');
            return false;
        }
        i = i + 1;
    }
    s.len() > 0
}

/// `<name>=<rule>`: the two halves.
pub open spec fn narrowed(child: NodeView, arg: Seq<char>) -> Result<
    (Seq<char>, Seq<char>),
    ConfigErrorView,
> {
    match find_char(arg, '=', 0) {
        None => Err(bad_node(child, "expects \"<name>=<rule>\""@)),
        Some(at) => match bus_name_of(child, arg.take(at)) {
            Err(e) => Err(e),
            Ok(name) => if member_rule(arg.skip(at + 1)) {
                Ok((name, arg.skip(at + 1)))
            } else {
                Err(
                    bad_node(
                        child,
                        "rule after `=` must be non-empty and hold no whitespace"@,
                    ),
                )
            },
        },
    }
}

/// The rule of a kind, with an argument.
pub open spec fn rule_with(node: NodeView, child: NodeView, arg: Seq<char>, own: bool) -> Result<
    BusRuleView,
    ConfigErrorView,
> {
    let kind = child.name;
    if kind == "see"@ || kind == "talk"@ || kind == "own"@ {
        if kind == "own"@ && !own {
            Err(bad_node(node, "own is not allowed on the system bus"@))
        } else {
            match bus_name_of(child, arg) {
                Err(e) => Err(e),
                Ok(name) => Ok(
                    if kind == "see"@ {
                        BusRuleView::See(name)
                    } else if kind == "talk"@ {
                        BusRuleView::Talk(name)
                    } else {
                        BusRuleView::Own(name)
                    },
                ),
            }
        }
    } else if kind == "call"@ || kind == "broadcast"@ {
        match narrowed(child, arg) {
            Err(e) => Err(e),
            Ok((name, rule)) => Ok(
                if kind == "call"@ {
                    BusRuleView::Call(name, rule)
                } else {
                    BusRuleView::Broadcast(name, rule)
                },
            ),
        }
    } else {
        Err(ConfigErrorView::UnknownNode(kind))
    }
}

/// The rule one child node is.
pub open spec fn rule_of(node: NodeView, child: NodeView, own: bool) -> Result<
    BusRuleView,
    ConfigErrorView,
> {
    match type_fault(child) {
        Some(e) => Err(e),
        None => match children_fault(child) {
            Some(e) => Err(e),
            None => match one_string(child) {
                Err(e) => Err(e),
                Ok(arg) => rule_with(node, child, arg, own),
            },
        },
    }
}

/// The policy the first of the rules from `i` on sets for a name.
pub open spec fn policy_for(rules: Seq<BusRuleView>, name: Seq<char>, i: int) -> Option<Seq<char>>
    decreases rules.len() - i,
{
    if i < 0 || i >= rules.len() {
        None
    } else {
        match policy_of(rules[i]) {
            Some((n, word)) => if n == name {
                Some(word)
            } else {
                policy_for(rules, name, i + 1)
            },
            None => policy_for(rules, name, i + 1),
        }
    }
}

/// One more rule: a name that has a policy takes no other one.
pub open spec fn with_rule(node: NodeView, rules: Seq<BusRuleView>, rule: BusRuleView) -> Result<
    Seq<BusRuleView>,
    ConfigErrorView,
> {
    match policy_of(rule) {
        Some((name, level)) => match policy_for(rules, name, 0) {
            Some(was) => if was != level {
                Err(
                    bad_node(
                        node,
                        "grants `"@ + name + "` as `"@ + was + "` and as `"@ + level
                            + "`; one name takes one policy"@,
                    ),
                )
            } else {
                Ok(rules.push(rule))
            },
            None => Ok(rules.push(rule)),
        },
        None => Ok(rules.push(rule)),
    }
}

/// One more child of a bus node.
pub open spec fn rules_step(node: NodeView, own: bool, rules: Seq<BusRuleView>, child: NodeView) -> Result<
    Seq<BusRuleView>,
    ConfigErrorView,
> {
    match rule_of(node, child, own) {
        Err(e) => Err(e),
        Ok(rule) => with_rule(node, rules, rule),
    }
}

/// The walk over a bus node's children.
pub open spec fn rules_steps(node: NodeView, own: bool) -> spec_fn(
    Seq<BusRuleView>,
    NodeView,
) -> Result<Seq<BusRuleView>, ConfigErrorView> {
    |rules: Seq<BusRuleView>, child: NodeView| rules_step(node, own, rules, child)
}

/// The rules a bus node holds, `own` among them only where `own` allows it.
pub open spec fn bus_rules_of(node: NodeView, own: bool) -> Result<
    Seq<BusRuleView>,
    ConfigErrorView,
> {
    match argument_fault(node) {
        Some(e) => Err(e),
        None => match node.children {
            None => Ok(Seq::empty()),
            Some(children) => fold(
                children,
                0,
                Seq::<BusRuleView>::empty(),
                rules_steps(node, own),
            ),
        },
    }
}

/// The rules of a `system-bus` node: at least one of them, since a bus that
/// answers nothing is not what the node was written for.
pub open spec fn system_rules_of(node: NodeView) -> Result<Seq<BusRuleView>, ConfigErrorView> {
    match bus_rules_of(node, false) {
        Err(e) => Err(e),
        Ok(rules) => if rules.len() == 0 {
            Err(
                bad_node(
                    node,
                    "expects at least one `see`, `talk`, `call` or `broadcast` rule"@,
                ),
            )
        } else {
            Ok(rules)
        },
    }
}

/// A name is echoed back only where it is known to be one.
fn parse_rule(node: &Node, child: &Node, own: bool) -> (r: Result<BusRule, ConfigError>)
    ensures
        outcome(r) == rule_of(node@, child@, own),
{
    match reject_types(child) {
        Ok(()) => {},
        Err(e) => {
            return Err(e);
        },
    }
    match reject_children(child) {
        Ok(()) => {},
        Err(e) => {
            return Err(e);
        },
    }
    let arg = match one_string_arg(child) {
        Ok(s) => s,
        Err(e) => {
            return Err(e);
        },
    };
    let kind = child.name.as_str();
    let see = same_text(kind, "see");
    let talk = same_text(kind, "talk");
    let owns = same_text(kind, "own");
    if see || talk || owns {
        if owns && !own {
            return Err(bad(node, "own is not allowed on the system bus"));
        }
        return match bus_name(child, arg) {
            Err(e) => Err(e),
            Ok(name) => Ok(
                if see {
                    BusRule::See(name)
                } else if talk {
                    BusRule::Talk(name)
                } else {
                    BusRule::Own(name)
                },
            ),
        };
    }
    let call = same_text(kind, "call");
    if call || same_text(kind, "broadcast") {
        let chars = chars_of(arg);
        let at = match position(&chars, '=') {
            Some(at) => at,
            None => {
                return Err(bad(child, "expects \"<name>=<rule>\""));
            },
        };
        let head = vstd::slice::slice_subrange(chars.as_slice(), 0, at);
        let tail = vstd::slice::slice_subrange(chars.as_slice(), at + 1, chars.len());
        assert(head@ =~= arg@.take(at as int));
        assert(tail@ =~= arg@.skip(at + 1));
        let name = match bus_name(child, &text_of(head)) {
            Ok(n) => n,
            Err(e) => {
                return Err(e);
            },
        };
        if !is_member_rule(tail) {
            return Err(
                bad(child, "rule after `=` must be non-empty and hold no whitespace"),
            );
        }
        let rule = text_of(tail);
        return Ok(
            if call {
                BusRule::Call(name, rule)
            } else {
                BusRule::Broadcast(name, rule)
            },
        );
    }
    Err(ConfigError::UnknownNode(child.name.clone()))
}

fn policy_held<'a>(rules: &'a Vec<BusRule>, name: &str) -> (r: Option<&'static str>)
    ensures
        match r {
            Some(word) => policy_for(rule_views(rules@), name@, 0) == Some(word@),
            None => policy_for(rule_views(rules@), name@, 0) is None,
        },
{
    let ghost all = rule_views(rules@);
    let mut i: usize = 0;
    while i < rules.len()
        invariant
            all == rule_views(rules@),
            i <= rules@.len(),
            policy_for(all, name@, 0) == policy_for(all, name@, i as int),
        decreases rules@.len() - i,
    {
        assert(all[i as int] == rules@[i as int]@);
        match rules[i].policy() {
            Some((n, word)) => {
                if same_text(n, name) {
                    return Some(word);
                }
            },
            None => {},
        }
        i = i + 1;
    }
    None
}

/// What stands in the way of one more rule.
fn policy_conflict(node: &Node, rules: &Vec<BusRule>, rule: &BusRule) -> (r: Option<ConfigError>)
    ensures
        match r {
            Some(e) => with_rule(node@, rule_views(rules@), rule@) == Err::<
                Seq<BusRuleView>,
                ConfigErrorView,
            >(e@),
            None => with_rule(node@, rule_views(rules@), rule@) == Ok::<
                Seq<BusRuleView>,
                ConfigErrorView,
            >(rule_views(rules@).push(rule@)),
        },
{
    match rule.policy() {
        Some((name, level)) => match policy_held(rules, name) {
            Some(was) => {
                if same_text(was, level) {
                    return None;
                }
                let names = joined(&joined("grants `", name), "` as `");
                let first = joined(&joined(&names, was), "` and as `");
                let reason = joined(&joined(&first, level), "`; one name takes one policy");
                Some(bad(node, &reason))
            },
            None => None,
        },
        None => None,
    }
}

/// The rule children both bus nodes take, `own` among them only when
/// `own_allowed`. Names are checked here so a typo cannot become a silent
/// hole in the proxy filter.
pub fn parse_bus_rules(node: &Node, own_allowed: bool) -> (r: Result<Vec<BusRule>, ConfigError>)
    ensures
        match r {
            Ok(rules) => bus_rules_of(node@, own_allowed) == Ok::<
                Seq<BusRuleView>,
                ConfigErrorView,
            >(rule_views(rules@)),
            Err(e) => bus_rules_of(node@, own_allowed) == Err::<
                Seq<BusRuleView>,
                ConfigErrorView,
            >(e@),
        },
{
    broadcast use lemma_node_view;

    match reject_arguments(node) {
        Ok(()) => {},
        Err(e) => {
            return Err(e);
        },
    }
    let mut rules: Vec<BusRule> = Vec::new();
    assert(rule_views(rules@) =~= Seq::empty());
    let children = match &node.children {
        Some(c) => c,
        None => {
            return Ok(rules);
        },
    };
    let ghost all = node_views(children@);
    let ghost steps = rules_steps(node@, own_allowed);
    let ghost total = fold(all, 0, Seq::<BusRuleView>::empty(), steps);
    let mut i: usize = 0;
    while i < children.len()
        invariant
            all == node_views(children@),
            bus_rules_of(node@, own_allowed) == total,
            steps == rules_steps(node@, own_allowed),
            i <= children@.len(),
            total == fold(all, i as int, rule_views(rules@), steps),
        decreases children@.len() - i,
    {
        let ghost before = rule_views(rules@);
        assert(all[i as int] == children@[i as int]@);
        assert(steps(before, all[i as int]) == rules_step(
            node@,
            own_allowed,
            before,
            all[i as int],
        ));
        let rule = match parse_rule(node, &children[i], own_allowed) {
            Ok(rule) => rule,
            Err(e) => {
                return Err(e);
            },
        };
        match policy_conflict(node, &rules, &rule) {
            Some(e) => {
                return Err(e);
            },
            None => {},
        }
        let ghost model = rule@;
        rules.push(rule);
        assert(rule_views(rules@) =~= before.push(model));
        i = i + 1;
    }
    Ok(rules)
}

/// `system-bus { see|talk|call|broadcast "<name>" }`: the children `dbus`
/// takes minus `own`, and at least one of them.
pub fn parse_system_bus(node: &Node) -> (r: Result<Vec<BusRule>, ConfigError>)
    ensures
        match r {
            Ok(rules) => system_rules_of(node@) == Ok::<Seq<BusRuleView>, ConfigErrorView>(
                rule_views(rules@),
            ),
            Err(e) => system_rules_of(node@) == Err::<Seq<BusRuleView>, ConfigErrorView>(e@),
        },
{
    match parse_bus_rules(node, false) {
        Err(e) => Err(e),
        Ok(rules) => {
            if rules.len() == 0 {
                return Err(
                    bad(node, "expects at least one `see`, `talk`, `call` or `broadcast` rule"),
                );
            }
            Ok(rules)
        },
    }
}

/// One more entry of an `mpris` node; the last name wins.
pub open spec fn mpris_step(node: NodeView, state: Option<Seq<char>>, e: EntryView) -> Result<
    Option<Seq<char>>,
    ConfigErrorView,
> {
    match e.name {
        None => Err(bad_node(node, "expects a name=\"...\" property, not arguments"@)),
        Some(prop) => if prop == "name"@ {
            match e.value {
                ScalarView::Text(s) => if name_glob(s, 1) {
                    Ok(Some(s))
                } else {
                    Err(
                        bad_node(
                            node,
                            "name must be dot-separated name elements, `*` allowed last"@,
                        ),
                    )
                },
                _ => Err(bad_node(node, "name must be a string"@)),
            }
        } else {
            Err(unknown_property(node, prop))
        },
    }
}

/// The walk over an `mpris` node's entries.
pub open spec fn mpris_steps(node: NodeView) -> spec_fn(Option<Seq<char>>, EntryView) -> Result<
    Option<Seq<char>>,
    ConfigErrorView,
> {
    |state: Option<Seq<char>>, e: EntryView| mpris_step(node, state, e)
}

/// `mpris name="<suffix>"`: the suffix.
pub open spec fn mpris_of(node: NodeView) -> Result<Seq<char>, ConfigErrorView> {
    match fold(node.entries, 0, None::<Seq<char>>, mpris_steps(node)) {
        Err(e) => Err(e),
        Ok(name) => match children_fault(node) {
            Some(e) => Err(e),
            None => match name {
                Some(name) => Ok(name),
                None => Err(bad_node(node, "expects a name=\"...\" property"@)),
            },
        },
    }
}

/// `mpris name="<suffix>"`: a suffix of `org.mpris.MediaPlayer2.`.
pub fn parse_mpris(node: &Node) -> (r: Result<String, ConfigError>)
    ensures
        outcome(r) == mpris_of(node@),
{
    let ghost all = node@.entries;
    let ghost steps = mpris_steps(node@);
    let ghost total = fold(all, 0, None::<Seq<char>>, steps);
    let mut name: Option<String> = None;
    let mut i: usize = 0;
    while i < node.entries.len()
        invariant
            all == node@.entries,
            all == entries_view(node.entries@),
            steps == mpris_steps(node@),
            total == fold(all, 0, None::<Seq<char>>, steps),
            i <= node.entries@.len(),
            total == fold(all, i as int, maybe(name), steps),
        decreases node.entries@.len() - i,
    {
        let e = &node.entries[i];
        assert(all[i as int] == e@);
        assert(steps(maybe(name), e@) == mpris_step(node@, maybe(name), e@));
        match &e.name {
            None => {
                return Err(bad(node, "expects a name=\"...\" property, not arguments"));
            },
            Some(prop) => {
                if !same_text(prop, "name") {
                    return Err(unknown_prop(node, prop));
                }
                match &e.value {
                    Scalar::Text(s) => {
                        if !is_name_glob(s, 1) {
                            return Err(
                                bad(
                                    node,
                                    "name must be dot-separated name elements, `*` allowed last",
                                ),
                            );
                        }
                        name = Some(s.clone());
                    },
                    _ => {
                        return Err(bad(node, "name must be a string"));
                    },
                }
            },
        }
        i = i + 1;
    }
    match reject_children(node) {
        Ok(()) => {},
        Err(e) => {
            return Err(e);
        },
    }
    match name {
        Some(n) => Ok(n),
        None => Err(bad(node, "expects a name=\"...\" property")),
    }
}

/// Whether no two rules give one name two policies.
pub open spec fn one_policy_each(rules: Seq<BusRuleView>) -> bool {
    forall|i: int, j: int|
        0 <= i < rules.len() && 0 <= j < rules.len() && policy_of(rules[i]) is Some && policy_of(
            rules[j],
        ) is Some && policy_of(#[trigger] rules[i])->Some_0.0 == policy_of(
            #[trigger] rules[j],
        )->Some_0.0 ==> policy_of(rules[i]) == policy_of(rules[j])
}

/// Whether no rule lets the sandbox own a name.
pub open spec fn owns_nothing(rules: Seq<BusRuleView>) -> bool {
    forall|i: int| 0 <= i < rules.len() ==> !((#[trigger] rules[i]) is Own)
}

proof fn lemma_policy_for(rules: Seq<BusRuleView>, name: Seq<char>, i: int, k: int)
    requires
        one_policy_each(rules),
        0 <= i <= k < rules.len(),
        policy_of(rules[k]) is Some,
        (policy_of(rules[k])->Some_0).0 == name,
    ensures
        policy_for(rules, name, i) == Some((policy_of(rules[k])->Some_0).1),
    decreases k - i,
{
    if i < k {
        match policy_of(rules[i]) {
            Some((n, word)) => {
                if n == name {
                    assert(policy_of(rules[i]) == policy_of(rules[k]));
                } else {
                    lemma_policy_for(rules, name, i + 1, k);
                }
            },
            None => {
                lemma_policy_for(rules, name, i + 1, k);
            },
        }
    }
}

proof fn lemma_rules_fold(
    node: NodeView,
    own: bool,
    children: Seq<NodeView>,
    i: int,
    rules: Seq<BusRuleView>,
)
    requires
        one_policy_each(rules),
        own || owns_nothing(rules),
    ensures
        fold(children, i, rules, rules_steps(node, own)) matches Ok(all) ==> one_policy_each(all)
            && (own || owns_nothing(all)),
    decreases children.len() - i,
{
    if 0 <= i < children.len() {
        let steps = rules_steps(node, own);
        assert(steps(rules, children[i]) == rules_step(node, own, rules, children[i]));
        if let Ok(next) = steps(rules, children[i]) {
            let rule = rule_of(node, children[i], own)->Ok_0;
            assert(next == rules.push(rule));
            assert forall|a: int, b: int|
                0 <= a < next.len() && 0 <= b < next.len() && policy_of(next[a]) is Some
                    && policy_of(next[b]) is Some && policy_of(#[trigger] next[a])->Some_0.0
                    == policy_of(#[trigger] next[b])->Some_0.0 implies policy_of(next[a])
                == policy_of(next[b]) by {
                if a < rules.len() && b < rules.len() {
                    assert(next[a] == rules[a] && next[b] == rules[b]);
                } else if a < rules.len() {
                    lemma_policy_for(rules, (policy_of(rule)->Some_0).0, 0, a);
                } else if b < rules.len() {
                    lemma_policy_for(rules, (policy_of(rule)->Some_0).0, 0, b);
                }
            }
            if !own {
                assert forall|a: int| 0 <= a < next.len() implies !((
                #[trigger] next[a]) is Own) by {
                    if a < rules.len() {
                        assert(next[a] == rules[a]);
                    } else {
                        assert(!(rule is Own));
                    }
                }
            }
            lemma_rules_fold(node, own, children, i + 1, next);
        }
    }
}

/// One bus name takes one policy in a node, and a system bus has rules and
/// lets nothing be owned.
pub proof fn bus_rules_are_one_policy_each(node: NodeView)
    ensures
        bus_rules_of(node, true) matches Ok(rules) ==> one_policy_each(rules),
        system_rules_of(node) matches Ok(rules) ==> one_policy_each(rules) && owns_nothing(rules)
            && rules.len() > 0,
{
    if let Some(children) = node.children {
        lemma_rules_fold(node, true, children, 0, Seq::empty());
        lemma_rules_fold(node, false, children, 0, Seq::empty());
    }
}

} // verus!
