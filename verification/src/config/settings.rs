//! The nodes that grant nothing by themselves: the command, the environment,
//! the terminal, the syscall filter and what is accepted of the lint.

use vstd::prelude::*;

use crate::config::document::{
    entries_view, lemma_node_view, node_views, EntryView, Node, NodeView, Scalar, ScalarView,
};
use crate::config::model::{
    default_seccomp, deny_views, env_views, Errno, LintAllow, LintAllowView, SeccompConfig,
    SeccompView, TtyMode, Userns,
};
use crate::config::network::{unexpected, unexpected_word};
use crate::config::node::{
    argument_fault, bad, bad_node, children_fault, digit, first_property, flag_fault, fold,
    forbidden, forbidden_byte, is_digit, is_letter, letter, only_string, only_string_arg,
    reject_arguments, reject_children, reject_entries, reject_types, type_fault, unknown_prop,
    unknown_property,
};
use crate::error::{ConfigError, ConfigErrorView};
use crate::text::{
    byte_views, bytes_of, chars_of, decimal, decimal_digits, ends, ends_with, joined, maybe,
    outcome, same_text, text_views, trim, trimmed, utf8,
};

verus! {

/// How bad a lint finding is.
#[derive(Debug, Clone, Copy, PartialEq, Eq, Structural)]
pub enum Severity {
    Error,
    Warning,
    Note,
}

/// A lint check: its id and how bad what it finds is.
#[derive(Debug, PartialEq, Eq)]
pub struct Check {
    pub id: String,
    pub severity: Severity,
}

/// The names a configuration may use that other components define: the lint
/// checks there are, and the syscalls the filter's compiler knows.
#[derive(Debug, PartialEq, Eq)]
pub struct Names {
    pub checks: Vec<Check>,
    pub syscalls: Vec<String>,
}

/// Model of [`Names`].
pub struct NamesView {
    pub checks: Seq<(Seq<char>, Severity)>,
    pub syscalls: Seq<Seq<char>>,
}

/// The models of a list of checks.
pub open spec fn check_views(checks: Seq<Check>) -> Seq<(Seq<char>, Severity)> {
    Seq::new(checks.len(), |i: int| (checks[i].id@, checks[i].severity))
}

impl View for Names {
    type V = NamesView;

    open spec fn view(&self) -> NamesView {
        NamesView { checks: check_views(self.checks@), syscalls: text_views(self.syscalls@) }
    }
}

/// How bad what the first check of that id from `i` on finds is.
pub open spec fn check_severity(checks: Seq<(Seq<char>, Severity)>, id: Seq<char>, i: int) -> Option<
    Severity,
>
    decreases checks.len() - i,
{
    if i < 0 || i >= checks.len() {
        None
    } else if checks[i].0 == id {
        Some(checks[i].1)
    } else {
        check_severity(checks, id, i + 1)
    }
}

impl Names {
    fn severity(&self, id: &str) -> (r: Option<Severity>)
        ensures
            r == check_severity(self@.checks, id@, 0),
    {
        let ghost all = self@.checks;
        let mut i: usize = 0;
        while i < self.checks.len()
            invariant
                all == check_views(self.checks@),
                i <= self.checks@.len(),
                check_severity(all, id@, 0) == check_severity(all, id@, i as int),
            decreases self.checks@.len() - i,
        {
            assert(all[i as int] == (self.checks@[i as int].id@, self.checks@[i as int].severity));
            if same_text(&self.checks[i].id, id) {
                return Some(self.checks[i].severity);
            }
            i = i + 1;
        }
        None
    }

    fn knows_syscall(&self, name: &str) -> (r: bool)
        ensures
            r == self@.syscalls.contains(name@),
    {
        let ghost all = self@.syscalls;
        let mut i: usize = 0;
        while i < self.syscalls.len()
            invariant
                all == text_views(self.syscalls@),
                i <= self.syscalls@.len(),
                forall|j: int| 0 <= j < i ==> all[j] != name@,
            decreases self.syscalls@.len() - i,
        {
            assert(all[i as int] == self.syscalls@[i as int]@);
            if same_text(&self.syscalls[i], name) {
                assert(all.contains(all[i as int]));
                return true;
            }
            i = i + 1;
        }
        false
    }
}

/// Keys `env` may not set: the sandbox owns them.
pub const RESERVED_ENV: [&'static str; 12] = [
    "HOME",
    "PATH",
    "XDG_RUNTIME_DIR",
    "USER",
    "LOGNAME",
    "WAYLAND_DISPLAY",
    "DISPLAY",
    "XAUTHORITY",
    "XDG_SESSION_TYPE",
    "PULSE_SERVER",
    "DBUS_SESSION_BUS_ADDRESS",
    "DBUS_SYSTEM_BUS_ADDRESS",
];

/// Whether a text is one of a list.
pub open spec fn listed(list: Seq<&'static str>, s: Seq<char>) -> bool {
    exists|i: int| 0 <= i < list.len() && (#[trigger] list[i])@ == s
}

/// Whether a key is the sandbox's own.
pub fn is_reserved_env(key: &str) -> (r: bool)
    ensures
        r == listed(RESERVED_ENV@, key@),
{
    let mut i: usize = 0;
    while i < RESERVED_ENV.len()
        invariant
            i <= RESERVED_ENV@.len(),
            forall|j: int| 0 <= j < i ==> (#[trigger] RESERVED_ENV@[j])@ != key@,
        decreases RESERVED_ENV@.len() - i,
    {
        if same_text(RESERVED_ENV[i], key) {
            assert(RESERVED_ENV@[i as int]@ == key@);
            return true;
        }
        i = i + 1;
    }
    false
}

/// A usable variable name: `[A-Za-z_][A-Za-z0-9_]*`. `--setenv` refuses an
/// empty key or one holding `=`, so only such a key can reach it.
pub open spec fn env_key(key: Seq<char>) -> bool {
    &&& key.len() > 0
    &&& !digit(key[0])
    &&& forall|i: int|
        0 <= i < key.len() ==> letter(#[trigger] key[i]) || digit(key[i]) || key[i] == '_'
}

/// Whether a text is a usable variable name.
pub fn is_env_key(key: &str) -> (r: bool)
    ensures
        r == env_key(key@),
{
    let chars = chars_of(key);
    if chars.len() == 0 || is_digit(chars[0]) {
        return false;
    }
    let mut i: usize = 0;
    while i < chars.len()
        invariant
            chars@ == key@,
            i <= chars@.len(),
            forall|j: int|
                0 <= j < i ==> letter(#[trigger] key@[j]) || digit(key@[j]) || key@[j] == '_',
        decreases chars@.len() - i,
    {
        let c = chars[i];
        if !(is_letter(c) || is_digit(c) || c == '_') {
            assert(!letter(key@[i as int]));
            return false;
        }
        i = i + 1;
    }
    true
}

/// Whether a variable of that name is there.
pub open spec fn has_key(env: Seq<(Seq<char>, Seq<char>)>, key: Seq<char>) -> bool {
    exists|i: int| 0 <= i < env.len() && (#[trigger] env[i]).0 == key
}

/// One more variable of an `env` node.
pub open spec fn env_step(
    node: NodeView,
    env: Seq<(Seq<char>, Seq<char>)>,
    e: EntryView,
) -> Result<Seq<(Seq<char>, Seq<char>)>, ConfigErrorView> {
    match e.name {
        None => Err(bad_node(node, "expects KEY=\"value\" properties, not arguments"@)),
        Some(key) => match e.value {
            ScalarView::Text(value) => if !env_key(key) {
                Err(bad_node(node, "`"@ + key + "` is not a usable variable name"@))
            } else if forbidden(value, 0) is Some {
                Err(
                    bad_node(
                        node,
                        "value of "@ + key + " contains "@ + forbidden(value, 0)->Some_0,
                    ),
                )
            } else if listed(RESERVED_ENV@, key) {
                Err(bad_node(node, key + " is set by bubbler and cannot be overridden"@))
            } else if has_key(env, key) {
                Err(ConfigErrorView::Duplicate(key))
            } else {
                Ok(env.push((key, value)))
            },
            _ => Err(bad_node(node, "values must be strings"@)),
        },
    }
}

/// The walk over an `env` node's entries.
pub open spec fn env_steps(node: NodeView) -> spec_fn(
    Seq<(Seq<char>, Seq<char>)>,
    EntryView,
) -> Result<Seq<(Seq<char>, Seq<char>)>, ConfigErrorView> {
    |env: Seq<(Seq<char>, Seq<char>)>, e: EntryView| env_step(node, env, e)
}

/// The variables after an `env` node that follows the ones in `env`.
pub open spec fn env_of(node: NodeView, env: Seq<(Seq<char>, Seq<char>)>) -> Result<
    Seq<(Seq<char>, Seq<char>)>,
    ConfigErrorView,
> {
    if node.entries.len() == 0 {
        Err(bad_node(node, "expects KEY=\"value\" properties"@))
    } else {
        match fold(node.entries, 0, env, env_steps(node)) {
            Err(e) => Err(e),
            Ok(all) => match children_fault(node) {
                Some(e) => Err(e),
                None => Ok(all),
            },
        }
    }
}

fn holds_key(env: &Vec<(String, String)>, key: &str) -> (r: bool)
    ensures
        r == has_key(env_views(env@), key@),
{
    let ghost all = env_views(env@);
    let mut i: usize = 0;
    while i < env.len()
        invariant
            all == env_views(env@),
            i <= env@.len(),
            forall|j: int| 0 <= j < i ==> (#[trigger] all[j]).0 != key@,
        decreases env@.len() - i,
    {
        assert(all[i as int].0 == env@[i as int].0@);
        if same_text(&env[i].0, key) {
            assert(all[i as int].0 == key@);
            return true;
        }
        i = i + 1;
    }
    false
}

/// `env KEY="value" ...`: the variables of the node after those already
/// there.
pub fn parse_env(node: &Node, env: Vec<(String, String)>) -> (r: Result<
    Vec<(String, String)>,
    ConfigError,
>)
    ensures
        match r {
            Ok(all) => env_of(node@, env_views(env@)) == Ok::<
                Seq<(Seq<char>, Seq<char>)>,
                ConfigErrorView,
            >(env_views(all@)),
            Err(e) => env_of(node@, env_views(env@)) == Err::<
                Seq<(Seq<char>, Seq<char>)>,
                ConfigErrorView,
            >(e@),
        },
{
    if node.entries.len() == 0 {
        return Err(bad(node, "expects KEY=\"value\" properties"));
    }
    let ghost first = env_views(env@);
    let ghost all = node@.entries;
    let ghost steps = env_steps(node@);
    let ghost total = fold(all, 0, first, steps);
    let mut out = env;
    let mut i: usize = 0;
    while i < node.entries.len()
        invariant
            all == node@.entries,
            all.len() > 0,
            all == entries_view(node.entries@),
            first == env_views(env@),
            steps == env_steps(node@),
            total == fold(all, 0, first, steps),
            i <= node.entries@.len(),
            total == fold(all, i as int, env_views(out@), steps),
        decreases node.entries@.len() - i,
    {
        let e = &node.entries[i];
        let ghost before = env_views(out@);
        assert(all[i as int] == e@);
        assert(steps(before, e@) == env_step(node@, before, e@));
        let key = match &e.name {
            Some(key) => key,
            None => {
                return Err(bad(node, "expects KEY=\"value\" properties, not arguments"));
            },
        };
        let value = match &e.value {
            Scalar::Text(value) => value,
            _ => {
                return Err(bad(node, "values must be strings"));
            },
        };
        if !is_env_key(key) {
            let reason = joined(&joined("`", key), "` is not a usable variable name");
            return Err(bad(node, &reason));
        }
        match forbidden_byte(value) {
            Some(what) => {
                let reason = joined(&joined(&joined("value of ", key), " contains "), what);
                return Err(bad(node, &reason));
            },
            None => {},
        }
        if is_reserved_env(key) {
            return Err(bad(node, &joined(key, " is set by bubbler and cannot be overridden")));
        }
        if holds_key(&out, key) {
            return Err(ConfigError::Duplicate(key.clone()));
        }
        out.push((key.clone(), value.clone()));
        assert(env_views(out@) =~= before.push((key@, value@)));
        i = i + 1;
    }
    match reject_children(node) {
        Ok(()) => Ok(out),
        Err(e) => Err(e),
    }
}

/// One more entry of a `lint-allow` node: the id and the reason.
pub open spec fn lint_step(
    node: NodeView,
    state: (Option<Seq<char>>, Option<Seq<char>>),
    e: EntryView,
) -> Result<(Option<Seq<char>>, Option<Seq<char>>), ConfigErrorView> {
    match e.name {
        None => if state.0 is Some {
            Err(bad_node(node, "expects exactly one check id argument"@))
        } else {
            match e.value {
                ScalarView::Text(s) => Ok((Some(s), state.1)),
                _ => Err(bad_node(node, "check id must be a string"@)),
            }
        },
        Some(prop) => if prop == "reason"@ {
            match e.value {
                ScalarView::Text(s) => Ok((state.0, Some(s))),
                _ => Err(bad_node(node, "reason must be a string"@)),
            }
        } else {
            Err(unknown_property(node, prop))
        },
    }
}

/// The walk over a `lint-allow` node's entries.
pub open spec fn lint_steps(node: NodeView) -> spec_fn(
    (Option<Seq<char>>, Option<Seq<char>>),
    EntryView,
) -> Result<(Option<Seq<char>>, Option<Seq<char>>), ConfigErrorView> {
    |state: (Option<Seq<char>>, Option<Seq<char>>), e: EntryView| lint_step(node, state, e)
}

/// Whether a text looks like the id of a check: a plain kebab-case word
/// carries no control bytes.
pub open spec fn kebab(s: Seq<char>) -> bool {
    forall|i: int|
        0 <= i < s.len() ==> ('a' <= #[trigger] s[i] && s[i] <= 'z') || digit(s[i]) || s[i] == '-'
}

/// Why a finding cannot be accepted. An id that is no check would silence
/// nothing, and neither would one whose check reports an error.
pub open spec fn lint_reason(names: NamesView, id: Seq<char>, reason: Option<Seq<char>>) -> Option<
    Seq<char>,
> {
    match check_severity(names.checks, id, 0) {
        None => Some(
            if kebab(id) {
                "`"@ + id + "` is not a lint check"@
            } else {
                "expects a lint check id such as \"x11-without-reason\""@
            },
        ),
        Some(Severity::Error) => Some(
            "`"@ + id + "` reports an error, and an error cannot be accepted away"@,
        ),
        Some(_) => match reason {
            None => Some("expects a reason=\"...\" property"@),
            Some(why) => if trimmed(why).len() == 0 {
                Some("reason must say why the finding is accepted"@)
            } else {
                match forbidden(why, 0) {
                    Some(what) => Some("reason contains "@ + what),
                    None => None,
                }
            },
        },
    }
}

/// `lint-allow "<check-id>" reason="<text>"`: the finding accepted and why.
pub open spec fn lint_allow_of(node: NodeView, names: NamesView) -> Result<
    LintAllowView,
    ConfigErrorView,
> {
    match fold(node.entries, 0, (None::<Seq<char>>, None::<Seq<char>>), lint_steps(node)) {
        Err(e) => Err(e),
        Ok((id, reason)) => match children_fault(node) {
            Some(e) => Err(e),
            None => match id {
                None => Err(bad_node(node, "expects exactly one check id argument"@)),
                Some(id) => match lint_reason(names, id, reason) {
                    Some(why) => Err(bad_node(node, why)),
                    None => Ok(LintAllowView { id, reason: reason->Some_0 }),
                },
            },
        },
    }
}

fn is_kebab(s: &str) -> (r: bool)
    ensures
        r == kebab(s@),
{
    let chars = chars_of(s);
    let mut i: usize = 0;
    while i < chars.len()
        invariant
            chars@ == s@,
            i <= chars@.len(),
            forall|j: int|
                0 <= j < i ==> ('a' <= #[trigger] s@[j] && s@[j] <= 'z') || digit(s@[j]) || s@[j]
                    == '-',
        decreases chars@.len() - i,
    {
        let c = chars[i];
        if !((c >= 'a' && c <= 'z') || is_digit(c) || c == '-') {
            assert(!digit(s@[i as int]));
            return false;
        }
        i = i + 1;
    }
    true
}

fn lint_refusal(names: &Names, id: &str, reason: &Option<String>) -> (r: Option<String>)
    ensures
        maybe(r) == lint_reason(names@, id@, maybe(*reason)),
{
    match names.severity(id) {
        None => {
            if is_kebab(id) {
                Some(joined(&joined("`", id), "` is not a lint check"))
            } else {
                Some("expects a lint check id such as \"x11-without-reason\"".to_owned())
            }
        },
        Some(Severity::Error) => Some(
            joined(
                &joined("`", id),
                "` reports an error, and an error cannot be accepted away",
            ),
        ),
        Some(_) => match reason {
            None => Some("expects a reason=\"...\" property".to_owned()),
            Some(why) => {
                if trim(why).as_str().is_empty() {
                    return Some("reason must say why the finding is accepted".to_owned());
                }
                match forbidden_byte(why) {
                    Some(what) => Some(joined("reason contains ", what)),
                    None => None,
                }
            },
        },
    }
}

/// `lint-allow "<check-id>" reason="<text>"`. The id is resolved against the
/// check table, so a typo cannot leave a finding un-silenced and the file's
/// author none the wiser; an id whose check reports an error is refused for
/// the same reason, since nothing would ever silence it.
pub fn parse_lint_allow(node: &Node, names: &Names) -> (r: Result<LintAllow, ConfigError>)
    ensures
        outcome(r) == lint_allow_of(node@, names@),
{
    let ghost all = node@.entries;
    let ghost steps = lint_steps(node@);
    let ghost start = (None::<Seq<char>>, None::<Seq<char>>);
    let ghost total = fold(all, 0, start, steps);
    let mut id: Option<String> = None;
    let mut reason: Option<String> = None;
    let mut i: usize = 0;
    while i < node.entries.len()
        invariant
            all == node@.entries,
            all == entries_view(node.entries@),
            start == (None::<Seq<char>>, None::<Seq<char>>),
            steps == lint_steps(node@),
            total == fold(all, 0, start, steps),
            i <= node.entries@.len(),
            total == fold(all, i as int, (maybe(id), maybe(reason)), steps),
        decreases node.entries@.len() - i,
    {
        let e = &node.entries[i];
        let ghost state = (maybe(id), maybe(reason));
        assert(all[i as int] == e@);
        assert(steps(state, e@) == lint_step(node@, state, e@));
        match &e.name {
            None => {
                if id.is_some() {
                    return Err(bad(node, "expects exactly one check id argument"));
                }
                match &e.value {
                    Scalar::Text(s) => {
                        id = Some(s.clone());
                    },
                    _ => {
                        return Err(bad(node, "check id must be a string"));
                    },
                }
            },
            Some(prop) => {
                if !same_text(prop, "reason") {
                    return Err(unknown_prop(node, prop));
                }
                match &e.value {
                    Scalar::Text(s) => {
                        reason = Some(s.clone());
                    },
                    _ => {
                        return Err(bad(node, "reason must be a string"));
                    },
                }
            },
        }
        i = i + 1;
    }
    match reject_children(node) {
        Ok(()) => {},
        Err(e) => {
            return Err(e);
        },
    }
    let id = match id {
        Some(id) => id,
        None => {
            return Err(bad(node, "expects exactly one check id argument"));
        },
    };
    match lint_refusal(names, &id, &reason) {
        Some(why) => Err(bad(node, &why)),
        None => match reason {
            Some(reason) => Ok(LintAllow { id, reason }),
            None => Err(bad(node, "expects a reason=\"...\" property")),
        },
    }
}

/// A plain syscall name: `[a-z0-9_]+`.
pub open spec fn syscall_word(s: Seq<char>) -> bool {
    s.len() > 0 && forall|i: int|
        0 <= i < s.len() ==> ('a' <= #[trigger] s[i] && s[i] <= 'z') || digit(s[i]) || s[i] == '_'
}

/// The syscall a text names. A name is echoed back only once it is known to
/// be a plain identifier: config text is untrusted and may hold the control
/// bytes the error message would then carry.
pub open spec fn syscall_of(node: NodeView, names: NamesView, s: Seq<char>) -> Result<
    Seq<char>,
    ConfigErrorView,
> {
    if !syscall_word(s) {
        Err(bad_node(node, "expects a syscall name such as \"keyctl\""@))
    } else if !names.syscalls.contains(s) {
        Err(bad_node(node, "`"@ + s + "` is not a syscall name libseccomp knows"@))
    } else {
        Ok(s)
    }
}

fn is_syscall_word(s: &str) -> (r: bool)
    ensures
        r == syscall_word(s@),
{
    let chars = chars_of(s);
    let mut i: usize = 0;
    while i < chars.len()
        invariant
            chars@ == s@,
            i <= chars@.len(),
            forall|j: int|
                0 <= j < i ==> ('a' <= #[trigger] s@[j] && s@[j] <= 'z') || digit(s@[j]) || s@[j]
                    == '_',
        decreases chars@.len() - i,
    {
        let c = chars[i];
        if !((c >= 'a' && c <= 'z') || is_digit(c) || c == '_') {
            assert(!digit(s@[i as int]));
            return false;
        }
        i = i + 1;
    }
    chars.len() > 0
}

fn syscall_name(node: &Node, names: &Names, s: &str) -> (r: Result<String, ConfigError>)
    ensures
        outcome(r) == syscall_of(node@, names@, s@),
{
    if !is_syscall_word(s) {
        return Err(bad(node, "expects a syscall name such as \"keyctl\""));
    }
    if !names.knows_syscall(s) {
        let reason = joined(&joined("`", s), "` is not a syscall name libseccomp knows");
        return Err(bad(node, &reason));
    }
    Ok(s.to_owned())
}

/// One more entry of an `allow` or `deny` child: a syscall name, or the
/// `errno` that is read apart.
pub open spec fn syscalls_step(
    node: NodeView,
    names: NamesView,
    state: Seq<Seq<char>>,
    e: EntryView,
) -> Result<Seq<Seq<char>>, ConfigErrorView> {
    match e.name {
        Some(prop) => if prop == "errno"@ {
            Ok(state)
        } else {
            Err(unknown_property(node, prop))
        },
        None => match e.value {
            ScalarView::Text(s) => match syscall_of(node, names, s) {
                Ok(name) => Ok(state.push(name)),
                Err(err) => Err(err),
            },
            _ => Err(bad_node(node, "expects syscall names as strings"@)),
        },
    }
}

/// The walk over an `allow` or `deny` child's entries.
pub open spec fn syscalls_steps(node: NodeView, names: NamesView) -> spec_fn(
    Seq<Seq<char>>,
    EntryView,
) -> Result<Seq<Seq<char>>, ConfigErrorView> {
    |state: Seq<Seq<char>>, e: EntryView| syscalls_step(node, names, state, e)
}

/// The syscall names of one `allow` or `deny` child.
pub open spec fn syscalls_of(node: NodeView, names: NamesView) -> Result<
    Seq<Seq<char>>,
    ConfigErrorView,
> {
    match fold(node.entries, 0, Seq::<Seq<char>>::empty(), syscalls_steps(node, names)) {
        Err(e) => Err(e),
        Ok(all) => if all.len() == 0 {
            Err(bad_node(node, "expects at least one syscall name"@))
        } else {
            Ok(all)
        },
    }
}

/// The syscall names argued to one `allow` or `deny` child.
pub fn syscall_names(node: &Node, names: &Names) -> (r: Result<Vec<String>, ConfigError>)
    ensures
        match r {
            Ok(all) => syscalls_of(node@, names@) == Ok::<Seq<Seq<char>>, ConfigErrorView>(
                text_views(all@),
            ),
            Err(e) => syscalls_of(node@, names@) == Err::<Seq<Seq<char>>, ConfigErrorView>(e@),
        },
{
    let ghost all = node@.entries;
    let ghost steps = syscalls_steps(node@, names@);
    let ghost total = fold(all, 0, Seq::<Seq<char>>::empty(), steps);
    let mut out: Vec<String> = Vec::new();
    assert(text_views(out@) =~= Seq::empty());
    let mut i: usize = 0;
    while i < node.entries.len()
        invariant
            all == node@.entries,
            all == entries_view(node.entries@),
            steps == syscalls_steps(node@, names@),
            total == fold(all, 0, Seq::<Seq<char>>::empty(), steps),
            i <= node.entries@.len(),
            total == fold(all, i as int, text_views(out@), steps),
        decreases node.entries@.len() - i,
    {
        let e = &node.entries[i];
        let ghost before = text_views(out@);
        assert(all[i as int] == e@);
        assert(steps(before, e@) == syscalls_step(node@, names@, before, e@));
        match &e.name {
            Some(prop) => {
                if !same_text(prop, "errno") {
                    return Err(unknown_prop(node, prop));
                }
            },
            None => {
                match &e.value {
                    Scalar::Text(s) => {
                        match syscall_name(node, names, s) {
                            Ok(name) => {
                                out.push(name);
                                assert(text_views(out@) =~= before.push(name@));
                            },
                            Err(err) => {
                                return Err(err);
                            },
                        }
                    },
                    _ => {
                        return Err(bad(node, "expects syscall names as strings"));
                    },
                }
            },
        }
        i = i + 1;
    }
    if out.len() == 0 {
        return Err(bad(node, "expects at least one syscall name"));
    }
    Ok(out)
}

/// One more entry of a `deny` child, for its `errno`.
pub open spec fn errno_step(node: NodeView, state: Errno, e: EntryView) -> Result<
    Errno,
    ConfigErrorView,
> {
    if e.name == Some("errno"@) {
        match e.value {
            ScalarView::Text(s) => if s == "EPERM"@ {
                Ok(Errno::Eperm)
            } else if s == "ENOSYS"@ {
                Ok(Errno::Enosys)
            } else {
                Err(bad_node(node, "errno must be \"EPERM\" or \"ENOSYS\""@))
            },
            _ => Err(bad_node(node, "errno must be \"EPERM\" or \"ENOSYS\""@)),
        }
    } else {
        Ok(state)
    }
}

/// The walk over a `deny` child's entries for its `errno`.
pub open spec fn errno_steps(node: NodeView) -> spec_fn(Errno, EntryView) -> Result<
    Errno,
    ConfigErrorView,
> {
    |state: Errno, e: EntryView| errno_step(node, state, e)
}

/// What a `deny` child's syscalls fail with: `EPERM` unless it says
/// otherwise, and the last of several.
pub open spec fn errno_of(node: NodeView) -> Result<Errno, ConfigErrorView> {
    fold(node.entries, 0, Errno::Eperm, errno_steps(node))
}

/// `deny` without `errno` means `EPERM`; KDL lets a property repeat, and the
/// last one wins. Every occurrence is checked, not only the one KDL lets win:
/// a misspelled value that a later one overrides is still a mistake.
pub fn deny_errno(node: &Node) -> (r: Result<Errno, ConfigError>)
    ensures
        match r {
            Ok(x) => errno_of(node@) == Ok::<Errno, ConfigErrorView>(x),
            Err(e) => errno_of(node@) == Err::<Errno, ConfigErrorView>(e@),
        },
{
    let ghost all = node@.entries;
    let ghost steps = errno_steps(node@);
    let mut errno = Errno::Eperm;
    let mut i: usize = 0;
    while i < node.entries.len()
        invariant
            all == node@.entries,
            all == entries_view(node.entries@),
            steps == errno_steps(node@),
            i <= node.entries@.len(),
            errno_of(node@) == fold(all, i as int, errno, steps),
        decreases node.entries@.len() - i,
    {
        let e = &node.entries[i];
        assert(all[i as int] == e@);
        assert(steps(errno, e@) == errno_step(node@, errno, e@));
        let named = match &e.name {
            Some(prop) => same_text(prop, "errno"),
            None => false,
        };
        if named {
            match &e.value {
                Scalar::Text(s) => {
                    if same_text(s, "EPERM") {
                        errno = Errno::Eperm;
                    } else if same_text(s, "ENOSYS") {
                        errno = Errno::Enosys;
                    } else {
                        return Err(bad(node, "errno must be \"EPERM\" or \"ENOSYS\""));
                    }
                },
                _ => {
                    return Err(bad(node, "errno must be \"EPERM\" or \"ENOSYS\""));
                },
            }
        }
        i = i + 1;
    }
    Ok(errno)
}

/// Syscalls, each with what it fails with.
pub open spec fn denied(names: Seq<Seq<char>>, errno: Errno) -> Seq<(Seq<char>, Errno)> {
    names.map_values(|n: Seq<char>| (n, errno))
}

/// One more child of a `seccomp` node.
pub open spec fn seccomp_step(names: NamesView, cfg: SeccompView, child: NodeView) -> Result<
    SeccompView,
    ConfigErrorView,
> {
    match type_fault(child) {
        Some(e) => Err(e),
        None => match children_fault(child) {
            Some(e) => Err(e),
            None => if child.name == "allow"@ {
                match first_property(child.entries, 0) {
                    Some(prop) => Err(unknown_property(child, prop)),
                    None => match syscalls_of(child, names) {
                        Err(e) => Err(e),
                        Ok(all) => Ok(SeccompView { allow: cfg.allow + all, ..cfg }),
                    },
                }
            } else if child.name == "deny"@ {
                match errno_of(child) {
                    Err(e) => Err(e),
                    Ok(errno) => match syscalls_of(child, names) {
                        Err(e) => Err(e),
                        Ok(all) => if all.contains("prctl"@) {
                            Err(bad_node(child, "glibc and Chromium need prctl"@))
                        } else {
                            Ok(SeccompView { deny: cfg.deny + denied(all, errno), ..cfg })
                        },
                    },
                }
            } else if child.name == "disable"@ {
                match flag_fault(child) {
                    Some(e) => Err(e),
                    None => Ok(SeccompView { disable: true, ..cfg }),
                }
            } else {
                Err(ConfigErrorView::UnknownNode(child.name))
            },
        },
    }
}

/// The walk over a `seccomp` node's children.
pub open spec fn seccomp_steps(names: NamesView) -> spec_fn(SeccompView, NodeView) -> Result<
    SeccompView,
    ConfigErrorView,
> {
    |cfg: SeccompView, child: NodeView| seccomp_step(names, cfg, child)
}

/// The changes to the denylist a `seccomp` node makes.
pub open spec fn seccomp_of(node: NodeView, names: NamesView) -> Result<
    SeccompView,
    ConfigErrorView,
> {
    match argument_fault(node) {
        Some(e) => Err(e),
        None => match node.children {
            None => Ok(default_seccomp()),
            Some(children) => fold(children, 0, default_seccomp(), seccomp_steps(names)),
        },
    }
}

fn reject_properties(node: &Node) -> (r: Result<(), ConfigError>)
    ensures
        match r {
            Ok(()) => first_property(node@.entries, 0) is None,
            Err(e) => first_property(node@.entries, 0) matches Some(prop) && e@
                == unknown_property(node@, prop),
        },
{
    let ghost all = node@.entries;
    let mut i: usize = 0;
    while i < node.entries.len()
        invariant
            all == entries_view(node.entries@),
            all == node@.entries,
            i <= node.entries@.len(),
            first_property(all, 0) == first_property(all, i as int),
        decreases node.entries@.len() - i,
    {
        assert(all[i as int] == node.entries@[i as int]@);
        match &node.entries[i].name {
            Some(prop) => {
                return Err(unknown_prop(node, prop));
            },
            None => {},
        }
        i = i + 1;
    }
    Ok(())
}

/// Take one child of a `seccomp` node in.
fn take_filter(cfg: &mut SeccompConfig, names: &Names, child: &Node) -> (r: Result<
    (),
    ConfigError,
>)
    ensures
        match r {
            Ok(()) => seccomp_step(names@, old(cfg)@, child@) == Ok::<SeccompView, ConfigErrorView>(
                final(cfg)@,
            ),
            Err(e) => seccomp_step(names@, old(cfg)@, child@) == Err::<
                SeccompView,
                ConfigErrorView,
            >(e@),
        },
{
    match reject_types(child) {
        Ok(()) => {},
        Err(e) => {
            return Err(e);
        },
    }
    match reject_children(child) {
        Ok(()) => {},
        Err(e) => {
            return Err(e);
        },
    }
    if same_text(&child.name, "allow") {
        match reject_properties(child) {
            Ok(()) => {},
            Err(e) => {
                return Err(e);
            },
        }
        let mut all = match syscall_names(child, names) {
            Ok(all) => all,
            Err(e) => {
                return Err(e);
            },
        };
        let ghost more = text_views(all@);
        let ghost before = text_views(cfg.allow@);
        cfg.allow.append(&mut all);
        assert(text_views(cfg.allow@) =~= before + more);
    } else if same_text(&child.name, "deny") {
        let errno = match deny_errno(child) {
            Ok(x) => x,
            Err(e) => {
                return Err(e);
            },
        };
        let all = match syscall_names(child, names) {
            Ok(all) => all,
            Err(e) => {
                return Err(e);
            },
        };
        let ghost more = text_views(all@);
        let ghost before = deny_views(cfg.deny@);
        let mut i: usize = 0;
        assert(before + denied(more, errno).take(0) =~= before);
        while i < all.len()
            invariant
                more == text_views(all@),
                i <= all@.len(),
                type_fault(child@) is None,
                children_fault(child@) is None,
                child@.name == "deny"@,
                child@.name != "allow"@,
                errno_of(child@) == Ok::<Errno, ConfigErrorView>(errno),
                syscalls_of(child@, names@) == Ok::<Seq<Seq<char>>, ConfigErrorView>(more),
                forall|j: int| 0 <= j < i ==> more[j] != "prctl"@,
                cfg.allow == old(cfg).allow,
                cfg.disable == old(cfg).disable,
                deny_views(cfg.deny@) == before + denied(more, errno).take(i as int),
            decreases all@.len() - i,
        {
            let ghost held = deny_views(cfg.deny@);
            assert(more[i as int] == all@[i as int]@);
            if same_text(&all[i], "prctl") {
                // glibc and Chromium call `prctl` for themselves, so denying
                // it breaks the sandbox from within.
                assert(more.contains(more[i as int]));
                return Err(bad(child, "glibc and Chromium need prctl"));
            }
            cfg.deny.push((all[i].clone(), errno));
            i = i + 1;
            assert(deny_views(cfg.deny@) =~= held.push((more[i - 1], errno)));
            assert(before + denied(more, errno).take(i as int) =~= (before + denied(
                more,
                errno,
            ).take(i - 1)).push((more[i - 1], errno)));
        }
        assert(!more.contains("prctl"@));
        assert(denied(more, errno).take(i as int) =~= denied(more, errno));
    } else if same_text(&child.name, "disable") {
        match reject_entries(child) {
            Ok(()) => {},
            Err(e) => {
                return Err(e);
            },
        }
        cfg.disable = true;
    } else {
        return Err(ConfigError::UnknownNode(child.name.clone()));
    }
    Ok(())
}

/// `seccomp` itself is bare; every rule is a child node. Names are resolved
/// against the syscalls the filter's compiler knows, so a typo cannot
/// silently leave a syscall allowed the profile meant to deny.
pub fn parse_seccomp(node: &Node, names: &Names) -> (r: Result<SeccompConfig, ConfigError>)
    ensures
        outcome(r) == seccomp_of(node@, names@),
{
    broadcast use lemma_node_view;

    match reject_arguments(node) {
        Ok(()) => {},
        Err(e) => {
            return Err(e);
        },
    }
    let mut cfg = SeccompConfig::default();
    let children = match &node.children {
        Some(c) => c,
        None => {
            return Ok(cfg);
        },
    };
    let ghost all = node_views(children@);
    let ghost steps = seccomp_steps(names@);
    let mut i: usize = 0;
    while i < children.len()
        invariant
            all == node_views(children@),
            steps == seccomp_steps(names@),
            seccomp_of(node@, names@) == fold(all, i as int, cfg@, steps),
            i <= children@.len(),
        decreases children@.len() - i,
    {
        assert(all[i as int] == children@[i as int]@);
        assert(steps(cfg@, all[i as int]) == seccomp_step(names@, cfg@, all[i as int]));
        match take_filter(&mut cfg, names, &children[i]) {
            Ok(()) => {},
            Err(e) => {
                return Err(e);
            },
        }
        i = i + 1;
    }
    Ok(cfg)
}

/// The mode a word names.
pub open spec fn userns_word(s: Seq<char>) -> Result<Userns, ConfigErrorView> {
    if s == "allow"@ {
        Ok(Userns::Allow)
    } else if s == "disable"@ {
        Ok(Userns::Disable)
    } else {
        Err(unexpected("userns"@, "`allow` or `disable`"@, s))
    }
}

/// `userns "allow"|"disable"`, the same shape `tty` has.
pub open spec fn userns_of(node: NodeView) -> Result<Userns, ConfigErrorView> {
    match only_string(node) {
        Err(e) => Err(e),
        Ok(s) => userns_word(s),
    }
}

/// `userns "allow"|"disable"`, the same shape `tty` has.
pub fn parse_userns(node: &Node) -> (r: Result<Userns, ConfigError>)
    ensures
        match r {
            Ok(m) => userns_of(node@) == Ok::<Userns, ConfigErrorView>(m),
            Err(e) => userns_of(node@) == Err::<Userns, ConfigErrorView>(e@),
        },
{
    match only_string_arg(node) {
        Err(e) => Err(e),
        Ok(s) => {
            if same_text(s, "allow") {
                Ok(Userns::Allow)
            } else if same_text(s, "disable") {
                Ok(Userns::Disable)
            } else {
                Err(unexpected_word("userns", "`allow` or `disable`", s))
            }
        },
    }
}

/// `tty "pty"|"passthrough"|"none"`. An unknown word is an error, never a
/// silent fallback to the default, which would give the sandbox a terminal
/// the file refused it.
pub open spec fn tty_of(node: NodeView) -> Result<TtyMode, ConfigErrorView> {
    match only_string(node) {
        Err(e) => Err(e),
        Ok(s) => if s == "pty"@ {
            Ok(TtyMode::Pty)
        } else if s == "passthrough"@ {
            Ok(TtyMode::Passthrough)
        } else if s == "none"@ {
            Ok(TtyMode::Off)
        } else {
            Err(unexpected("tty"@, "`pty`, `passthrough` or `none`"@, s))
        },
    }
}

/// `tty "pty"|"passthrough"|"none"`. The name of the mode is the whole node.
pub fn parse_tty(node: &Node) -> (r: Result<TtyMode, ConfigError>)
    ensures
        match r {
            Ok(m) => tty_of(node@) == Ok::<TtyMode, ConfigErrorView>(m),
            Err(e) => tty_of(node@) == Err::<TtyMode, ConfigErrorView>(e@),
        },
{
    match only_string_arg(node) {
        Err(e) => Err(e),
        Ok(s) => {
            if same_text(s, "pty") {
                Ok(TtyMode::Pty)
            } else if same_text(s, "passthrough") {
                Ok(TtyMode::Passthrough)
            } else if same_text(s, "none") {
                Ok(TtyMode::Off)
            } else {
                Err(unexpected_word("tty", "`pty`, `passthrough` or `none`", s))
            }
        },
    }
}

/// Whether a text is the file name of a desktop entry: a basename and not a
/// path, because the entry is looked up in the application directories.
pub open spec fn entry_file(name: Seq<char>) -> bool {
    let stem = name.take(name.len() - ".desktop"@.len());
    &&& ends(name, ".desktop"@)
    &&& stem.len() > 0
    &&& !stem.contains('/')
    &&& stem != "."@
    &&& stem != ".."@
    &&& forbidden(name, 0) is None
}

/// `desktop "<name>.desktop"`: the file name. It is not echoed back: the
/// value is config text and may hold the control bytes the error message
/// would then carry.
pub open spec fn desktop_of(node: NodeView) -> Result<Seq<char>, ConfigErrorView> {
    match only_string(node) {
        Err(e) => Err(e),
        Ok(name) => if entry_file(name) {
            Ok(name)
        } else {
            Err(
                bad_node(
                    node,
                    "expects the file name of a desktop entry, such as \"org.example.App.desktop\""@,
                ),
            )
        },
    }
}

/// Whether a text is the file name of a desktop entry.
pub fn is_entry_file(name: &str) -> (r: bool)
    ensures
        r == entry_file(name@),
{
    if !ends_with(name, ".desktop") {
        return false;
    }
    proof {
        reveal_strlit(".desktop");
    }
    let chars = chars_of(name);
    let stem = vstd::slice::slice_subrange(chars.as_slice(), 0, chars.len() - 8);
    let ghost model = name@.take(name@.len() - 8);
    assert(stem@ =~= model);
    if stem.len() == 0 {
        return false;
    }
    let mut i: usize = 0;
    while i < stem.len()
        invariant
            i <= stem@.len(),
            forall|j: int| 0 <= j < i ==> stem@[j] != '/',
            stem@ == model,
            model == name@.take(name@.len() - ".desktop"@.len()),
        decreases stem@.len() - i,
    {
        if stem[i] == '/' {
            assert(model.contains(model[i as int]));
            return false;
        }
        i = i + 1;
    }
    assert(!model.contains('/'));
    let text = crate::text::text_of(stem);
    if same_text(&text, ".") || same_text(&text, "..") {
        return false;
    }
    forbidden_byte(name).is_none()
}

/// `desktop "<name>.desktop"`: the basename of the vendor entry an
/// instance's launcher entry is written from.
pub fn parse_desktop(node: &Node) -> (r: Result<String, ConfigError>)
    ensures
        outcome(r) == desktop_of(node@),
{
    match only_string_arg(node) {
        Err(e) => Err(e),
        Ok(name) => {
            if !is_entry_file(name) {
                return Err(
                    bad(
                        node,
                        "expects the file name of a desktop entry, such as \"org.example.App.desktop\"",
                    ),
                );
            }
            Ok(name.to_owned())
        },
    }
}

/// One more argument of a `command` node. A bad one is named by its place,
/// not quoted back: echoing the value would put the control byte in the error
/// message too.
pub open spec fn command_step(node: NodeView, argv: Seq<Seq<u8>>, e: EntryView) -> Result<
    Seq<Seq<u8>>,
    ConfigErrorView,
> {
    match e.name {
        Some(prop) => Err(unknown_property(node, prop)),
        None => match e.value {
            ScalarView::Text(s) => match forbidden(s, 0) {
                Some(what) => Err(
                    bad_node(
                        node,
                        "argument "@ + decimal_digits(argv.len() + 1) + " contains "@ + what,
                    ),
                ),
                None => Ok(argv.push(utf8(s))),
            },
            _ => Err(bad_node(node, "arguments must be strings"@)),
        },
    }
}

/// The walk over a `command` node's entries.
pub open spec fn command_steps(node: NodeView) -> spec_fn(Seq<Seq<u8>>, EntryView) -> Result<
    Seq<Seq<u8>>,
    ConfigErrorView,
> {
    |argv: Seq<Seq<u8>>, e: EntryView| command_step(node, argv, e)
}

/// `command "<program>" "<argument>"...`: the argv, never empty.
pub open spec fn command_of(node: NodeView) -> Result<Seq<Seq<u8>>, ConfigErrorView> {
    match fold(node.entries, 0, Seq::<Seq<u8>>::empty(), command_steps(node)) {
        Err(e) => Err(e),
        Ok(argv) => match children_fault(node) {
            Some(e) => Err(e),
            None => if argv.len() == 0 {
                Err(bad_node(node, "needs at least one argument"@))
            } else {
                Ok(argv)
            },
        },
    }
}

/// `command "<program>" "<argument>"...`: the argv.
pub fn parse_command(node: &Node) -> (r: Result<Vec<Vec<u8>>, ConfigError>)
    ensures
        match r {
            Ok(argv) => command_of(node@) == Ok::<Seq<Seq<u8>>, ConfigErrorView>(byte_views(argv@)),
            Err(e) => command_of(node@) == Err::<Seq<Seq<u8>>, ConfigErrorView>(e@),
        },
{
    let ghost all = node@.entries;
    let ghost steps = command_steps(node@);
    let ghost total = fold(all, 0, Seq::<Seq<u8>>::empty(), steps);
    let mut argv: Vec<Vec<u8>> = Vec::new();
    assert(byte_views(argv@) =~= Seq::empty());
    let mut i: usize = 0;
    while i < node.entries.len()
        invariant
            all == node@.entries,
            all == entries_view(node.entries@),
            steps == command_steps(node@),
            total == fold(all, 0, Seq::<Seq<u8>>::empty(), steps),
            i <= node.entries@.len(),
            argv@.len() == i,
            total == fold(all, i as int, byte_views(argv@), steps),
        decreases node.entries@.len() - i,
    {
        let e = &node.entries[i];
        let ghost before = byte_views(argv@);
        assert(all[i as int] == e@);
        assert(steps(before, e@) == command_step(node@, before, e@));
        match &e.name {
            Some(prop) => {
                return Err(unknown_prop(node, prop));
            },
            None => {},
        }
        match &e.value {
            Scalar::Text(s) => {
                match forbidden_byte(s) {
                    Some(what) => {
                        let place = decimal(argv.len() as u64 + 1);
                        let reason = joined(
                            &joined(&joined("argument ", &place), " contains "),
                            what,
                        );
                        return Err(bad(node, &reason));
                    },
                    None => {},
                }
                argv.push(bytes_of(s));
                assert(byte_views(argv@) =~= before.push(utf8(s@)));
            },
            _ => {
                return Err(bad(node, "arguments must be strings"));
            },
        }
        i = i + 1;
    }
    match reject_children(node) {
        Ok(()) => {},
        Err(e) => {
            return Err(e);
        },
    }
    if argv.len() == 0 {
        return Err(bad(node, "needs at least one argument"));
    }
    Ok(argv)
}

} // verus!
