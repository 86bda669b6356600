//! What a setting says is what is set, entry by entry.

use vstd::prelude::*;

use crate::config::bus::{
    bus_rules_of, member_rule, name_glob, one_policy_each, policy_for, rule_of, rules_step,
    rules_steps, system_rules_of,
};
use crate::config::document::{EntryView, NodeView, ScalarView};
use crate::config::entry_laws::{
    argument, arguments, lemma_times, lemma_walk, property, times, told,
};
use crate::config::address::find_char;
use crate::config::model::{
    default_seccomp, policy_of, BusRuleView, Errno, SeccompView, TtyMode, Userns,
};
use crate::config::network_laws::{bare, children_of, one_string_is_all_there_is, sole};
use crate::config::node::{first_property, fold, forbidden};
use crate::config::settings::{
    check_severity, command_of, command_step, command_steps, denied, desktop_of, entry_file,
    env_key, env_of, env_step, env_steps, errno_of, errno_step, errno_steps, has_key, lint_allow_of,
    lint_step, lint_steps, listed, seccomp_of, seccomp_step, seccomp_steps, syscall_word,
    syscalls_of, syscalls_step, syscalls_steps, tty_of, userns_of, NamesView, Severity,
    RESERVED_ENV,
};
use crate::error::ConfigErrorView;
use crate::text::{trimmed, utf8};

verus! {

/// Whether a text has no NUL byte, newline or carriage return.
pub open spec fn on_one_line(s: Seq<char>) -> bool {
    forall|i: int| 0 <= i < s.len() ==> #[trigger] s[i] != '\0' && s[i] != '\n' && s[i] != '\r'
}

proof fn lemma_forbidden(s: Seq<char>, i: int)
    requires
        0 <= i <= s.len(),
    ensures
        forbidden(s, i) is None <==> forall|k: int|
            i <= k < s.len() ==> #[trigger] s[k] != '\0' && s[k] != '\n' && s[k] != '\r',
    decreases s.len() - i,
{
    if i < s.len() {
        lemma_forbidden(s, i + 1);
    }
}

/// A text is refused for what would end a line or an argument, wherever in it
/// that stands, and for nothing else.
pub proof fn a_text_is_refused_for_a_line_end_or_a_nul(s: Seq<char>)
    ensures
        forbidden(s, 0) is None <==> on_one_line(s),
        forbidden(s, 0) == Some("a NUL byte"@) ==> s.contains('\0'),
        forbidden(s, 0) matches Some(what) ==> what == "a NUL byte"@ || what == "a newline"@ || what
            == "a carriage return"@,
{
    lemma_forbidden(s, 0);
    lemma_forbidden_word(s, 0);
}

proof fn lemma_forbidden_word(s: Seq<char>, i: int)
    requires
        0 <= i <= s.len(),
    ensures
        forbidden(s, i) == Some("a NUL byte"@) ==> s.contains('\0'),
        forbidden(s, i) matches Some(what) ==> what == "a NUL byte"@ || what == "a newline"@ || what
            == "a carriage return"@,
    decreases s.len() - i,
{
    reveal_strlit("a NUL byte");
    reveal_strlit("a newline");
    reveal_strlit("a carriage return");
    assert("a NUL byte"@.len() == 10);
    assert("a newline"@.len() == 9);
    assert("a carriage return"@.len() == 17);
    if i < s.len() {
        lemma_forbidden_word(s, i + 1);
        assert(s.contains(s[i]));
    }
}

/// Whether an entry of an `env` node is one it may have.
pub open spec fn env_entry(e: EntryView) -> bool {
    e.name matches Some(key) && env_key(key) && !listed(RESERVED_ENV@, key) && (
    e.value matches ScalarView::Text(value) && on_one_line(value))
}

/// The variable an entry sets.
pub open spec fn variable(e: EntryView) -> (Seq<char>, Seq<char>) {
    (e.name->Some_0, e.value->Text_0)
}

/// The variables with those of the first `k` entries after them.
pub open spec fn with_variables(
    env: Seq<(Seq<char>, Seq<char>)>,
    entries: Seq<EntryView>,
    k: int,
) -> Seq<(Seq<char>, Seq<char>)>
    decreases k,
{
    if k <= 0 {
        env
    } else {
        with_variables(env, entries, k - 1).push(variable(entries[k - 1]))
    }
}

pub proof fn lemma_variables(env: Seq<(Seq<char>, Seq<char>)>, entries: Seq<EntryView>, k: int)
    requires
        0 <= k <= entries.len(),
    ensures
        with_variables(env, entries, k).len() == env.len() + k,
        with_variables(env, entries, k).take(env.len() as int) == env,
        forall|i: int|
            0 <= i < k ==> with_variables(env, entries, k)[env.len() + i] == variable(
                #[trigger] entries[i],
            ),
    decreases k,
{
    if k > 0 {
        lemma_variables(env, entries, k - 1);
        assert(with_variables(env, entries, k).take(env.len() as int) =~= env);
    } else {
        assert(env.take(env.len() as int) =~= env);
    }
}

/// Whether no two variables have one key.
pub open spec fn keys_once(env: Seq<(Seq<char>, Seq<char>)>, entries: Seq<EntryView>, k: int) -> bool {
    &&& forall|i: int, j: int|
        #![trigger entries[i], entries[j]]
        0 <= i < j < k ==> entries[i].name != entries[j].name
    &&& forall|i: int, j: int|
        #![trigger env[i], entries[j]]
        0 <= i < env.len() && 0 <= j < k ==> Some(env[i].0) != entries[j].name
}

proof fn lemma_has_key(env: Seq<(Seq<char>, Seq<char>)>, entries: Seq<EntryView>, k: int, key: Seq<char>)
    requires
        0 <= k <= entries.len(),
        forall|i: int| 0 <= i < k ==> (#[trigger] entries[i]).name is Some,
    ensures
        has_key(with_variables(env, entries, k), key) <==> has_key(env, key) || exists|i: int|
            0 <= i < k && (#[trigger] entries[i]).name == Some(key),
{
    let all = with_variables(env, entries, k);
    lemma_variables(env, entries, k);
    assert forall|i: int| 0 <= i < env.len() implies all[i] == env[i] by {
        assert(all.take(env.len() as int)[i] == env[i]);
    }
    if has_key(all, key) {
        let i = choose|i: int| 0 <= i < all.len() && (#[trigger] all[i]).0 == key;
        if i >= env.len() {
            assert(all[env.len() + (i - env.len())] == variable(entries[i - env.len()]));
            assert(entries[i - env.len()].name == Some(key));
        } else {
            assert(env[i].0 == key);
        }
    }
    if has_key(env, key) {
        let i = choose|i: int| 0 <= i < env.len() && (#[trigger] env[i]).0 == key;
        assert(all[i].0 == key);
    }
    if exists|i: int| 0 <= i < k && (#[trigger] entries[i]).name == Some(key) {
        let i = choose|i: int| 0 <= i < k && (#[trigger] entries[i]).name == Some(key);
        assert(all[env.len() + i].0 == key);
    }
}

proof fn lemma_env_step(node: NodeView, env: Seq<(Seq<char>, Seq<char>)>, j: int)
    requires
        0 <= j < node.entries.len(),
        forall|i: int| 0 <= i < j ==> env_entry(#[trigger] node.entries[i]),
        keys_once(env, node.entries, j),
    ensures
        ({
            let got = env_step(node, with_variables(env, node.entries, j), node.entries[j]);
            &&& got is Ok <==> env_entry(node.entries[j]) && keys_once(env, node.entries, j + 1)
            &&& got matches Ok(all) ==> all == with_variables(env, node.entries, j + 1)
        }),
{
    let e = node.entries[j];
    if e.name is Some {
        lemma_has_key(env, node.entries, j, e.name->Some_0);
    }
    if e.value is Text {
        lemma_forbidden(e.value->Text_0, 0);
    }
}

/// The variables an `env` node sets are the ones it writes: each with the
/// value written for it, in their order, after those that were set before. The
/// node is accepted where it has at least one, every key can be set and every
/// value be carried, and no key is set already.
pub proof fn a_variable_is_set_as_it_is_written(node: NodeView, env: Seq<(Seq<char>, Seq<char>)>)
    ensures
        env_of(node, env) is Ok <==> {
            &&& node.entries.len() > 0
            &&& node.children is None
            &&& forall|i: int| 0 <= i < node.entries.len() ==> env_entry(#[trigger] node.entries[i])
            &&& keys_once(env, node.entries, node.entries.len() as int)
        },
        env_of(node, env) matches Ok(all) ==> {
            &&& all.len() == env.len() + node.entries.len()
            &&& all.take(env.len() as int) == env
            &&& forall|i: int|
                0 <= i < node.entries.len() ==> {
                    &&& Some(all[env.len() + i].0) == (#[trigger] node.entries[i]).name
                    &&& ScalarView::Text(all[env.len() + i].1) == node.entries[i].value
                }
        },
{
    let entries = node.entries;
    let n = entries.len() as int;
    let steps = env_steps(node);
    let keeps = |k: int, st: Seq<(Seq<char>, Seq<char>)>|
        {
            &&& st == with_variables(env, entries, k)
            &&& forall|i: int| 0 <= i < k ==> env_entry(#[trigger] entries[i])
            &&& keys_once(env, entries, k)
        };
    assert forall|j: int, s: Seq<(Seq<char>, Seq<char>)>|
        0 <= j < n && #[trigger] keeps(j, s) implies (steps(s, entries[j]) matches Ok(t) ==> keeps(
        j + 1,
        t,
    )) by {
        lemma_env_step(node, env, j);
        assert(steps(s, entries[j]) == env_step(node, s, entries[j]));
    }
    assert(keeps(0, env));
    lemma_walk(entries, 0, env, steps, keeps);
    if (forall|i: int| 0 <= i < n ==> env_entry(#[trigger] entries[i])) && keys_once(
        env,
        entries,
        n,
    ) {
        assert forall|j: int, s: Seq<(Seq<char>, Seq<char>)>|
            0 <= j < n && #[trigger] keeps(j, s) implies steps(s, entries[j]) is Ok by {
            lemma_env_step(node, env, j);
            assert(steps(s, entries[j]) == env_step(node, s, entries[j]));
        }
    }
    lemma_variables(env, entries, n);
}

/// Whether an entry of a `command` node is one it may have.
pub open spec fn command_entry(e: EntryView) -> bool {
    e.name is None && (e.value matches ScalarView::Text(s) && on_one_line(s))
}

/// A command is the arguments that are written, all of them in their order. It
/// is accepted where there is one and each can be carried.
pub proof fn a_command_is_run_as_it_is_written(node: NodeView)
    ensures
        command_of(node) is Ok <==> {
            &&& node.entries.len() > 0
            &&& node.children is None
            &&& forall|i: int|
                0 <= i < node.entries.len() ==> command_entry(#[trigger] node.entries[i])
        },
        command_of(node) matches Ok(argv) ==> {
            &&& argv.len() == node.entries.len()
            &&& forall|i: int|
                0 <= i < argv.len() ==> #[trigger] argv[i] == utf8(node.entries[i].value->Text_0)
        },
{
    let entries = node.entries;
    let n = entries.len() as int;
    let steps = command_steps(node);
    let keeps = |k: int, st: Seq<Seq<u8>>|
        {
            &&& st.len() == k
            &&& forall|i: int| 0 <= i < k ==> command_entry(#[trigger] entries[i])
            &&& forall|i: int| 0 <= i < k ==> #[trigger] st[i] == utf8(entries[i].value->Text_0)
        };
    let start = Seq::<Seq<u8>>::empty();
    assert forall|j: int, s: Seq<Seq<u8>>|
        0 <= j < n && #[trigger] keeps(j, s) implies (steps(s, entries[j]) matches Ok(t) ==> keeps(
        j + 1,
        t,
    )) by {
        assert(steps(s, entries[j]) == command_step(node, s, entries[j]));
        if entries[j].value is Text {
            lemma_forbidden(entries[j].value->Text_0, 0);
        }
    }
    assert(keeps(0, start));
    lemma_walk(entries, 0, start, steps, keeps);
    if forall|i: int| 0 <= i < n ==> command_entry(#[trigger] entries[i]) {
        assert forall|j: int, s: Seq<Seq<u8>>|
            0 <= j < n && #[trigger] keeps(j, s) implies steps(s, entries[j]) is Ok by {
            assert(steps(s, entries[j]) == command_step(node, s, entries[j]));
            assert(command_entry(entries[j]));
            lemma_forbidden(entries[j].value->Text_0, 0);
        }
    }
}

/// Whether an entry of a `lint-allow` node is one it may have.
pub open spec fn lint_entry(e: EntryView) -> bool {
    (e.name is None || e.name == Some("reason"@)) && e.value is Text
}

/// What has been read of the node after `k` entries.
spec fn lint_read(entries: Seq<EntryView>, k: int, st: (Option<Seq<char>>, Option<Seq<char>>)) -> bool {
    let none: Option<Seq<char>> = None;
    &&& forall|i: int| 0 <= i < k ==> lint_entry(#[trigger] entries[i])
    &&& times(entries, none, k) == (if st.0 is Some { 1nat } else { 0 })
    &&& st.0 == match told(entries, none, k) {
        Some(ScalarView::Text(s)) => Some(s),
        _ => None,
    }
    &&& st.1 == match told(entries, Some("reason"@), k) {
        Some(ScalarView::Text(s)) => Some(s),
        _ => None,
    }
}

/// A finding is accepted under the id and for the reason that are written,
/// where the check is one that may be accepted and the reason is one: more
/// than white space, on one line.
pub proof fn an_accepted_finding_is_the_one_written(node: NodeView, names: NamesView)
    ensures
        fold(node.entries, 0, (None::<Seq<char>>, None::<Seq<char>>), lint_steps(node)) is Ok <==> {
            &&& forall|i: int| 0 <= i < node.entries.len() ==> lint_entry(#[trigger] node.entries[i])
            &&& arguments(node) <= 1
        },
        lint_allow_of(node, names) is Ok <==> {
            &&& forall|i: int|
                0 <= i < node.entries.len() ==> lint_entry(#[trigger] node.entries[i])
            &&& arguments(node) == 1
            &&& node.children is None
            &&& argument(node) matches Some(ScalarView::Text(id)) && check_severity(
                names.checks,
                id,
                0,
            ) matches Some(level) && level != Severity::Error
            &&& property(node, "reason"@) matches Some(ScalarView::Text(why)) && trimmed(why).len()
                > 0 && on_one_line(why)
        },
        lint_allow_of(node, names) matches Ok(l) ==> {
            &&& argument(node) == Some(ScalarView::Text(l.id))
            &&& property(node, "reason"@) == Some(ScalarView::Text(l.reason))
        },
{
    let none: Option<Seq<char>> = None;
    let entries = node.entries;
    let n = entries.len() as int;
    if let Some(ScalarView::Text(why)) = property(node, "reason"@) {
        lemma_forbidden(why, 0);
    }
    let steps = lint_steps(node);
    let keeps = |k: int, st: (Option<Seq<char>>, Option<Seq<char>>)| lint_read(entries, k, st);
    assert forall|j: int, s: (Option<Seq<char>>, Option<Seq<char>>)|
        0 <= j < n && #[trigger] keeps(j, s) implies (steps(s, entries[j]) matches Ok(t) ==> keeps(
        j + 1,
        t,
    )) by {
        assert(steps(s, entries[j]) == lint_step(node, s, entries[j]));
    }
    let start = (None::<Seq<char>>, None::<Seq<char>>);
    assert(keeps(0, start));
    lemma_walk(entries, 0, start, steps, keeps);
    if forall|i: int| 0 <= i < n ==> lint_entry(#[trigger] entries[i]) {
        if times(entries, none, n) <= 1 {
            assert forall|j: int, s: (Option<Seq<char>>, Option<Seq<char>>)|
                0 <= j < n && #[trigger] keeps(j, s) implies steps(s, entries[j]) is Ok by {
                assert(steps(s, entries[j]) == lint_step(node, s, entries[j]));
                assert(lint_entry(entries[j]));
            lemma_times(entries, none, j + 1, n);
            }
        }
    }
    lemma_times(entries, none, n, n);
}

/// The switch for nested user namespaces stands as it is written.
pub proof fn userns_is_as_it_is_written(node: NodeView)
    ensures
        userns_of(node) is Ok <==> node.children is None && (sole(node) == Some("allow"@) || sole(
            node,
        ) == Some("disable"@)),
        userns_of(node) matches Ok(u) ==> (u == Userns::Allow <==> sole(node) == Some("allow"@)),
{
    one_string_is_all_there_is(node);
    reveal_strlit("allow");
    reveal_strlit("disable");
    assert("allow"@.len() != "disable"@.len());
}

/// The terminal mode is the one written.
pub proof fn a_terminal_mode_is_the_one_written(node: NodeView)
    ensures
        tty_of(node) is Ok <==> node.children is None && (sole(node) == Some("pty"@) || sole(node)
            == Some("passthrough"@) || sole(node) == Some("none"@)),
        tty_of(node) matches Ok(mode) ==> {
            &&& mode == TtyMode::Pty <==> sole(node) == Some("pty"@)
            &&& mode == TtyMode::Passthrough <==> sole(node) == Some("passthrough"@)
            &&& mode == TtyMode::Off <==> sole(node) == Some("none"@)
        },
{
    one_string_is_all_there_is(node);
    reveal_strlit("pty");
    reveal_strlit("passthrough");
    reveal_strlit("none");
    assert("pty"@.len() == 3);
    assert("passthrough"@.len() == 11);
    assert("none"@.len() == 4);
}

/// The desktop entry is the file that is named, as it is written; and a name
/// is one where it is a stem and `.desktop`, and the stem a single path
/// component on one line.
pub proof fn a_desktop_entry_is_the_one_named(node: NodeView)
    ensures
        desktop_of(node) is Ok <==> node.children is None && (sole(node) matches Some(name) && {
            exists|stem: Seq<char>|
                {
                    &&& name == #[trigger] (stem + ".desktop"@)
                    &&& stem.len() > 0
                    &&& on_one_line(stem)
                    &&& !stem.contains('/')
                    &&& stem != "."@
                    &&& stem != ".."@
                }
        }),
        desktop_of(node) matches Ok(name) ==> sole(node) == Some(name),
{
    one_string_is_all_there_is(node);
    reveal_strlit(".desktop");
    if let Some(name) = sole(node) {
        lemma_forbidden(name, 0);
        if entry_file(name) {
            let stem = name.take(name.len() - 8);
            assert(name =~= stem + ".desktop"@);
            assert forall|i: int| 0 <= i < stem.len() implies #[trigger] stem[i] != '\0' && stem[i]
                != '\n' && stem[i] != '\r' by {
                assert(stem[i] == name[i]);
            }
        }
        assert forall|stem: Seq<char>|
            name == #[trigger] (stem + ".desktop"@) && stem.len() > 0 && on_one_line(stem)
                && !stem.contains('/') && stem != "."@ && stem != ".."@ implies entry_file(name) by {
            assert(name.take(name.len() - 8) =~= stem);
            assert(name.skip(name.len() - 8) =~= ".desktop"@);
            assert forall|k: int| 0 <= k < name.len() implies #[trigger] name[k] != '\0' && name[k]
                != '\n' && name[k] != '\r' by {
                if k < stem.len() {
                    assert(name[k] == stem[k]);
                } else {
                    assert(name[k] == ".desktop"@[k - stem.len()]);
                }
            }
        }
    }
}

/// The arguments among the first `n` entries, in their order.
pub open spec fn words(entries: Seq<EntryView>, n: int) -> Seq<Seq<char>>
    decreases n,
{
    if n <= 0 {
        Seq::empty()
    } else if entries[n - 1].name is None {
        words(entries, n - 1).push(entries[n - 1].value->Text_0)
    } else {
        words(entries, n - 1)
    }
}

/// The arguments of a node, in their order.
pub open spec fn arguments_of(node: NodeView) -> Seq<Seq<char>> {
    words(node.entries, node.entries.len() as int)
}

/// Whether an entry of a list of system calls is one it may have.
pub open spec fn syscall_entry(e: EntryView, names: NamesView) -> bool {
    match e.name {
        None => e.value matches ScalarView::Text(s) && syscall_word(s) && names.syscalls.contains(s),
        Some(prop) => prop == "errno"@,
    }
}

/// The system calls a node lists are the ones it names, in their order; it is
/// accepted where it names one and knows them all.
pub proof fn the_system_calls_are_the_ones_named(node: NodeView, names: NamesView)
    ensures
        syscalls_of(node, names) is Ok <==> {
            &&& forall|i: int|
                0 <= i < node.entries.len() ==> syscall_entry(#[trigger] node.entries[i], names)
            &&& arguments_of(node).len() > 0
        },
        syscalls_of(node, names) matches Ok(all) ==> all == arguments_of(node),
{
    let entries = node.entries;
    let n = entries.len() as int;
    let steps = syscalls_steps(node, names);
    let keeps = |k: int, st: Seq<Seq<char>>|
        {
            &&& st == words(entries, k)
            &&& forall|i: int| 0 <= i < k ==> syscall_entry(#[trigger] entries[i], names)
        };
    let start = Seq::<Seq<char>>::empty();
    assert forall|j: int, s: Seq<Seq<char>>|
        0 <= j < n && #[trigger] keeps(j, s) implies (steps(s, entries[j]) matches Ok(t) ==> keeps(
        j + 1,
        t,
    )) by {
        assert(steps(s, entries[j]) == syscalls_step(node, names, s, entries[j]));
    }
    assert(keeps(0, start));
    lemma_walk(entries, 0, start, steps, keeps);
    if forall|i: int| 0 <= i < n ==> syscall_entry(#[trigger] entries[i], names) {
        assert forall|j: int, s: Seq<Seq<char>>|
            0 <= j < n && #[trigger] keeps(j, s) implies steps(s, entries[j]) is Ok by {
            assert(steps(s, entries[j]) == syscalls_step(node, names, s, entries[j]));
            assert(syscall_entry(entries[j], names));
        }
    }
}

/// Whether an entry leaves an error number that can be had.
pub open spec fn errno_entry(e: EntryView) -> bool {
    e.name == Some("errno"@) ==> e.value == ScalarView::Text("EPERM"@) || e.value
        == ScalarView::Text("ENOSYS"@)
}

/// A denied call fails with the error that is written last, and with `EPERM`
/// where none is.
pub proof fn a_denied_call_fails_as_it_is_written(node: NodeView)
    ensures
        errno_of(node) is Ok <==> forall|i: int|
            0 <= i < node.entries.len() ==> errno_entry(#[trigger] node.entries[i]),
        errno_of(node) matches Ok(errno) ==> (errno == Errno::Enosys <==> property(
            node,
            "errno"@,
        ) == Some(ScalarView::Text("ENOSYS"@))),
{
    reveal_strlit("EPERM");
    reveal_strlit("ENOSYS");
    assert("EPERM"@.len() != "ENOSYS"@.len());
    let entries = node.entries;
    let n = entries.len() as int;
    let steps = errno_steps(node);
    let keeps = |k: int, st: Errno|
        {
            &&& forall|i: int| 0 <= i < k ==> errno_entry(#[trigger] entries[i])
            &&& st == Errno::Enosys <==> told(entries, Some("errno"@), k) == Some(
                ScalarView::Text("ENOSYS"@),
            )
        };
    assert forall|j: int, s: Errno|
        0 <= j < n && #[trigger] keeps(j, s) implies (steps(s, entries[j]) matches Ok(t) ==> keeps(
        j + 1,
        t,
    )) by {
        assert(steps(s, entries[j]) == errno_step(node, s, entries[j]));
    }
    assert(keeps(0, Errno::Eperm));
    lemma_walk(entries, 0, Errno::Eperm, steps, keeps);
    if forall|i: int| 0 <= i < n ==> errno_entry(#[trigger] entries[i]) {
        assert forall|j: int, s: Errno|
            0 <= j < n && #[trigger] keeps(j, s) implies steps(s, entries[j]) is Ok by {
            assert(steps(s, entries[j]) == errno_step(node, s, entries[j]));
            assert(errno_entry(entries[j]));
        }
    }
}

/// The calls the first `n` children allow, in their order.
pub open spec fn allowed_by(children: Seq<NodeView>, n: int) -> Seq<Seq<char>>
    decreases n,
{
    if n <= 0 {
        Seq::empty()
    } else if children[n - 1].name == "allow"@ {
        allowed_by(children, n - 1) + arguments_of(children[n - 1])
    } else {
        allowed_by(children, n - 1)
    }
}

/// The calls the first `n` children deny, in their order, each with the error
/// its own child writes.
pub open spec fn denied_by(children: Seq<NodeView>, n: int) -> Seq<(Seq<char>, Errno)>
    decreases n,
{
    if n <= 0 {
        Seq::empty()
    } else if children[n - 1].name == "deny"@ {
        denied_by(children, n - 1) + arguments_of(children[n - 1]).map_values(
            |call: Seq<char>|
                (
                    call,
                    if property(children[n - 1], "errno"@) == Some(ScalarView::Text("ENOSYS"@)) {
                        Errno::Enosys
                    } else {
                        Errno::Eperm
                    },
                ),
        )
    } else {
        denied_by(children, n - 1)
    }
}

/// Whether a child of a `seccomp` node is one it may have.
pub open spec fn seccomp_child(c: NodeView, names: NamesView) -> bool {
    &&& bare(c)
    &&& {
        ||| {
            &&& c.name == "allow"@
            &&& forall|i: int|
                0 <= i < c.entries.len() ==> (#[trigger] c.entries[i]).name is None && syscall_entry(
                    c.entries[i],
                    names,
                )
            &&& c.entries.len() > 0
        }
        ||| {
            &&& c.name == "deny"@
            &&& forall|i: int|
                0 <= i < c.entries.len() ==> syscall_entry(#[trigger] c.entries[i], names)
                    && errno_entry(c.entries[i])
            &&& arguments_of(c).len() > 0
            &&& !arguments_of(c).contains("prctl"@)
        }
        ||| c.name == "disable"@ && c.entries.len() == 0
    }
}

proof fn lemma_no_property(entries: Seq<EntryView>, i: int)
    requires
        0 <= i <= entries.len(),
    ensures
        first_property(entries, i) is None <==> forall|k: int|
            i <= k < entries.len() ==> (#[trigger] entries[k]).name is None,
    decreases entries.len() - i,
{
    if i < entries.len() {
        lemma_no_property(entries, i + 1);
    }
}

proof fn lemma_words_len(entries: Seq<EntryView>, n: int)
    requires
        0 <= n <= entries.len(),
        forall|k: int| 0 <= k < n ==> (#[trigger] entries[k]).name is None,
    ensures
        words(entries, n).len() == n,
    decreases n,
{
    if n > 0 {
        lemma_words_len(entries, n - 1);
    }
}

proof fn lemma_seccomp_step(names: NamesView, cfg: SeccompView, c: NodeView)
    ensures
        ({
            let got = seccomp_step(names, cfg, c);
            &&& got is Ok <==> seccomp_child(c, names)
            &&& got matches Ok(next) ==> {
                &&& next.allow == (if c.name == "allow"@ {
                    cfg.allow + arguments_of(c)
                } else {
                    cfg.allow
                })
                &&& next.deny == (if c.name == "deny"@ {
                    cfg.deny + denied(arguments_of(c), errno_of(c)->Ok_0)
                } else {
                    cfg.deny
                })
                &&& next.disable == (cfg.disable || c.name == "disable"@)
            }
        }),
{
    reveal_strlit("allow");
    reveal_strlit("deny");
    reveal_strlit("disable");
    assert("allow"@.len() == 5);
    assert("deny"@.len() == 4);
    assert("disable"@.len() == 7);
    lemma_no_property(c.entries, 0);
    the_system_calls_are_the_ones_named(c, names);
    a_denied_call_fails_as_it_is_written(c);
    if forall|k: int| 0 <= k < c.entries.len() ==> (#[trigger] c.entries[k]).name is None {
        lemma_words_len(c.entries, c.entries.len() as int);
    }
    if c.name == "deny"@ && seccomp_child(c, names) {
        assert forall|i: int| 0 <= i < c.entries.len() implies errno_entry(
            #[trigger] c.entries[i],
        ) by {}
        assert forall|i: int| 0 <= i < c.entries.len() implies syscall_entry(
            #[trigger] c.entries[i],
            names,
        ) by {}
    }
}

/// A filter allows and denies the calls its children list, all of them in the
/// order they are written, each denied one with the error of its own child, and
/// is off where a child says so and only there. It is accepted where each child
/// is one it may have.
pub proof fn a_filter_is_what_its_children_say(node: NodeView, names: NamesView)
    ensures
        seccomp_of(node, names) is Ok <==> {
            &&& node.entries.len() == 0
            &&& forall|i: int|
                0 <= i < children_of(node).len() ==> seccomp_child(
                    #[trigger] children_of(node)[i],
                    names,
                )
        },
        seccomp_of(node, names) matches Ok(cfg) ==> {
            let all = children_of(node);
            &&& cfg.allow == allowed_by(all, all.len() as int)
            &&& cfg.deny == denied_by(all, all.len() as int)
            &&& cfg.disable <==> exists|i: int|
                0 <= i < all.len() && (#[trigger] all[i]).name == "disable"@
        },
{
    let all = children_of(node);
    let n = all.len() as int;
    let steps = seccomp_steps(names);
    let keeps = |k: int, st: SeccompView|
        {
            &&& forall|i: int| 0 <= i < k ==> seccomp_child(#[trigger] all[i], names)
            &&& st.allow == allowed_by(all, k)
            &&& st.deny == denied_by(all, k)
            &&& st.disable <==> exists|i: int| 0 <= i < k && (#[trigger] all[i]).name == "disable"@
        };
    let start = default_seccomp();
    assert forall|j: int, s: SeccompView|
        0 <= j < n && #[trigger] keeps(j, s) implies (steps(s, all[j]) matches Ok(t) ==> keeps(
        j + 1,
        t,
    )) by {
        lemma_seccomp_step(names, s, all[j]);
        a_denied_call_fails_as_it_is_written(all[j]);
        assert(steps(s, all[j]) == seccomp_step(names, s, all[j]));
        if all[j].name == "deny"@ && steps(s, all[j]) is Ok {
            let t = steps(s, all[j])->Ok_0;
            assert(t.deny =~= denied_by(all, j + 1));
        }
    }
    assert(keeps(0, start));
    lemma_walk(all, 0, start, steps, keeps);
    if forall|i: int| 0 <= i < n ==> seccomp_child(#[trigger] all[i], names) {
        assert forall|j: int, s: SeccompView|
            0 <= j < n && #[trigger] keeps(j, s) implies steps(s, all[j]) is Ok by {
            lemma_seccomp_step(names, s, all[j]);
            assert(steps(s, all[j]) == seccomp_step(names, s, all[j]));
            assert(seccomp_child(all[j], names));
        }
    }
}

/// What a child of a bus says: a name for `see`, `talk` and `own`, the last not
/// on the system bus; for `call` and `broadcast` a name, an `=` and a filter.
pub open spec fn says_rule(c: NodeView, own: bool, rule: BusRuleView) -> bool {
    &&& bare(c)
    &&& match rule {
        BusRuleView::See(n) => c.name == "see"@ && sole(c) == Some(n) && name_glob(n, 2),
        BusRuleView::Talk(n) => c.name == "talk"@ && sole(c) == Some(n) && name_glob(n, 2),
        BusRuleView::Own(n) => own && c.name == "own"@ && sole(c) == Some(n) && name_glob(n, 2),
        BusRuleView::Call(n, r) => c.name == "call"@ && sole(c) == Some(n.push('=') + r)
            && !n.contains('=') && name_glob(n, 2) && member_rule(r),
        BusRuleView::Broadcast(n, r) => c.name == "broadcast"@ && sole(c) == Some(n.push('=') + r)
            && !n.contains('=') && name_glob(n, 2) && member_rule(r),
    }
}

pub proof fn lemma_find(s: Seq<char>, c: char, i: int)
    requires
        0 <= i <= s.len(),
    ensures
        match find_char(s, c, i) {
            None => forall|k: int| i <= k < s.len() ==> #[trigger] s[k] != c,
            Some(at) => i <= at < s.len() && s[at] == c && forall|k: int|
                i <= k < at ==> #[trigger] s[k] != c,
        },
    decreases s.len() - i,
{
    if i < s.len() && s[i] != c {
        lemma_find(s, c, i + 1);
    }
}

proof fn lemma_cut(n: Seq<char>, r: Seq<char>)
    requires
        !n.contains('='),
    ensures
        find_char(n.push('=') + r, '=', 0) == Some(n.len() as int),
        (n.push('=') + r).take(n.len() as int) == n,
        (n.push('=') + r).skip(n.len() as int + 1) == r,
{
    let s = n.push('=') + r;
    lemma_find(s, '=', 0);
    assert(s[n.len() as int] == '=');
    if let Some(at) = find_char(s, '=', 0) {
        if at < n.len() {
            assert(n[at] == s[at]);
            assert(n.contains(n[at]));
        }
    }
    assert(s.take(n.len() as int) =~= n);
    assert(s.skip(n.len() as int + 1) =~= r);
}

proof fn lemma_rule_words()
    ensures
        "see"@ != "talk"@,
        "see"@ != "own"@,
        "see"@ != "call"@,
        "see"@ != "broadcast"@,
        "talk"@ != "own"@,
        "talk"@ != "call"@,
        "talk"@ != "broadcast"@,
        "own"@ != "call"@,
        "own"@ != "broadcast"@,
        "call"@ != "broadcast"@,
{
    reveal_strlit("see");
    reveal_strlit("talk");
    reveal_strlit("own");
    reveal_strlit("call");
    reveal_strlit("broadcast");
    assert("see"@.len() == 3 && "see"@[0] == 's');
    assert("own"@.len() == 3 && "own"@[0] == 'o');
    assert("talk"@.len() == 4 && "talk"@[0] == 't');
    assert("call"@.len() == 4 && "call"@[0] == 'c');
    assert("broadcast"@.len() == 9);
}

/// The rule a child of a bus gives is the one it says, and a child that says
/// none is refused.
pub proof fn a_bus_rule_is_the_one_written(node: NodeView, c: NodeView, own: bool, rule: BusRuleView)
    ensures
        rule_of(node, c, own) == Ok::<BusRuleView, ConfigErrorView>(rule) <==> says_rule(
            c,
            own,
            rule,
        ),
{
    lemma_rule_words();
    one_string_is_all_there_is(c);
    if says_rule(c, own, rule) {
        match rule {
            BusRuleView::Call(n, r) => lemma_cut(n, r),
            BusRuleView::Broadcast(n, r) => lemma_cut(n, r),
            _ => {},
        }
    }
    if let Some(arg) = sole(c) {
        lemma_find(arg, '=', 0);
        if let Some(at) = find_char(arg, '=', 0) {
            assert(arg =~= arg.take(at).push('=') + arg.skip(at + 1));
            assert forall|k: int| 0 <= k < at implies arg.take(at)[k] != '=' by {
                assert(arg[k] != '=');
            }
        }
    }
}

/// The rules of a bus are those its children write, one each and in their
/// order. They are accepted where each child says one and no name is granted
/// two ways; the system bus needs at least one, and none of its may own.
pub proof fn the_rules_of_a_bus_are_its_childrens(node: NodeView, own: bool)
    ensures
        bus_rules_of(node, own) matches Ok(rules) ==> {
            let all = children_of(node);
            &&& node.entries.len() == 0
            &&& rules.len() == all.len()
            &&& forall|i: int| 0 <= i < rules.len() ==> says_rule(all[i], own, #[trigger] rules[i])
        },
        system_rules_of(node) matches Ok(rules) ==> {
            &&& rules.len() > 0
            &&& bus_rules_of(node, false) == Ok::<Seq<BusRuleView>, ConfigErrorView>(rules)
        },
        system_rules_of(node) is Ok <==> (bus_rules_of(node, false) matches Ok(rules) && rules.len()
            > 0),
{
    let all = children_of(node);
    let n = all.len() as int;
    let steps = rules_steps(node, own);
    let keeps = |k: int, st: Seq<BusRuleView>|
        {
            &&& st.len() == k
            &&& forall|i: int| 0 <= i < k ==> says_rule(all[i], own, #[trigger] st[i])
        };
    let start = Seq::<BusRuleView>::empty();
    assert forall|j: int, s: Seq<BusRuleView>|
        0 <= j < n && #[trigger] keeps(j, s) implies (steps(s, all[j]) matches Ok(t) ==> keeps(
        j + 1,
        t,
    )) by {
        assert(steps(s, all[j]) == rules_step(node, own, s, all[j]));
        if let Ok(rule) = rule_of(node, all[j], own) {
            a_bus_rule_is_the_one_written(node, all[j], own, rule);
        }
    }
    assert(keeps(0, start));
    lemma_walk(all, 0, start, steps, keeps);
}

proof fn lemma_policy_for(rules: Seq<BusRuleView>, name: Seq<char>, i: int)
    requires
        0 <= i <= rules.len(),
    ensures
        match policy_for(rules, name, i) {
            Some(word) => exists|k: int|
                i <= k < rules.len() && policy_of(#[trigger] rules[k]) == Some((name, word)),
            None => forall|k: int|
                i <= k < rules.len() ==> (policy_of(#[trigger] rules[k]) matches Some((n, _)) ==> n
                    != name),
        },
    decreases rules.len() - i,
{
    if i < rules.len() {
        lemma_policy_for(rules, name, i + 1);
        if let Some((n, word)) = policy_of(rules[i]) {
            assert(n == name ==> policy_of(rules[i]) == Some((name, word)));
        }
    }
}

/// Rules that say one policy for each name are all accepted.
pub proof fn rules_of_one_policy_each_are_accepted(
    node: NodeView,
    own: bool,
    rules: Seq<BusRuleView>,
)
    requires
        node.entries.len() == 0,
        rules.len() == children_of(node).len(),
        forall|i: int|
            0 <= i < rules.len() ==> says_rule(children_of(node)[i], own, #[trigger] rules[i]),
        one_policy_each(rules),
    ensures
        bus_rules_of(node, own) == Ok::<Seq<BusRuleView>, ConfigErrorView>(rules),
{
    let all = children_of(node);
    let n = all.len() as int;
    let steps = rules_steps(node, own);
    let keeps = |k: int, st: Seq<BusRuleView>| st == rules.take(k);
    let start = Seq::<BusRuleView>::empty();
    assert forall|j: int, s: Seq<BusRuleView>|
        0 <= j < n && #[trigger] keeps(j, s) implies steps(s, all[j]) == Ok::<
        Seq<BusRuleView>,
        ConfigErrorView,
    >(rules.take(j + 1)) by {
        assert(steps(s, all[j]) == rules_step(node, own, s, all[j]));
        assert(says_rule(all[j], own, rules[j]));
        a_bus_rule_is_the_one_written(node, all[j], own, rules[j]);
        if let Some((name, level)) = policy_of(rules[j]) {
            lemma_policy_for(s, name, 0);
            if let Some(was) = policy_for(s, name, 0) {
                let k = choose|k: int|
                    0 <= k < s.len() && policy_of(#[trigger] s[k]) == Some((name, was));
                assert(s[k] == rules[k]);
                assert(policy_of(rules[k]) == policy_of(rules[j]));
            }
        }
        assert(rules.take(j).push(rules[j]) =~= rules.take(j + 1));
    }
    assert(start =~= rules.take(0));
    assert(keeps(0, start));
    lemma_walk(all, 0, start, steps, keeps);
    assert(rules.take(n) =~= rules);
}

} // verus!
