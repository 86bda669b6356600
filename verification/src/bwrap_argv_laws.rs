//! What stands in an argv, element by element.

use vstd::prelude::*;

use crate::bwrap::{
    account_covers, all_items, answered_in, baseline_view, cover, data_item, display_view, emitted,
    etc_binds, etc_path, explained_in, explained_item, finished, finished_plain, first_data,
    first_leading, first_tmpfs, flat, flattened, group_text, has_own_etc, in_directory, leads, op,
    own_bind, passwd_text, plain_requests_of, proxy_view, requests_in, requests_of, sets_directory,
    sharing_net, sidecar_view, sound_view, supervisor, with_host_etc, without_userns, BwrapView,
    ExplainedView, ItemView, KindView, Origin, RequestView, ETC_ALLOWLIST, PROXY_ETC,
};
use crate::bwrap_laws::{lemma_first_tmpfs_bounds, lemma_flat_push, lemma_leading_leads};
use crate::error::LaunchErrorView;
use crate::host::{file_kind, FileKind};
use crate::text::{decimal_digits, utf8};

verus! {

proof fn lemma_leading_stays(
    a: Seq<ItemView>,
    b: Seq<ItemView>,
    flag: Seq<u8>,
    i: int,
    at: int,
)
    requires
        first_leading(a, flag, i) == Some(at),
        0 <= i,
        a.len() == b.len(),
        forall|k: int| 0 <= k < a.len() && k != at ==> #[trigger] b[k] == a[k],
        leads(b[at], flag),
    ensures
        first_leading(b, flag, i) == Some(at),
    decreases a.len() - i,
{
    if i < a.len() && !leads(a[i], flag) {
        lemma_leading_leads(a, flag, i + 1);
        lemma_leading_stays(a, b, flag, i + 1, at);
    }
}

/// The working directory afterwards is the one asked for, whatever it is: the
/// operation that sets it names it, stands where it stood under the node it
/// had, and nothing else changes. So of two changes the last holds.
pub proof fn the_working_directory_is_the_one_asked_for(v: BwrapView, dir: Seq<u8>, next: Seq<u8>)
    requires
        sets_directory(v),
    ensures
        ({
            let w = in_directory(v, dir);
            let at = first_leading(v.namespaces, utf8("--chdir"@), 0)->Some_0;
            &&& 0 <= at < v.namespaces.len()
            &&& w.namespaces.len() == v.namespaces.len()
            &&& w.namespaces[at].origin == v.namespaces[at].origin
            &&& w.namespaces[at].kind matches KindView::Args(args) && args.len() == 2 && args[0]
                == utf8("--chdir"@) && args[1] == dir
            &&& forall|i: int|
                0 <= i < v.namespaces.len() && i != at ==> #[trigger] w.namespaces[i]
                    == v.namespaces[i]
            &&& w == (BwrapView { namespaces: w.namespaces, ..v })
            &&& sets_directory(w)
            &&& in_directory(w, next) == in_directory(v, next)
        }),
{
    lemma_leading_leads(v.namespaces, utf8("--chdir"@), 0);
    let w = in_directory(v, dir);
    let at = first_leading(v.namespaces, utf8("--chdir"@), 0)->Some_0;
    lemma_leading_stays(v.namespaces, w.namespaces, utf8("--chdir"@), 0, at);
    assert(in_directory(w, next).namespaces =~= in_directory(v, next).namespaces);
}

/// Sharing the network adds one operation and changes none: it stands right
/// after the first, which unshares everything, under the node that asked; and
/// where the network is shared already nothing changes.
pub proof fn sharing_the_network_adds_one_operation(v: BwrapView)
    requires
        v.namespaces.len() > 0,
    ensures
        ({
            let w = sharing_net(v);
            let shared = exists|i: int|
                0 <= i < v.namespaces.len() && leads(#[trigger] v.namespaces[i], utf8("--share-net"@));
            &&& shared ==> w == v
            &&& !shared ==> {
                &&& w.namespaces.len() == v.namespaces.len() + 1
                &&& w.namespaces[0] == v.namespaces[0]
                &&& w.namespaces[1].origin == v.origin
                &&& w.namespaces[1].kind matches KindView::Args(args) && args.len() == 1 && args[0]
                    == utf8("--share-net"@)
                &&& forall|i: int|
                    1 <= i < v.namespaces.len() ==> w.namespaces[i + 1] == #[trigger] v.namespaces[i]
                &&& w == (BwrapView { namespaces: w.namespaces, ..v })
            }
        }),
{
    lemma_first_leading(v.namespaces, utf8("--share-net"@), 0);
}

proof fn lemma_first_leading(items: Seq<ItemView>, flag: Seq<u8>, i: int)
    requires
        0 <= i <= items.len(),
    ensures
        first_leading(items, flag, i) is Some <==> exists|k: int|
            i <= k < items.len() && leads(#[trigger] items[k], flag),
    decreases items.len() - i,
{
    if i < items.len() {
        lemma_first_leading(items, flag, i + 1);
    }
}

/// Forbidding nested user namespaces adds one operation at the end of the
/// first phase and changes none: a user namespace of its own, in which no
/// other can be made; and where there is one already nothing changes.
pub proof fn forbidding_user_namespaces_adds_one_operation(v: BwrapView)
    ensures
        ({
            let w = without_userns(v);
            let own = exists|i: int|
                0 <= i < v.namespaces.len() && leads(
                    #[trigger] v.namespaces[i],
                    utf8("--unshare-user"@),
                );
            &&& own ==> w == v
            &&& !own ==> {
                &&& w.namespaces.len() == v.namespaces.len() + 1
                &&& w.namespaces.drop_last() == v.namespaces
                &&& w.namespaces.last().origin == v.origin
                &&& w.namespaces.last().kind matches KindView::Args(args) && args.len() == 2
                    && args[0] == utf8("--unshare-user"@) && args[1] == utf8("--disable-userns"@)
                &&& w == (BwrapView { namespaces: w.namespaces, ..v })
            }
        }),
{
    lemma_first_leading(v.namespaces, utf8("--unshare-user"@), 0);
    assert(without_userns(v).namespaces.drop_last() =~= v.namespaces || without_userns(v) == v);
}

/// Binding the host's `/etc` puts one read-only bind where the tmpfs and its
/// entries stood, keeps the account files after it, and covers a file that
/// names the host's accounts exactly where the host has it: a backup of the
/// accounts with the same accounts, a list of subordinate ids with nothing.
/// What stood before the tmpfs and after the account files stands there still.
pub proof fn the_host_etc_stands_where_the_own_one_stood(
    v: BwrapView,
    files: Seq<(Seq<u8>, FileKind)>,
)
    requires
        has_own_etc(v),
    ensures
        ({
            let start = first_tmpfs(v.skeleton, utf8("/etc"@), 0)->Some_0;
            let end = first_data(v.skeleton, start)->Some_0;
            let w = with_host_etc(v, files);
            let passwd = v.skeleton[end].kind->Data_content;
            let group = v.skeleton[end + 1].kind->Data_content;
            let covers = w.skeleton.subrange(
                start + 3,
                w.skeleton.len() - (v.skeleton.len() - end - 2),
            );
            &&& w.skeleton.take(start) == v.skeleton.take(start)
            &&& w.skeleton[start] == op(
                v.origin,
                seq![utf8("--ro-bind"@), utf8("/etc"@), utf8("/etc"@)],
            )
            &&& w.skeleton[start + 1] == (ItemView { origin: v.origin, kind: v.skeleton[end].kind })
            &&& w.skeleton[start + 2] == (ItemView {
                origin: v.origin,
                kind: v.skeleton[end + 1].kind,
            })
            &&& w.skeleton.skip(w.skeleton.len() - (v.skeleton.len() - end - 2))
                == v.skeleton.skip(end + 2)
            &&& w == (BwrapView { skeleton: w.skeleton, ..v })
            &&& forall|item: ItemView| #[trigger]
                covers.contains(item) <==> {
                    ||| covered(v.origin, files, passwd, "/etc/passwd-"@, item)
                    ||| covered(v.origin, files, passwd, "/etc/passwd+"@, item)
                    ||| covered(v.origin, files, group, "/etc/group-"@, item)
                    ||| covered(v.origin, files, group, "/etc/group+"@, item)
                    ||| covered(v.origin, files, Seq::empty(), "/etc/subuid"@, item)
                    ||| covered(v.origin, files, Seq::empty(), "/etc/subgid"@, item)
                }
        }),
{
    lemma_first_tmpfs_bounds(v.skeleton, utf8("/etc"@), 0);
    let start = first_tmpfs(v.skeleton, utf8("/etc"@), 0)->Some_0;
    lemma_first_data(v.skeleton, start);
    let end = first_data(v.skeleton, start)->Some_0;
    let w = with_host_etc(v, files);
    let passwd = v.skeleton[end].kind->Data_content;
    let group = v.skeleton[end + 1].kind->Data_content;
    let all = account_covers(v.origin, files, passwd, group);
    let tail = v.skeleton.skip(end + 2);
    assert(w.skeleton.len() == start + 3 + all.len() + tail.len());
    assert(w.skeleton.take(start) =~= v.skeleton.take(start));
    assert(w.skeleton.skip(w.skeleton.len() - tail.len()) =~= tail);
    assert(w.skeleton.subrange(start + 3, w.skeleton.len() - tail.len()) =~= all);
    lemma_covers(v.origin, files, passwd, group);
}

proof fn lemma_first_data(items: Seq<ItemView>, i: int)
    ensures
        first_data(items, i) matches Some(at) ==> i <= at < items.len() && items[at].kind is Data,
    decreases items.len() - i,
{
    if 0 <= i < items.len() && !(items[i].kind is Data) {
        lemma_first_data(items, i + 1);
    }
}

/// Whether an operation puts a content over a path that the host has.
pub open spec fn covered(
    origin: Origin,
    files: Seq<(Seq<u8>, FileKind)>,
    content: Seq<u8>,
    dest: Seq<char>,
    item: ItemView,
) -> bool {
    file_kind(files, utf8(dest)) is Some && item == (ItemView {
        origin,
        kind: KindView::Data { content, dest: utf8(dest) },
    })
}

proof fn lemma_either<T>(a: Seq<T>, b: Seq<T>)
    ensures
        forall|t: T| #[trigger] (a + b).contains(t) <==> a.contains(t) || b.contains(t),
{
    assert forall|t: T| #[trigger] (a + b).contains(t) <==> a.contains(t) || b.contains(t) by {
        if a.contains(t) {
            assert((a + b)[a.index_of(t)] == t);
        }
        if b.contains(t) {
            assert((a + b)[a.len() + b.index_of(t)] == t);
        }
    }
}

proof fn lemma_covers(
    origin: Origin,
    files: Seq<(Seq<u8>, FileKind)>,
    passwd: Seq<u8>,
    group: Seq<u8>,
)
    ensures
        forall|item: ItemView| #[trigger]
            account_covers(origin, files, passwd, group).contains(item) <==> {
                ||| covered(origin, files, passwd, "/etc/passwd-"@, item)
                ||| covered(origin, files, passwd, "/etc/passwd+"@, item)
                ||| covered(origin, files, group, "/etc/group-"@, item)
                ||| covered(origin, files, group, "/etc/group+"@, item)
                ||| covered(origin, files, Seq::empty(), "/etc/subuid"@, item)
                ||| covered(origin, files, Seq::empty(), "/etc/subgid"@, item)
            },
{
    let a = cover(origin, files, passwd, "/etc/passwd-"@);
    let b = cover(origin, files, passwd, "/etc/passwd+"@);
    let c = cover(origin, files, group, "/etc/group-"@);
    let d = cover(origin, files, group, "/etc/group+"@);
    let e = cover(origin, files, Seq::empty(), "/etc/subuid"@);
    let f = cover(origin, files, Seq::empty(), "/etc/subgid"@);
    lemma_either(a, b);
    lemma_either(a + b, c);
    lemma_either(a + b + c, d);
    lemma_either(a + b + c + d, e);
    lemma_either(a + b + c + d + e, f);
    lemma_cover(origin, files, passwd, "/etc/passwd-"@);
    lemma_cover(origin, files, passwd, "/etc/passwd+"@);
    lemma_cover(origin, files, group, "/etc/group-"@);
    lemma_cover(origin, files, group, "/etc/group+"@);
    lemma_cover(origin, files, Seq::empty(), "/etc/subuid"@);
    lemma_cover(origin, files, Seq::empty(), "/etc/subgid"@);
}

proof fn lemma_cover(
    origin: Origin,
    files: Seq<(Seq<u8>, FileKind)>,
    content: Seq<u8>,
    dest: Seq<char>,
)
    ensures
        forall|item: ItemView| #[trigger]
            cover(origin, files, content, dest).contains(item) <==> covered(
                origin,
                files,
                content,
                dest,
                item,
            ),
{
    let one = cover(origin, files, content, dest);
    if one.len() > 0 {
        assert(one[0] == data_item(origin, content, utf8(dest)));
        assert(one.contains(one[0]));
    }
}

/// How many of the first `n` operations need something allocated.
pub open spec fn asking(items: Seq<ItemView>, n: int) -> nat
    decreases n,
{
    if n <= 0 {
        0
    } else {
        asking(items, n - 1) + (if items[n - 1].kind is Args || items[n - 1].kind is Noted {
            0nat
        } else {
            1nat
        })
    }
}

proof fn lemma_asking(items: Seq<ItemView>, n: int)
    requires
        0 <= n <= items.len(),
    ensures
        requests_in(items, n).len() == asking(items, n),
        forall|k: int|
            0 <= k < n && !(items[k].kind is Args) && !(items[k].kind is Noted) ==> {
                &&& asking(items, k) < asking(items, n)
                &&& requests_in(items, n)[asking(items, k) as int] == (
                match #[trigger] items[k].kind {
                    KindView::Data { content, dest } => RequestView::File { dest, content },
                    KindView::Seccomp { program, arches: _ } => RequestView::Data {
                        content: program,
                    },
                    KindView::BlockFd => RequestView::BlockPipe,
                    _ => RequestView::InfoPipe,
                })
            },
    decreases n,
{
    if n > 0 {
        lemma_asking(items, n - 1);
    }
}

/// What is asked for is what the operations need, one request for each that
/// needs something and in their order: a generated file with its own content
/// for its own path, a filter with its own program; and after them, where a
/// supervisor is started, its socket.
pub proof fn every_need_is_asked_for_in_order(v: BwrapView, k: int)
    requires
        0 <= k < all_items(v).len(),
        !(all_items(v)[k].kind is Args),
        !(all_items(v)[k].kind is Noted),
    ensures
        ({
            let items = all_items(v);
            let at = asking(items, k) as int;
            let asked = plain_requests_of(v);
            &&& asked.len() == asking(items, items.len() as int)
            &&& at < asked.len()
            &&& asked[at] == (match items[k].kind {
                KindView::Data { content, dest } => RequestView::File { dest, content },
                KindView::Seccomp { program, arches: _ } => RequestView::Data { content: program },
                KindView::BlockFd => RequestView::BlockPipe,
                _ => RequestView::InfoPipe,
            })
            &&& requests_of(v)[at] == asked[at]
            &&& requests_of(v).len() == asked.len() + 1
            &&& requests_of(v).last() == RequestView::InitSocket
        }),
{
    let items = all_items(v);
    lemma_asking(items, items.len() as int);
    let kind = items[k].kind;
}

proof fn lemma_explained(items: Seq<ItemView>, answers: Seq<Seq<u8>>, n: int)
    requires
        0 <= n <= items.len(),
    ensures
        explained_in(items, answers, n).len() == n,
        forall|k: int|
            0 <= k < n ==> #[trigger] explained_in(items, answers, n)[k] == explained_item(
                items[k],
                answers[asking(items, k) as int],
            ),
    decreases n,
{
    if n > 0 {
        lemma_explained(items, answers, n - 1);
        lemma_asking(items, n - 1);
    }
}

/// Every operation is emitted where it stands and under the node it is of, with
/// its own arguments; one that needs something is given the answer to its own
/// request, after the flag that takes it.
pub proof fn every_operation_is_emitted_with_its_own_answer(
    v: BwrapView,
    answers: Seq<Seq<u8>>,
    k: int,
)
    requires
        0 <= k < all_items(v).len(),
    ensures
        ({
            let item = all_items(v)[k];
            let out = emitted(v, answers)[k];
            let answer = answers[asking(all_items(v), k) as int];
            &&& emitted(v, answers).len() == all_items(v).len()
            &&& out.origin == item.origin
            &&& match item.kind {
                KindView::Args(args) => out.args == args && out.note is None,
                KindView::Noted { args, note } => out.args == args && out.note == Some(note),
                KindView::Data { content, dest } => {
                    &&& out.args.len() == 3
                    &&& out.args[0] == utf8("--ro-bind"@)
                    &&& out.args[1] == answer
                    &&& out.args[2] == dest
                    &&& out.note == Some(
                        "generated file, "@ + decimal_digits(content.len()) + " bytes"@,
                    )
                },
                KindView::InfoFd => out.args.len() == 2 && out.args[0] == utf8("--info-fd"@)
                    && out.args[1] == answer && out.note is Some,
                KindView::BlockFd => out.args.len() == 2 && out.args[0] == utf8("--block-fd"@)
                    && out.args[1] == answer && out.note is Some,
                KindView::Seccomp { program, arches } => {
                    &&& out.args.len() == 2
                    &&& out.args[0] == utf8("--add-seccomp-fd"@)
                    &&& out.args[1] == answer
                    &&& out.note == Some(
                        "filter, "@ + decimal_digits(program.len()) + " bytes, "@ + arches,
                    )
                },
            }
        }),
{
    lemma_explained(all_items(v), answers, all_items(v).len() as int);
}

/// A launch is given up at the first thing that cannot be allocated, for what
/// was said of it; where everything was, each answer is kept in its place.
pub proof fn the_first_refusal_ends_the_launch(given: Seq<Result<Vec<u8>, String>>, n: int)
    requires
        0 <= n <= given.len(),
    ensures
        match answered_in(given, n) {
            Ok(all) => all.len() == n && forall|i: int|
                0 <= i < n ==> ((#[trigger] given[i]) matches Ok(answer) && all[i] == answer@),
            Err(e) => exists|i: int|
                0 <= i < n && ((#[trigger] given[i]) matches Err(why) && e == LaunchErrorView::Data(
                    why@,
                )) && forall|j: int| 0 <= j < i ==> #[trigger] given[j] is Ok,
        },
    decreases n,
{
    if n > 0 {
        the_first_refusal_ends_the_launch(given, n - 1);
        if let Ok(all) = answered_in(given, n - 1) {
            match given[n - 1] {
                Ok(_) => {},
                Err(_) => {
                    assert(given[n - 1] is Err);
                    assert forall|j: int| 0 <= j < n - 1 implies #[trigger] given[j] is Ok by {}
                },
            }
        }
    }
}

/// What the supervisor is told before the command.
pub open spec fn told(v: BwrapView, socket: Seq<u8>) -> Seq<Seq<u8>> {
    seq![utf8("--"@), utf8("/run/bubbler-init"@), utf8("--socket-fd"@), socket] + (if v.ctty {
        seq![utf8("--ctty"@)]
    } else {
        Seq::empty()
    }) + (match v.x11 {
        None => Seq::empty(),
        Some((_, argv, wm)) => seq![utf8("--x11"@)] + argv + seq![utf8("--"@)] + (match wm {
            None => Seq::empty(),
            Some(wm) => seq![utf8("--wm"@), wm],
        }),
    })
}

/// A finished argv is what was built, then the supervisor with its socket and
/// with what it is to start, then `--` and the whole command as it was given.
pub proof fn a_finished_argv_ends_in_the_command(
    v: BwrapView,
    command: Seq<Seq<u8>>,
    answers: Seq<Seq<u8>>,
)
    ensures
        ({
            let socket = answers[asking(all_items(v), all_items(v).len() as int) as int];
            &&& flattened(finished(v, command, answers)) == flattened(emitted(v, answers)) + told(
                v,
                socket,
            ) + seq![utf8("--"@)] + command
            &&& finished_plain(v, command, answers) == flattened(emitted(v, answers)) + seq![
                utf8("--"@),
            ] + command
        }),
{
    let items = all_items(v);
    lemma_asking(items, items.len() as int);
    let socket = answers[asking(items, items.len() as int) as int];
    let built = emitted(v, answers);
    let tail = supervisor(v, socket);
    let last = ExplainedView {
        origin: Origin::Command,
        args: seq![utf8("--"@)] + command,
        note: None,
    };
    lemma_flat_push(built, tail, tail.len() as int);
    let all = built + tail;
    assert(all.len() == built.len() + tail.len());
    assert(flattened(all) == flattened(built) + flattened(tail));
    assert(all.push(last).drop_last() =~= all);
    lemma_flat_one(all, last);
    lemma_told(v, socket);
    assert(finished(v, command, answers) == all.push(last));
    assert(flattened(finished(v, command, answers)) =~= flattened(built) + told(v, socket) + seq![
        utf8("--"@),
    ] + command);
    assert(finished_plain(v, command, answers) =~= flattened(built) + seq![utf8("--"@)] + command);
}

proof fn lemma_flat_one(items: Seq<ExplainedView>, last: ExplainedView)
    ensures
        flattened(items.push(last)) == flattened(items) + last.args,
{
    assert(items.push(last) =~= items + seq![last]);
    crate::bwrap_laws::lemma_flat_prefix(items, seq![last], items.len() as int);
}

proof fn lemma_told(v: BwrapView, socket: Seq<u8>)
    ensures
        flattened(supervisor(v, socket)) == told(v, socket),
{
    reveal_with_fuel(flat, 5);
    assert(flattened(supervisor(v, socket)) =~= told(v, socket));
}

/// An operation of the baseline.
pub open spec fn always(args: Seq<Seq<u8>>) -> ItemView {
    ItemView { origin: Origin::Baseline, kind: KindView::Args(args) }
}

/// A host path bound read-only at its own place.
pub open spec fn shown(path: Seq<u8>) -> ItemView {
    always(seq![utf8("--ro-bind"@), path, path])
}

/// A variable of the baseline.
pub open spec fn sets(key: Seq<u8>, value: Seq<u8>) -> ItemView {
    always(seq![utf8("--setenv"@), key, value])
}

proof fn lemma_etc_binds(names: Seq<&'static str>, files: Seq<(Seq<u8>, FileKind)>, n: int)
    requires
        0 <= n <= names.len(),
    ensures
        forall|item: ItemView| #[trigger]
            etc_binds(names, files, n).contains(item) <==> exists|i: int|
                0 <= i < n && file_kind(files, etc_path((#[trigger] names[i])@)) is Some && item
                    == shown(etc_path(names[i]@)),
    decreases n,
{
    let all = etc_binds(names, files, n);
    if n > 0 {
        lemma_etc_binds(names, files, n - 1);
        let rest = etc_binds(names, files, n - 1);
        let path = etc_path(names[n - 1]@);
        assert forall|item: ItemView| #[trigger] all.contains(item) <==> exists|i: int|
            0 <= i < n && file_kind(files, etc_path((#[trigger] names[i])@)) is Some && item
                == shown(etc_path(names[i]@)) by {
            assert(own_bind(path) == shown(path));
            if rest.contains(item) {
                assert(all[rest.index_of(item)] == item);
            }
            if file_kind(files, path) is Some {
                assert(all.last() == shown(path));
                assert(all.contains(shown(path)));
            }
            if all.contains(item) && !rest.contains(item) {
                let k = all.index_of(item);
                if k < rest.len() {
                    assert(rest[k] == item);
                }
                assert(names[n - 1]@ == names[n - 1]@);
            }
        }
    }
}

/// The environment an instance begins with: cleared, then the variables passed
/// through, each with its own value and in their order, and then the five the
/// sandbox sets itself, so that none of those can be passed through.
pub proof fn an_instance_begins_with_its_own_environment(
    uid: u32,
    gid: u32,
    passthrough: Seq<(Seq<u8>, Seq<u8>)>,
    runtime_dir: Seq<u8>,
    home: Seq<u8>,
    files: Seq<(Seq<u8>, FileKind)>,
)
    ensures
        ({
            let v = baseline_view(uid, gid, passthrough, runtime_dir, home, files);
            let n = passthrough.len() as int;
            &&& v.env.len() == n + 6
            &&& v.env[0] == always(seq![utf8("--clearenv"@)])
            &&& forall|i: int|
                0 <= i < n ==> v.env[1 + i] == sets(
                    (#[trigger] passthrough[i]).0,
                    passthrough[i].1,
                )
            &&& v.env[n + 1] == sets(utf8("HOME"@), utf8("/home/bubbler"@))
            &&& v.env[n + 2] == sets(utf8("PATH"@), utf8("/usr/bin:/home/bubbler/.local/bin"@))
            &&& v.env[n + 3] == sets(utf8("XDG_RUNTIME_DIR"@), runtime_dir)
            &&& v.env[n + 4] == sets(utf8("USER"@), utf8("bubbler"@))
            &&& v.env[n + 5] == sets(utf8("LOGNAME"@), utf8("bubbler"@))
        }),
{
    reveal_strlit("/usr/bin:");
    reveal_strlit("/home/bubbler");
    reveal_strlit("/.local/bin");
    reveal_strlit("/usr/bin:/home/bubbler/.local/bin");
    assert("/usr/bin:"@ + "/home/bubbler"@ + "/.local/bin"@
        =~= "/usr/bin:/home/bubbler/.local/bin"@);
}

/// What an instance begins with besides: its namespaces, a runtime directory
/// that only it can read, no bind, mask, terminal or X server yet; the
/// read-only system, an `/etc` with the entries of the allowlist that the host
/// has and no others, the accounts of its own, and its home last of all.
pub proof fn an_instance_begins_with_its_own_files(
    uid: u32,
    gid: u32,
    passthrough: Seq<(Seq<u8>, Seq<u8>)>,
    runtime_dir: Seq<u8>,
    home: Seq<u8>,
    files: Seq<(Seq<u8>, FileKind)>,
)
    ensures
        ({
            let v = baseline_view(uid, gid, passthrough, runtime_dir, home, files);
            let s = v.skeleton;
            let n = etc_binds(ETC_ALLOWLIST@, files, 24).len() as int;
            let sync = file_kind(files, utf8("/dev/ntsync"@)) == Some(FileKind::CharDevice);
            &&& v.namespaces.len() == 6
            &&& v.namespaces[0] == always(seq![utf8("--unshare-all"@)])
            &&& v.namespaces[1] == always(seq![utf8("--die-with-parent"@)])
            &&& v.namespaces[2] == always(seq![utf8("--new-session"@)])
            &&& v.namespaces[3] == always(seq![utf8("--hostname"@), utf8("bubbler"@)])
            &&& v.namespaces[4] == always(seq![utf8("--chdir"@), utf8("/home/bubbler"@)])
            &&& v.namespaces[5] == (ItemView { origin: Origin::Baseline, kind: KindView::InfoFd })
            &&& v.runtime_dir == seq![
                always(seq![utf8("--perms"@), utf8("0700"@), utf8("--dir"@), runtime_dir]),
            ]
            &&& v.binds.len() == 0 && v.masks.len() == 0 && !v.ctty && v.x11 is None
            &&& v.origin == Origin::Baseline
            &&& s.len() == 7 + n + 4 + (if sync { 1int } else { 0 }) + 4
            &&& s[0] == shown(utf8("/usr"@))
            &&& s[1] == always(seq![utf8("--symlink"@), utf8("usr/bin"@), utf8("/bin"@)])
            &&& s[2] == always(seq![utf8("--symlink"@), utf8("usr/lib"@), utf8("/lib"@)])
            &&& s[3] == always(seq![utf8("--symlink"@), utf8("usr/lib64"@), utf8("/lib64"@)])
            &&& s[4] == always(seq![utf8("--symlink"@), utf8("usr/bin"@), utf8("/sbin"@)])
            &&& s[5] == always(seq![utf8("--ro-bind-try"@), utf8("/opt"@), utf8("/opt"@)])
            &&& capped(s[6], 67108864, "/etc"@)
            &&& forall|item: ItemView| #[trigger]
                s.subrange(7, 7 + n).contains(item) <==> exists|i: int|
                    0 <= i < 24 && file_kind(files, etc_path((#[trigger] ETC_ALLOWLIST@[i])@))
                        is Some && item == shown(etc_path(ETC_ALLOWLIST@[i]@))
            &&& s[7 + n].kind == (KindView::Data {
                content: utf8(passwd_text(uid, gid)),
                dest: utf8("/etc/passwd"@),
            })
            &&& s[8 + n].kind == (KindView::Data {
                content: utf8(group_text(gid)),
                dest: utf8("/etc/group"@),
            })
            &&& s[9 + n] == always(seq![utf8("--proc"@), utf8("/proc"@)])
            &&& s[10 + n] == always(seq![utf8("--dev"@), utf8("/dev"@)])
            &&& sync ==> s[11 + n] == always(
                seq![utf8("--dev-bind"@), utf8("/dev/ntsync"@), utf8("/dev/ntsync"@)],
            )
            &&& capped(s[s.len() - 4], 2147483648, "/tmp"@)
            &&& capped(s[s.len() - 3], 67108864, "/var"@)
            &&& capped(s[s.len() - 2], 67108864, "/run"@)
            &&& s.last() == always(seq![utf8("--bind"@), home, utf8("/home/bubbler"@)])
        }),
{
    let v = baseline_view(uid, gid, passthrough, runtime_dir, home, files);
    let binds = etc_binds(ETC_ALLOWLIST@, files, 24);
    assert(v.skeleton.subrange(7, 7 + binds.len() as int) =~= binds);
    lemma_etc_binds(ETC_ALLOWLIST@, files, 24);
    assert(v.runtime_dir =~= seq![
        always(seq![utf8("--perms"@), utf8("0700"@), utf8("--dir"@), runtime_dir]),
    ]);
}

/// Whether an operation of the baseline is a tmpfs of a size.
pub open spec fn capped(item: ItemView, size: nat, dir: Seq<char>) -> bool {
    item == always(
        seq![utf8("--size"@), utf8(decimal_digits(size)), utf8("--tmpfs"@), utf8(dir)],
    )
}

/// What a sidecar begins with: cut off, the read-only system, an `/etc` with
/// what the loader needs of the host and no more, a `/proc`, a `/dev`, a
/// capped `/tmp`, and no variable at all.
pub proof fn a_sidecar_begins_with_next_to_nothing(files: Seq<(Seq<u8>, FileKind)>)
    ensures
        ({
            let v = sidecar_view(files);
            let s = v.skeleton;
            let n = etc_binds(PROXY_ETC@, files, 4).len() as int;
            &&& v.namespaces == seq![
                always(seq![utf8("--unshare-all"@)]),
                always(seq![utf8("--die-with-parent"@)]),
                always(seq![utf8("--new-session"@)]),
            ]
            &&& v.env == seq![always(seq![utf8("--clearenv"@)])]
            &&& v.runtime_dir.len() == 0 && v.binds.len() == 0 && v.masks.len() == 0 && !v.ctty
                && v.x11 is None
            &&& s.len() == n + 9
            &&& s[0] == shown(utf8("/usr"@))
            &&& s[1] == always(seq![utf8("--symlink"@), utf8("usr/bin"@), utf8("/bin"@)])
            &&& s[2] == always(seq![utf8("--symlink"@), utf8("usr/lib"@), utf8("/lib"@)])
            &&& s[3] == always(seq![utf8("--symlink"@), utf8("usr/lib64"@), utf8("/lib64"@)])
            &&& s[4] == always(seq![utf8("--symlink"@), utf8("usr/bin"@), utf8("/sbin"@)])
            &&& capped(s[5], 67108864, "/etc"@)
            &&& forall|item: ItemView| #[trigger]
                s.subrange(6, 6 + n).contains(item) <==> exists|i: int|
                    0 <= i < 4 && file_kind(files, etc_path((#[trigger] PROXY_ETC@[i])@)) is Some
                        && item == shown(etc_path(PROXY_ETC@[i]@))
            &&& s[6 + n] == always(seq![utf8("--proc"@), utf8("/proc"@)])
            &&& s[7 + n] == always(seq![utf8("--dev"@), utf8("/dev"@)])
            &&& capped(s.last(), 67108864, "/tmp"@)
        }),
{
    let v = sidecar_view(files);
    let binds = etc_binds(PROXY_ETC@, files, 4);
    assert(v.skeleton.subrange(6, 6 + binds.len() as int) =~= binds);
    lemma_etc_binds(PROXY_ETC@, files, 4);
}

/// What a sidecar has beside what every one has: the proxy of the buses the
/// socket of each bus it was asked for and of no other, read-only and at its
/// own path, and its own directory to write to; one of sound its socket,
/// read-only, and its directory for all of `/tmp`; the one of the display its
/// socket, read-only. The rest of each is what every sidecar begins with.
pub proof fn a_sidecar_has_what_it_serves_and_no_more(
    session: Option<Seq<u8>>,
    system: Option<Seq<u8>>,
    a11y: Option<Seq<u8>>,
    dir: Seq<u8>,
    socket: Seq<u8>,
    inside: Seq<u8>,
    files: Seq<(Seq<u8>, FileKind)>,
)
    ensures
        ({
            let v = sidecar_view(files);
            let n = v.skeleton.len() as int;
            let buses = proxy_view(session, system, a11y, dir, files);
            let sound = sound_view(socket, inside, dir, files);
            let display = display_view(socket, files);
            let one = if session is Some { 1int } else { 0 };
            let two = if system is Some { 1int } else { 0 };
            let three = if a11y is Some { 1int } else { 0 };
            &&& buses == (BwrapView { skeleton: buses.skeleton, ..v })
            &&& sound == (BwrapView { skeleton: sound.skeleton, ..v })
            &&& display == (BwrapView { skeleton: display.skeleton, ..v })
            &&& buses.skeleton.take(n) == v.skeleton
            &&& sound.skeleton.take(n) == v.skeleton
            &&& display.skeleton.take(n) == v.skeleton
            &&& buses.skeleton.len() == n + one + two + three + 1
            &&& session matches Some(path) ==> buses.skeleton[n] == shown(path)
            &&& system matches Some(path) ==> buses.skeleton[n + one] == shown(path)
            &&& a11y matches Some(path) ==> buses.skeleton[n + one + two] == shown(path)
            &&& buses.skeleton.last() == always(seq![utf8("--bind"@), dir, dir])
            &&& sound.skeleton.len() == n + 2
            &&& sound.skeleton[n] == always(seq![utf8("--ro-bind"@), socket, inside])
            &&& sound.skeleton[n + 1] == always(seq![utf8("--bind"@), dir, utf8("/tmp"@)])
            &&& display.skeleton.len() == n + 1
            &&& display.skeleton[n] == shown(socket)
        }),
{
    let v = sidecar_view(files);
    let n = v.skeleton.len() as int;
    assert(proxy_view(session, system, a11y, dir, files).skeleton.take(n) =~= v.skeleton);
    assert(sound_view(socket, inside, dir, files).skeleton.take(n) =~= v.skeleton);
    assert(display_view(socket, files).skeleton.take(n) =~= v.skeleton);
}

} // verus!
