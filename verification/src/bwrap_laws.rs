//! What holds of every argv that is built.

use vstd::prelude::*;

use crate::bwrap::{
    account_asks, account_covers, all_items, baseline_asks, baseline_view, capped_tmpfs, caps_tmp,
    element, emitted, etc_binds, etc_path, explained_in, explained_item, explained_plain,
    finished_plain, first_data, first_leading, first_tmpfs, flat, flattened, group_text,
    has_own_etc, in_directory, leads, op, own_bind, passwd_text, requests_in, set_variable,
    sets_directory, sharing_net, sidecar_view, tmpfs, usr_items, with_host_etc, with_skeleton,
    with_tmp_size, without_userns, BwrapView, ExplainedView, ItemView, KindView, Origin,
    ETC_ALLOWLIST, PROXY_ETC, TMPFS_SIZE, TMP_SIZE,
};
use crate::config::address::digits_value;
use crate::config::address_laws::a_number_is_written_in_its_digits;
use crate::env::SANDBOX_HOME;
use crate::host::{file_kind, FileKind};
use crate::split::{lemma_split_concat, lemma_split_parts, lemma_split_plain, split_on};
use crate::text::{decimal_digits, lemma_decimal_digits, lemma_joined, lemma_utf8_injective, utf8};

verus! {

proof fn lemma_leading_found(items: Seq<ItemView>, flag: Seq<u8>, i: int, k: int)
    requires
        0 <= i <= k < items.len(),
        leads(items[k], flag),
    ensures
        first_leading(items, flag, i) matches Some(at) && i <= at <= k && leads(items[at], flag),
    decreases k - i,
{
    if i < k && !leads(items[i], flag) {
        lemma_leading_found(items, flag, i + 1, k);
    }
}

proof fn lemma_tmpfs_found(items: Seq<ItemView>, dir: Seq<u8>, i: int, k: int)
    requires
        0 <= i <= k < items.len(),
        capped_tmpfs(items[k], dir),
    ensures
        first_tmpfs(items, dir, i) matches Some(at) && i <= at <= k,
    decreases k - i,
{
    if i < k && !capped_tmpfs(items[i], dir) {
        lemma_tmpfs_found(items, dir, i + 1, k);
    }
}

proof fn lemma_data_found(items: Seq<ItemView>, i: int, k: int)
    requires
        0 <= i <= k < items.len(),
        items[k].kind is Data,
        forall|j: int| i <= j < k ==> !((#[trigger] items[j]).kind is Data),
    ensures
        first_data(items, i) == Some(k),
    decreases k - i,
{
    if i < k {
        assert(!(items[i].kind is Data));
        lemma_data_found(items, i + 1, k);
    }
}

/// Keeping the host's network twice is keeping it once.
pub proof fn share_net_is_idempotent(v: BwrapView)
    requires
        v.namespaces.len() >= 1,
    ensures
        sharing_net(sharing_net(v)) == sharing_net(v),
{
    let next = sharing_net(v);
    if first_leading(v.namespaces, utf8("--share-net"@), 0) is None {
        assert(leads(next.namespaces[1], utf8("--share-net"@)));
        lemma_leading_found(next.namespaces, utf8("--share-net"@), 0, 1);
    }
}

/// Keeping the host's network puts one operation directly after the first,
/// which is `--unshare-all`, and moves nothing else.
pub proof fn share_net_follows_unshare_all(v: BwrapView)
    requires
        v.namespaces.len() >= 1,
        first_leading(v.namespaces, utf8("--share-net"@), 0) is None,
    ensures
        sharing_net(v).namespaces[0] == v.namespaces[0],
        sharing_net(v).namespaces[1] == op(v.origin, seq![utf8("--share-net"@)]),
        sharing_net(v).namespaces.skip(2) == v.namespaces.skip(1),
{
    assert(sharing_net(v).namespaces.skip(2) =~= v.namespaces.skip(1));
}

/// Forbidding nested user namespaces twice is forbidding them once.
pub proof fn disable_userns_is_idempotent(v: BwrapView)
    ensures
        without_userns(without_userns(v)) == without_userns(v),
{
    let next = without_userns(v);
    if first_leading(v.namespaces, utf8("--unshare-user"@), 0) is None {
        let k = v.namespaces.len() as int;
        assert(leads(next.namespaces[k], utf8("--unshare-user"@)));
        lemma_leading_found(next.namespaces, utf8("--unshare-user"@), 0, k);
    }
}

proof fn lemma_etc_binds(names: Seq<&'static str>, files: Seq<(Seq<u8>, FileKind)>, n: int)
    requires
        0 <= n,
    ensures
        forall|i: int|
            0 <= i < etc_binds(names, files, n).len() ==> (#[trigger] etc_binds(
                names,
                files,
                n,
            )[i]).kind is Args,
    decreases n,
{
    if n > 0 {
        lemma_etc_binds(names, files, n - 1);
    }
}

/// An instance's sandbox can have its working directory moved, its `/tmp`
/// capped anew and its `/etc` replaced: the baseline sets each of them.
pub proof fn a_baseline_can_be_adjusted(
    uid: u32,
    gid: u32,
    passthrough: Seq<(Seq<u8>, Seq<u8>)>,
    runtime_dir: Seq<u8>,
    home: Seq<u8>,
    files: Seq<(Seq<u8>, FileKind)>,
)
    ensures
        sets_directory(baseline_view(uid, gid, passthrough, runtime_dir, home, files)),
        caps_tmp(baseline_view(uid, gid, passthrough, runtime_dir, home, files)),
        has_own_etc(baseline_view(uid, gid, passthrough, runtime_dir, home, files)),
{
    let v = baseline_view(uid, gid, passthrough, runtime_dir, home, files);
    assert(leads(v.namespaces[4], utf8("--chdir"@)));
    lemma_leading_found(v.namespaces, utf8("--chdir"@), 0, 4);

    let s = v.skeleton;
    let binds = etc_binds(ETC_ALLOWLIST@, files, 24);
    lemma_etc_binds(ETC_ALLOWLIST@, files, 24);
    let n = binds.len() as int;
    assert(s[6] == tmpfs(TMPFS_SIZE, utf8("/etc"@)));
    assert(capped_tmpfs(s[6], utf8("/etc"@)));
    lemma_tmpfs_found(s, utf8("/etc"@), 0, 6);
    let start = first_tmpfs(s, utf8("/etc"@), 0)->Some_0;
    let end = 7 + n;
    assert(s[end].kind is Data);
    assert(s[end + 1].kind is Data);
    assert forall|j: int| start <= j < end implies !((#[trigger] s[j]).kind is Data) by {
        if j >= 7 {
            assert(s[j] == binds[j - 7]);
        }
    }
    lemma_data_found(s, start, end);

    let at = s.len() - 4;
    assert(s[at] == tmpfs(TMP_SIZE, utf8("/tmp"@)));
    assert(capped_tmpfs(s[at], utf8("/tmp"@)));
    lemma_tmpfs_found(s, utf8("/tmp"@), 0, at);
}

/// Moving the working directory or capping `/tmp` anew changes one operation
/// and no other.
pub proof fn an_adjustment_changes_one_operation(v: BwrapView, dir: Seq<u8>, bytes: u64)
    requires
        sets_directory(v),
        caps_tmp(v),
    ensures
        in_directory(v, dir).namespaces.len() == v.namespaces.len(),
        with_tmp_size(v, bytes).skeleton.len() == v.skeleton.len(),
        all_items(in_directory(v, dir)).skip(v.namespaces.len() as int) == all_items(v).skip(
            v.namespaces.len() as int,
        ),
        forall|i: int|
            0 <= i < v.namespaces.len() && i != first_leading(
                v.namespaces,
                utf8("--chdir"@),
                0,
            )->Some_0 ==> #[trigger] in_directory(v, dir).namespaces[i] == v.namespaces[i],
        forall|i: int|
            0 <= i < v.skeleton.len() && i != first_tmpfs(v.skeleton, utf8("/tmp"@), 0)->Some_0
                ==> #[trigger] with_tmp_size(v, bytes).skeleton[i] == v.skeleton[i],
{
    lemma_leading_leads(v.namespaces, utf8("--chdir"@), 0);
    lemma_first_tmpfs_bounds(v.skeleton, utf8("/tmp"@), 0);
    assert(all_items(in_directory(v, dir)).skip(v.namespaces.len() as int) =~= all_items(v).skip(
        v.namespaces.len() as int,
    ));
}

/// A new cap of `/tmp` is the number asked for, as it is, whatever the number:
/// the operation that caps `/tmp` has it as its second element, keeps every
/// other, is the node's that asked, and is still what caps `/tmp`. Nothing else
/// changes.
pub proof fn tmp_is_capped_at_the_number_asked_for(v: BwrapView, bytes: u64)
    requires
        caps_tmp(v),
    ensures
        ({
            let w = with_tmp_size(v, bytes);
            let at = first_tmpfs(v.skeleton, utf8("/tmp"@), 0)->Some_0;
            let was = v.skeleton[at].kind->Args_0;
            &&& 0 <= at < v.skeleton.len()
            &&& w.skeleton.len() == v.skeleton.len()
            &&& forall|i: int|
                0 <= i < v.skeleton.len() && i != at ==> #[trigger] w.skeleton[i] == v.skeleton[i]
            &&& w.skeleton[at].origin == v.origin
            &&& w.skeleton[at].kind matches KindView::Args(args) && {
                &&& args.len() == was.len()
                &&& args[1] == utf8(decimal_digits(bytes as nat))
                &&& digits_value(decimal_digits(bytes as nat), 10) == bytes
                &&& forall|k: int| 0 <= k < was.len() && k != 1 ==> #[trigger] args[k] == was[k]
            }
            &&& was.len() > 2 ==> first_tmpfs(w.skeleton, utf8("/tmp"@), 0) == Some(at)
            &&& w == (BwrapView { skeleton: w.skeleton, ..v })
        }),
{
    lemma_first_tmpfs_bounds(v.skeleton, utf8("/tmp"@), 0);
    a_number_is_written_in_its_digits(bytes as nat);
    let w = with_tmp_size(v, bytes);
    let at = first_tmpfs(v.skeleton, utf8("/tmp"@), 0)->Some_0;
    let was = v.skeleton[at].kind->Args_0;
    if was.len() > 2 {
        lemma_tmpfs_stays(v.skeleton, w.skeleton, utf8("/tmp"@), 0, at);
    }
}

proof fn lemma_tmpfs_stays(a: Seq<ItemView>, b: Seq<ItemView>, dir: Seq<u8>, i: int, at: int)
    requires
        first_tmpfs(a, dir, i) == Some(at),
        0 <= i,
        a.len() == b.len(),
        forall|k: int| 0 <= k < a.len() && k != at ==> #[trigger] b[k] == a[k],
        capped_tmpfs(b[at], dir),
    ensures
        first_tmpfs(b, dir, i) == Some(at),
    decreases a.len() - i,
{
    if i < a.len() && !capped_tmpfs(a[i], dir) {
        lemma_first_tmpfs_bounds(a, dir, i + 1);
        lemma_tmpfs_stays(a, b, dir, i + 1, at);
    }
}

/// Every mask comes after every bind, and every variable after every mask.
pub proof fn masks_come_after_every_bind(v: BwrapView, bind: int, mask: int)
    requires
        0 <= bind < v.binds.len(),
        0 <= mask < v.masks.len(),
    ensures
        ({
            let head = v.namespaces.len() + v.skeleton.len() + v.runtime_dir.len();
            let bind_at = head + bind;
            let mask_at = head + v.binds.len() + mask;
            &&& all_items(v)[bind_at] == v.binds[bind]
            &&& all_items(v)[mask_at] == v.masks[mask]
            &&& bind_at < mask_at
        }),
{
}

pub proof fn lemma_flat_push(items: Seq<ExplainedView>, more: Seq<ExplainedView>, n: int)
    requires
        0 <= n <= more.len(),
    ensures
        flat(items + more, items.len() + n) == flattened(items) + flat(more, n),
    decreases n,
{
    if n > 0 {
        lemma_flat_push(items, more, n - 1);
        assert((items + more)[items.len() + n - 1] == more[n - 1]);
        assert(flat(items + more, items.len() + n) =~= flattened(items) + flat(more, n));
    } else {
        lemma_flat_prefix(items, more, items.len() as int);
        assert(flattened(items) + flat(more, 0) =~= flattened(items));
    }
}

pub proof fn lemma_flat_prefix(items: Seq<ExplainedView>, more: Seq<ExplainedView>, n: int)
    requires
        0 <= n <= items.len(),
    ensures
        flat(items + more, n) == flat(items, n),
    decreases n,
{
    if n > 0 {
        lemma_flat_prefix(items, more, n - 1);
        assert((items + more)[n - 1] == items[n - 1]);
    }
}

proof fn lemma_flat_elements(command: Seq<(Seq<u8>, Origin)>, n: int)
    requires
        0 <= n <= command.len(),
    ensures
        flat(command.map_values(|c: (Seq<u8>, Origin)| element(c.0, c.1)), n)
            == command.map_values(|c: (Seq<u8>, Origin)| c.0).take(n),
    decreases n,
{
    let items = command.map_values(|c: (Seq<u8>, Origin)| element(c.0, c.1));
    let args = command.map_values(|c: (Seq<u8>, Origin)| c.0);
    if n > 0 {
        lemma_flat_elements(command, n - 1);
        assert(items[n - 1] == element(command[n - 1].0, command[n - 1].1));
        assert(args.take(n) =~= args.take(n - 1) + seq![args[n - 1]]);
    } else {
        assert(args.take(0) =~= Seq::empty());
    }
}

/// Flattening a sidecar's explained operations gives its argv, element for
/// element.
pub proof fn an_explained_sidecar_flattens_to_its_argv(
    v: BwrapView,
    command: Seq<(Seq<u8>, Origin)>,
    answers: Seq<Seq<u8>>,
)
    ensures
        flattened(explained_plain(v, command, answers)) == finished_plain(
            v,
            command.map_values(|c: (Seq<u8>, Origin)| c.0),
            answers,
        ),
{
    let head = emitted(v, answers);
    let separator = seq![element(utf8("--"@), Origin::Command)];
    let items = command.map_values(|c: (Seq<u8>, Origin)| element(c.0, c.1));
    let args = command.map_values(|c: (Seq<u8>, Origin)| c.0);
    lemma_flat_elements(command, command.len() as int);
    assert(args.take(command.len() as int) =~= args);
    lemma_flat_push(head, separator, 1);
    assert(flat(separator, 1) =~= seq![utf8("--"@)]) by {
        reveal_with_fuel(flat, 2);
    }
    assert(head.push(element(utf8("--"@), Origin::Command)) =~= head + separator);
    lemma_flat_push(head + separator, items, items.len() as int);
    assert(flattened(explained_plain(v, command, answers)) =~= finished_plain(v, args, answers));
}

/// Binding the host's `/etc` leaves the synthetic account files standing
/// after it: they are the two operations that follow the bind.
pub proof fn the_host_etc_keeps_the_synthetic_accounts(
    v: BwrapView,
    files: Seq<(Seq<u8>, FileKind)>,
)
    requires
        has_own_etc(v),
    ensures
        ({
            let start = first_tmpfs(v.skeleton, utf8("/etc"@), 0)->Some_0;
            let end = first_data(v.skeleton, start)->Some_0;
            let s = with_host_etc(v, files).skeleton;
            &&& s[start] == op(
                v.origin,
                seq![utf8("--ro-bind"@), utf8("/etc"@), utf8("/etc"@)],
            )
            &&& s[start + 1].kind == v.skeleton[end].kind
            &&& s[start + 2].kind == v.skeleton[end + 1].kind
        }),
{
    lemma_first_tmpfs_bounds(v.skeleton, utf8("/etc"@), 0);
}

pub proof fn lemma_first_tmpfs_bounds(items: Seq<ItemView>, dir: Seq<u8>, i: int)
    ensures
        first_tmpfs(items, dir, i) matches Some(at) ==> i <= at < items.len() && capped_tmpfs(
            items[at],
            dir,
        ),
    decreases items.len() - i,
{
    if 0 <= i < items.len() && !capped_tmpfs(items[i], dir) {
        lemma_first_tmpfs_bounds(items, dir, i + 1);
    }
}

/// Whether a sandbox is cut off: it shares no namespace it was not given, ends
/// with its parent, has a session and an environment of its own, and `/usr` is
/// read-only in it.
pub open spec fn isolated(v: BwrapView) -> bool {
    &&& v.namespaces.len() > 0
    &&& v.namespaces[0] == op(Origin::Baseline, seq![utf8("--unshare-all"@)])
    &&& first_leading(v.namespaces, utf8("--die-with-parent"@), 0) is Some
    &&& first_leading(v.namespaces, utf8("--new-session"@), 0) is Some
    &&& v.skeleton.len() > 0
    &&& v.skeleton[0] == own_bind(utf8("/usr"@))
    &&& v.env.len() > 0
    &&& v.env[0] == op(Origin::Baseline, seq![utf8("--clearenv"@)])
}

/// Every sandbox is cut off when it is begun, an instance's and a sidecar's.
pub proof fn every_sandbox_begins_isolated(
    uid: u32,
    gid: u32,
    passthrough: Seq<(Seq<u8>, Seq<u8>)>,
    runtime_dir: Seq<u8>,
    home: Seq<u8>,
    files: Seq<(Seq<u8>, FileKind)>,
    more: Seq<ItemView>,
)
    ensures
        isolated(baseline_view(uid, gid, passthrough, runtime_dir, home, files)),
        isolated(sidecar_view(files)),
        isolated(with_skeleton(sidecar_view(files), more)),
{
    let v = baseline_view(uid, gid, passthrough, runtime_dir, home, files);
    assert(leads(v.namespaces[1], utf8("--die-with-parent"@)));
    assert(leads(v.namespaces[2], utf8("--new-session"@)));
    lemma_leading_found(v.namespaces, utf8("--die-with-parent"@), 0, 1);
    lemma_leading_found(v.namespaces, utf8("--new-session"@), 0, 2);
    let w = sidecar_view(files);
    assert(leads(w.namespaces[1], utf8("--die-with-parent"@)));
    assert(leads(w.namespaces[2], utf8("--new-session"@)));
    lemma_leading_found(w.namespaces, utf8("--die-with-parent"@), 0, 1);
    lemma_leading_found(w.namespaces, utf8("--new-session"@), 0, 2);
    assert(v.skeleton[0] == usr_items()[0]);
    assert(w.skeleton[0] == usr_items()[0]);
    assert(with_skeleton(w, more).skeleton[0] == w.skeleton[0]);
    assert(v.env[0] == op(Origin::Baseline, seq![utf8("--clearenv"@)]));
}

pub proof fn lemma_leading_leads(items: Seq<ItemView>, flag: Seq<u8>, i: int)
    ensures
        first_leading(items, flag, i) matches Some(at) ==> i <= at < items.len() && leads(
            items[at],
            flag,
        ),
    decreases items.len() - i,
{
    if 0 <= i < items.len() && !leads(items[i], flag) {
        lemma_leading_leads(items, flag, i + 1);
    }
}

/// Operations with one more, or with one changed that this flag does not lead,
/// still hold the one it leads.
proof fn lemma_still_leading(items: Seq<ItemView>, flag: Seq<u8>, item: ItemView, at: int)
    requires
        first_leading(items, flag, 0) is Some,
    ensures
        first_leading(items.push(item), flag, 0) is Some,
        0 <= at <= items.len() ==> first_leading(items.insert(at, item), flag, 0) is Some,
        0 <= at < items.len() && !leads(items[at], flag) ==> first_leading(
            items.update(at, item),
            flag,
            0,
        ) is Some,
{
    lemma_leading_leads(items, flag, 0);
    let k = first_leading(items, flag, 0)->Some_0;
    assert(items.push(item)[k] == items[k]);
    lemma_leading_found(items.push(item), flag, 0, k);
    if 0 <= at <= items.len() {
        let all = items.insert(at, item);
        if k < at {
            assert(all[k] == items[k]);
            lemma_leading_found(all, flag, 0, k);
        } else {
            assert(all[k + 1] == items[k]);
            lemma_leading_found(all, flag, 0, k + 1);
        }
    }
    if 0 <= at < items.len() && !leads(items[at], flag) {
        assert(items.update(at, item)[k] == items[k]);
        lemma_leading_found(items.update(at, item), flag, 0, k);
    }
}

proof fn lemma_flags()
    ensures
        utf8("--chdir"@) != utf8("--unshare-all"@),
        utf8("--chdir"@) != utf8("--die-with-parent"@),
        utf8("--chdir"@) != utf8("--new-session"@),
        utf8("--size"@) != utf8("--ro-bind"@),
{
    reveal_strlit("--chdir");
    reveal_strlit("--unshare-all");
    reveal_strlit("--die-with-parent");
    reveal_strlit("--new-session");
    reveal_strlit("--size");
    reveal_strlit("--ro-bind");
    if utf8("--chdir"@) == utf8("--unshare-all"@) {
        lemma_utf8_injective("--chdir"@, "--unshare-all"@);
        assert("--chdir"@[2] == "--unshare-all"@[2]);
    }
    if utf8("--chdir"@) == utf8("--die-with-parent"@) {
        lemma_utf8_injective("--chdir"@, "--die-with-parent"@);
        assert("--chdir"@[2] == "--die-with-parent"@[2]);
    }
    if utf8("--chdir"@) == utf8("--new-session"@) {
        lemma_utf8_injective("--chdir"@, "--new-session"@);
        assert("--chdir"@[2] == "--new-session"@[2]);
    }
    if utf8("--size"@) == utf8("--ro-bind"@) {
        lemma_utf8_injective("--size"@, "--ro-bind"@);
        assert("--size"@[2] == "--ro-bind"@[2]);
    }
}

/// Nothing that is asked of a sandbox undoes its isolation: not the network it
/// may keep, the directory it starts in, the size of its `/tmp`, the host's
/// `/etc` or an operation of a service, in whatever order they are asked for.
/// The working directory stays one that can be moved.
pub proof fn nothing_undoes_the_isolation(
    v: BwrapView,
    dir: Seq<u8>,
    bytes: u64,
    files: Seq<(Seq<u8>, FileKind)>,
    item: ItemView,
)
    requires
        isolated(v),
    ensures
        isolated(sharing_net(v)),
        isolated(without_userns(v)),
        isolated(BwrapView { namespaces: v.namespaces.push(item), ..v }),
        isolated(BwrapView { binds: v.binds.push(item), ..v }),
        isolated(BwrapView { masks: v.masks.push(item), ..v }),
        isolated(BwrapView { env: v.env.push(item), ..v }),
        sets_directory(v) ==> {
            &&& isolated(in_directory(v, dir))
            &&& sets_directory(in_directory(v, dir))
            &&& sets_directory(sharing_net(v))
            &&& sets_directory(without_userns(v))
            &&& sets_directory(BwrapView { namespaces: v.namespaces.push(item), ..v })
        },
        caps_tmp(v) ==> isolated(with_tmp_size(v, bytes)),
        has_own_etc(v) ==> isolated(with_host_etc(v, files)),
{
    let parent = utf8("--die-with-parent"@);
    let session = utf8("--new-session"@);
    let chdir = utf8("--chdir"@);
    let ns = v.namespaces;
    lemma_flags();
    let net = op(v.origin, seq![utf8("--share-net"@)]);
    let user = op(v.origin, seq![utf8("--unshare-user"@), utf8("--disable-userns"@)]);
    lemma_still_leading(ns, parent, net, 1);
    lemma_still_leading(ns, session, net, 1);
    lemma_still_leading(ns, parent, user, 0);
    lemma_still_leading(ns, session, user, 0);
    lemma_still_leading(ns, parent, item, 0);
    lemma_still_leading(ns, session, item, 0);
    if sets_directory(v) {
        lemma_leading_leads(ns, chdir, 0);
        let at = first_leading(ns, chdir, 0)->Some_0;
        let moved = op(ns[at].origin, seq![chdir, dir]);
        assert(at != 0) by {
            assert(leads(ns[0], utf8("--unshare-all"@)));
        }
        lemma_still_leading(ns, parent, moved, at);
        lemma_still_leading(ns, session, moved, at);
        assert(leads(ns.update(at, moved)[at], chdir));
        lemma_leading_found(ns.update(at, moved), chdir, 0, at);
        lemma_still_leading(ns, chdir, net, 1);
        lemma_still_leading(ns, chdir, user, 0);
        lemma_still_leading(ns, chdir, item, 0);
    }
    let usr = v.skeleton[0];
    assert(leads(usr, utf8("--ro-bind"@)));
    if caps_tmp(v) {
        lemma_first_tmpfs_bounds(v.skeleton, utf8("/tmp"@), 0);
        let at = first_tmpfs(v.skeleton, utf8("/tmp"@), 0)->Some_0;
        assert(at != 0);
    }
    if has_own_etc(v) {
        lemma_first_tmpfs_bounds(v.skeleton, utf8("/etc"@), 0);
        let start = first_tmpfs(v.skeleton, utf8("/etc"@), 0)->Some_0;
        assert(start != 0);
        assert(with_host_etc(v, files).skeleton[0] == v.skeleton.take(start)[0]);
    }
}

/// Whether two tables of host files answer alike about some paths.
pub open spec fn answer_alike(
    a: Seq<(Seq<u8>, FileKind)>,
    b: Seq<(Seq<u8>, FileKind)>,
    paths: Seq<Seq<u8>>,
) -> bool {
    forall|i: int|
        0 <= i < paths.len() ==> file_kind(a, #[trigger] paths[i]) == file_kind(b, paths[i])
}

proof fn lemma_etc_alike(
    names: Seq<&'static str>,
    a: Seq<(Seq<u8>, FileKind)>,
    b: Seq<(Seq<u8>, FileKind)>,
    n: int,
)
    requires
        forall|i: int|
            0 <= i < n ==> file_kind(a, etc_path((#[trigger] names[i])@)) == file_kind(
                b,
                etc_path(names[i]@),
            ),
    ensures
        etc_binds(names, a, n) == etc_binds(names, b, n),
    decreases n,
{
    if n > 0 {
        lemma_etc_alike(names, a, b, n - 1);
        assert(file_kind(a, etc_path(names[n - 1]@)) == file_kind(b, etc_path(names[n - 1]@)));
    }
}

proof fn lemma_allowlist_alike(a: Seq<(Seq<u8>, FileKind)>, b: Seq<(Seq<u8>, FileKind)>)
    requires
        answer_alike(a, b, baseline_asks()),
    ensures
        etc_binds(ETC_ALLOWLIST@, a, 24) == etc_binds(ETC_ALLOWLIST@, b, 24),
        file_kind(a, utf8("/dev/ntsync"@)) == file_kind(b, utf8("/dev/ntsync"@)),
{
    let asks = baseline_asks();
    assert forall|i: int| 0 <= i < 24 implies file_kind(
        a,
        etc_path((#[trigger] ETC_ALLOWLIST@[i])@),
    ) == file_kind(b, etc_path(ETC_ALLOWLIST@[i]@)) by {
        assert(asks[i] == etc_path(ETC_ALLOWLIST@[i]@));
    }
    lemma_etc_alike(ETC_ALLOWLIST@, a, b, 24);
    assert(asks[24] == utf8("/dev/ntsync"@));
}

proof fn lemma_sidecar_alike(a: Seq<(Seq<u8>, FileKind)>, b: Seq<(Seq<u8>, FileKind)>)
    requires
        answer_alike(a, b, baseline_asks()),
    ensures
        etc_binds(PROXY_ETC@, a, 4) == etc_binds(PROXY_ETC@, b, 4),
{
    let asks = baseline_asks();
    assert(PROXY_ETC@[0] == ETC_ALLOWLIST@[0]);
    assert(PROXY_ETC@[1] == ETC_ALLOWLIST@[1]);
    assert(PROXY_ETC@[2] == ETC_ALLOWLIST@[2]);
    assert(PROXY_ETC@[3] == ETC_ALLOWLIST@[6]);
    assert forall|i: int| 0 <= i < 4 implies file_kind(a, etc_path((#[trigger] PROXY_ETC@[i])@))
        == file_kind(b, etc_path(PROXY_ETC@[i]@)) by {
        let k = if i < 3 {
            i
        } else {
            6
        };
        assert(asks[k] == etc_path(ETC_ALLOWLIST@[k]@));
    }
    lemma_etc_alike(PROXY_ETC@, a, b, 4);
}

proof fn lemma_accounts_alike(
    origin: Origin,
    passwd: Seq<u8>,
    group: Seq<u8>,
    a: Seq<(Seq<u8>, FileKind)>,
    b: Seq<(Seq<u8>, FileKind)>,
)
    requires
        answer_alike(a, b, account_asks()),
    ensures
        account_covers(origin, a, passwd, group) == account_covers(origin, b, passwd, group),
{
    let asks = account_asks();
    assert(asks[0] == utf8("/etc/passwd-"@));
    assert(asks[1] == utf8("/etc/passwd+"@));
    assert(asks[2] == utf8("/etc/group-"@));
    assert(asks[3] == utf8("/etc/group+"@));
    assert(asks[4] == utf8("/etc/subuid"@));
    assert(asks[5] == utf8("/etc/subgid"@));
}

/// A sandbox depends on the paths it asks about and on no other: two tables
/// that answer alike about them begin the same sandbox, and cover the same
/// files where the host's `/etc` is bound.
pub proof fn a_sandbox_asks_of_no_other_path(
    uid: u32,
    gid: u32,
    passthrough: Seq<(Seq<u8>, Seq<u8>)>,
    runtime_dir: Seq<u8>,
    home: Seq<u8>,
    v: BwrapView,
    a: Seq<(Seq<u8>, FileKind)>,
    b: Seq<(Seq<u8>, FileKind)>,
)
    ensures
        answer_alike(a, b, baseline_asks()) ==> {
            &&& baseline_view(uid, gid, passthrough, runtime_dir, home, a) == baseline_view(
                uid,
                gid,
                passthrough,
                runtime_dir,
                home,
                b,
            )
            &&& sidecar_view(a) == sidecar_view(b)
        },
        answer_alike(a, b, account_asks()) ==> with_host_etc(v, a) == with_host_etc(v, b),
{
    if answer_alike(a, b, baseline_asks()) {
        lemma_allowlist_alike(a, b);
        lemma_sidecar_alike(a, b);
    }
    if answer_alike(a, b, account_asks()) {
        let start = first_tmpfs(v.skeleton, utf8("/etc"@), 0)->Some_0;
        let end = first_data(v.skeleton, start)->Some_0;
        lemma_accounts_alike(
            v.origin,
            v.skeleton[end].kind->Data_content,
            v.skeleton[end + 1].kind->Data_content,
            a,
            b,
        );
    }
}

/// Whether the last two phases are in order: the environment is cleared before
/// anything is set in it and nothing else happens to it, and every mask is a
/// tmpfs of one page and its remount.
pub open spec fn phased(v: BwrapView) -> bool {
    &&& v.env.len() > 0
    &&& v.env[0] == op(Origin::Baseline, seq![utf8("--clearenv"@)])
    &&& forall|i: int|
        1 <= i < v.env.len() ==> exists|key: Seq<u8>, value: Seq<u8>|
            #[trigger] v.env[i] == #[trigger] set_variable(v.env[i].origin, key, value)
    &&& v.masks.len() % 2 == 0
    &&& forall|k: int|
        0 <= k && 2 * k + 1 < v.masks.len() ==> masks_pair(
            v.masks[2 * k],
            #[trigger] v.masks[2 * k + 1],
        )
}

/// The two operations that mask a directory.
pub open spec fn mask_of(origin: Origin, dir: Seq<u8>) -> (ItemView, ItemView) {
    (
        op(origin, seq![utf8("--size"@), utf8("4096"@), utf8("--tmpfs"@), dir]),
        op(origin, seq![utf8("--remount-ro"@), dir]),
    )
}

/// Whether two operations are a mask.
pub open spec fn masks_pair(cover: ItemView, seal: ItemView) -> bool {
    exists|dir: Seq<u8>| (cover, seal) == #[trigger] mask_of(cover.origin, dir)
}

/// Every sandbox is begun with its phases in order, an instance's and a
/// sidecar's, and a variable or a mask that is added leaves them in order; no
/// other call touches either.
pub proof fn every_sandbox_keeps_its_phases(
    uid: u32,
    gid: u32,
    passthrough: Seq<(Seq<u8>, Seq<u8>)>,
    runtime_dir: Seq<u8>,
    home: Seq<u8>,
    files: Seq<(Seq<u8>, FileKind)>,
    more: Seq<ItemView>,
    v: BwrapView,
    key: Seq<u8>,
    value: Seq<u8>,
    dir: Seq<u8>,
)
    ensures
        phased(baseline_view(uid, gid, passthrough, runtime_dir, home, files)),
        phased(sidecar_view(files)),
        phased(with_skeleton(sidecar_view(files), more)),
        phased(v) ==> {
            &&& phased(BwrapView { env: v.env.push(set_variable(v.origin, key, value)), ..v })
            &&& phased(
                BwrapView {
                    masks: v.masks.push(mask_of(v.origin, dir).0).push(mask_of(v.origin, dir).1),
                    ..v
                },
            )
        },
{
    let w = baseline_view(uid, gid, passthrough, runtime_dir, home, files);
    assert forall|i: int| 1 <= i < w.env.len() implies exists|k: Seq<u8>, x: Seq<u8>|
        #[trigger] w.env[i] == #[trigger] set_variable(w.env[i].origin, k, x) by {
        let n = passthrough.len();
        if i < 1 + n {
            let p = passthrough[i - 1];
            assert(w.env[i] == set_variable(w.env[i].origin, p.0, p.1));
        } else {
            let home_set = set_variable(Origin::Baseline, utf8("HOME"@), utf8(SANDBOX_HOME@));
            let path = set_variable(
                Origin::Baseline,
                utf8("PATH"@),
                utf8("/usr/bin:"@ + SANDBOX_HOME@ + "/.local/bin"@),
            );
            let run = set_variable(Origin::Baseline, utf8("XDG_RUNTIME_DIR"@), runtime_dir);
            let user = set_variable(Origin::Baseline, utf8("USER"@), utf8("bubbler"@));
            let log = set_variable(Origin::Baseline, utf8("LOGNAME"@), utf8("bubbler"@));
            let last = seq![home_set, path, run, user, log];
            assert(w.env[i] == last[i - 1 - n]);
        }
    }
    if phased(v) {
        let set = BwrapView { env: v.env.push(set_variable(v.origin, key, value)), ..v };
        assert forall|i: int| 1 <= i < set.env.len() implies exists|k: Seq<u8>, x: Seq<u8>|
            #[trigger] set.env[i] == #[trigger] set_variable(set.env[i].origin, k, x) by {
            if i < v.env.len() {
                assert(set.env[i] == v.env[i]);
            } else {
                assert(set.env[i] == set_variable(set.env[i].origin, key, value));
            }
        }
        let cover = op(v.origin, seq![utf8("--size"@), utf8("4096"@), utf8("--tmpfs"@), dir]);
        let seal = op(v.origin, seq![utf8("--remount-ro"@), dir]);
        let masked = BwrapView { masks: v.masks.push(cover).push(seal), ..v };
        assert((cover, seal) == mask_of(cover.origin, dir));
        assert forall|k: int| 0 <= k && 2 * k + 1 < masked.masks.len() implies masks_pair(
            masked.masks[2 * k],
            #[trigger] masked.masks[2 * k + 1],
        ) by {
            if 2 * k + 1 < v.masks.len() {
                assert(masked.masks[2 * k + 1] == v.masks[2 * k + 1]);
                assert(masked.masks[2 * k] == v.masks[2 * k]);
            }
        }
    }
}

proof fn lemma_explained(items: Seq<ItemView>, answers: Seq<Seq<u8>>, n: int)
    requires
        0 <= n <= items.len(),
    ensures
        explained_in(items, answers, n).len() == n,
        forall|i: int|
            0 <= i < n ==> #[trigger] explained_in(items, answers, n)[i] == explained_item(
                items[i],
                answers[requests_in(items, i).len() as int],
            ),
    decreases n,
{
    if n > 0 {
        lemma_explained(items, answers, n - 1);
    }
}

/// The operations come phase by phase, each where it was asked for: the
/// namespaces, the skeleton, the runtime directory, the binds in the order of
/// the calls, then every mask and last the environment, which is cleared
/// before anything is set in it. So no bind follows a mask, whichever call
/// came first.
pub proof fn the_operations_come_phase_by_phase(v: BwrapView, answers: Seq<Seq<u8>>)
    ensures
        ({
            let all = emitted(v, answers);
            let skeleton = v.namespaces.len() as int;
            let runtime = skeleton + v.skeleton.len();
            let binds = runtime + v.runtime_dir.len();
            let masks = binds + v.binds.len();
            let env = masks + v.masks.len();
            let given = |i: int| answers[requests_in(all_items(v), i).len() as int];
            &&& all.len() == env + v.env.len()
            &&& forall|i: int|
                #![trigger all[i]]
                0 <= i < all.len() ==> all[i] == explained_item(
                    if i < skeleton {
                        v.namespaces[i]
                    } else if i < runtime {
                        v.skeleton[i - skeleton]
                    } else if i < binds {
                        v.runtime_dir[i - runtime]
                    } else if i < masks {
                        v.binds[i - binds]
                    } else if i < env {
                        v.masks[i - masks]
                    } else {
                        v.env[i - env]
                    },
                    given(i),
                )
            &&& phased(v) ==> {
                &&& all[env].args == seq![utf8("--clearenv"@)]
                &&& forall|i: int|
                    env < i < all.len() ==> (#[trigger] all[i]).args.len() == 3 && all[i].args[0]
                        == utf8("--setenv"@)
            }
        }),
{
    let items = all_items(v);
    lemma_explained(items, answers, items.len() as int);
    let env = items.len() - v.env.len();
    let all = emitted(v, answers);
    assert forall|i: int| 0 <= i < v.env.len() implies items[env + i] == #[trigger] v.env[i] by {}
    if phased(v) {
        assert(items[env] == v.env[0]);
        assert forall|i: int| env < i < all.len() implies (#[trigger] all[i]).args.len() == 3
            && all[i].args[0] == utf8("--setenv"@) by {
            assert(items[i] == v.env[i - env]);
        }
    }
}

/// Text that holds neither of two separators.
spec fn plain_text(s: Seq<char>) -> bool {
    !s.contains('\n') && !s.contains(':')
}

proof fn lemma_number_is_plain(n: u32)
    ensures
        plain_text(decimal_digits(n as nat)),
{
    lemma_decimal_digits(n as nat);
}

/// The first field of a line, and the rest of them.
proof fn lemma_field(first: Seq<char>, rest: Seq<char>)
    requires
        plain_text(first),
    ensures
        split_on(first.push(':') + rest, ':') == seq![first] + split_on(rest, ':'),
{
    lemma_split_plain(first, ':');
    lemma_split_concat(first, ':', rest);
}

/// The fields of a line that begins with four of them.
proof fn lemma_fields(
    a: Seq<char>,
    b: Seq<char>,
    c: Seq<char>,
    d: Seq<char>,
    rest: Seq<char>,
    line: Seq<char>,
)
    requires
        plain_text(a),
        plain_text(b),
        plain_text(c),
        plain_text(d),
        line == a + seq![':'] + b + seq![':'] + c + seq![':'] + d + seq![':'] + rest,
    ensures
        split_on(line, ':') == seq![a, b, c, d] + split_on(rest, ':'),
{
    let l3 = d.push(':') + rest;
    let l2 = c.push(':') + l3;
    let l1 = b.push(':') + l2;
    assert(line =~= a.push(':') + l1);
    lemma_field(d, rest);
    lemma_field(c, l3);
    lemma_field(b, l2);
    lemma_field(a, l1);
    assert(split_on(line, ':') =~= seq![a, b, c, d] + split_on(rest, ':'));
}

proof fn lemma_two_lines(a: Seq<char>, b: Seq<char>, text: Seq<char>)
    requires
        !a.contains('\n'),
        !b.contains('\n'),
        text == a + seq!['\n'] + b + seq!['\n'],
    ensures
        split_on(text, '\n') == seq![a, b, Seq::empty()],
{
    let none = Seq::<char>::empty();
    lemma_split_plain(a, '\n');
    lemma_split_plain(b, '\n');
    lemma_split_plain(none, '\n');
    let tail = b.push('\n') + none;
    lemma_split_concat(b, '\n', none);
    assert(text =~= a.push('\n') + tail);
    lemma_split_concat(a, '\n', tail);
    assert(split_on(text, '\n') =~= seq![a, b, none]);
}

/// The fields of a line that begins with three of them.
proof fn lemma_three_fields(
    a: Seq<char>,
    b: Seq<char>,
    c: Seq<char>,
    rest: Seq<char>,
    line: Seq<char>,
)
    requires
        plain_text(a),
        plain_text(b),
        plain_text(c),
        line == a + seq![':'] + b + seq![':'] + c + seq![':'] + rest,
    ensures
        split_on(line, ':') == seq![a, b, c] + split_on(rest, ':'),
{
    let l2 = c.push(':') + rest;
    let l1 = b.push(':') + l2;
    assert(line =~= a.push(':') + l1);
    lemma_field(c, rest);
    lemma_field(b, l2);
    lemma_field(a, l1);
    assert(split_on(line, ':') =~= seq![a, b, c] + split_on(rest, ':'));
}

/// The two lines of the passwd file.
proof fn lemma_passwd_lines(uid: u32, gid: u32)
    ensures
        ({
            let lines = split_on(passwd_text(uid, gid), '\n');
            &&& lines.len() == 3
            &&& lines[2].len() == 0
            &&& split_on(lines[0], ':').len() >= 4
            &&& split_on(lines[0], ':')[0] == "bubbler"@
            &&& split_on(lines[0], ':')[2] == decimal_digits(uid as nat)
            &&& split_on(lines[0], ':')[3] == decimal_digits(gid as nat)
            &&& split_on(lines[1], ':').len() >= 4
            &&& split_on(lines[1], ':')[0] == "nobody"@
            &&& split_on(lines[1], ':')[3] == "65534"@
        }),
{
    reveal_strlit("bubbler");
    reveal_strlit("x");
    reveal_strlit(":");
    reveal_strlit("bubbler:x:");
    reveal_strlit(":bubbler:");
    reveal_strlit("/home/bubbler");
    reveal_strlit(":/bin/sh\nnobody:x:65534:65534:nobody:/:/bin/sh\n");
    reveal_strlit("nobody");
    reveal_strlit("65534");
    let (u, g) = (decimal_digits(uid as nat), decimal_digits(gid as nat));
    lemma_number_is_plain(uid);
    lemma_number_is_plain(gid);
    let colon = seq![':'];
    let (a, b, x) = ("bubbler"@, "nobody"@, "x"@);
    let n = "65534"@;
    let whole = ":/bin/sh\nnobody:x:65534:65534:nobody:/:/bin/sh\n"@;
    let rest = a + colon + SANDBOX_HOME@ + whole.take(8);
    let other = whole.subrange(30, 46);
    let first = a + colon + x + colon + u + colon + g + colon + rest;
    let second = b + colon + x + colon + n + colon + n + colon + other;
    assert(plain_text(a) && plain_text(b) && plain_text(x) && plain_text(n));
    lemma_fields(a, x, u, g, rest, first);
    lemma_fields(b, x, n, n, other, second);
    assert(second =~= whole.subrange(9, 46));
    assert(passwd_text(uid, gid) =~= first + seq!['\n'] + second + seq!['\n']);
    assert(!rest.contains('\n')) by {
        lemma_joined(a, colon, '\n');
        lemma_joined(a + colon, SANDBOX_HOME@, '\n');
        lemma_joined(a + colon + SANDBOX_HOME@, whole.take(8), '\n');
    }
    assert(!first.contains('\n')) by {
        let h1 = a + colon + x + colon;
        lemma_joined(h1, u, '\n');
        lemma_joined(h1 + u, colon, '\n');
        lemma_joined(h1 + u + colon, g, '\n');
        lemma_joined(h1 + u + colon + g, colon, '\n');
        lemma_joined(h1 + u + colon + g + colon, rest, '\n');
    }
    lemma_two_lines(first, second, passwd_text(uid, gid));
    lemma_split_parts(rest, ':');
}

/// The two lines of the group file.
proof fn lemma_group_lines(gid: u32)
    ensures
        ({
            let lines = split_on(group_text(gid), '\n');
            &&& lines.len() == 3
            &&& lines[2].len() == 0
            &&& split_on(lines[0], ':').len() >= 3
            &&& split_on(lines[0], ':')[0] == "bubbler"@
            &&& split_on(lines[0], ':')[2] == decimal_digits(gid as nat)
            &&& split_on(lines[1], ':').len() >= 3
            &&& split_on(lines[1], ':')[0] == "nobody"@
            &&& split_on(lines[1], ':')[2] == "65534"@
        }),
{
    reveal_strlit("bubbler");
    reveal_strlit("x");
    reveal_strlit("bubbler:x:");
    reveal_strlit(":\nnobody:x:65534:\n");
    reveal_strlit("nobody");
    reveal_strlit("65534");
    let g = decimal_digits(gid as nat);
    lemma_number_is_plain(gid);
    let colon = seq![':'];
    let none = Seq::<char>::empty();
    let (a, b, x) = ("bubbler"@, "nobody"@, "x"@);
    let n = "65534"@;
    let first = a + colon + x + colon + g + colon + none;
    let second = b + colon + x + colon + n + colon + none;
    assert(plain_text(a) && plain_text(b) && plain_text(x) && plain_text(n));
    lemma_three_fields(a, x, g, none, first);
    lemma_three_fields(b, x, n, none, second);
    assert(group_text(gid) =~= first + seq!['\n'] + second + seq!['\n']);
    assert(!first.contains('\n')) by {
        let h1 = a + colon + x + colon;
        lemma_joined(h1, g, '\n');
        lemma_joined(h1 + g, colon, '\n');
        lemma_joined(h1 + g + colon, none, '\n');
    }
    lemma_two_lines(first, second, group_text(gid));
}

/// The group file has a line for each line of the passwd file, in the same
/// order, with the same name and with the group id that the account has. The
/// first account is the sandbox's, with the ids given for it.
pub proof fn the_account_files_name_the_same_accounts(uid: u32, gid: u32)
    ensures
        ({
            let users = split_on(passwd_text(uid, gid), '\n');
            let groups = split_on(group_text(gid), '\n');
            &&& users.len() == groups.len()
            &&& users.last().len() == 0 && groups.last().len() == 0
            &&& forall|i: int|
                #![trigger users[i]]
                #![trigger groups[i]]
                0 <= i < users.len() - 1 ==> {
                    let user = split_on(users[i], ':');
                    let group = split_on(groups[i], ':');
                    &&& user.len() >= 4 && group.len() >= 3
                    &&& user[0] == group[0]
                    &&& user[3] == group[2]
                }
            &&& users.len() == 3
            &&& split_on(users[0], ':')[0] == "bubbler"@
            &&& split_on(users[0], ':')[2] == decimal_digits(uid as nat)
            &&& split_on(users[0], ':')[3] == decimal_digits(gid as nat)
        }),
{
    lemma_passwd_lines(uid, gid);
    lemma_group_lines(gid);
}

} // verus!
