//! What holds of a sandbox whatever is asked of it, and in whatever order.

use vstd::prelude::*;

use crate::bwrap::{
    all_items, answered_in, baseline_view, data_item, emit_of, emitted, explained_item,
    in_directory, op, requests_in, set_variable, sharing_net, sidecar_view, with_bind,
    with_host_etc, with_skeleton, with_tmp_size, without_userns, BwrapView, ItemView, KindView,
    Origin, FLATPAK_SPAWN_INSIDE, INIT_INSIDE,
};
use crate::bwrap_laws::{
    every_sandbox_keeps_its_phases, mask_of, phased, the_operations_come_phase_by_phase,
};
use crate::error::LaunchErrorView;
use crate::host::FileKind;
use crate::text::utf8;

verus! {

/// What may be asked of a sandbox that is begun: a call of one of the methods
/// of [`crate::bwrap::BwrapArgs`].
pub enum Call {
    ShareNet,
    Chdir(Seq<u8>),
    TmpSize(u64),
    BindHostEtc(Seq<(Seq<u8>, FileKind)>),
    Tag(Origin),
    DisableUserns,
    BlockUntilReleased,
    AddSeccomp { program: Seq<u8>, arches: Seq<char> },
    RoBind(Seq<u8>, Seq<u8>),
    DevBind(Seq<u8>, Seq<u8>),
    DevBindTry(Seq<u8>, Seq<u8>),
    Symlink(Seq<u8>, Seq<u8>),
    MaskDir(Seq<u8>),
    Bind(Seq<u8>, Seq<u8>),
    BindInit(Seq<u8>),
    FlatpakSpawnShim(Seq<u8>),
    RoBindData { content: Seq<u8>, dest: Seq<u8> },
    Ctty,
    X11Server(Seq<Seq<u8>>, Option<Seq<u8>>),
    Setenv(Seq<u8>, Seq<u8>),
}

/// The binds a call asks for.
pub open spec fn asked_binds(origin: Origin, call: Call) -> Seq<ItemView> {
    match call {
        Call::RoBind(src, dst) => seq![op(origin, seq![utf8("--ro-bind"@), src, dst])],
        Call::DevBind(src, dst) => seq![op(origin, seq![utf8("--dev-bind"@), src, dst])],
        Call::DevBindTry(src, dst) => seq![op(origin, seq![utf8("--dev-bind-try"@), src, dst])],
        Call::Symlink(target, link) => seq![op(origin, seq![utf8("--symlink"@), target, link])],
        Call::Bind(src, dst) => seq![op(origin, seq![utf8("--bind"@), src, dst])],
        Call::BindInit(path) => seq![
            op(origin, seq![utf8("--ro-bind"@), path, utf8(INIT_INSIDE@)]),
        ],
        Call::FlatpakSpawnShim(path) => seq![
            ItemView {
                origin,
                kind: KindView::Noted {
                    args: seq![
                        utf8("--overlay-src"@),
                        utf8("/usr/bin"@),
                        utf8("--tmp-overlay"@),
                        utf8("/usr/bin"@),
                    ],
                    note: "flatpak-spawn shim (glycin, gdk-pixbuf)"@,
                },
            },
            op(origin, seq![utf8("--ro-bind"@), path, utf8(FLATPAK_SPAWN_INSIDE@)]),
            op(origin, seq![utf8("--remount-ro"@), utf8("/usr/bin"@)]),
        ],
        Call::RoBindData { content, dest } => seq![data_item(origin, content, dest)],
        _ => Seq::empty(),
    }
}

/// The masks a call asks for.
pub open spec fn asked_masks(origin: Origin, call: Call) -> Seq<ItemView> {
    match call {
        Call::MaskDir(dir) => seq![mask_of(origin, dir).0, mask_of(origin, dir).1],
        _ => Seq::empty(),
    }
}

/// The variables a call asks for.
pub open spec fn asked_env(origin: Origin, call: Call) -> Seq<ItemView> {
    match call {
        Call::Setenv(key, value) => seq![set_variable(origin, key, value)],
        _ => Seq::empty(),
    }
}

/// A sandbox once a call was made.
pub open spec fn called(v: BwrapView, call: Call) -> BwrapView {
    match call {
        Call::ShareNet => sharing_net(v),
        Call::Chdir(dir) => in_directory(v, dir),
        Call::TmpSize(bytes) => with_tmp_size(v, bytes),
        Call::BindHostEtc(files) => with_host_etc(v, files),
        Call::Tag(origin) => BwrapView { origin, ..v },
        Call::DisableUserns => without_userns(v),
        Call::BlockUntilReleased => BwrapView {
            namespaces: v.namespaces.push(
                ItemView { origin: v.origin, kind: KindView::BlockFd },
            ),
            ..v
        },
        Call::AddSeccomp { program, arches } => BwrapView {
            namespaces: v.namespaces.push(
                ItemView { origin: v.origin, kind: KindView::Seccomp { program, arches } },
            ),
            ..v
        },
        Call::Ctty => BwrapView { ctty: true, ..v },
        Call::X11Server(argv, wm) => BwrapView {
            x11: match v.x11 {
                Some(held) => Some(held),
                None => Some((v.origin, argv, wm)),
            },
            ..v
        },
        _ => BwrapView {
            binds: v.binds + asked_binds(v.origin, call),
            masks: v.masks + asked_masks(v.origin, call),
            env: v.env + asked_env(v.origin, call),
            ..v
        },
    }
}

/// A sandbox once the first `n` calls were made.
pub open spec fn after_calls(v: BwrapView, calls: Seq<Call>, n: int) -> BwrapView
    decreases n,
{
    if n <= 0 {
        v
    } else {
        called(after_calls(v, calls, n - 1), calls[n - 1])
    }
}

/// The binds the first `n` calls ask for, in the order of the calls.
pub open spec fn all_binds(v: BwrapView, calls: Seq<Call>, n: int) -> Seq<ItemView>
    decreases n,
{
    if n <= 0 {
        Seq::empty()
    } else {
        all_binds(v, calls, n - 1) + asked_binds(
            after_calls(v, calls, n - 1).origin,
            calls[n - 1],
        )
    }
}

/// The masks the first `n` calls ask for.
pub open spec fn all_masks(v: BwrapView, calls: Seq<Call>, n: int) -> Seq<ItemView>
    decreases n,
{
    if n <= 0 {
        Seq::empty()
    } else {
        all_masks(v, calls, n - 1) + asked_masks(
            after_calls(v, calls, n - 1).origin,
            calls[n - 1],
        )
    }
}

/// The variables the first `n` calls ask for.
pub open spec fn all_env(v: BwrapView, calls: Seq<Call>, n: int) -> Seq<ItemView>
    decreases n,
{
    if n <= 0 {
        Seq::empty()
    } else {
        all_env(v, calls, n - 1) + asked_env(after_calls(v, calls, n - 1).origin, calls[n - 1])
    }
}

/// A call is what its method does.
pub proof fn every_call_is_what_its_method_does(
    v: BwrapView,
    a: Seq<u8>,
    b: Seq<u8>,
)
    ensures
        called(v, Call::RoBind(a, b)) == with_bind(v, seq![utf8("--ro-bind"@), a, b]),
        called(v, Call::DevBind(a, b)) == with_bind(v, seq![utf8("--dev-bind"@), a, b]),
        called(v, Call::DevBindTry(a, b)) == with_bind(v, seq![utf8("--dev-bind-try"@), a, b]),
        called(v, Call::Symlink(a, b)) == with_bind(v, seq![utf8("--symlink"@), a, b]),
        called(v, Call::Bind(a, b)) == with_bind(v, seq![utf8("--bind"@), a, b]),
        called(v, Call::BindInit(a)) == with_bind(
            v,
            seq![utf8("--ro-bind"@), a, utf8(INIT_INSIDE@)],
        ),
        called(v, Call::RoBindData { content: a, dest: b }) == (BwrapView {
            binds: v.binds.push(data_item(v.origin, a, b)),
            ..v
        }),
        called(v, Call::MaskDir(a)) == (BwrapView {
            masks: v.masks.push(mask_of(v.origin, a).0).push(mask_of(v.origin, a).1),
            ..v
        }),
        called(v, Call::Setenv(a, b)) == (BwrapView {
            env: v.env.push(set_variable(v.origin, a, b)),
            ..v
        }),
{
    let none = Seq::<ItemView>::empty();
    assert(v.binds + none =~= v.binds);
    assert(v.masks + none =~= v.masks);
    assert(v.env + none =~= v.env);
    assert forall|x: ItemView| #[trigger] v.binds.push(x) == v.binds + seq![x] by {
        assert(v.binds.push(x) =~= v.binds + seq![x]);
    }
    let set = set_variable(v.origin, a, b);
    assert(v.env.push(set) =~= v.env + seq![set]);
    let (cover, seal) = mask_of(v.origin, a);
    assert(v.masks.push(cover).push(seal) =~= v.masks + seq![cover, seal]);
}

/// How a sandbox is begun.
pub enum Begun {
    /// An instance's.
    Instance {
        uid: u32,
        gid: u32,
        passthrough: Seq<(Seq<u8>, Seq<u8>)>,
        runtime_dir: Seq<u8>,
        home: Seq<u8>,
        files: Seq<(Seq<u8>, FileKind)>,
    },
    /// A sidecar's, with what it has besides.
    Sidecar { files: Seq<(Seq<u8>, FileKind)>, more: Seq<ItemView> },
}

/// A sandbox that is begun.
pub open spec fn begin(begun: Begun) -> BwrapView {
    match begun {
        Begun::Instance { uid, gid, passthrough, runtime_dir, home, files } => baseline_view(
            uid,
            gid,
            passthrough,
            runtime_dir,
            home,
            files,
        ),
        Begun::Sidecar { files, more } => with_skeleton(sidecar_view(files), more),
    }
}

/// The last phases are in order wherever they are the same.
proof fn lemma_phased_alike(v: BwrapView, w: BwrapView)
    requires
        phased(v),
        w.env == v.env,
        w.masks == v.masks,
    ensures
        phased(w),
{
    assert forall|i: int| 1 <= i < w.env.len() implies exists|key: Seq<u8>, value: Seq<u8>|
        #[trigger] w.env[i] == #[trigger] set_variable(w.env[i].origin, key, value) by {
        assert(v.env[i] == w.env[i]);
    }
}

proof fn lemma_masked(v: BwrapView, dir: Seq<u8>)
    requires
        phased(v),
    ensures
        phased(called(v, Call::MaskDir(dir))),
{
    let empty = Seq::<u8>::empty();
    let none = Seq::<ItemView>::empty();
    let (cover, seal) = mask_of(v.origin, dir);
    every_sandbox_keeps_its_phases(
        0,
        0,
        Seq::empty(),
        empty,
        empty,
        Seq::empty(),
        none,
        v,
        empty,
        empty,
        dir,
    );
    let next = called(v, Call::MaskDir(dir));
    let same = BwrapView { masks: v.masks.push(cover).push(seal), ..v };
    assert(next.masks =~= same.masks);
    assert(next.env =~= same.env);
    lemma_phased_alike(same, next);
}

proof fn lemma_set(v: BwrapView, key: Seq<u8>, value: Seq<u8>)
    requires
        phased(v),
    ensures
        phased(called(v, Call::Setenv(key, value))),
{
    let empty = Seq::<u8>::empty();
    let none = Seq::<ItemView>::empty();
    every_sandbox_keeps_its_phases(
        0,
        0,
        Seq::empty(),
        empty,
        empty,
        Seq::empty(),
        none,
        v,
        key,
        value,
        empty,
    );
    let next = called(v, Call::Setenv(key, value));
    let same = BwrapView { env: v.env.push(set_variable(v.origin, key, value)), ..v };
    assert(next.masks =~= same.masks);
    assert(next.env =~= same.env);
    lemma_phased_alike(same, next);
}

/// What a call leaves of the last phases: what was there, and then what it
/// asks for.
proof fn lemma_grown(v: BwrapView, call: Call)
    ensures
        called(v, call).binds == v.binds + asked_binds(v.origin, call),
        called(v, call).masks == v.masks + asked_masks(v.origin, call),
        called(v, call).env == v.env + asked_env(v.origin, call),
{
    let none = Seq::<ItemView>::empty();
    assert(v.binds + none =~= v.binds);
    assert(v.masks + none =~= v.masks);
    assert(v.env + none =~= v.env);
}

proof fn lemma_called(v: BwrapView, call: Call)
    requires
        phased(v),
    ensures
        phased(called(v, call)),
{
    lemma_grown(v, call);
    match call {
        Call::MaskDir(dir) => lemma_masked(v, dir),
        Call::Setenv(key, value) => lemma_set(v, key, value),
        _ => {
            let next = called(v, call);
            assert(next.masks =~= v.masks);
            assert(next.env =~= v.env);
            lemma_phased_alike(v, next);
        },
    }
}

proof fn lemma_after(v: BwrapView, calls: Seq<Call>, n: int)
    requires
        0 <= n <= calls.len(),
        phased(v),
    ensures
        phased(after_calls(v, calls, n)),
        after_calls(v, calls, n).binds == v.binds + all_binds(v, calls, n),
        after_calls(v, calls, n).masks == v.masks + all_masks(v, calls, n),
        after_calls(v, calls, n).env == v.env + all_env(v, calls, n),
    decreases n,
{
    let none = Seq::<ItemView>::empty();
    if n == 0 {
        assert(v.binds + none =~= v.binds);
        assert(v.masks + none =~= v.masks);
        assert(v.env + none =~= v.env);
    } else {
        lemma_after(v, calls, n - 1);
        let last = after_calls(v, calls, n - 1);
        let call = calls[n - 1];
        lemma_grown(last, call);
        lemma_called(last, call);
        assert(v.binds + all_binds(v, calls, n) =~= last.binds + asked_binds(last.origin, call));
        assert(v.masks + all_masks(v, calls, n) =~= last.masks + asked_masks(last.origin, call));
        assert(v.env + all_env(v, calls, n) =~= last.env + asked_env(last.origin, call));
    }
}

/// However a sandbox is begun and whatever is then asked of it, in whatever
/// order: its operations are the namespaces, the skeleton, the runtime
/// directory, the binds in the order of the calls, every mask and then the
/// environment, which is cleared and then set; so no bind follows a mask,
/// whichever call came first. Where something could not be allocated, there
/// are no operations and the launch fails with the first failure.
pub proof fn a_sandbox_is_emitted_phase_by_phase(
    begun: Begun,
    calls: Seq<Call>,
    given: Seq<Result<Vec<u8>, String>>,
)
    ensures
        ({
            let start = begin(begun);
            let n = calls.len() as int;
            let v = after_calls(start, calls, n);
            let binds = start.binds + all_binds(start, calls, n);
            let masks = all_masks(start, calls, n);
            let env = start.env + all_env(start, calls, n);
            let items = v.namespaces + v.skeleton + v.runtime_dir + binds + masks + env;
            &&& phased(v)
            &&& all_items(v) == items
            &&& match emit_of(v, given) {
                Ok(all) => {
                    let answers = answered_in(given, given.len() as int)->Ok_0;
                    let cleared = items.len() - env.len();
                    &&& all.len() == items.len()
                    &&& forall|i: int|
                        0 <= i < all.len() ==> #[trigger] all[i] == explained_item(
                            items[i],
                            answers[requests_in(items, i).len() as int],
                        )
                    &&& all[cleared].args == seq![utf8("--clearenv"@)]
                    &&& forall|i: int|
                        cleared < i < all.len() ==> (#[trigger] all[i]).args.len() == 3
                            && all[i].args[0] == utf8("--setenv"@)
                },
                Err(e) => exists|k: int|
                    0 <= k < given.len() && (forall|j: int| 0 <= j < k ==> given[j] is Ok)
                        && #[trigger] given[k] is Err && e == LaunchErrorView::Data(
                        given[k]->Err_0@,
                    ),
            }
            &&& emit_of(v, given) is Ok <==> forall|j: int|
                0 <= j < given.len() ==> #[trigger] given[j] is Ok
        }),
{
    let start = begin(begun);
    let n = calls.len() as int;
    let empty = Seq::<u8>::empty();
    match begun {
        Begun::Instance { uid, gid, passthrough, runtime_dir, home, files } => {
            every_sandbox_keeps_its_phases(
                uid,
                gid,
                passthrough,
                runtime_dir,
                home,
                files,
                Seq::empty(),
                start,
                empty,
                empty,
                empty,
            );
        },
        Begun::Sidecar { files, more } => {
            every_sandbox_keeps_its_phases(
                0,
                0,
                Seq::empty(),
                empty,
                empty,
                files,
                more,
                start,
                empty,
                empty,
                empty,
            );
        },
    }
    assert(start.masks.len() == 0);
    lemma_after(start, calls, n);
    let v = after_calls(start, calls, n);
    assert(start.masks + all_masks(start, calls, n) =~= all_masks(start, calls, n));
    lemma_answered(given, given.len() as int);
    if let Ok(answers) = answered_in(given, given.len() as int) {
        the_operations_come_phase_by_phase(v, answers);
        let all = emitted(v, answers);
        let items = all_items(v);
        assert forall|i: int| 0 <= i < all.len() implies #[trigger] all[i] == explained_item(
            items[i],
            answers[requests_in(items, i).len() as int],
        ) by {}
    }
}

/// What is reported of allocations.
proof fn lemma_answered(given: Seq<Result<Vec<u8>, String>>, n: int)
    requires
        0 <= n <= given.len(),
    ensures
        match answered_in(given, n) {
            Ok(_) => forall|j: int| 0 <= j < n ==> #[trigger] given[j] is Ok,
            Err(e) => exists|k: int|
                0 <= k < n && (forall|j: int| 0 <= j < k ==> given[j] is Ok)
                    && #[trigger] given[k] is Err && e == LaunchErrorView::Data(given[k]->Err_0@),
        },
    decreases n,
{
    if n > 0 {
        lemma_answered(given, n - 1);
        if answered_in(given, n - 1) is Ok && given[n - 1] is Err {
            assert(forall|j: int| 0 <= j < n - 1 ==> given[j] is Ok);
        }
    }
}

/// What a call that binds nothing does: the tag is the one given and nothing
/// else is; a terminal is taken and stays taken; a display server is the first
/// that was asked for, under the node that asked; a filter and a wait go to the
/// end of the first phase, the filter with its own program; and a shim covers
/// one program in a `/usr/bin` that is read-only again after it.
pub proof fn every_other_call_changes_one_thing(
    v: BwrapView,
    origin: Origin,
    program: Seq<u8>,
    arches: Seq<char>,
    argv: Seq<Seq<u8>>,
    wm: Option<Seq<u8>>,
    path: Seq<u8>,
)
    ensures
        called(v, Call::Tag(origin)).origin == origin,
        called(called(v, Call::Tag(origin)), Call::Tag(v.origin)) == v,
        called(v, Call::Ctty) == (BwrapView { ctty: true, ..v }),
        v.x11 is None ==> called(v, Call::X11Server(argv, wm)) == (BwrapView {
            x11: Some((v.origin, argv, wm)),
            ..v
        }),
        v.x11 is Some ==> called(v, Call::X11Server(argv, wm)) == v,
        called(v, Call::BlockUntilReleased) == (BwrapView {
            namespaces: v.namespaces.push(ItemView { origin: v.origin, kind: KindView::BlockFd }),
            ..v
        }),
        called(v, Call::AddSeccomp { program, arches }) == (BwrapView {
            namespaces: v.namespaces.push(
                ItemView { origin: v.origin, kind: KindView::Seccomp { program, arches } },
            ),
            ..v
        }),
        ({
            let w = called(v, Call::FlatpakSpawnShim(path));
            let n = v.binds.len() as int;
            &&& w.binds.len() == n + 3
            &&& w.binds.take(n) == v.binds
            &&& w.binds[n].kind matches KindView::Noted { args, note: _ } && args == seq![
                utf8("--overlay-src"@),
                utf8("/usr/bin"@),
                utf8("--tmp-overlay"@),
                utf8("/usr/bin"@),
            ]
            &&& w.binds[n + 1] == op(
                v.origin,
                seq![utf8("--ro-bind"@), path, utf8("/usr/bin/flatpak-spawn"@)],
            )
            &&& w.binds[n + 2] == op(v.origin, seq![utf8("--remount-ro"@), utf8("/usr/bin"@)])
            &&& w.masks == v.masks && w.env == v.env && w.skeleton == v.skeleton && w.namespaces
                == v.namespaces
        }),
{
    let none = Seq::<ItemView>::empty();
    assert(v.masks + none =~= v.masks);
    assert(v.env + none =~= v.env);
    let w = called(v, Call::FlatpakSpawnShim(path));
    assert(w.binds.take(v.binds.len() as int) =~= v.binds);
}

} // verus!
