//! The two cgroups a run with an `allow-host` needs: the one the sandbox runs
//! in and the one the egress proxy runs in, side by side under a parent of
//! their own.
//!
//! nftables matches a cgroup by path but stores the id it resolved, so the
//! proxy's directory has to exist before the rule is read and to live as long
//! as the sandbox: one made afterwards matches nothing, silently.
//!
//! Whatever cgroup bwrap was started in becomes the root of the sandbox's
//! cgroup namespace, and everything under that root is nameable from inside.
//! So bubbler puts itself in `sandbox/` before it spawns bwrap, and the proxy
//! goes into `proxy/`, a sibling outside that root.
//!
//! The parent holds no process, only the two leaves. Both are created under
//! bubbler's own cgroup, which on a systemd user session is a delegated
//! cgroup2 subtree the user may write.

use vstd::prelude::*;
use vstd::utf8::{
    decode_utf8, encode_utf8_decode_utf8, is_ascii_chars_encode_utf8, valid_utf8,
};

use crate::config::node::{digit, is_digit};
use crate::desktop::entry::{lines, lines_of};
use crate::error::{LaunchError, LaunchErrorView};
use crate::paths::{
    absolute, components, is_name, join, join_path, lemma_join_name, under, SEPARATOR,
};
use crate::split::{part_views, split_chars, split_on};
use crate::text::{
    begins, byte_views, chars_of, copy_bytes, decimal, decimal_digits, joined,
    lemma_utf8_joined, lossy, lossy_text,
    maybe, outcome, skip_chars, starts_with, text_of_bytes, text_views, utf8,
};

verus! {

/// Where the unified hierarchy is mounted. Every path a rule carries is
/// relative to this.
pub const CGROUP2_ROOT: &'static str = "/sys/fs/cgroup";

/// The line of `/proc/<pid>/cgroup` that names the unified hierarchy; the
/// others are v1 controllers, which a `socket cgroupv2` match has nothing to
/// do with.
pub const UNIFIED: &'static str = "0::";

/// Longest `/proc/self/cgroup` that is read. The file is a handful of lines
/// of the kernel's own making; a bound is here because everything that is
/// read has one.
pub const MAX_CGROUP_FILE: u64 = 65536;

/// The leaf bubbler moves itself into, and so the root of the sandbox's
/// cgroup namespace.
pub const SANDBOX_LEAF: &'static str = "sandbox";

/// The leaf the egress proxy writes itself into, which is what the ruleset
/// accepts.
pub const PROXY_LEAF: &'static str = "proxy";

/// The file of a cgroup a process is moved by writing its pid into.
pub const PROCS: &'static str = "cgroup.procs";

/// How long the teardown waits for the sandbox's processes to be gone before
/// giving up on removing the directories, in milliseconds. They are killed as
/// bwrap exits, which is not quite instant, and a cgroup with a process left
/// in it cannot be removed.
pub const RELEASE_WAIT_MILLIS: u64 = 2000;

/// How often that is retried, in milliseconds.
pub const RELEASE_POLL_MILLIS: u64 = 50;

/// A text without the `/` it begins with.
pub open spec fn without_slashes(s: Seq<char>) -> Seq<char>
    decreases s.len(),
{
    if s.len() > 0 && s[0] == '/' {
        without_slashes(s.drop_first())
    } else {
        s
    }
}

/// The path of the first line from `i` on that names the unified hierarchy.
pub open spec fn unified_from(lines: Seq<Seq<char>>, i: int) -> Option<Seq<char>>
    decreases lines.len() - i,
{
    if i < 0 || i >= lines.len() {
        None
    } else if begins(lines[i], UNIFIED@) {
        Some(without_slashes(lines[i].skip(UNIFIED@.len() as int)))
    } else {
        unified_from(lines, i + 1)
    }
}

/// The path of the unified hierarchy out of a `/proc/<pid>/cgroup` file.
pub open spec fn unified_path(text: Seq<char>) -> Option<Seq<char>> {
    unified_from(lines_of(text), 0)
}

fn trim_slashes(s: &str) -> (r: String)
    ensures
        r@ == without_slashes(s@),
{
    let all = chars_of(s);
    let mut from: usize = 0;
    assert(all@.skip(0) =~= all@);
    while from < all.len() && all[from] == '/'
        invariant
            all@ == s@,
            from <= all@.len(),
            without_slashes(all@.skip(from as int)) == without_slashes(s@),
        decreases all@.len() - from,
    {
        assert(all@.skip(from as int).drop_first() =~= all@.skip(from + 1));
        from = from + 1;
    }
    assert(without_slashes(s@) == all@.skip(from as int));
    skip_chars(s, from)
}

/// The unified hierarchy's path out of a `/proc/<pid>/cgroup` file, relative
/// to the cgroup2 mount: the `0::` line with its prefix and leading `/` taken
/// off.
///
/// `None` where there is no such line, which is a host with no cgroup2
/// hierarchy — or one where bubbler is in a v1 controller only, which a
/// `socket cgroupv2` match cannot see either.
pub fn unified_of(text: &str) -> (r: Option<String>)
    ensures
        maybe(r) == unified_path(text@),
{
    let all = lines(text);
    let ghost model = text_views(all@);
    let mut i: usize = 0;
    while i < all.len()
        invariant
            model == text_views(all@),
            model == lines_of(text@),
            i <= all@.len(),
            unified_from(model, 0) == unified_from(model, i as int),
        decreases all@.len() - i,
    {
        assert(model[i as int] == all@[i as int]@);
        if starts_with(&all[i], UNIFIED) {
            proof {
                reveal_strlit("0::");
            }
            let path = skip_chars(&all[i], 3);
            return Some(trim_slashes(&path));
        }
        i = i + 1;
    }
    None
}

/// bubbler's own cgroup, or that it is in none.
pub open spec fn own_cgroup(text: Seq<char>) -> Result<Seq<char>, LaunchErrorView> {
    match unified_path(text) {
        Some(path) => Ok(path),
        None => Err(
            LaunchErrorView::Network(
                "this process is in no cgroup2 hierarchy, which is what an `allow-host` ruleset matches on"@,
            ),
        ),
    }
}

/// bubbler's own cgroup out of its `/proc/self/cgroup`, relative to the
/// cgroup2 mount and without the leading `/`. Empty where bubbler is in the
/// root cgroup itself.
///
/// Also what an explanation names its placeholder under, so the block it
/// prints is the shape a run would install.
pub fn own_path(text: &str) -> (r: Result<String, LaunchError>)
    ensures
        outcome(r) == own_cgroup(text@),
{
    match unified_of(text) {
        Some(path) => Ok(path),
        None => Err(
            LaunchError::Network(
                "this process is in no cgroup2 hierarchy, which is what an `allow-host` ruleset matches on".to_owned(),
            ),
        ),
    }
}

/// What the name of every run's cgroup of an instance begins with.
pub open spec fn run_prefix(instance: Seq<char>) -> Seq<char> {
    "bubbler-"@ + instance + "-"@
}

/// A run's cgroup under the own one.
pub open spec fn run_base(own: Seq<char>, instance: Seq<char>, run: Seq<char>) -> Seq<char> {
    (if own.len() == 0 {
        Seq::empty()
    } else {
        own + "/"@
    }) + run_prefix(instance) + run
}

/// The proxy leaf of a run's cgroup.
pub open spec fn rule_path(own: Seq<char>, instance: Seq<char>, run: Seq<char>) -> Seq<char> {
    run_base(own, instance, run) + "/"@ + PROXY_LEAF@
}

fn prefix_of(instance: &str) -> (r: String)
    ensures
        r@ == run_prefix(instance@),
{
    joined(&joined("bubbler-", instance), "-")
}

fn base_of(own: &str, instance: &str, run: &str) -> (r: String)
    ensures
        r@ == run_base(own@, instance@, run@),
{
    let prefix = prefix_of(instance);
    let all = chars_of(own);
    let base = if all.len() == 0 {
        String::new()
    } else {
        joined(own, "/")
    };
    assert(all@.len() == 0 ==> base@ =~= Seq::empty());
    joined(&joined(&base, &prefix), run)
}

/// The leaf an explanation names, under the cgroup a run of `instance` would
/// create: the sandbox pid is not part of it, and bubbler's own is whatever
/// the run has.
pub fn placeholder(own: &str, instance: &str) -> (r: String)
    ensures
        r@ == rule_path(own@, instance@, "<pid>"@),
{
    joined(&joined(&base_of(own, instance, "<pid>"), "/"), PROXY_LEAF)
}

/// A cgroup as an nftables rule names it: its path relative to the cgroup2
/// mount, and how many directories deep that is.
#[derive(Debug, PartialEq, Eq)]
pub struct Cgroup {
    pub path: String,
    pub level: usize,
}

/// One run's cgroups: the parent, its two leaves, where bubbler was before it
/// moved itself, and the proxy leaf as a rule names it.
#[derive(Debug, PartialEq, Eq)]
pub struct Layout {
    /// The parent, which holds no process and is removed last.
    pub dir: Vec<u8>,
    /// The leaf bubbler and therefore the sandbox are in.
    pub sandbox: Vec<u8>,
    /// The leaf the proxy is in.
    pub proxy: Vec<u8>,
    /// The cgroup bubbler was in before this, to move back to.
    pub home: Vec<u8>,
    /// bubbler's own pid, which is what is moved and what moves back.
    pub pid: u32,
    /// The proxy leaf, never the sandbox's.
    pub spec: Cgroup,
}

/// Model of a [`Layout`].
pub struct LayoutView {
    pub dir: Seq<u8>,
    pub sandbox: Seq<u8>,
    pub proxy: Seq<u8>,
    pub home: Seq<u8>,
    pub pid: u32,
    pub path: Seq<char>,
    pub level: nat,
}

impl View for Layout {
    type V = LayoutView;

    open spec fn view(&self) -> LayoutView {
        LayoutView {
            dir: self.dir@,
            sandbox: self.sandbox@,
            proxy: self.proxy@,
            home: self.home@,
            pid: self.pid,
            path: self.spec.path@,
            level: self.spec.level as nat,
        }
    }
}

/// The cgroups of a run.
pub open spec fn layout_of(
    root: Seq<u8>,
    own: Seq<char>,
    instance: Seq<char>,
    pid: u32,
) -> LayoutView {
    let run = decimal_digits(pid as nat);
    let dir = join_path(root, utf8(run_base(own, instance, run)));
    LayoutView {
        dir,
        sandbox: join_path(dir, utf8(SANDBOX_LEAF@)),
        proxy: join_path(dir, utf8(PROXY_LEAF@)),
        home: join_path(root, utf8(own)),
        pid,
        path: rule_path(own, instance, run),
        level: split_on(rule_path(own, instance, run), '/').len(),
    }
}

/// The error of a run whose cgroup no rule could carry.
pub open spec fn path_refused(
    own: Seq<char>,
    instance: Seq<char>,
    pid: u32,
    why: Seq<char>,
) -> LaunchErrorView {
    LaunchErrorView::Network(
        "the cgroup this run would create is no path a rule could carry ("@ + why + "): "@
            + run_base(own, instance, decimal_digits(pid as nat)),
    )
}

/// The path of the proxy leaf of a run of `instance`, as a rule would name
/// it.
pub fn rule_of(own: &str, instance: &str, pid: u32) -> (r: String)
    ensures
        r@ == rule_path(own@, instance@, decimal_digits(pid as nat)),
{
    joined(&joined(&base_of(own, instance, &decimal(pid as u64)), "/"), PROXY_LEAF)
}

impl Layout {
    /// The cgroups of a run of `instance` under the cgroup2 root and the
    /// cgroup bubbler is in. `pid` is bubbler's own: the name has to be
    /// settled before bwrap is spawned, since the root of the sandbox's
    /// cgroup namespace is fixed there, so the sandbox's pid is not yet
    /// known.
    ///
    /// `carried` is what came of asking whether a rule can carry
    /// [`rule_of`]'s path: where it cannot, the launch fails with the reason.
    pub fn new(
        root: &[u8],
        own: &str,
        instance: &str,
        pid: u32,
        carried: Result<(), String>,
    ) -> (r: Result<Self, LaunchError>)
        ensures
            outcome(r) == match carried {
                Ok(()) => Ok(layout_of(root@, own@, instance@, pid)),
                Err(why) => Err(path_refused(own@, instance@, pid, why@)),
            },
    {
        let base = base_of(own, instance, &decimal(pid as u64));
        if let Err(why) = carried {
            let reason = joined(
                &joined(
                    &joined(
                        "the cgroup this run would create is no path a rule could carry (",
                        &why,
                    ),
                    "): ",
                ),
                &base,
            );
            return Err(LaunchError::Network(reason));
        }
        let path = joined(&joined(&base, "/"), PROXY_LEAF);
        let dir = join(root, base.as_str().as_bytes());
        let parts = split_chars(&chars_of(&path), '/');
        assert(part_views(parts@).len() == parts@.len());
        Ok(
            Layout {
                sandbox: join(&dir, SANDBOX_LEAF.as_bytes()),
                proxy: join(&dir, PROXY_LEAF.as_bytes()),
                home: join(root, own.as_bytes()),
                pid,
                spec: Cgroup { level: parts.len(), path },
                dir,
            },
        )
    }
}

/// What a run's cgroup is removed by: its leaves, and then itself.
pub open spec fn removal_order(dir: Seq<u8>) -> Seq<Seq<u8>> {
    seq![join_path(dir, utf8(PROXY_LEAF@)), join_path(dir, utf8(SANDBOX_LEAF@)), dir]
}

/// Whether a directory's name is that of a run of the instance: the prefix
/// and a pid in decimal digits. The digits are what tells a run of `t` from
/// one of an instance called `t-x`.
pub open spec fn run_named(name: Seq<char>, prefix: Seq<char>) -> bool {
    &&& begins(name, prefix)
    &&& prefix.len() < name.len()
    &&& forall|i: int| prefix.len() <= i < name.len() ==> digit(#[trigger] name[i])
}

/// The directories a sweep removes for the first `n` names under the own
/// cgroup: those of earlier runs of the instance.
pub open spec fn swept(home: Seq<u8>, prefix: Seq<char>, names: Seq<Seq<u8>>, n: int) -> Seq<
    Seq<u8>,
>
    decreases n,
{
    if n <= 0 {
        Seq::empty()
    } else if valid_utf8(names[n - 1]) && run_named(decode_utf8(names[n - 1]), prefix) {
        swept(home, prefix, names, n - 1) + removal_order(join_path(home, names[n - 1]))
    } else {
        swept(home, prefix, names, n - 1)
    }
}

fn is_run(name: &str, prefix: &str) -> (r: bool)
    ensures
        r == run_named(name@, prefix@),
{
    if !starts_with(name, prefix) {
        return false;
    }
    let all = chars_of(name);
    let from = chars_of(prefix).len();
    let mut i: usize = from;
    while i < all.len()
        invariant
            all@ == name@,
            from == prefix@.len(),
            from <= i,
            forall|j: int| from <= j < i ==> digit(#[trigger] name@[j]),
        decreases all@.len() - i,
    {
        if !is_digit(all[i]) {
            assert(!digit(name@[i as int]));
            return false;
        }
        i = i + 1;
    }
    from < all.len()
}

/// The empty cgroups of earlier runs of this instance, to be removed in this
/// order. A bubbler that was killed leaves its directories behind, and they
/// are empty: no process outlives the run that was in them. A directory still
/// holding a process — a run that is live — refuses to be removed, which is
/// the check that keeps this from touching anything of another run's. The
/// directories of another instance are left alone, one whose name begins with
/// this one's included.
pub fn sweep(home: &[u8], instance: &str, names: &[Vec<u8>]) -> (r: Vec<Vec<u8>>)
    ensures
        byte_views(r@) == swept(
            home@,
            run_prefix(instance@),
            byte_views(names@),
            byte_views(names@).len() as int,
        ),
        forall|i: int|
            0 <= i < names@.len() && valid_utf8(#[trigger] names@[i]@) && run_named(
                decode_utf8(names@[i]@),
                run_prefix(instance@),
            ) ==> {
                let dir = join_path(home@, names@[i]@);
                &&& byte_views(r@).contains(join_path(dir, utf8(PROXY_LEAF@)))
                &&& byte_views(r@).contains(join_path(dir, utf8(SANDBOX_LEAF@)))
                &&& byte_views(r@).contains(dir)
            },
{
    let prefix = prefix_of(instance);
    let ghost model = byte_views(names@);
    let mut out: Vec<Vec<u8>> = Vec::new();
    let mut i: usize = 0;
    assert(byte_views(out@) =~= Seq::empty());
    while i < names.len()
        invariant
            prefix@ == run_prefix(instance@),
            model == byte_views(names@),
            i <= names@.len(),
            byte_views(out@) == swept(home@, prefix@, model, i as int),
        decreases names@.len() - i,
    {
        assert(model[i as int] == names@[i as int]@);
        let ghost before = byte_views(out@);
        match text_of_bytes(&names[i]) {
            Some(name) => {
                proof {
                    encode_utf8_decode_utf8(name@);
                }
                if is_run(&name, &prefix) {
                    let dir = join(home, &names[i]);
                    let ghost at = dir@;
                    out.push(join(&dir, PROXY_LEAF.as_bytes()));
                    out.push(join(&dir, SANDBOX_LEAF.as_bytes()));
                    out.push(dir);
                    assert(byte_views(out@) =~= before + removal_order(at));
                }
            },
            None => {},
        }
        i = i + 1;
    }
    proof {
        assert forall|i: int|
            0 <= i < names@.len() && valid_utf8(#[trigger] names@[i]@) && run_named(
                decode_utf8(names@[i]@),
                run_prefix(instance@),
            ) implies {
            let dir = join_path(home@, names@[i]@);
            &&& byte_views(out@).contains(join_path(dir, utf8(PROXY_LEAF@)))
            &&& byte_views(out@).contains(join_path(dir, utf8(SANDBOX_LEAF@)))
            &&& byte_views(out@).contains(dir)
        } by {
            assert(model[i] == names@[i]@);
            every_run_of_the_instance_is_swept(home@, instance@, model, i);
        }
    }
    out
}

/// Why the system refused something, told apart as far as it matters.
#[derive(Debug, Clone, Copy, PartialEq, Eq, Structural)]
pub enum Refusal {
    /// Permission was denied.
    Access,
    /// The operation is not permitted.
    Permission,
    /// The filesystem is read-only.
    ReadOnly,
    /// There is no such directory.
    Missing,
    /// It exists already.
    Existing,
    /// Anything else.
    Other,
}

/// Why a cgroup could not be made, in the terms of what the user would have
/// to change.
pub open spec fn subtree_error(why: Refusal, said: Seq<char>, dir: Seq<u8>) -> LaunchErrorView {
    LaunchErrorView::Network(
        match why {
            Refusal::Access | Refusal::Permission | Refusal::ReadOnly | Refusal::Missing =>
                "allow-host needs a delegated cgroup2 subtree (a systemd user session provides one): creating "@
                + lossy(dir) + ": "@ + said,
            Refusal::Existing => lossy(dir)
                + " already exists and is not empty; another process is in it"@,
            Refusal::Other => "creating "@ + lossy(dir) + ": "@ + said,
        },
    )
}

/// Why a cgroup could not be made, in the terms of what the user would have
/// to change. Everything else is reported as it arrived.
pub fn bad_subtree(why: Refusal, said: &str, dir: &[u8]) -> (r: LaunchError)
    ensures
        r@ == subtree_error(why, said@, dir@),
{
    let shown = lossy_text(dir);
    LaunchError::Network(
        match why {
            Refusal::Access | Refusal::Permission | Refusal::ReadOnly | Refusal::Missing => joined(
                &joined(
                    &joined(
                        "allow-host needs a delegated cgroup2 subtree (a systemd user session provides one): creating ",
                        &shown,
                    ),
                    ": ",
                ),
                said,
            ),
            // What an earlier run left was swept, so what is left here is a
            // directory holding a process.
            Refusal::Existing => joined(
                &shown,
                " already exists and is not empty; another process is in it",
            ),
            Refusal::Other => joined(&joined(&joined("creating ", &shown), ": "), said),
        },
    )
}

/// How far the making of a run's cgroups has come: what is to be done next.
#[derive(Debug, Clone, Copy, PartialEq, Eq, Structural)]
pub enum Stage {
    /// Make the parent.
    MakeDir,
    /// Make the sandbox's leaf.
    MakeSandbox,
    /// Make the proxy's leaf.
    MakeProxy,
    /// Open the proxy leaf's `cgroup.procs` for writing.
    OpenProcs,
    /// Move bubbler into the sandbox's leaf. Last, because from here bubbler
    /// is somewhere else.
    Enter,
}

/// What came of a stage.
#[derive(Debug)]
pub enum Outcome {
    Done,
    /// Why it failed, and what the system said.
    Failed(Refusal, String),
}

/// What follows a stage.
#[derive(Debug)]
pub enum Next {
    /// The next stage.
    Go(Stage),
    /// The cgroups are made and bubbler is in the sandbox's.
    Ready,
    /// Remove what was made, ignoring what is not there, and fail.
    GiveUp(Vec<Vec<u8>>, LaunchError),
}

/// Model of [`Next`].
pub enum NextView {
    Go(Stage),
    Ready,
    GiveUp(Seq<Seq<u8>>, LaunchErrorView),
}

impl View for Next {
    type V = NextView;

    open spec fn view(&self) -> NextView {
        match self {
            Next::Go(stage) => NextView::Go(*stage),
            Next::Ready => NextView::Ready,
            Next::GiveUp(dirs, e) => NextView::GiveUp(byte_views(dirs@), e@),
        }
    }
}

/// The error a failed stage is reported by.
pub open spec fn stage_error(
    layout: LayoutView,
    stage: Stage,
    why: Refusal,
    said: Seq<char>,
) -> LaunchErrorView {
    match stage {
        Stage::MakeDir => subtree_error(why, said, layout.dir),
        Stage::MakeSandbox => subtree_error(why, said, layout.sandbox),
        Stage::MakeProxy => subtree_error(why, said, layout.proxy),
        Stage::OpenProcs => LaunchErrorView::Network(
            "opening "@ + lossy(layout.proxy) + "/cgroup.procs: "@ + said,
        ),
        Stage::Enter => LaunchErrorView::Network(
            "moving bubbler into "@ + lossy(layout.sandbox) + ": "@ + said,
        ),
    }
}

/// What follows a stage: the next one, or where it failed the removal of
/// everything that was made, deepest first.
pub open spec fn stage_after(layout: LayoutView, stage: Stage, outcome: Outcome) -> NextView {
    match outcome {
        Outcome::Done => match stage {
            Stage::MakeDir => NextView::Go(Stage::MakeSandbox),
            Stage::MakeSandbox => NextView::Go(Stage::MakeProxy),
            Stage::MakeProxy => NextView::Go(Stage::OpenProcs),
            Stage::OpenProcs => NextView::Go(Stage::Enter),
            Stage::Enter => NextView::Ready,
        },
        Outcome::Failed(why, said) => NextView::GiveUp(
            seq![layout.proxy, layout.sandbox, layout.dir],
            stage_error(layout, stage, why, said@),
        ),
    }
}

impl Layout {
    /// The first thing to do once earlier runs were swept.
    pub fn first_stage(&self) -> (r: Stage)
        ensures
            r == Stage::MakeDir,
    {
        Stage::MakeDir
    }

    /// What follows a stage. A failure ends the launch rather than warning:
    /// the ruleset is written around the proxy leaf, and a run without it
    /// would either have no rules at all or rules naming a path that resolves
    /// to nothing.
    pub fn next(&self, stage: Stage, outcome: Outcome) -> (r: Next)
        ensures
            r@ == stage_after(self@, stage, outcome),
    {
        match outcome {
            Outcome::Done => match stage {
                Stage::MakeDir => Next::Go(Stage::MakeSandbox),
                Stage::MakeSandbox => Next::Go(Stage::MakeProxy),
                Stage::MakeProxy => Next::Go(Stage::OpenProcs),
                Stage::OpenProcs => Next::Go(Stage::Enter),
                Stage::Enter => Next::Ready,
            },
            Outcome::Failed(why, said) => {
                let e = match stage {
                    Stage::MakeDir => bad_subtree(why, &said, &self.dir),
                    Stage::MakeSandbox => bad_subtree(why, &said, &self.sandbox),
                    Stage::MakeProxy => bad_subtree(why, &said, &self.proxy),
                    Stage::OpenProcs => LaunchError::Network(
                        joined(
                            &joined(
                                &joined("opening ", &lossy_text(&self.proxy)),
                                "/cgroup.procs: ",
                            ),
                            &said,
                        ),
                    ),
                    Stage::Enter => LaunchError::Network(
                        joined(
                            &joined(
                                &joined("moving bubbler into ", &lossy_text(&self.sandbox)),
                                ": ",
                            ),
                            &said,
                        ),
                    ),
                };
                let dirs = self.removals();
                Next::GiveUp(dirs, e)
            },
        }
    }

    /// The directories a run removes when it ends, in the only order the
    /// kernel takes: the leaves have to be empty, and the parent has to have
    /// no children left.
    pub fn removals(&self) -> (r: Vec<Vec<u8>>)
        ensures
            byte_views(r@) == seq![self@.proxy, self@.sandbox, self@.dir],
    {
        let mut out: Vec<Vec<u8>> = Vec::new();
        out.push(copy_bytes(&self.proxy));
        out.push(copy_bytes(&self.sandbox));
        out.push(copy_bytes(&self.dir));
        assert(byte_views(out@) =~= seq![self@.proxy, self@.sandbox, self@.dir]);
        out
    }
}

/// What came of removing a directory.
#[derive(Debug, Clone, Copy, PartialEq, Eq, Structural)]
pub enum Removal {
    Removed,
    Missing,
    Failed,
}

/// What a teardown does next.
#[derive(Debug, Clone, Copy, PartialEq, Eq, Structural)]
pub enum Release {
    /// Remove the directory with this index in the order of removal.
    Remove(usize),
    /// Wait, and begin again with the first.
    Wait,
    /// Leave it at that. Empty directories that are left are swept by the
    /// next run of the instance.
    Stop,
}

/// What a teardown does after it tried to remove the `i`th directory.
pub open spec fn released(i: usize, removal: Removal, expired: bool) -> Release {
    if removal == Removal::Failed {
        if expired {
            Release::Stop
        } else {
            Release::Wait
        }
    } else if i < 2 {
        Release::Remove((i + 1) as usize)
    } else {
        Release::Stop
    }
}

/// What a teardown does once it has tried to remove the `i`th directory,
/// `expired` being whether it has waited long enough.
pub fn release(i: usize, removal: Removal, expired: bool) -> (r: Release)
    ensures
        r == released(i, removal, expired),
        r == (if removal == Removal::Failed {
            if expired {
                Release::Stop
            } else {
                Release::Wait
            }
        } else if i < 2 {
            Release::Remove((i + 1) as usize)
        } else {
            Release::Stop
        }),
{
    match removal {
        Removal::Failed => {
            if expired {
                Release::Stop
            } else {
                Release::Wait
            }
        },
        _ => {
            if i < 2 {
                Release::Remove(i + 1)
            } else {
                Release::Stop
            }
        },
    }
}

proof fn lemma_leaf_names()
    ensures
        is_name(utf8(SANDBOX_LEAF@)),
        is_name(utf8(PROXY_LEAF@)),
        utf8(SANDBOX_LEAF@) != utf8(PROXY_LEAF@),
{
    reveal_strlit("sandbox");
    reveal_strlit("proxy");
    is_ascii_chars_encode_utf8(SANDBOX_LEAF@);
    is_ascii_chars_encode_utf8(PROXY_LEAF@);
    let s = utf8(SANDBOX_LEAF@);
    let p = utf8(PROXY_LEAF@);
    assert(s[0] == 115);
    assert(p[0] == 112);
    assert forall|i: int| 0 <= i < s.len() implies s[i] != SEPARATOR by {
        assert(s[i] == SANDBOX_LEAF@[i] as u8);
    }
    assert forall|i: int| 0 <= i < p.len() implies p[i] != SEPARATOR by {
        assert(p[i] == PROXY_LEAF@[i] as u8);
    }
}

/// Whatever the cgroup bubbler is in, the proxy's leaf is beside the
/// sandbox's and never in or above it, so no cgroup the sandbox can name is
/// the one its rules accept; and an explanation names the path a rule would,
/// but for the pid.
pub proof fn the_proxy_is_outside_the_sandbox(
    root: Seq<u8>,
    own: Seq<char>,
    instance: Seq<char>,
    pid: u32,
)
    ensures
        ({
            let layout = layout_of(root, own, instance, pid);
            &&& under(layout.proxy, layout.dir)
            &&& under(layout.sandbox, layout.dir)
            &&& !under(layout.proxy, layout.sandbox)
            &&& !under(layout.sandbox, layout.proxy)
            &&& exists|head: Seq<char>|
                layout.path == head + decimal_digits(pid as nat) + "/"@ + PROXY_LEAF@ && rule_path(
                    own,
                    instance,
                    "<pid>"@,
                ) == #[trigger] (head + "<pid>"@ + "/"@ + PROXY_LEAF@)
        }),
{
    let layout = layout_of(root, own, instance, pid);
    lemma_leaf_names();
    lemma_join_name(layout.dir, utf8(SANDBOX_LEAF@));
    lemma_join_name(layout.dir, utf8(PROXY_LEAF@));
    let base = components(layout.dir);
    let n = base.len() as int;
    let proxy = components(layout.proxy);
    let sandbox = components(layout.sandbox);
    assert(proxy.take(n) =~= base);
    assert(sandbox.take(n) =~= base);
    assert(proxy.take(n + 1) =~= proxy);
    assert(sandbox.take(n + 1) =~= sandbox);
    assert(proxy[n] != sandbox[n]);
    let head = run_base(own, instance, Seq::empty());
    assert(run_base(own, instance, decimal_digits(pid as nat)) =~= head + decimal_digits(
        pid as nat,
    ));
    assert(run_base(own, instance, "<pid>"@) =~= head + "<pid>"@);
    assert(rule_path(own, instance, "<pid>"@) == head + "<pid>"@ + "/"@ + PROXY_LEAF@);
}

/// Only directories of runs of the instance are swept: each is under a
/// directory whose name is the instance's prefix and a pid, or is that
/// directory.
pub proof fn a_sweep_is_of_the_instances_own_runs(
    home: Seq<u8>,
    instance: Seq<char>,
    names: Seq<Seq<u8>>,
    n: int,
)
    requires
        0 <= n <= names.len(),
    ensures
        forall|k: int|
            0 <= k < swept(home, run_prefix(instance), names, n).len() ==> exists|i: int|
                {
                    &&& 0 <= i < n
                    &&& valid_utf8(names[i])
                    &&& run_named(decode_utf8(#[trigger] names[i]), run_prefix(instance))
                    &&& removal_order(join_path(home, names[i])).contains(
                        #[trigger] swept(home, run_prefix(instance), names, n)[k],
                    )
                },
    decreases n,
{
    let prefix = run_prefix(instance);
    if n > 0 {
        a_sweep_is_of_the_instances_own_runs(home, instance, names, n - 1);
        let before = swept(home, prefix, names, n - 1);
        let all = swept(home, prefix, names, n);
        assert forall|k: int| 0 <= k < all.len() implies exists|i: int|
            {
                &&& 0 <= i < n
                &&& valid_utf8(names[i])
                &&& run_named(decode_utf8(#[trigger] names[i]), prefix)
                &&& removal_order(join_path(home, names[i])).contains(#[trigger] all[k])
            } by {
            if k < before.len() {
                assert(all[k] == before[k]);
            } else {
                let order = removal_order(join_path(home, names[n - 1]));
                assert(order[k - before.len()] == all[k]);
                assert(order.contains(all[k]));
            }
        }
    }
}

proof fn lemma_swept_grows(
    home: Seq<u8>,
    prefix: Seq<char>,
    names: Seq<Seq<u8>>,
    m: int,
    n: int,
    dir: Seq<u8>,
)
    requires
        m <= n,
        swept(home, prefix, names, m).contains(dir),
    ensures
        swept(home, prefix, names, n).contains(dir),
    decreases n - m,
{
    if m < n {
        lemma_swept_grows(home, prefix, names, m, n - 1, dir);
        if n > 0 {
            let before = swept(home, prefix, names, n - 1);
            let k = before.index_of(dir);
            assert(before[k] == dir);
            assert(swept(home, prefix, names, n)[k] == dir);
        }
    }
}

/// Every run of the instance in the listing is swept, wherever it stands in
/// it: its proxy leaf, its sandbox leaf and then its directory, a leaf before
/// what holds it.
pub proof fn every_run_of_the_instance_is_swept(
    home: Seq<u8>,
    instance: Seq<char>,
    names: Seq<Seq<u8>>,
    i: int,
)
    requires
        0 <= i < names.len(),
        valid_utf8(names[i]),
        run_named(decode_utf8(names[i]), run_prefix(instance)),
    ensures
        ({
            let all = swept(home, run_prefix(instance), names, names.len() as int);
            let dir = join_path(home, names[i]);
            &&& all.contains(join_path(dir, utf8("proxy"@)))
            &&& all.contains(join_path(dir, utf8("sandbox"@)))
            &&& all.contains(dir)
        }),
{
    let prefix = run_prefix(instance);
    let dir = join_path(home, names[i]);
    let before = swept(home, prefix, names, i);
    let now = swept(home, prefix, names, i + 1);
    let order = removal_order(dir);
    assert(now == before + order);
    let (proxy, sandbox) = (join_path(dir, utf8("proxy"@)), join_path(dir, utf8("sandbox"@)));
    assert(now[before.len() as int] == proxy);
    assert(now[before.len() as int + 1] == sandbox);
    assert(now[before.len() as int + 2] == dir);
    let n = names.len() as int;
    lemma_swept_grows(home, prefix, names, i + 1, n, proxy);
    lemma_swept_grows(home, prefix, names, i + 1, n, sandbox);
    lemma_swept_grows(home, prefix, names, i + 1, n, dir);
}

/// What a run has done to the hierarchy: the directories it made, the ones
/// whose `cgroup.procs` it opened and wrote its pid to, the ones it then tried
/// to remove, and how it ended.
pub struct Run {
    pub made: Seq<Seq<u8>>,
    pub opened: Seq<Seq<u8>>,
    pub entered: Seq<Seq<u8>>,
    pub removed: Seq<Seq<u8>>,
    pub ready: bool,
    pub failed: Option<LaunchErrorView>,
}

/// A run that has done nothing.
pub open spec fn nothing_done() -> Run {
    Run {
        made: Seq::empty(),
        opened: Seq::empty(),
        entered: Seq::empty(),
        removed: Seq::empty(),
        ready: false,
        failed: None,
    }
}

/// A run once a stage has been done.
pub open spec fn performed(layout: LayoutView, stage: Stage, run: Run) -> Run {
    match stage {
        Stage::MakeDir => Run { made: run.made.push(layout.dir), ..run },
        Stage::MakeSandbox => Run { made: run.made.push(layout.sandbox), ..run },
        Stage::MakeProxy => Run { made: run.made.push(layout.proxy), ..run },
        Stage::OpenProcs => Run { opened: run.opened.push(layout.proxy), ..run },
        Stage::Enter => Run { entered: run.entered.push(layout.sandbox), ..run },
    }
}

/// A whole run from a stage on, given what came of each stage: a stage is
/// performed, and what [`Layout::next`] says of it is done.
pub open spec fn run_from(
    layout: LayoutView,
    stage: Stage,
    outcomes: Seq<Outcome>,
    run: Run,
) -> Run
    decreases outcomes.len(),
{
    if outcomes.len() == 0 {
        run
    } else {
        let now = if outcomes[0] is Done {
            performed(layout, stage, run)
        } else {
            run
        };
        match stage_after(layout, stage, outcomes[0]) {
            NextView::Go(next) => run_from(layout, next, outcomes.drop_first(), now),
            NextView::Ready => Run { ready: true, ..now },
            NextView::GiveUp(dirs, e) => Run { removed: dirs, failed: Some(e), ..now },
        }
    }
}

/// A path whose last part is joined on is the whole path joined on.
proof fn lemma_leaf_of_path(root: Seq<u8>, base: Seq<u8>, leaf: Seq<u8>)
    requires
        base.len() > 0,
        base.last() != SEPARATOR,
        is_name(leaf),
    ensures
        join_path(join_path(root, base), leaf) == join_path(root, base.push(SEPARATOR) + leaf),
{
    assert(!absolute(leaf));
    let dir = join_path(root, base);
    assert(dir.last() == base.last());
    let whole = base.push(SEPARATOR) + leaf;
    assert(whole[0] == base[0]);
    assert(join_path(dir, leaf) =~= join_path(root, whole));
}

proof fn lemma_last_digit(n: nat)
    ensures
        decimal_digits(n).len() > 0,
        digit(decimal_digits(n).last()),
{
}

/// The path a rule names is, under the root, the proxy leaf that is made.
proof fn lemma_rule_is_the_leaf(root: Seq<u8>, own: Seq<char>, instance: Seq<char>, pid: u32)
    ensures
        ({
            let layout = layout_of(root, own, instance, pid);
            layout.proxy == join_path(root, utf8(layout.path))
        }),
{
    let run = decimal_digits(pid as nat);
    let base = run_base(own, instance, run);
    lemma_last_digit(pid as nat);
    lemma_leaf_names();
    let last = seq![base.last()];
    assert(base =~= base.drop_last() + last);
    lemma_utf8_joined(base.drop_last(), last);
    is_ascii_chars_encode_utf8(last);
    assert(utf8(last)[0] == last[0] as u8);
    reveal_strlit("/");
    is_ascii_chars_encode_utf8("/"@);
    lemma_utf8_joined(base, "/"@);
    lemma_utf8_joined(base + "/"@, PROXY_LEAF@);
    assert(utf8("/"@) =~= seq![SEPARATOR]);
    assert(utf8(base) + seq![SEPARATOR] =~= utf8(base).push(SEPARATOR));
    lemma_leaf_of_path(root, utf8(base), utf8(PROXY_LEAF@));
}

/// However the stages of a run turn out: a run that is ready has made the
/// parent and its two leaves, opened the proxy's and moved its pid into the
/// sandbox's and into no other, and the path its rule names is the proxy leaf
/// that it made; a run that failed has moved into none, and has tried to
/// remove both leaves and then the parent, which is all that it can have made.
pub proof fn a_failed_run_leaves_nothing_behind(
    root: Seq<u8>,
    own: Seq<char>,
    instance: Seq<char>,
    pid: u32,
    outcomes: Seq<Outcome>,
)
    ensures
        ({
            let layout = layout_of(root, own, instance, pid);
            let run = run_from(layout, Stage::MakeDir, outcomes, nothing_done());
            &&& run.ready <==> outcomes.len() >= 5 && forall|i: int|
                0 <= i < 5 ==> #[trigger] outcomes[i] is Done
            &&& run.failed is Some <==> exists|i: int|
                0 <= i < outcomes.len() && i < 5 && #[trigger] outcomes[i] is Failed
            &&& run.ready ==> {
                &&& run.made == seq![layout.dir, layout.sandbox, layout.proxy]
                &&& run.opened == seq![layout.proxy]
                &&& run.entered == seq![layout.sandbox]
                &&& run.removed.len() == 0
            }
            &&& run.failed is Some ==> {
                &&& run.entered.len() == 0
                &&& run.removed == seq![layout.proxy, layout.sandbox, layout.dir]
                &&& forall|k: int|
                    0 <= k < run.made.len() ==> run.removed.contains(#[trigger] run.made[k])
            }
            &&& layout.proxy == join_path(root, utf8(layout.path))
            &&& layout.path == rule_path(own, instance, decimal_digits(pid as nat))
        }),
{
    let layout = layout_of(root, own, instance, pid);
    lemma_rule_is_the_leaf(root, own, instance, pid);
    lemma_whole_run(layout, outcomes);
}

proof fn lemma_whole_run(layout: LayoutView, outcomes: Seq<Outcome>)
    ensures
        ({
            let run = run_from(layout, Stage::MakeDir, outcomes, nothing_done());
            &&& run.ready <==> outcomes.len() >= 5 && forall|i: int|
                0 <= i < 5 ==> #[trigger] outcomes[i] is Done
            &&& run.failed is Some <==> exists|i: int|
                0 <= i < outcomes.len() && i < 5 && #[trigger] outcomes[i] is Failed
            &&& run.ready ==> {
                &&& run.made == seq![layout.dir, layout.sandbox, layout.proxy]
                &&& run.opened == seq![layout.proxy]
                &&& run.entered == seq![layout.sandbox]
                &&& run.removed.len() == 0
            }
            &&& run.failed is Some ==> {
                &&& run.entered.len() == 0
                &&& run.removed == seq![layout.proxy, layout.sandbox, layout.dir]
                &&& forall|k: int|
                    0 <= k < run.made.len() ==> run.removed.contains(#[trigger] run.made[k])
            }
        }),
{
    reveal_with_fuel(run_from, 6);
    let run = run_from(layout, Stage::MakeDir, outcomes, nothing_done());
    let o1 = outcomes.drop_first();
    let o2 = o1.drop_first();
    let o3 = o2.drop_first();
    let o4 = o3.drop_first();
    assert(outcomes.len() > 1 ==> o1[0] == outcomes[1]);
    assert(outcomes.len() > 2 ==> o2[0] == outcomes[2]);
    assert(outcomes.len() > 3 ==> o3[0] == outcomes[3]);
    assert(outcomes.len() > 4 ==> o4[0] == outcomes[4]);
    if run.ready {
        assert(run.made =~= seq![layout.dir, layout.sandbox, layout.proxy]);
        assert(run.opened =~= seq![layout.proxy]);
        assert(run.entered =~= seq![layout.sandbox]);
    }
    if run.failed is Some {
        assert(run.removed[0] == layout.proxy);
        assert(run.removed[1] == layout.sandbox);
        assert(run.removed[2] == layout.dir);
        assert forall|k: int| 0 <= k < run.made.len() implies run.removed.contains(
            #[trigger] run.made[k],
        ) by {
            assert(run.made[k] == layout.dir || run.made[k] == layout.sandbox || run.made[k]
                == layout.proxy);
        }
    }
}

} // verus!
