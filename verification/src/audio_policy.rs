//! The WirePlumber policy that scopes each instance's audio grant: the
//! drop-in and the linking hook it loads, and what a host is told where it
//! does not hold both.

use vstd::prelude::*;

use crate::config::model::{grants_audio, InstanceConfig};
use crate::env::Env;
use crate::host::{file_kind, FileKind, HostFiles};
use crate::paths::{join, join_path};
use crate::text::{byte_views, bytes_of, copy_bytes, maybe, same_bytes, utf8};

verus! {

/// File name WirePlumber loads the drop-in under, in any of [`install_dirs`].
pub const DROP_IN_NAME: &'static str = "50-bubbler.conf";

/// Path WirePlumber loads the hook under, relative to one of [`hook_dirs`];
/// the name the drop-in gives it, so the two must change together.
pub const HOOK_NAME: &'static str = "bubbler/refuse-links.lua";

/// Where WirePlumber was built to look for its own scripts, which the default
/// `$XDG_DATA_DIRS` also ends with.
pub const DATA_DIR: &'static str = "/usr/share";

/// The three `wireplumber.conf.d` directories the drop-in is looked for in.
pub open spec fn drop_in_dirs(config_home: Seq<u8>) -> Seq<Seq<u8>> {
    seq![
        utf8("/usr/share/wireplumber/wireplumber.conf.d"@),
        utf8("/etc/wireplumber/wireplumber.conf.d"@),
        join_path(config_home, utf8("wireplumber/wireplumber.conf.d"@)),
    ]
}

/// The three `wireplumber.conf.d` directories the drop-in is looked for in,
/// in the order [`installed`] searches.
pub fn install_dirs(env: &Env) -> (r: Vec<Vec<u8>>)
    ensures
        byte_views(r@) == drop_in_dirs(env.config_home@),
{
    let mut out: Vec<Vec<u8>> = Vec::new();
    out.push(bytes_of("/usr/share/wireplumber/wireplumber.conf.d"));
    out.push(bytes_of("/etc/wireplumber/wireplumber.conf.d"));
    out.push(join(&env.config_home, "wireplumber/wireplumber.conf.d".as_bytes()));
    assert(byte_views(out@) =~= drop_in_dirs(env.config_home@));
    out
}

/// The directories scripts are searched under, in order.
pub open spec fn script_bases(data_home: Seq<u8>, data_dirs: Seq<Seq<u8>>) -> Seq<Seq<u8>> {
    seq![data_home] + data_dirs + seq![utf8(DATA_DIR@)]
}

/// The script directories of the first `n` bases, each listed once.
pub open spec fn script_dirs(bases: Seq<Seq<u8>>, n: int) -> Seq<Seq<u8>>
    decreases n,
{
    if n <= 0 {
        Seq::empty()
    } else {
        let before = script_dirs(bases, n - 1);
        let dir = join_path(bases[n - 1], utf8("wireplumber/scripts"@));
        if before.contains(dir) {
            before
        } else {
            before.push(dir)
        }
    }
}

/// The directories the hook is looked for in.
pub open spec fn hook_dirs_of(data_home: Seq<u8>, data_dirs: Seq<Seq<u8>>) -> Seq<Seq<u8>> {
    let bases = script_bases(data_home, data_dirs);
    script_dirs(bases, bases.len() as int)
}

fn listed(dirs: &[Vec<u8>], dir: &[u8]) -> (r: bool)
    ensures
        r == byte_views(dirs@).contains(dir@),
{
    let ghost model = byte_views(dirs@);
    let mut i: usize = 0;
    while i < dirs.len()
        invariant
            model == byte_views(dirs@),
            i <= dirs@.len(),
            forall|j: int| 0 <= j < i ==> model[j] != dir@,
        decreases dirs@.len() - i,
    {
        assert(model[i as int] == dirs@[i as int]@);
        if same_bytes(&dirs[i], dir) {
            assert(model[i as int] == dir@);
            return true;
        }
        i = i + 1;
    }
    false
}

/// The `wireplumber/scripts` directories the hook is looked for in, in the
/// order [`hook_installed`] searches.
///
/// A script is found by the *data*-directory search and not the configuration
/// one the drop-in is found by: `$XDG_DATA_HOME`, then `$XDG_DATA_DIRS`, then
/// the directory WirePlumber was built with, which the default
/// `$XDG_DATA_DIRS` already holds and which is listed once either way — these
/// are what a diagnostic names.
pub fn hook_dirs(env: &Env) -> (r: Vec<Vec<u8>>)
    ensures
        byte_views(r@) == hook_dirs_of(env.data_home@, byte_views(env.data_dirs@)),
{
    let mut bases: Vec<Vec<u8>> = Vec::new();
    let ghost model = script_bases(env.data_home@, byte_views(env.data_dirs@));
    bases.push(copy_bytes(&env.data_home));
    let mut i: usize = 0;
    assert(byte_views(bases@) =~= model.take(1));
    while i < env.data_dirs.len()
        invariant
            model == script_bases(env.data_home@, byte_views(env.data_dirs@)),
            i <= env.data_dirs@.len(),
            byte_views(bases@) == model.take(i + 1),
        decreases env.data_dirs@.len() - i,
    {
        let ghost before = byte_views(bases@);
        bases.push(copy_bytes(&env.data_dirs[i]));
        assert(model[i + 1] == env.data_dirs@[i as int]@);
        assert(byte_views(bases@) =~= before.push(model[i + 1]));
        assert(model.take(i + 2) =~= before.push(model[i + 1]));
        i = i + 1;
    }
    let ghost before = byte_views(bases@);
    bases.push(bytes_of(DATA_DIR));
    assert(byte_views(bases@) =~= before.push(utf8(DATA_DIR@)));
    assert(byte_views(bases@) =~= model);
    let tail = bytes_of("wireplumber/scripts");
    let mut dirs: Vec<Vec<u8>> = Vec::new();
    i = 0;
    assert(byte_views(dirs@) =~= Seq::empty());
    while i < bases.len()
        invariant
            tail@ == utf8("wireplumber/scripts"@),
            byte_views(bases@) == model,
            i <= bases@.len(),
            byte_views(dirs@) == script_dirs(model, i as int),
        decreases bases@.len() - i,
    {
        assert(model[i as int] == bases@[i as int]@);
        let ghost before = byte_views(dirs@);
        let dir = join(&bases[i], &tail);
        let ghost at = dir@;
        if !listed(&dirs, &dir) {
            dirs.push(dir);
            assert(byte_views(dirs@) =~= before.push(at));
        }
        i = i + 1;
    }
    assert(model.len() == bases@.len());
    dirs
}

/// The first path from `i` on, of `name` in one of `dirs`, that the host
/// holds.
pub open spec fn first_held(
    files: Seq<(Seq<u8>, FileKind)>,
    dirs: Seq<Seq<u8>>,
    name: Seq<u8>,
    i: int,
) -> Option<Seq<u8>>
    decreases dirs.len() - i,
{
    if i < 0 || i >= dirs.len() {
        None
    } else if file_kind(files, join_path(dirs[i], name)) is Some {
        Some(join_path(dirs[i], name))
    } else {
        first_held(files, dirs, name, i + 1)
    }
}

fn search(host: &HostFiles, dirs: &[Vec<u8>], name: &[u8]) -> (r: Option<Vec<u8>>)
    ensures
        maybe(r) == first_held(host@, byte_views(dirs@), name@, 0),
{
    let ghost model = byte_views(dirs@);
    let mut i: usize = 0;
    while i < dirs.len()
        invariant
            model == byte_views(dirs@),
            i <= dirs@.len(),
            first_held(host@, model, name@, 0) == first_held(host@, model, name@, i as int),
        decreases dirs@.len() - i,
    {
        assert(model[i as int] == dirs@[i as int]@);
        let path = join(&dirs[i], name);
        if host.has(&path) {
            return Some(path);
        }
        i = i + 1;
    }
    None
}

/// The installed drop-in.
pub open spec fn drop_in_at(files: Seq<(Seq<u8>, FileKind)>, config_home: Seq<u8>) -> Option<
    Seq<u8>,
> {
    first_held(files, drop_in_dirs(config_home), utf8(DROP_IN_NAME@), 0)
}

/// The installed hook.
pub open spec fn hook_at(
    files: Seq<(Seq<u8>, FileKind)>,
    data_home: Seq<u8>,
    data_dirs: Seq<Seq<u8>>,
) -> Option<Seq<u8>> {
    first_held(files, hook_dirs_of(data_home, data_dirs), utf8(HOOK_NAME@), 0)
}

/// Full path of the installed drop-in: the first of [`install_dirs`] that
/// holds a file named [`DROP_IN_NAME`]; `None` where none does, which is what
/// an absent policy is measured by everywhere else in this module.
pub fn installed(host: &HostFiles, env: &Env) -> (r: Option<Vec<u8>>)
    ensures
        maybe(r) == drop_in_at(host@, env.config_home@),
{
    search(host, &install_dirs(env), DROP_IN_NAME.as_bytes())
}

/// Full path of the installed hook: the first of [`hook_dirs`] that holds
/// [`HOOK_NAME`]; `None` where none does.
pub fn hook_installed(host: &HostFiles, env: &Env) -> (r: Option<Vec<u8>>)
    ensures
        maybe(r) == hook_at(host@, env.data_home@, byte_views(env.data_dirs@)),
{
    search(host, &hook_dirs(env), HOOK_NAME.as_bytes())
}

/// Which half of the policy a host does not hold. Both are needed: the
/// drop-in scopes the grant, and the hook refuses the links a permission
/// cannot express.
#[derive(Debug, Clone, Copy, PartialEq, Eq, Structural)]
pub enum Missing {
    /// No `wireplumber.conf.d` holds [`DROP_IN_NAME`].
    DropIn,
    /// No `wireplumber/scripts` directory holds [`HOOK_NAME`].
    Hook,
    /// Neither.
    Both,
}

/// Text of the warning a real run prints for each case.
pub const RUN_WARNING_DROP_IN: &'static str =
    "audio policy drop-in not found (50-bubbler.conf): the sandbox has full access to every PipeWire node (microphone and every other client's audio reachable)";

/// Text of the warning a real run prints for each case.
pub const RUN_WARNING_HOOK: &'static str =
    "audio policy hook script not found (bubbler/refuse-links.lua): the sandbox has full access to every PipeWire node (microphone and every other client's audio reachable)";

/// Text of the warning a real run prints for each case.
pub const RUN_WARNING_BOTH: &'static str =
    "audio policy drop-in and hook script not found (50-bubbler.conf, bubbler/refuse-links.lua): the sandbox has full access to every PipeWire node (microphone and every other client's audio reachable)";

/// Suffix an audio group's header takes for each case.
pub const EXPLAIN_SUFFIX_DROP_IN: &'static str =
    " (policy drop-in 50-bubbler.conf not found: microphone reachable)";

/// Suffix an audio group's header takes for each case.
pub const EXPLAIN_SUFFIX_HOOK: &'static str =
    " (policy hook script bubbler/refuse-links.lua not found: microphone reachable)";

/// Suffix an audio group's header takes for each case.
pub const EXPLAIN_SUFFIX_BOTH: &'static str =
    " (policy drop-in 50-bubbler.conf and hook script bubbler/refuse-links.lua not found: microphone reachable)";

/// The warning of a case.
pub open spec fn warning_of(case: Missing) -> Seq<char> {
    match case {
        Missing::DropIn => RUN_WARNING_DROP_IN@,
        Missing::Hook => RUN_WARNING_HOOK@,
        Missing::Both => RUN_WARNING_BOTH@,
    }
}

/// The suffix of a case.
pub open spec fn suffix_of(case: Missing) -> Seq<char> {
    match case {
        Missing::DropIn => EXPLAIN_SUFFIX_DROP_IN@,
        Missing::Hook => EXPLAIN_SUFFIX_HOOK@,
        Missing::Both => EXPLAIN_SUFFIX_BOTH@,
    }
}

impl Missing {
    /// The line a real run prints on stderr for this case.
    pub fn run_warning(self) -> (r: &'static str)
        ensures
            r@ == warning_of(self),
    {
        match self {
            Missing::DropIn => RUN_WARNING_DROP_IN,
            Missing::Hook => RUN_WARNING_HOOK,
            Missing::Both => RUN_WARNING_BOTH,
        }
    }

    /// What an explanation appends to the audio group's header for it.
    pub fn explain_suffix(self) -> (r: &'static str)
        ensures
            r@ == suffix_of(self),
    {
        match self {
            Missing::DropIn => EXPLAIN_SUFFIX_DROP_IN,
            Missing::Hook => EXPLAIN_SUFFIX_HOOK,
            Missing::Both => EXPLAIN_SUFFIX_BOTH,
        }
    }
}

/// What a host is missing of the policy.
pub open spec fn missing_half(drop_in: bool, hook: bool) -> Option<Missing> {
    match (drop_in, hook) {
        (true, true) => None,
        (false, true) => Some(Missing::DropIn),
        (true, false) => Some(Missing::Hook),
        (false, false) => Some(Missing::Both),
    }
}

/// What a host is missing of the policy.
pub open spec fn missing_of(files: Seq<(Seq<u8>, FileKind)>, env: Env) -> Option<Missing> {
    missing_half(
        drop_in_at(files, env.config_home@) is Some,
        hook_at(files, env.data_home@, byte_views(env.data_dirs@)) is Some,
    )
}

/// What this host is missing of the policy, or `None` where it holds both
/// files.
pub fn missing(host: &HostFiles, env: &Env) -> (r: Option<Missing>)
    ensures
        r == missing_of(host@, *env),
{
    let drop_in = installed(host, env).is_some();
    let hook = hook_installed(host, env).is_some();
    if drop_in && hook {
        None
    } else if hook {
        Some(Missing::DropIn)
    } else if drop_in {
        Some(Missing::Hook)
    } else {
        Some(Missing::Both)
    }
}

/// The warning where this run needs it: `cfg` grants `pipewire` or
/// `pulseaudio` and the host holds less than the whole policy. For a real run
/// alone; an explanation carries its own framing.
pub fn run_warning(cfg: &InstanceConfig, host: &HostFiles, env: &Env) -> (r: Option<&'static str>)
    ensures
        match r {
            Some(s) => grants_audio(cfg@.services) && missing_of(host@, *env) is Some && s@ == warning_of(
                missing_of(host@, *env)->Some_0,
            ),
            None => !grants_audio(cfg@.services) || missing_of(host@, *env) is None,
        },
{
    if !cfg.audio() {
        return None;
    }
    match missing(host, env) {
        Some(case) => Some(case.run_warning()),
        None => None,
    }
}

/// The suffix an audio group's header takes, `""` where the host holds the
/// whole policy.
pub fn explain_suffix(host: &HostFiles, env: &Env) -> (r: &'static str)
    ensures
        r@ == (match missing_of(host@, *env) {
            Some(case) => suffix_of(case),
            None => ""@,
        }),
{
    match missing(host, env) {
        Some(case) => case.explain_suffix(),
        None => "",
    }
}

proof fn lemma_script_dirs(bases: Seq<Seq<u8>>, n: int)
    requires
        n <= bases.len(),
    ensures
        forall|i: int, j: int|
            0 <= i < j < script_dirs(bases, n).len() ==> script_dirs(bases, n)[i] != script_dirs(
                bases,
                n,
            )[j],
        forall|k: int|
            0 <= k < n ==> script_dirs(bases, n).contains(
                join_path(#[trigger] bases[k], utf8("wireplumber/scripts"@)),
            ),
    decreases n,
{
    if n > 0 {
        lemma_script_dirs(bases, n - 1);
        let before = script_dirs(bases, n - 1);
        let all = script_dirs(bases, n);
        let dir = join_path(bases[n - 1], utf8("wireplumber/scripts"@));
        assert forall|i: int, j: int| 0 <= i < j < all.len() implies all[i] != all[j] by {
            if j == before.len() {
                assert(before.contains(before[i]));
            }
        }
        assert forall|k: int| 0 <= k < n implies all.contains(
            join_path(#[trigger] bases[k], utf8("wireplumber/scripts"@)),
        ) by {
            if k < n - 1 {
                let d = join_path(bases[k], utf8("wireplumber/scripts"@));
                let i = choose|i: int| 0 <= i < before.len() && before[i] == d;
                assert(all[i] == d);
            } else if !before.contains(dir) {
                assert(all[before.len() as int] == dir);
            }
        }
    }
}

/// Every data directory is searched for the hook, the one WirePlumber was
/// built with among them, and none is listed twice.
pub proof fn every_data_directory_is_searched_once(data_home: Seq<u8>, data_dirs: Seq<Seq<u8>>)
    ensures
        ({
            let dirs = hook_dirs_of(data_home, data_dirs);
            let bases = script_bases(data_home, data_dirs);
            &&& forall|i: int, j: int| 0 <= i < j < dirs.len() ==> dirs[i] != dirs[j]
            &&& forall|k: int|
                0 <= k < bases.len() ==> dirs.contains(
                    join_path(#[trigger] bases[k], utf8("wireplumber/scripts"@)),
                )
        }),
{
    let bases = script_bases(data_home, data_dirs);
    lemma_script_dirs(bases, bases.len() as int);
}

/// Whether a text holds another.
pub open spec fn holds(s: Seq<char>, part: Seq<char>) -> bool {
    exists|i: int|
        0 <= i && i + part.len() <= s.len() && #[trigger] s.subrange(i, i + part.len()) == part
}

proof fn lemma_holds(s: Seq<char>, part: Seq<char>, i: int)
    requires
        0 <= i,
        i + part.len() <= s.len(),
        forall|j: int| 0 <= j < part.len() ==> s[i + j] == #[trigger] part[j],
    ensures
        holds(s, part),
{
    assert(s.subrange(i, i + part.len()) =~= part);
}

proof fn lemma_lacks(s: Seq<char>, part: Seq<char>, k: int)
    requires
        0 <= k < part.len(),
        !s.contains(part[k]),
    ensures
        !holds(s, part),
{
    if holds(s, part) {
        let i = choose|i: int|
            0 <= i && i + part.len() <= s.len() && #[trigger] s.subrange(i, i + part.len())
                == part;
        assert(s.subrange(i, i + part.len())[k] == s[i + k]);
        assert(s.contains(s[i + k]));
    }
}

proof fn lemma_warning_drop_in()
    ensures
        holds(RUN_WARNING_DROP_IN@, DROP_IN_NAME@),
        !holds(RUN_WARNING_DROP_IN@, HOOK_NAME@),
{
    reveal_strlit("audio policy drop-in not found (50-bubbler.conf): the sandbox has full access to every PipeWire node (microphone and every other client's audio reachable)");
    reveal_strlit("50-bubbler.conf");
    reveal_strlit("bubbler/refuse-links.lua");
    lemma_holds(RUN_WARNING_DROP_IN@, DROP_IN_NAME@, 32);
    lemma_lacks(RUN_WARNING_DROP_IN@, HOOK_NAME@, 7);
}

proof fn lemma_suffix_drop_in()
    ensures
        holds(EXPLAIN_SUFFIX_DROP_IN@, DROP_IN_NAME@),
        !holds(EXPLAIN_SUFFIX_DROP_IN@, HOOK_NAME@),
{
    reveal_strlit(" (policy drop-in 50-bubbler.conf not found: microphone reachable)");
    reveal_strlit("50-bubbler.conf");
    reveal_strlit("bubbler/refuse-links.lua");
    lemma_holds(EXPLAIN_SUFFIX_DROP_IN@, DROP_IN_NAME@, 17);
    lemma_lacks(EXPLAIN_SUFFIX_DROP_IN@, HOOK_NAME@, 7);
}

proof fn lemma_warning_hook()
    ensures
        !holds(RUN_WARNING_HOOK@, DROP_IN_NAME@),
        holds(RUN_WARNING_HOOK@, HOOK_NAME@),
{
    reveal_strlit("audio policy hook script not found (bubbler/refuse-links.lua): the sandbox has full access to every PipeWire node (microphone and every other client's audio reachable)");
    reveal_strlit("50-bubbler.conf");
    reveal_strlit("bubbler/refuse-links.lua");
    lemma_lacks(RUN_WARNING_HOOK@, DROP_IN_NAME@, 0);
    lemma_holds(RUN_WARNING_HOOK@, HOOK_NAME@, 36);
}

proof fn lemma_suffix_hook()
    ensures
        !holds(EXPLAIN_SUFFIX_HOOK@, DROP_IN_NAME@),
        holds(EXPLAIN_SUFFIX_HOOK@, HOOK_NAME@),
{
    reveal_strlit(" (policy hook script bubbler/refuse-links.lua not found: microphone reachable)");
    reveal_strlit("50-bubbler.conf");
    reveal_strlit("bubbler/refuse-links.lua");
    lemma_lacks(EXPLAIN_SUFFIX_HOOK@, DROP_IN_NAME@, 0);
    lemma_holds(EXPLAIN_SUFFIX_HOOK@, HOOK_NAME@, 21);
}

proof fn lemma_warning_both()
    ensures
        holds(RUN_WARNING_BOTH@, DROP_IN_NAME@),
        holds(RUN_WARNING_BOTH@, HOOK_NAME@),
{
    reveal_strlit("audio policy drop-in and hook script not found (50-bubbler.conf, bubbler/refuse-links.lua): the sandbox has full access to every PipeWire node (microphone and every other client's audio reachable)");
    reveal_strlit("50-bubbler.conf");
    reveal_strlit("bubbler/refuse-links.lua");
    lemma_holds(RUN_WARNING_BOTH@, DROP_IN_NAME@, 48);
    lemma_holds(RUN_WARNING_BOTH@, HOOK_NAME@, 65);
}

proof fn lemma_suffix_both()
    ensures
        holds(EXPLAIN_SUFFIX_BOTH@, DROP_IN_NAME@),
        holds(EXPLAIN_SUFFIX_BOTH@, HOOK_NAME@),
{
    reveal_strlit(" (policy drop-in 50-bubbler.conf and hook script bubbler/refuse-links.lua not found: microphone reachable)");
    reveal_strlit("50-bubbler.conf");
    reveal_strlit("bubbler/refuse-links.lua");
    lemma_holds(EXPLAIN_SUFFIX_BOTH@, DROP_IN_NAME@, 17);
    lemma_holds(EXPLAIN_SUFFIX_BOTH@, HOOK_NAME@, 49);
}

/// Every diagnostic names the files it is about and no other: the drop-in
/// where that is missing, the hook where that is, and the explanation's suffix
/// the same as the run's warning.
pub proof fn every_diagnostic_names_the_missing_files(case: Missing)
    ensures
        holds(warning_of(case), DROP_IN_NAME@) <==> case != Missing::Hook,
        holds(suffix_of(case), DROP_IN_NAME@) <==> case != Missing::Hook,
        holds(warning_of(case), HOOK_NAME@) <==> case != Missing::DropIn,
        holds(suffix_of(case), HOOK_NAME@) <==> case != Missing::DropIn,
{
    lemma_warning_drop_in();
    lemma_suffix_drop_in();
    lemma_warning_hook();
    lemma_suffix_hook();
    lemma_warning_both();
    lemma_suffix_both();
}

} // verus!
