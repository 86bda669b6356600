//! The cgroups of a run.

use bubbler_core::cgroup::{
    bad_subtree, own_path, placeholder, release, rule_of, sweep, unified_of, Layout, Next, Outcome, Refusal,
    Release, Removal, Stage,
};
use bubbler_core::error::LaunchError;

/// The layout a systemd user session has, which is where the delegated
/// subtree is: the `0::` line, whatever v1 controllers sit above it.
const SESSION: &str = "\
12:pids:/user.slice/user-1000.slice/user@1000.service/app.slice/app.scope
1:name=systemd:/user.slice/user-1000.slice/user@1000.service/app.slice/app.scope
0::/user.slice/user-1000.slice/user@1000.service/app.slice/app.scope
";

#[test]
fn the_unified_line_is_the_one_that_is_read() {
    assert_eq!(
        unified_of(SESSION).as_deref(),
        Some("user.slice/user-1000.slice/user@1000.service/app.slice/app.scope")
    );
    // A name systemd escaped stays as it wrote it: nft resolves the path as
    // written, and unescaping would name a directory that does not exist.
    assert_eq!(
        unified_of("0::/user.slice/user\\x2d1000.slice\n").as_deref(),
        Some("user.slice/user\\x2d1000.slice")
    );
}

/// The root cgroup is no path at all, and a host with only v1 controllers has
/// no unified line to find.
#[test]
fn a_root_cgroup_is_empty_and_a_v1_only_host_has_none() {
    assert_eq!(unified_of("0::/\n").as_deref(), Some(""));
    assert_eq!(unified_of("1:name=systemd:/user.slice\n"), None);
    assert_eq!(unified_of(""), None);
}

/// What a rule carries is the *proxy* leaf, one level below the run cgroup and
/// beside the one the sandbox is in.
#[test]
fn the_rule_names_the_proxy_leaf_beside_the_sandbox_s() {
    let own = unified_of(SESSION).expect("the unified line");
    let cgroup = Layout::new(b"/sys/fs/cgroup", &own, "t", 1234, Ok(())).unwrap();
    assert_eq!(
        cgroup.spec.path,
        "user.slice/user-1000.slice/user@1000.service/app.slice/app.scope/bubbler-t-1234/proxy"
    );
    assert_eq!(cgroup.spec.level, 7);
    assert_eq!(
        placeholder(&own, "t"),
        "user.slice/user-1000.slice/user@1000.service/app.slice/app.scope/\
         bubbler-t-<pid>/proxy"
    );
    let dir = format!("/sys/fs/cgroup/{own}/bubbler-t-1234").into_bytes();
    assert_eq!(cgroup.dir, dir);
    assert_eq!(cgroup.proxy, [&dir[..], b"/proxy"].concat());
    assert_eq!(cgroup.sandbox, [&dir[..], b"/sandbox"].concat());
    assert_eq!(cgroup.home, format!("/sys/fs/cgroup/{own}").into_bytes());
}

#[test]
fn the_root_cgroup_has_no_path_in_front_of_the_runs() {
    let cgroup = Layout::new(b"/sys/fs/cgroup", "", "t", 7, Ok(())).unwrap();
    assert_eq!(cgroup.spec.path, "bubbler-t-7/proxy");
    assert_eq!(cgroup.spec.level, 2);
    assert_eq!(cgroup.dir, b"/sys/fs/cgroup/bubbler-t-7".to_vec());
    assert_eq!(placeholder("", "t"), "bubbler-t-<pid>/proxy");
}

#[test]
fn the_directories_are_made_in_order_and_bubbler_enters_last() {
    let cgroup = Layout::new(b"/c", "own", "t", 1, Ok(())).unwrap();
    let mut stage = cgroup.first_stage();
    let mut seen = vec![];
    loop {
        seen.push(stage);
        match cgroup.next(stage, Outcome::Done) {
            Next::Go(next) => stage = next,
            Next::Ready => break,
            Next::GiveUp(_, e) => panic!("{e:?}"),
        }
    }
    assert_eq!(
        seen,
        [
            Stage::MakeDir,
            Stage::MakeSandbox,
            Stage::MakeProxy,
            Stage::OpenProcs,
            Stage::Enter
        ]
    );
}

#[test]
fn a_failed_stage_removes_everything_deepest_first() {
    let cgroup = Layout::new(b"/c", "own", "t", 1, Ok(())).unwrap();
    let dirs = vec![
        b"/c/own/bubbler-t-1/proxy".to_vec(),
        b"/c/own/bubbler-t-1/sandbox".to_vec(),
        b"/c/own/bubbler-t-1".to_vec(),
    ];
    assert_eq!(cgroup.removals(), dirs);
    for (stage, said) in [
        (
            Stage::MakeProxy,
            "creating /c/own/bubbler-t-1/proxy: busy",
        ),
        (
            Stage::OpenProcs,
            "opening /c/own/bubbler-t-1/proxy/cgroup.procs: busy",
        ),
        (
            Stage::Enter,
            "moving bubbler into /c/own/bubbler-t-1/sandbox: busy",
        ),
    ] {
        let failed = Outcome::Failed(Refusal::Other, "busy".to_owned());
        let Next::GiveUp(removed, e) = cgroup.next(stage, failed) else {
            panic!("{stage:?}");
        };
        assert_eq!(removed, dirs);
        assert_eq!(e, LaunchError::Network(said.to_owned()));
    }
}

/// A bubbler killed before its teardown leaves empty directories; the next
/// run of that instance removes them rather than failing on the name.
#[test]
fn an_empty_leftover_of_an_earlier_run_is_swept() {
    let own = "user.slice/app.scope";
    let home = format!("/c/{own}").into_bytes();
    let names = vec![
        b"bubbler-t-11".to_vec(),
        b"bubbler-other-12".to_vec(),
        b"cgroup.procs".to_vec(),
        b"bubbler-t-\xff".to_vec(),
    ];
    assert_eq!(
        sweep(&home, "t", &names),
        vec![
            b"/c/user.slice/app.scope/bubbler-t-11/proxy".to_vec(),
            b"/c/user.slice/app.scope/bubbler-t-11/sandbox".to_vec(),
            b"/c/user.slice/app.scope/bubbler-t-11".to_vec(),
        ],
        "the leftover of an earlier run of this instance is gone"
    );
}

/// A name that begins with this instance's belongs to another instance unless
/// a pid is all that follows.
#[test]
fn a_sweep_leaves_the_runs_of_other_instances() {
    let names = vec![
        b"bubbler-t-11".to_vec(),
        b"bubbler-t-x-12".to_vec(),
        b"bubbler-t-".to_vec(),
        b"bubbler-t-1a".to_vec(),
    ];
    let gone = |dir: &[u8]| vec![[dir, b"/proxy"].concat(), [dir, b"/sandbox"].concat(), dir.to_vec()];
    assert_eq!(sweep(b"/c", "t", &names), gone(b"/c/bubbler-t-11"));
    assert_eq!(sweep(b"/c", "t-x", &names), gone(b"/c/bubbler-t-x-12"));
}

#[test]
fn a_path_no_rule_could_carry_ends_the_launch() {
    assert_eq!(rule_of("own", "t", 7), "own/bubbler-t-7/proxy");
    assert_eq!(
        Layout::new(b"/c", "own", "t", 7, Err("too long".to_owned())),
        Err(LaunchError::Network(
            "the cgroup this run would create is no path a rule could carry (too long): \
             own/bubbler-t-7"
                .to_owned()
        ))
    );
}

/// The same instance and pid twice over is the one case the sweep cannot
/// clear. It names what it found rather than reporting a bare `File exists`.
#[test]
fn a_leftover_that_will_not_go_names_itself() {
    let own = "user.slice/app.scope";
    let cgroup = Layout::new(b"/c", own, "t", 33, Ok(())).unwrap();
    let failed = Outcome::Failed(Refusal::Existing, "File exists".to_owned());
    let Next::GiveUp(_, LaunchError::Network(why)) = cgroup.next(Stage::MakeDir, failed) else {
        panic!("the launch went on")
    };
    assert!(why.contains("bubbler-t-33"), "{why}");
    assert!(why.contains("already exists"), "{why}");
}

#[test]
fn a_subtree_that_is_not_delegated_says_what_is_needed() {
    for why in [
        Refusal::Access,
        Refusal::Permission,
        Refusal::ReadOnly,
        Refusal::Missing,
    ] {
        assert_eq!(
            bad_subtree(why, "denied", b"/c/\xff").message(),
            "connecting the sandbox network namespace: allow-host needs a delegated cgroup2 \
             subtree (a systemd user session provides one): creating /c/\u{fffd}: denied"
        );
    }
}

#[test]
fn a_process_outside_the_unified_hierarchy_cannot_be_ruled() {
    assert_eq!(own_path("0::/a/b\n"), Ok("a/b".to_owned()));
    assert!(matches!(
        own_path("1:name=systemd:/user.slice\n"),
        Err(LaunchError::Network(why)) if why.starts_with("this process is in no cgroup2")
    ));
}

/// Teardown removes the leaves and then the parent, waits for a process that
/// is not quite gone, and gives up in the end.
#[test]
fn a_teardown_waits_for_what_is_not_gone_and_ends() {
    assert_eq!(release(0, Removal::Removed, false), Release::Remove(1));
    assert_eq!(release(1, Removal::Missing, false), Release::Remove(2));
    assert_eq!(release(2, Removal::Removed, false), Release::Stop);
    assert_eq!(release(1, Removal::Failed, false), Release::Wait);
    assert_eq!(release(1, Removal::Failed, true), Release::Stop);
}
