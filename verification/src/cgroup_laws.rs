//! What one run makes in the hierarchy is what a later one finds.

use vstd::prelude::*;
use vstd::utf8::{decode_utf8, encode_utf8_decode_utf8, valid_utf8};

use crate::cgroup::{
    every_run_of_the_instance_is_swept, layout_of, own_cgroup, path_refused, released, run_base,
    run_named, run_prefix, stage_error, subtree_error, swept, unified_from, unified_path,
    without_slashes, LayoutView, Refusal, Release, Removal, Stage,
};
use crate::config::address_laws::a_number_is_written_in_its_digits;
use crate::config::node::digit;
use crate::desktop::entry::lines_of;
use crate::error::LaunchErrorView;
use crate::paths::join_path;
use crate::split::split_on;
use crate::text::{begins, decimal_digits, ends, lemma_utf8_joined, lossy, utf8};

verus! {

proof fn lemma_without_slashes(s: Seq<char>)
    ensures
        ({
            let p = without_slashes(s);
            &&& p.len() <= s.len()
            &&& p == s.skip(s.len() - p.len())
            &&& p.len() > 0 ==> p[0] != '/'
            &&& forall|i: int| 0 <= i < s.len() - p.len() ==> #[trigger] s[i] == '/'
        }),
    decreases s.len(),
{
    if s.len() > 0 && s[0] == '/' {
        lemma_without_slashes(s.drop_first());
        let p = without_slashes(s);
        assert(p =~= s.skip(s.len() - p.len()));
        assert forall|i: int| 0 <= i < s.len() - p.len() implies #[trigger] s[i] == '/' by {
            if i > 0 {
                assert(s.drop_first()[i - 1] == '/');
            }
        }
    } else {
        assert(s =~= s.skip(0));
    }
}

proof fn lemma_unified(lines: Seq<Seq<char>>, i: int)
    requires
        0 <= i <= lines.len(),
    ensures
        match unified_from(lines, i) {
            None => forall|k: int| i <= k < lines.len() ==> !begins(#[trigger] lines[k], "0::"@),
            Some(p) => exists|k: int|
                {
                    &&& i <= k < lines.len()
                    &&& begins(#[trigger] lines[k], "0::"@)
                    &&& p == without_slashes(lines[k].skip(3))
                    &&& forall|j: int| i <= j < k ==> !begins(#[trigger] lines[j], "0::"@)
                },
        },
    decreases lines.len() - i,
{
    reveal_strlit("0::");
    if i < lines.len() {
        if begins(lines[i], "0::"@) {
            assert(begins(lines[i], "0::"@));
        } else {
            lemma_unified(lines, i + 1);
        }
    }
}

/// The cgroup a process is in is what the first line of the unified hierarchy
/// says after `0::`, without the slashes before it; a process that no line is
/// of is in none.
pub proof fn the_own_cgroup_is_on_the_unified_line(text: Seq<char>)
    ensures
        match unified_path(text) {
            None => forall|k: int|
                0 <= k < lines_of(text).len() ==> !begins(#[trigger] lines_of(text)[k], "0::"@),
            Some(p) => exists|k: int|
                {
                    let line = #[trigger] lines_of(text)[k];
                    &&& 0 <= k < lines_of(text).len()
                    &&& begins(line, "0::"@)
                    &&& p.len() + 3 <= line.len()
                    &&& p == line.skip(line.len() - p.len())
                    &&& p.len() > 0 ==> p[0] != '/'
                    &&& forall|i: int| 3 <= i < line.len() - p.len() ==> #[trigger] line[i] == '/'
                    &&& forall|j: int| 0 <= j < k ==> !begins(#[trigger] lines_of(text)[j], "0::"@)
                },
        },
{
    reveal_strlit("0::");
    lemma_unified(lines_of(text), 0);
    if let Some(p) = unified_path(text) {
        let k = choose|k: int|
            {
                &&& 0 <= k < lines_of(text).len()
                &&& begins(#[trigger] lines_of(text)[k], "0::"@)
                &&& p == without_slashes(lines_of(text)[k].skip(3))
                &&& forall|j: int| 0 <= j < k ==> !begins(#[trigger] lines_of(text)[j], "0::"@)
            };
        let line = lines_of(text)[k];
        lemma_without_slashes(line.skip(3));
        assert(p =~= line.skip(line.len() - p.len()));
        assert forall|i: int| 3 <= i < line.len() - p.len() implies #[trigger] line[i] == '/' by {
            assert(line.skip(3)[i - 3] == '/');
        }
    }
}

/// A directory is taken for a run of an instance exactly where its name is
/// `bubbler-`, the instance, `-` and a number.
pub proof fn a_run_is_named_after_its_instance_and_a_number(name: Seq<char>, instance: Seq<char>)
    ensures
        run_named(name, run_prefix(instance)) <==> exists|number: Seq<char>|
            {
                &&& name == #[trigger] ("bubbler-"@ + instance + "-"@ + number)
                &&& number.len() > 0
                &&& forall|i: int| 0 <= i < number.len() ==> digit(#[trigger] number[i])
            },
{
    let prefix = run_prefix(instance);
    if run_named(name, prefix) {
        let number = name.skip(prefix.len() as int);
        assert(name =~= "bubbler-"@ + instance + "-"@ + number);
        assert forall|i: int| 0 <= i < number.len() implies digit(#[trigger] number[i]) by {
            assert(number[i] == name[prefix.len() + i]);
        }
    }
    assert forall|number: Seq<char>|
        name == #[trigger] ("bubbler-"@ + instance + "-"@ + number) && number.len() > 0 && (forall|
            i: int,
        |
            0 <= i < number.len() ==> digit(#[trigger] number[i])) implies run_named(
        name,
        prefix,
    ) by {
        assert(name.take(prefix.len() as int) =~= prefix);
        assert forall|i: int| prefix.len() <= i < name.len() implies digit(#[trigger] name[i]) by {
            assert(name[i] == number[i - prefix.len()]);
        }
    }
}

/// The cgroups of a run: under the one bubbler is in stands a directory of the
/// instance and the pid, with a leaf for the sandbox and one for the proxy; a
/// rule names the proxy's by its path, as many directories deep as that has.
pub proof fn a_run_has_its_own_cgroups(
    root: Seq<u8>,
    own: Seq<char>,
    instance: Seq<char>,
    pid: u32,
)
    ensures
        ({
            let layout = layout_of(root, own, instance, pid);
            let name = "bubbler-"@ + instance + "-"@ + decimal_digits(pid as nat);
            let base = if own.len() == 0 {
                name
            } else {
                own.push('/') + name
            };
            &&& layout.dir == join_path(root, utf8(base))
            &&& layout.sandbox == join_path(layout.dir, utf8("sandbox"@))
            &&& layout.proxy == join_path(layout.dir, utf8("proxy"@))
            &&& layout.home == join_path(root, utf8(own))
            &&& layout.path == base + "/proxy"@
            &&& layout.level == split_on(layout.path, '/').len()
            &&& layout.pid == pid
        }),
{
    reveal_strlit("/");
    reveal_strlit("proxy");
    reveal_strlit("/proxy");
    let name = "bubbler-"@ + instance + "-"@ + decimal_digits(pid as nat);
    let base = if own.len() == 0 {
        name
    } else {
        own.push('/') + name
    };
    assert(run_base(own, instance, decimal_digits(pid as nat)) =~= base);
    assert(layout_of(root, own, instance, pid).path =~= base + "/proxy"@);
}

/// What a run of the instance made under the home of the hierarchy, a later
/// sweep of that home removes, as long as the listing shows its directory.
pub proof fn what_a_run_made_a_later_sweep_removes(
    root: Seq<u8>,
    own: Seq<char>,
    instance: Seq<char>,
    pid: u32,
    names: Seq<Seq<u8>>,
    i: int,
)
    requires
        0 <= i < names.len(),
        names[i] == utf8(run_prefix(instance) + decimal_digits(pid as nat)),
        root.len() > 0,
        root.last() != 47,
        own.len() > 0 ==> utf8(own).len() > 0 && utf8(own)[0] != 47 && utf8(own).last() != 47,
    ensures
        ({
            let layout = layout_of(root, own, instance, pid);
            let all = swept(layout.home, run_prefix(instance), names, names.len() as int);
            &&& all.contains(layout.proxy)
            &&& all.contains(layout.sandbox)
            &&& all.contains(layout.dir)
        }),
{
    let run = decimal_digits(pid as nat);
    let name = run_prefix(instance) + run;
    let layout = layout_of(root, own, instance, pid);
    encode_utf8_decode_utf8(name);
    vstd::utf8::encode_utf8_valid_utf8(name);
    a_number_is_written_in_its_digits(pid as nat);
    a_run_is_named_after_its_instance_and_a_number(name, instance);
    assert(name =~= "bubbler-"@ + instance + "-"@ + run);
    every_run_of_the_instance_is_swept(layout.home, instance, names, i);
    lemma_home(root, own, instance, run);
}

proof fn lemma_home(root: Seq<u8>, own: Seq<char>, instance: Seq<char>, run: Seq<char>)
    requires
        root.len() > 0,
        root.last() != 47,
        own.len() > 0 ==> utf8(own).len() > 0 && utf8(own)[0] != 47 && utf8(own).last() != 47,
    ensures
        join_path(join_path(root, utf8(own)), utf8(run_prefix(instance) + run)) == join_path(
            root,
            utf8(run_base(own, instance, run)),
        ),
{
    let name = run_prefix(instance) + run;
    reveal_strlit("bubbler-");
    reveal_strlit("/");
    vstd::utf8::is_ascii_chars_encode_utf8("bubbler-"@);
    vstd::utf8::is_ascii_chars_encode_utf8("/"@);
    let rest = instance + "-"@ + run;
    assert(name =~= "bubbler-"@ + rest);
    lemma_utf8_joined("bubbler-"@, rest);
    assert(utf8(name)[0] == 98u8);
    if own.len() == 0 {
        assert(utf8(own) =~= Seq::<u8>::empty());
        assert(run_base(own, instance, run) =~= name);
        assert(join_path(join_path(root, utf8(own)), utf8(name)) =~= join_path(root, utf8(name)));
    } else {
        let base = run_base(own, instance, run);
        assert(base =~= own + "/"@ + name);
        lemma_utf8_joined(own + "/"@, name);
        lemma_utf8_joined(own, "/"@);
        assert(utf8("/"@) =~= seq![47u8]);
        assert(utf8(base)[0] == utf8(own)[0]);
        let home = join_path(root, utf8(own));
        assert(home =~= root.push(47) + utf8(own));
        assert(home.last() == utf8(own).last());
        assert(join_path(home, utf8(name)) =~= root.push(47) + utf8(own) + seq![47u8] + utf8(name));
        assert(join_path(root, utf8(base)) =~= root.push(47) + utf8(base));
    }
}

/// A stage that fails is told by the directory it was about and, but where
/// that is taken, by what the system said; and a subtree that is not delegated
/// is told so, whichever way the system refused it.
pub proof fn a_failed_stage_is_told_by_its_directory(
    layout: LayoutView,
    why: Refusal,
    said: Seq<char>,
)
    ensures
        stage_error(layout, Stage::MakeDir, why, said) == subtree_error(why, said, layout.dir),
        stage_error(layout, Stage::MakeSandbox, why, said) == subtree_error(
            why,
            said,
            layout.sandbox,
        ),
        stage_error(layout, Stage::MakeProxy, why, said) == subtree_error(why, said, layout.proxy),
        stage_error(layout, Stage::OpenProcs, why, said) == LaunchErrorView::Network(
            "opening "@ + lossy(layout.proxy) + "/cgroup.procs: "@ + said,
        ),
        stage_error(layout, Stage::Enter, why, said) == LaunchErrorView::Network(
            "moving bubbler into "@ + lossy(layout.sandbox) + ": "@ + said,
        ),
        why != Refusal::Existing && why != Refusal::Other ==> subtree_error(why, said, layout.dir)
            == LaunchErrorView::Network(
            "allow-host needs a delegated cgroup2 subtree (a systemd user session provides one): creating "@
                + lossy(layout.dir) + ": "@ + said,
        ),
        why == Refusal::Existing ==> subtree_error(why, said, layout.dir)
            == LaunchErrorView::Network(
            lossy(layout.dir) + " already exists and is not empty; another process is in it"@,
        ),
        why == Refusal::Other ==> subtree_error(why, said, layout.dir) == LaunchErrorView::Network(
            "creating "@ + lossy(layout.dir) + ": "@ + said,
        ),
{
}

proof fn lemma_swept_prefix(
    home: Seq<u8>,
    prefix: Seq<char>,
    names: Seq<Seq<u8>>,
    name: Seq<u8>,
    n: int,
)
    requires
        0 <= n <= names.len(),
    ensures
        swept(home, prefix, names.push(name), n) == swept(home, prefix, names, n),
    decreases n,
{
    if n > 0 {
        lemma_swept_prefix(home, prefix, names, name, n - 1);
    }
}

/// What is swept stands in the order it was listed, each run with its leaves
/// before the directory they are in; a name that is no run of the instance
/// adds nothing.
pub proof fn leaves_are_swept_before_their_directory(
    home: Seq<u8>,
    instance: Seq<char>,
    names: Seq<Seq<u8>>,
    name: Seq<u8>,
)
    ensures
        ({
            let before = swept(home, run_prefix(instance), names, names.len() as int);
            let after = swept(home, run_prefix(instance), names.push(name), names.len() as int + 1);
            let dir = join_path(home, name);
            if valid_utf8(name) && run_named(decode_utf8(name), run_prefix(instance)) {
                after == before + seq![
                    join_path(dir, utf8("proxy"@)),
                    join_path(dir, utf8("sandbox"@)),
                    dir,
                ]
            } else {
                after == before
            }
        }),
        swept(home, run_prefix(instance), Seq::empty(), 0).len() == 0,
{
    lemma_swept_prefix(home, run_prefix(instance), names, name, names.len() as int);
    assert(names.push(name)[names.len() as int] == name);
}

/// A process in no unified hierarchy has no cgroup of its own, which is an
/// error of the network; and a path no rule can carry is one too, with why and
/// with the path.
pub proof fn a_run_without_a_cgroup_is_refused(
    text: Seq<char>,
    own: Seq<char>,
    instance: Seq<char>,
    pid: u32,
    why: Seq<char>,
)
    ensures
        unified_path(text) matches Some(path) ==> own_cgroup(text) == Ok::<
            Seq<char>,
            LaunchErrorView,
        >(path),
        unified_path(text) is None ==> own_cgroup(text) is Err,
        own_cgroup(text) matches Err(e) ==> e is Network,
        path_refused(own, instance, pid, why) matches LaunchErrorView::Network(s) && ends(
            s,
            why + "): "@ + run_base(own, instance, decimal_digits(pid as nat)),
        ),
{
    let base = run_base(own, instance, decimal_digits(pid as nat));
    let tail = why + "): "@ + base;
    let s = "the cgroup this run would create is no path a rule could carry ("@ + why + "): "@
        + base;
    assert(s.skip(s.len() - tail.len()) =~= tail);
}

/// A teardown goes through the three directories one after the other, whether
/// each was there or not; waits at one that cannot be removed yet as long as
/// there is time, and then leaves it and what it is in.
pub proof fn a_teardown_goes_through_the_directories_in_order(removal: Removal, expired: bool)
    ensures
        removal != Removal::Failed ==> {
            &&& released(0, removal, expired) == Release::Remove(1)
            &&& released(1, removal, expired) == Release::Remove(2)
            &&& released(2, removal, expired) == Release::Stop
        },
        removal == Removal::Failed ==> forall|i: usize|
            #[trigger] released(i, removal, expired) == (if expired {
                Release::Stop
            } else {
                Release::Wait
            }),
{
}

} // verus!
