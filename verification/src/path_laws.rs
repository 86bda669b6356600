//! What holds of every path.

use vstd::prelude::*;

use crate::dbus::address::{guarded, own_runtime, resolved};
use crate::desktop::lookup::{application_dirs, asked_name, looked_up};
use crate::desktop::names::{entry_file, file_name_of, ordered};
use crate::error::LaunchErrorView;
use crate::host::real_path;
use crate::paths::{
    components, fold_parts, is_name, join_path, lemma_join_name, lexical_path, parent_and_name,
    path_of, under, ComponentView,
};
use crate::text::utf8;

verus! {

/// A path joined to a base is the path where it is absolute, whatever the
/// base; and else the base, one separator, and the path as it is.
pub proof fn a_joined_path_is_the_base_and_the_path(base: Seq<u8>, path: Seq<u8>)
    ensures
        path.len() > 0 && path[0] == 47 ==> join_path(base, path) == path,
        !(path.len() > 0 && path[0] == 47) ==> {
            &&& base.len() == 0 ==> join_path(base, path) == path
            &&& base.len() > 0 && base.last() == 47 ==> join_path(base, path) == base + path
            &&& base.len() > 0 && base.last() != 47 ==> join_path(base, path) == base + seq![47u8]
                + path
        },
{
    assert(Seq::<u8>::empty() + path =~= path);
    assert(base.len() == 0 ==> base + path =~= path);
    assert(base.push(47) =~= base + seq![47u8]);
}

/// A name joined to a path is one more component of it and its last, and the
/// path is what it is in.
pub proof fn a_name_is_the_last_component(base: Seq<u8>, name: Seq<u8>)
    requires
        is_name(name),
    ensures
        components(join_path(base, name)) == components(base).push(ComponentView::Normal(name)),
        parent_and_name(join_path(base, name)) == Some((path_of(components(base)), name)),
        file_name_of(join_path(base, name)) == Some(name),
        under(join_path(base, name), base),
        !under(base, join_path(base, name)),
{
    lemma_join_name(base, name);
    let all = components(join_path(base, name));
    assert(all.drop_last() =~= components(base));
    assert(all.take(components(base).len() as int) =~= components(base));
}

/// A path is under itself, and under whatever one it is under is under; and two
/// paths that are under each other have the same components.
pub proof fn under_is_an_order(a: Seq<u8>, b: Seq<u8>, c: Seq<u8>)
    ensures
        under(a, a),
        under(a, b) && under(b, c) ==> under(a, c),
        under(a, b) && under(b, a) ==> components(a) == components(b),
{
    let (x, y, z) = (components(a), components(b), components(c));
    assert(x.take(x.len() as int) =~= x);
    if under(a, b) && under(b, c) {
        assert(x.take(z.len() as int) =~= y.take(z.len() as int));
    }
    if under(a, b) && under(b, a) {
        assert(x =~= y);
    }
}

/// Folding takes a name away with the `..` after it, a `.` alone, and nothing
/// else: not the root, above which there is nothing.
pub proof fn a_parent_takes_away_the_name_before_it(parts: Seq<ComponentView>, name: Seq<u8>)
    ensures
        ({
            let n = parts.len() as int;
            let all = fold_parts(parts, n);
            &&& fold_parts(
                parts.push(ComponentView::Normal(name)).push(ComponentView::Parent),
                n + 2,
            ) == all
            &&& fold_parts(parts.push(ComponentView::Current), n + 1) == all
            &&& fold_parts(parts.push(ComponentView::Normal(name)), n + 1) == all.push(
                ComponentView::Normal(name),
            )
            &&& all.len() > 0 && all.last() == ComponentView::Root ==> fold_parts(
                parts.push(ComponentView::Parent),
                n + 1,
            ) == all
            &&& all.len() == 0 ==> fold_parts(parts.push(ComponentView::Parent), n + 1) == all
        }),
{
    let n = parts.len() as int;
    let one = parts.push(ComponentView::Normal(name));
    let two = one.push(ComponentView::Parent);
    lemma_fold_prefix(parts, ComponentView::Normal(name), n);
    lemma_fold_prefix(one, ComponentView::Parent, n + 1);
    lemma_fold_prefix(parts, ComponentView::Current, n);
    lemma_fold_prefix(parts, ComponentView::Parent, n);
    assert(fold_parts(one, n + 1) == fold_parts(parts, n).push(ComponentView::Normal(name)));
    assert(fold_parts(one, n + 1).drop_last() =~= fold_parts(parts, n));
}

proof fn lemma_fold_prefix(parts: Seq<ComponentView>, c: ComponentView, n: int)
    requires
        n <= parts.len(),
    ensures
        fold_parts(parts.push(c), n) == fold_parts(parts, n),
    decreases n,
{
    if n > 0 {
        lemma_fold_prefix(parts, c, n - 1);
    }
}

/// A path is resolved to where it leads on the host; one that leads nowhere
/// yet, to its name where its directory leads; and else it is folded.
pub proof fn a_path_is_resolved_as_far_as_it_leads(
    table: Seq<(Seq<u8>, Seq<u8>)>,
    path: Seq<u8>,
    dir: Seq<u8>,
    name: Seq<u8>,
    to: Seq<u8>,
)
    ensures
        real_path(table, path) == Some(to) ==> resolved(table, path) == lexical_path(to),
        real_path(table, path) is None && parent_and_name(path) == Some((dir, name)) ==> match real_path(
            table,
            dir,
        ) {
            Some(at) => resolved(table, path) == join_path(lexical_path(at), name),
            None => resolved(table, path) == lexical_path(path),
        },
        real_path(table, path) is None && parent_and_name(path) is None ==> resolved(table, path)
            == lexical_path(path),
{
}

/// A bus under bubbler's own runtime directory is refused for the node that
/// asked, and the own one is `bubbler` in the runtime directory.
pub proof fn an_own_bus_is_refused_for_its_node(
    table: Seq<(Seq<u8>, Seq<u8>)>,
    runtime_dir: Seq<u8>,
    node: Seq<char>,
    path: Seq<u8>,
)
    ensures
        own_runtime(table, runtime_dir) == resolved(
            table,
            join_path(runtime_dir, utf8("bubbler"@)),
        ),
        guarded(table, runtime_dir, node, path) matches Err(e) ==> (
        e matches LaunchErrorView::BadValue { service, reason } && service == node),
{
}

/// Entries are looked for in `applications` of every data directory, in the
/// order of these.
pub proof fn entries_are_in_the_data_directories(dirs: Seq<Seq<u8>>, i: int)
    requires
        0 <= i < dirs.len(),
    ensures
        application_dirs(dirs).len() == dirs.len(),
        application_dirs(dirs)[i] == join_path(dirs[i], utf8("applications"@)),
{
}

/// The name an entry is looked for by: the hint as it is written, whatever the
/// command is; without one the file name of the command's program and
/// `.desktop`.
pub proof fn an_entry_is_looked_for_by_its_hint(
    hint: Seq<char>,
    argv: Seq<Seq<u8>>,
    command: Option<Seq<u8>>,
    dir: Seq<u8>,
    name: Seq<u8>,
)
    ensures
        asked_name(Some(hint), command) == Some(utf8(hint)),
        asked_name(None, Some(name)) == Some(name + utf8(".desktop"@)),
        asked_name(None, None) is None,
        looked_up(None) is None,
        argv.len() == 0 ==> looked_up(Some(argv)) is None,
        argv.len() > 0 && argv[0] == join_path(dir, name) && is_name(name) ==> looked_up(Some(argv))
            == Some(name),
{
    if is_name(name) {
        a_name_is_the_last_component(dir, name);
    }
}

/// A file is an entry exactly where its name ends in `.desktop` and has more
/// before it.
pub proof fn an_entry_is_named_desktop(dir: Seq<u8>, name: Seq<u8>)
    requires
        is_name(name),
    ensures
        entry_file(join_path(dir, name)) <==> exists|stem: Seq<u8>|
            stem.len() > 0 && name == #[trigger] (stem + utf8(".desktop"@)),
{
    a_name_is_the_last_component(dir, name);
    let tail = utf8(".desktop"@);
    if entry_file(join_path(dir, name)) {
        let stem = name.take(name.len() - tail.len());
        assert(name =~= stem + tail);
    }
    assert forall|stem: Seq<u8>|
        stem.len() > 0 && name == #[trigger] (stem + tail) implies entry_file(
        join_path(dir, name),
    ) by {
        assert(name.skip(name.len() - tail.len()) =~= tail);
    }
}

/// Names stand in one order: of any two one is first, two that are each before
/// the other are one, and what is before another is before all after it; a
/// name is before every one it begins.
pub proof fn names_stand_in_one_order(a: Seq<u8>, b: Seq<u8>, c: Seq<u8>)
    ensures
        ordered(a, b) || ordered(b, a),
        ordered(a, b) && ordered(b, a) ==> a == b,
        ordered(a, b) && ordered(b, c) ==> ordered(a, c),
        ordered(a, a + b),
        a.len() > 0 && b.len() > 0 && a[0] < b[0] ==> ordered(a, b) && !ordered(b, a),
    decreases a.len() + b.len() + c.len(),
{
    assert(a.len() > 0 ==> (a + b).drop_first() =~= a.drop_first() + b);
    if a.len() > 0 && b.len() > 0 {
        let z = if c.len() > 0 {
            c.drop_first()
        } else {
            c
        };
        names_stand_in_one_order(a.drop_first(), b.drop_first(), z);
        if ordered(a, b) && ordered(b, a) {
            assert(a =~= seq![a[0]] + a.drop_first());
            assert(b =~= seq![b[0]] + b.drop_first());
        }
    } else if a.len() == 0 && b.len() == 0 {
        assert(a =~= b);
    }
    if a.len() > 0 {
        lemma_begins_first(a, b);
    }
}

proof fn lemma_begins_first(a: Seq<u8>, b: Seq<u8>)
    ensures
        ordered(a, a + b),
    decreases a.len(),
{
    if a.len() > 0 {
        assert((a + b).drop_first() =~= a.drop_first() + b);
        lemma_begins_first(a.drop_first(), b);
    }
}

} // verus!
