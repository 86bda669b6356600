//! What is found of the entries on the host.

use vstd::prelude::*;

use crate::desktop::entry::{head_of, HeadView};
use crate::desktop::lookup::{
    found_from, has_name, listed_from, lookup_order, names_in, runs_command, scan_dirs, scan_names,
    shown_names, source_of, text_at, text_from, vendor_entry, DirsView, FilesView,
};
use crate::desktop::names::{
    entry_file, file_name_of, in_sequence, names_in_order_are_the_same_names,
};
use crate::desktop::quote::program_of;
use crate::error::DesktopErrorView;
use crate::paths::join_path;
use crate::text::{lossy, utf8};

verus! {

proof fn lemma_text_from(texts: Seq<(Seq<u8>, Seq<char>)>, path: Seq<u8>, i: int)
    requires
        0 <= i <= texts.len(),
    ensures
        match text_from(texts, path, i) {
            None => forall|k: int| i <= k < texts.len() ==> (#[trigger] texts[k]).0 != path,
            Some(text) => exists|k: int|
                i <= k < texts.len() && (#[trigger] texts[k]) == (path, text) && forall|j: int|
                    i <= j < k ==> (#[trigger] texts[j]).0 != path,
        },
    decreases texts.len() - i,
{
    if i < texts.len() && texts[i].0 != path {
        lemma_text_from(texts, path, i + 1);
    } else if i < texts.len() {
        assert(texts[i] == (path, texts[i].1));
    }
}

proof fn lemma_listed_from(
    listings: Seq<(Seq<u8>, Seq<Seq<u8>>)>,
    dir: Seq<u8>,
    i: int,
)
    requires
        0 <= i <= listings.len(),
    ensures
        ({
            ||| listed_from(listings, dir, i).len() == 0 && forall|k: int|
                i <= k < listings.len() ==> (#[trigger] listings[k]).0 != dir
            ||| exists|k: int|
                i <= k < listings.len() && (#[trigger] listings[k]) == (
                    dir,
                    listed_from(listings, dir, i),
                ) && forall|j: int| i <= j < k ==> (#[trigger] listings[j]).0 != dir
        }),
    decreases listings.len() - i,
{
    if i < listings.len() && listings[i].0 != dir {
        lemma_listed_from(listings, dir, i + 1);
    } else if i < listings.len() {
        assert(listings[i] == (dir, listed_from(listings, dir, i)));
    }
}

/// A file has the text that was read of it, a directory the names that were
/// listed of it: the first of each where there are more; and one of which
/// nothing was has none.
pub proof fn a_file_has_the_text_that_was_read(files: FilesView, path: Seq<u8>)
    ensures
        match text_at(files, path) {
            None => forall|k: int|
                0 <= k < files.texts.len() ==> (#[trigger] files.texts[k]).0 != path,
            Some(text) => exists|k: int|
                0 <= k < files.texts.len() && (#[trigger] files.texts[k]) == (path, text) && forall|
                    j: int,
                |
                    0 <= j < k ==> (#[trigger] files.texts[j]).0 != path,
        },
        ({
            ||| names_in(files, path).len() == 0 && forall|k: int|
                0 <= k < files.listings.len() ==> (#[trigger] files.listings[k]).0 != path
            ||| exists|k: int|
                0 <= k < files.listings.len() && (#[trigger] files.listings[k]) == (
                    path,
                    names_in(files, path),
                ) && forall|j: int| 0 <= j < k ==> (#[trigger] files.listings[j]).0 != path
        }),
{
    lemma_text_from(files.texts, path, 0);
    lemma_listed_from(files.listings, path, 0);
}

proof fn lemma_found_first(dirs: Seq<Seq<u8>>, i: int, file: Seq<u8>, files: FilesView)
    requires
        0 <= i <= dirs.len(),
    ensures
        match found_from(dirs, i, file, files) {
            None => forall|k: int|
                i <= k < dirs.len() ==> !vendor_entry(files, join_path(#[trigger] dirs[k], file)),
            Some(path) => exists|k: int|
                {
                    &&& i <= k < dirs.len()
                    &&& path == join_path(#[trigger] dirs[k], file)
                    &&& vendor_entry(files, path)
                    &&& forall|j: int|
                        i <= j < k ==> !vendor_entry(files, join_path(#[trigger] dirs[j], file))
                },
        },
    decreases dirs.len() - i,
{
    if i < dirs.len() {
        if vendor_entry(files, join_path(dirs[i], file)) {
            assert(join_path(dirs[i], file) == join_path(dirs[i], file));
        } else {
            lemma_found_first(dirs, i + 1, file, files);
        }
    }
}

/// An entry of a name is looked for in the user's directory first and then in
/// the system's, in their order, and is the first there that bubbler did not
/// generate.
pub proof fn an_entry_is_the_first_of_its_name(dirs: DirsView, file: Seq<u8>, files: FilesView)
    ensures
        lookup_order(dirs).len() == 1 + dirs.system.len(),
        lookup_order(dirs)[0] == dirs.user,
        forall|i: int|
            0 <= i < dirs.system.len() ==> lookup_order(dirs)[i + 1] == #[trigger] dirs.system[i],
        match found_from(lookup_order(dirs), 0, file, files) {
            None => forall|k: int|
                0 <= k < lookup_order(dirs).len() ==> !vendor_entry(
                    files,
                    join_path(#[trigger] lookup_order(dirs)[k], file),
                ),
            Some(path) => exists|k: int|
                {
                    &&& 0 <= k < lookup_order(dirs).len()
                    &&& path == join_path(#[trigger] lookup_order(dirs)[k], file)
                    &&& vendor_entry(files, path)
                    &&& forall|j: int|
                        0 <= j < k ==> !vendor_entry(
                            files,
                            join_path(#[trigger] lookup_order(dirs)[j], file),
                        )
                },
        },
{
    lemma_found_first(lookup_order(dirs), 0, file, files);
}

/// Whether a path is of an entry that runs a command: of that name in that
/// directory, and shown to the user.
pub open spec fn candidate(
    files: FilesView,
    dir: Seq<u8>,
    name: Seq<u8>,
    command: Seq<u8>,
) -> bool {
    &&& entry_file(name)
    &&& text_at(files, join_path(dir, name)) matches Some(text) && runs_command(
        head_of(text),
        command,
    )
}

/// Whether every path found is of a candidate.
spec fn all_candidates(
    found: Seq<Seq<u8>>,
    dirs: Seq<Seq<u8>>,
    command: Seq<u8>,
    files: FilesView,
) -> bool {
    forall|k: int|
        0 <= k < found.len() ==> exists|i: int, name: Seq<u8>|
            0 <= i < dirs.len() && #[trigger] found[k] == #[trigger] join_path(dirs[i], name)
                && candidate(files, dirs[i], name, command)
}

proof fn lemma_scan_grows(
    found: Seq<Seq<u8>>,
    dir: Seq<u8>,
    names: Seq<Seq<u8>>,
    n: int,
    command: Seq<u8>,
    files: FilesView,
    name: Seq<u8>,
)
    requires
        has_name(found, name),
    ensures
        has_name(scan_names(found, dir, names, n, command, files), name),
    decreases n,
{
    if n > 0 {
        lemma_scan_grows(found, dir, names, n - 1, command, files, name);
        let before = scan_names(found, dir, names, n - 1, command, files);
        let after = scan_names(found, dir, names, n, command, files);
        let i = choose|i: int|
            0 <= i < before.len() && file_name_of(#[trigger] before[i]) == Some(name);
        assert(after[i] == before[i]);
    }
}

proof fn lemma_scan_sound(
    found: Seq<Seq<u8>>,
    dirs: Seq<Seq<u8>>,
    at: int,
    names: Seq<Seq<u8>>,
    n: int,
    command: Seq<u8>,
    files: FilesView,
)
    requires
        0 <= at < dirs.len(),
        0 <= n <= names.len(),
        all_candidates(found, dirs, command, files),
    ensures
        all_candidates(scan_names(found, dirs[at], names, n, command, files), dirs, command, files),
    decreases n,
{
    if n > 0 {
        lemma_scan_sound(found, dirs, at, names, n - 1, command, files);
        let before = scan_names(found, dirs[at], names, n - 1, command, files);
        let after = scan_names(found, dirs[at], names, n, command, files);
        assert forall|k: int| 0 <= k < after.len() implies exists|i: int, name: Seq<u8>|
            0 <= i < dirs.len() && #[trigger] after[k] == #[trigger] join_path(dirs[i], name)
                && candidate(files, dirs[i], name, command) by {
            if k < before.len() {
                assert(after[k] == before[k]);
            } else {
                assert(after[k] == join_path(dirs[at], names[n - 1]));
                assert(candidate(files, dirs[at], names[n - 1], command));
            }
        }
    }
}

proof fn lemma_scan_complete(
    found: Seq<Seq<u8>>,
    dir: Seq<u8>,
    names: Seq<Seq<u8>>,
    n: int,
    command: Seq<u8>,
    files: FilesView,
    k: int,
)
    requires
        0 <= k < n <= names.len(),
        candidate(files, dir, names[k], command),
        file_name_of(join_path(dir, names[k])) == Some(names[k]),
    ensures
        has_name(scan_names(found, dir, names, n, command, files), names[k]),
    decreases n,
{
    let after = scan_names(found, dir, names, n, command, files);
    let before = scan_names(found, dir, names, n - 1, command, files);
    if k == n - 1 {
        if !has_name(before, names[k]) {
            assert(after.last() == join_path(dir, names[k]));
            assert(file_name_of(after[after.len() - 1]) == Some(names[k]));
        }
    } else {
        lemma_scan_complete(found, dir, names, n - 1, command, files, k);
        let i = choose|i: int|
            0 <= i < before.len() && file_name_of(#[trigger] before[i]) == Some(names[k]);
        assert(after[i] == before[i]);
    }
}

proof fn lemma_dirs_sound(dirs: Seq<Seq<u8>>, n: int, command: Seq<u8>, files: FilesView)
    requires
        0 <= n <= dirs.len(),
    ensures
        all_candidates(scan_dirs(dirs, n, command, files), dirs, command, files),
    decreases n,
{
    if n > 0 {
        lemma_dirs_sound(dirs, n - 1, command, files);
        let names = in_sequence(names_in(files, dirs[n - 1]));
        lemma_scan_sound(
            scan_dirs(dirs, n - 1, command, files),
            dirs,
            n - 1,
            names,
            names.len() as int,
            command,
            files,
        );
    }
}

pub proof fn lemma_sequence_holds(names: Seq<Seq<u8>>, name: Seq<u8>)
    ensures
        in_sequence(names).contains(name) <==> names.contains(name),
{
    names_in_order_are_the_same_names(names);
    broadcast use vstd::seq_lib::group_to_multiset_ensures;

    assert(in_sequence(names).contains(name) <==> in_sequence(names).to_multiset().count(name) > 0);
    assert(names.contains(name) <==> names.to_multiset().count(name) > 0);
}

proof fn lemma_dirs_complete(
    dirs: Seq<Seq<u8>>,
    n: int,
    command: Seq<u8>,
    files: FilesView,
    at: int,
    name: Seq<u8>,
)
    requires
        0 <= at < n <= dirs.len(),
        names_in(files, dirs[at]).contains(name),
        candidate(files, dirs[at], name, command),
        file_name_of(join_path(dirs[at], name)) == Some(name),
    ensures
        has_name(scan_dirs(dirs, n, command, files), name),
    decreases n,
{
    let names = in_sequence(names_in(files, dirs[n - 1]));
    let before = scan_dirs(dirs, n - 1, command, files);
    if at == n - 1 {
        lemma_sequence_holds(names_in(files, dirs[at]), name);
        let k = names.index_of(name);
        lemma_scan_complete(before, dirs[at], names, names.len() as int, command, files, k);
    } else {
        lemma_dirs_complete(dirs, n - 1, command, files, at, name);
        lemma_scan_grows(
            before,
            dirs[n - 1],
            names,
            names.len() as int,
            command,
            files,
            name,
        );
    }
}

/// A scan finds every entry that runs the command, wherever it is listed, and
/// nothing else: each path found is of one, and the name of each one that is
/// listed is among the names found.
pub proof fn a_scan_finds_every_entry_of_the_command(
    dirs: Seq<Seq<u8>>,
    command: Seq<u8>,
    files: FilesView,
    at: int,
    name: Seq<u8>,
)
    ensures
        ({
            let found = scan_dirs(dirs, dirs.len() as int, command, files);
            &&& forall|k: int|
                0 <= k < found.len() ==> exists|i: int, name: Seq<u8>|
                    0 <= i < dirs.len() && #[trigger] found[k] == #[trigger] join_path(
                        dirs[i],
                        name,
                    ) && candidate(files, dirs[i], name, command)
            &&& 0 <= at < dirs.len() && names_in(files, dirs[at]).contains(name) && candidate(
                files,
                dirs[at],
                name,
                command,
            ) && file_name_of(join_path(dirs[at], name)) == Some(name) ==> has_name(found, name)
        }),
{
    lemma_dirs_sound(dirs, dirs.len() as int, command, files);
    if 0 <= at < dirs.len() && names_in(files, dirs[at]).contains(name) && candidate(
        files,
        dirs[at],
        name,
        command,
    ) && file_name_of(join_path(dirs[at], name)) == Some(name) {
        lemma_dirs_complete(dirs, dirs.len() as int, command, files, at, name);
    }
}

/// An entry runs a command where its line's program has that file name, and
/// only where bubbler did not generate it and it is shown.
pub proof fn an_entry_runs_the_program_of_its_line(head: HeadView, command: Seq<u8>)
    ensures
        runs_command(head, command) <==> {
            &&& head.marker is None
            &&& !head.no_display
            &&& !head.hidden
            &&& exists|line: Seq<char>, program: Seq<char>|
                head.command == Some(line) && #[trigger] program_of(line) == Some(program)
                    && #[trigger] file_name_of(utf8(program)) == Some(command)
        },
{
    if runs_command(head, command) {
        let line = head.command->Some_0;
        let program = program_of(line)->Some_0;
        assert(program_of(line) == Some(program));
        assert(file_name_of(utf8(program)) == Some(command));
    }
}

/// Where an entry comes from: the file a hint names, and an error where there
/// is none, whatever the command; without one, the entry named after the
/// command, or else the only one that runs it; and an error where there is no
/// command, no entry, or more than one.
pub proof fn a_source_is_what_was_asked_for(
    dirs: DirsView,
    name: Seq<char>,
    hint: Seq<char>,
    command: Seq<u8>,
    other: Option<Seq<u8>>,
    files: FilesView,
)
    ensures
        ({
            let order = lookup_order(dirs);
            let exact = found_from(order, 0, command + utf8(".desktop"@), files);
            let found = scan_dirs(order, order.len() as int, command, files);
            &&& source_of(dirs, name, Some(hint), other, files) == match found_from(
                order,
                0,
                utf8(hint),
                files,
            ) {
                Some(path) => Ok::<Seq<u8>, DesktopErrorView>(path),
                None => Err(DesktopErrorView::HintNotFound { name: hint, dirs: order }),
            }
            &&& source_of(dirs, name, None, None, files) == Err::<Seq<u8>, DesktopErrorView>(
                DesktopErrorView::NoCommand(name),
            )
            &&& exact matches Some(path) ==> source_of(dirs, name, None, Some(command), files)
                == Ok::<Seq<u8>, DesktopErrorView>(path)
            &&& exact is None && found.len() == 0 ==> source_of(
                dirs,
                name,
                None,
                Some(command),
                files,
            ) == Err::<Seq<u8>, DesktopErrorView>(
                DesktopErrorView::NotFound { command: lossy(command) },
            )
            &&& exact is None && found.len() == 1 ==> source_of(
                dirs,
                name,
                None,
                Some(command),
                files,
            ) == Ok::<Seq<u8>, DesktopErrorView>(found[0])
            &&& exact is None && found.len() > 1 ==> source_of(
                dirs,
                name,
                None,
                Some(command),
                files,
            ) == Err::<Seq<u8>, DesktopErrorView>(
                DesktopErrorView::Ambiguous {
                    command: lossy(command),
                    candidates: shown_names(found),
                },
            )
        }),
{
}

/// An entry is an application's own where it can be read and bubbler did not
/// generate it, whatever else it says.
pub proof fn an_entry_is_the_applications_own(files: FilesView, path: Seq<u8>)
    ensures
        vendor_entry(files, path) <==> exists|text: Seq<char>|
            text_at(files, path) == Some(text) && (#[trigger] head_of(text)).marker is None,
{
    if vendor_entry(files, path) {
        let text = text_at(files, path)->Some_0;
        assert(head_of(text).marker is None);
    }
}

/// A name is told where a path has one, and else the path.
pub proof fn candidates_are_told_by_their_names(paths: Seq<Seq<u8>>, i: int)
    requires
        0 <= i < paths.len(),
    ensures
        shown_names(paths).len() == paths.len(),
        file_name_of(paths[i]) matches Some(name) ==> shown_names(paths)[i] == lossy(name),
        file_name_of(paths[i]) is None ==> shown_names(paths)[i] == lossy(paths[i]),
{
}

} // verus!
