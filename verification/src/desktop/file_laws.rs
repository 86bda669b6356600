//! What is read of an entry, and what is done with the ones generated.

use vstd::prelude::*;
use vstd::utf8::{decode_utf8, valid_utf8};

use crate::desktop::entry::head_of;
use crate::desktop::files::{
    all_generated, error_lines, first_executable, generated_among, holds, paths_of, program_for,
    refused, removals, rendered, target_of, FileRead, Held,
};
use crate::desktop::lookup::{names_in, text_at, FilesView};
use crate::desktop::names::{entry_file, file_name_of, in_sequence};
use crate::desktop::patch::patch_of;
use crate::error::DesktopErrorView;
use crate::host::real_path;
use crate::paths::join_path;
use crate::text::utf8;

verus! {

proof fn lemma_error_lines(lines: Seq<Seq<char>>, n: int)
    requires
        0 <= n <= lines.len(),
    ensures
        forall|line: Seq<char>| #[trigger]
            error_lines(lines, n).contains(line) <==> holds(line, "error:"@) && exists|i: int|
                0 <= i < n && #[trigger] lines[i] == line,
    decreases n,
{
    if n > 0 {
        lemma_error_lines(lines, n - 1);
        let before = error_lines(lines, n - 1);
        let all = error_lines(lines, n);
        assert forall|line: Seq<char>| #[trigger] all.contains(line) <==> holds(line, "error:"@)
            && exists|i: int| 0 <= i < n && #[trigger] lines[i] == line by {
            if before.contains(line) {
                assert(all[before.index_of(line)] == line);
            }
            if lines[n - 1] == line && holds(line, "error:"@) {
                assert(all.last() == line);
            }
            if all.contains(line) && !before.contains(line) {
                let k = all.index_of(line);
                if k < before.len() {
                    assert(before[k] == line);
                }
                assert(lines[n - 1] == line);
            }
        }
    }
}

/// Of what a validator says, the lines that tell an error are kept, every one
/// of them and no other.
pub proof fn every_line_that_tells_an_error_is_kept(lines: Seq<Seq<char>>)
    ensures
        forall|line: Seq<char>| #[trigger]
            error_lines(lines, lines.len() as int).contains(line) <==> holds(line, "error:"@)
                && lines.contains(line),
{
    lemma_error_lines(lines, lines.len() as int);
    let all = error_lines(lines, lines.len() as int);
    assert forall|line: Seq<char>| #[trigger] all.contains(line) <==> holds(line, "error:"@)
        && lines.contains(line) by {}
}

/// An entry may be written where nothing is, and over one that was generated
/// for the same instance; never over another's, which is named, nor over
/// anything bubbler did not write.
pub proof fn only_the_instances_own_entry_is_overwritten(
    path: Seq<u8>,
    held: Held,
    instance: Seq<char>,
)
    ensures
        refused(path, held, instance) is None <==> {
            ||| held is Nothing
            ||| held matches Held::File(bytes) && valid_utf8(bytes@) && head_of(
                decode_utf8(bytes@),
            ).marker == Some(instance)
        },
        held is Link ==> refused(path, held, instance) == Some(DesktopErrorView::Foreign(path)),
        held matches Held::Failed(why) ==> refused(path, held, instance) == Some(
            DesktopErrorView::Io(path, why@),
        ),
        held matches Held::File(bytes) ==> {
            &&& !valid_utf8(bytes@) || head_of(decode_utf8(bytes@)).marker is None ==> refused(
                path,
                held,
                instance,
            ) == Some(DesktopErrorView::Foreign(path))
            &&& valid_utf8(bytes@) ==> (head_of(decode_utf8(bytes@)).marker matches Some(owner)
                ==> owner != instance ==> refused(path, held, instance) == Some(
                DesktopErrorView::OtherInstance { path, instance: owner },
            ))
        },
{
}

/// A generated entry is `bubbler-<instance>.desktop` in the user's directory,
/// and where it is to replace its source it has the source's name there.
pub proof fn an_entry_is_written_under_its_name(
    user: Seq<u8>,
    instance: Seq<char>,
    source: Seq<u8>,
)
    ensures
        target_of(user, instance, source, false) == join_path(
            user,
            utf8("bubbler-"@ + instance + ".desktop"@),
        ),
        file_name_of(source) matches Some(name) ==> target_of(user, instance, source, true)
            == join_path(user, name),
{
}

/// What is made of a source: an error that names it where it could not be read
/// or is no text, and else its patched text.
pub proof fn what_is_made_of_a_source(
    source: Seq<u8>,
    read: FileRead,
    instance: Seq<char>,
    program: Seq<u8>,
)
    ensures
        read matches FileRead::Failed(why) ==> rendered(source, read, instance, program) == Err::<
            Seq<char>,
            DesktopErrorView,
        >(DesktopErrorView::Io(source, why@)),
        read matches FileRead::Bytes(bytes) ==> if valid_utf8(bytes@) {
            rendered(source, read, instance, program) == patch_of(
                decode_utf8(bytes@),
                instance,
                program,
            )
        } else {
            rendered(source, read, instance, program) == Err::<Seq<char>, DesktopErrorView>(
                DesktopErrorView::NotUtf8(source),
            )
        },
{
}

proof fn lemma_generated_all(
    dir: Seq<u8>,
    names: Seq<Seq<u8>>,
    n: int,
    files: FilesView,
)
    requires
        0 <= n <= names.len(),
    ensures
        forall|path: Seq<u8>, owner: Seq<char>| #[trigger]
            generated_among(dir, names, n, files).contains((path, owner)) <==> exists|i: int|
                {
                    &&& 0 <= i < n
                    &&& entry_file(#[trigger] names[i])
                    &&& path == join_path(dir, names[i])
                    &&& text_at(files, path) matches Some(text) && head_of(text).marker == Some(
                        owner,
                    )
                },
    decreases n,
{
    if n > 0 {
        lemma_generated_all(dir, names, n - 1, files);
        let before = generated_among(dir, names, n - 1, files);
        let all = generated_among(dir, names, n, files);
        assert forall|path: Seq<u8>, owner: Seq<char>| #[trigger]
            all.contains((path, owner)) <==> exists|i: int|
            {
                &&& 0 <= i < n
                &&& entry_file(#[trigger] names[i])
                &&& path == join_path(dir, names[i])
                &&& text_at(files, path) matches Some(text) && head_of(text).marker == Some(owner)
            } by {
            let item = (path, owner);
            if before.contains(item) {
                assert(all[before.index_of(item)] == item);
            }
            if path == join_path(dir, names[n - 1]) && entry_file(names[n - 1]) && text_at(
                files,
                path,
            ) is Some && head_of(text_at(files, path)->Some_0).marker == Some(owner) {
                assert(all.last() == item);
                assert(all.contains(item));
            }
            if all.contains(item) && !before.contains(item) {
                let k = all.index_of(item);
                if k < before.len() {
                    assert(before[k] == item);
                }
                assert(entry_file(names[n - 1]));
            }
        }
    }
}

proof fn lemma_paths_all(list: Seq<(Seq<u8>, Seq<char>)>, n: int, instance: Seq<char>)
    requires
        0 <= n <= list.len(),
    ensures
        forall|path: Seq<u8>| #[trigger]
            paths_of(list, n, instance).contains(path) <==> list.take(n).contains(
                (path, instance),
            ),
    decreases n,
{
    if n > 0 {
        lemma_paths_all(list, n - 1, instance);
        let before = paths_of(list, n - 1, instance);
        let all = paths_of(list, n, instance);
        let (short, long) = (list.take(n - 1), list.take(n));
        assert forall|path: Seq<u8>| #[trigger] all.contains(path) <==> long.contains(
            (path, instance),
        ) by {
            if before.contains(path) {
                assert(all[before.index_of(path)] == path);
            }
            if short.contains((path, instance)) {
                let k = short.index_of((path, instance));
                assert(long[k] == (path, instance));
            }
            if list[n - 1] == (path, instance) {
                assert(all.last() == path);
                assert(long[n - 1] == (path, instance));
            }
            if all.contains(path) && !before.contains(path) {
                let k = all.index_of(path);
                if k < before.len() {
                    assert(before[k] == path);
                }
                assert(long[n - 1] == (path, instance));
            }
            if long.contains((path, instance)) && !short.contains((path, instance)) {
                let k = long.index_of((path, instance));
                if k < n - 1 {
                    assert(short[k] == (path, instance));
                }
            }
        }
    }
}

/// A removal is of every entry in the user's directory that was generated for
/// the instance, and of no other; and an instance that has none is told so.
pub proof fn a_removal_is_of_all_the_instances_entries(
    user: Seq<u8>,
    files: FilesView,
    instance: Seq<char>,
    name: Seq<u8>,
)
    ensures
        ({
            let mine = exists|name: Seq<u8>|
                names_in(files, user).contains(name) && #[trigger] generated_for(
                    user,
                    files,
                    name,
                    instance,
                );
            &&& removals(user, files, instance) is Ok <==> mine
            &&& !mine ==> removals(user, files, instance) == Err::<Seq<Seq<u8>>, DesktopErrorView>(
                DesktopErrorView::NotGenerated { instance, dir: user },
            )
            &&& names_in(files, user).contains(name) && generated_for(user, files, name, instance)
                ==> (removals(user, files, instance) matches Ok(paths) && paths.contains(
                join_path(user, name),
            ))
        }),
{
    let list = all_generated(user, files);
    let names = in_sequence(names_in(files, user));
    lemma_generated_all(user, names, names.len() as int, files);
    lemma_paths_all(list, list.len() as int, instance);
    assert(list.take(list.len() as int) =~= list);
    let paths = paths_of(list, list.len() as int, instance);
    assert forall|name: Seq<u8>|
        names_in(files, user).contains(name) && #[trigger] generated_for(
            user,
            files,
            name,
            instance,
        ) implies paths.contains(join_path(user, name)) by {
        crate::desktop::lookup_laws::lemma_sequence_holds(names_in(files, user), name);
        let i = names.index_of(name);
        assert(entry_file(names[i]));
        assert(list.contains((join_path(user, name), instance)));
    }
    if paths.len() > 0 {
        let path = paths[0];
        assert(paths.contains(path));
        assert(list.contains((path, instance)));
        let i = choose|i: int|
            {
                &&& 0 <= i < names.len()
                &&& entry_file(#[trigger] names[i])
                &&& path == join_path(user, names[i])
                &&& text_at(files, path) matches Some(text) && head_of(text).marker == Some(
                    instance,
                )
            };
        assert(names.contains(names[i]));
        crate::desktop::lookup_laws::lemma_sequence_holds(names_in(files, user), names[i]);
        assert(generated_for(user, files, names[i], instance));
    }
}

/// Whether a file of the user's directory is an entry that was generated for an
/// instance.
pub open spec fn generated_for(
    user: Seq<u8>,
    files: FilesView,
    name: Seq<u8>,
    instance: Seq<char>,
) -> bool {
    entry_file(name) && (text_at(files, join_path(user, name)) matches Some(text) && head_of(
        text,
    ).marker == Some(instance))
}

proof fn lemma_first_executable(search: Seq<Seq<u8>>, i: int, executables: Seq<Seq<u8>>)
    requires
        0 <= i <= search.len(),
    ensures
        match first_executable(search, i, executables) {
            None => forall|k: int|
                i <= k < search.len() ==> !executables.contains(
                    join_path(#[trigger] search[k], utf8("bubbler"@)),
                ),
            Some(path) => exists|k: int|
                {
                    &&& i <= k < search.len()
                    &&& path == join_path(#[trigger] search[k], utf8("bubbler"@))
                    &&& executables.contains(path)
                    &&& forall|j: int|
                        i <= j < k ==> !executables.contains(
                            join_path(#[trigger] search[j], utf8("bubbler"@)),
                        )
                },
        },
    decreases search.len() - i,
{
    if i < search.len() {
        if executables.contains(join_path(search[i], utf8("bubbler"@))) {
            assert(join_path(search[i], utf8("bubbler"@)) == join_path(
                search[i],
                utf8("bubbler"@),
            ));
        } else {
            lemma_first_executable(search, i + 1, executables);
        }
    }
}

/// An entry starts bubbler by its bare name exactly where the first of that
/// name on the search path is this very program, and else by the program's own
/// path, resolved where it can be.
pub proof fn the_bare_name_is_used_where_it_is_this_program(
    exe: Seq<u8>,
    search: Seq<Seq<u8>>,
    executables: Seq<Seq<u8>>,
    host: Seq<(Seq<u8>, Seq<u8>)>,
)
    ensures
        ({
            let own = match real_path(host, exe) {
                Some(path) => path,
                None => exe,
            };
            let first = exists|k: int|
                {
                    &&& 0 <= k < search.len()
                    &&& executables.contains(join_path(#[trigger] search[k], utf8("bubbler"@)))
                    &&& real_path(host, join_path(search[k], utf8("bubbler"@))) == Some(own)
                    &&& forall|j: int|
                        0 <= j < k ==> !executables.contains(
                            join_path(#[trigger] search[j], utf8("bubbler"@)),
                        )
                };
            program_for(exe, search, executables, host) == if first {
                utf8("bubbler"@)
            } else {
                own
            }
        }),
{
    lemma_first_executable(search, 0, executables);
}

/// The lines that tell an error stand in the order they were said: those of
/// one part and then those of the next, and of one line itself or nothing.
pub proof fn errors_stand_in_the_order_they_were_told(
    lines: Seq<Seq<char>>,
    more: Seq<Seq<char>>,
    n: int,
)
    requires
        0 <= n <= more.len(),
    ensures
        error_lines(lines + more, lines.len() + n) == error_lines(lines, lines.len() as int)
            + error_lines(more, n),
        lines.len() == 1 ==> error_lines(lines, 1) == if holds(lines[0], "error:"@) {
            lines
        } else {
            Seq::empty()
        },
    decreases n,
{
    let all = lines + more;
    if n > 0 {
        errors_stand_in_the_order_they_were_told(lines, more, n - 1);
        assert(all[lines.len() + n - 1] == more[n - 1]);
        assert(error_lines(all, lines.len() + n) =~= error_lines(lines, lines.len() as int)
            + error_lines(more, n));
    } else {
        lemma_error_prefix(lines, more, lines.len() as int);
        assert(error_lines(all, lines.len() + n) =~= error_lines(lines, lines.len() as int)
            + error_lines(more, n));
    }
    if lines.len() == 1 {
        reveal_with_fuel(error_lines, 2);
        assert(holds(lines[0], "error:"@) ==> error_lines(lines, 1) =~= lines);
    }
}

proof fn lemma_error_prefix(lines: Seq<Seq<char>>, more: Seq<Seq<char>>, n: int)
    requires
        0 <= n <= lines.len(),
    ensures
        error_lines(lines + more, n) == error_lines(lines, n),
    decreases n,
{
    if n > 0 {
        lemma_error_prefix(lines, more, n - 1);
        assert((lines + more)[n - 1] == lines[n - 1]);
    }
}

/// The entries of an instance stand in the order they were listed.
pub proof fn entries_stand_in_the_order_they_are_listed(
    list: Seq<(Seq<u8>, Seq<char>)>,
    path: Seq<u8>,
    owner: Seq<char>,
    instance: Seq<char>,
    dir: Seq<u8>,
    names: Seq<Seq<u8>>,
    name: Seq<u8>,
    files: FilesView,
)
    ensures
        paths_of(list.push((path, owner)), list.len() as int + 1, instance) == if owner == instance {
            paths_of(list, list.len() as int, instance).push(path)
        } else {
            paths_of(list, list.len() as int, instance)
        },
        ({
            let before = generated_among(dir, names, names.len() as int, files);
            let after = generated_among(dir, names.push(name), names.len() as int + 1, files);
            &&& generated_for(dir, files, name, instance) ==> after == before.push(
                (join_path(dir, name), instance),
            )
            &&& after.len() == before.len() ==> after == before
            &&& after.take(before.len() as int) == before
        }),
{
    lemma_paths_prefix(list, (path, owner), list.len() as int, instance);
    lemma_generated_prefix(dir, names, name, names.len() as int, files);
    let before = generated_among(dir, names, names.len() as int, files);
    let after = generated_among(dir, names.push(name), names.len() as int + 1, files);
    assert(names.push(name)[names.len() as int] == name);
    assert(after.take(before.len() as int) =~= before);
}

proof fn lemma_paths_prefix(
    list: Seq<(Seq<u8>, Seq<char>)>,
    one: (Seq<u8>, Seq<char>),
    n: int,
    instance: Seq<char>,
)
    requires
        0 <= n <= list.len(),
    ensures
        paths_of(list.push(one), n, instance) == paths_of(list, n, instance),
    decreases n,
{
    if n > 0 {
        lemma_paths_prefix(list, one, n - 1, instance);
    }
}

proof fn lemma_generated_prefix(
    dir: Seq<u8>,
    names: Seq<Seq<u8>>,
    name: Seq<u8>,
    n: int,
    files: FilesView,
)
    requires
        0 <= n <= names.len(),
    ensures
        generated_among(dir, names.push(name), n, files) == generated_among(dir, names, n, files),
    decreases n,
{
    if n > 0 {
        lemma_generated_prefix(dir, names, name, n - 1, files);
    }
}

} // verus!
