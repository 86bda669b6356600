//! The generated entry as a file: what it is made of, where it goes, and
//! which files may be overwritten or removed.

use vstd::prelude::*;
use vstd::utf8::{decode_utf8, encode_utf8_decode_utf8, valid_utf8};

use crate::desktop::entry::{head_of, lines, lines_of, owner};
use crate::desktop::file_laws::every_line_that_tells_an_error_is_kept;
use crate::desktop::lookup::{
    found_from, lookup_order, names_in, scan_dirs, scan_names, source_of, text_at, vendor_entry,
    Dirs, DirsView, EntryFiles, FilesView, BINARY,
};
use crate::desktop::names::{entry_file, file_name, file_name_of, in_sequence, is_entry_name};
use crate::desktop::patch::{patch, patch_of};
use crate::error::{DesktopError, DesktopErrorView};
use crate::host::{real_path, Canonical};
use crate::paths::{join, join_path};
use crate::text::{
    byte_views, bytes_of, chars_of, copy_bytes, joined, lossy, lossy_text, outcome, same_bytes,
    same_chars, same_text, text_of_bytes, text_views, utf8,
};

verus! {

/// What reading a file gave: its bytes, or what the system said.
#[derive(Debug)]
pub enum FileRead {
    Bytes(Vec<u8>),
    Failed(String),
}

/// The generated entry for an instance, from what reading the vendor file
/// gave, or why there is none.
pub open spec fn rendered(
    source: Seq<u8>,
    read: FileRead,
    instance: Seq<char>,
    program: Seq<u8>,
) -> Result<Seq<char>, DesktopErrorView> {
    match read {
        FileRead::Failed(why) => Err(DesktopErrorView::Io(source, why@)),
        FileRead::Bytes(bytes) => if valid_utf8(bytes@) {
            patch_of(decode_utf8(bytes@), instance, program)
        } else {
            Err(DesktopErrorView::NotUtf8(source))
        },
    }
}

/// The generated entry for `instance`, from the vendor file at `source`.
pub fn render(source: &[u8], read: &FileRead, instance: &str, program: &[u8]) -> (r: Result<
    String,
    DesktopError,
>)
    ensures
        outcome(r) == rendered(source@, *read, instance@, program@),
{
    match read {
        FileRead::Failed(why) => Err(
            DesktopError::Io(copy_bytes(source), why.as_str().to_owned()),
        ),
        FileRead::Bytes(bytes) => match text_of_bytes(bytes) {
            Some(text) => {
                proof {
                    encode_utf8_decode_utf8(text@);
                }
                patch(&text, instance, program)
            },
            None => Err(DesktopError::NotUtf8(copy_bytes(source))),
        },
    }
}

/// The file name of an instance's own entry.
pub open spec fn own_file(instance: Seq<char>) -> Seq<u8> {
    utf8("bubbler-"@ + instance + ".desktop"@)
}

/// Where an instance's entry is written.
pub open spec fn target_of(
    user: Seq<u8>,
    instance: Seq<char>,
    source: Seq<u8>,
    replace: bool,
) -> Seq<u8> {
    join_path(
        user,
        if replace {
            match file_name_of(source) {
                Some(name) => name,
                None => utf8("bubbler.desktop"@),
            }
        } else {
            own_file(instance)
        },
    )
}

/// Where an instance's entry is written: its own file name, or the vendor's
/// where it replaces it, which shadows the application's entry because a user
/// entry of the same file name wins over a system one.
pub fn target(dirs: &Dirs, instance: &str, source: &[u8], replace: bool) -> (r: Vec<u8>)
    ensures
        r@ == target_of(dirs@.user, instance@, source@, replace),
{
    let name = if replace {
        match file_name(source) {
            Some(name) => name,
            None => bytes_of("bubbler.desktop"),
        }
    } else {
        bytes_of(&joined(&joined("bubbler-", instance), ".desktop"))
    };
    join(&dirs.user, &name)
}

/// What stands where an entry is to be written.
#[derive(Debug)]
pub enum Held {
    /// Nothing.
    Nothing,
    /// A symbolic link, whatever it points at.
    Link,
    /// A file, with what it holds.
    File(Vec<u8>),
    /// Something that could not be looked at, and what the system said.
    Failed(String),
}

/// Why an entry of an instance may not be written over what is held, if it
/// may not.
pub open spec fn refused(path: Seq<u8>, held: Held, instance: Seq<char>) -> Option<
    DesktopErrorView,
> {
    match held {
        Held::Nothing => None,
        Held::Link => Some(DesktopErrorView::Foreign(path)),
        Held::Failed(why) => Some(DesktopErrorView::Io(path, why@)),
        Held::File(bytes) => if !valid_utf8(bytes@) {
            Some(DesktopErrorView::Foreign(path))
        } else {
            match head_of(decode_utf8(bytes@)).marker {
                Some(owner) => if owner == instance {
                    None
                } else {
                    Some(DesktopErrorView::OtherInstance { path, instance: owner })
                },
                None => Some(DesktopErrorView::Foreign(path)),
            }
        },
    }
}

/// Refuse every file that is not this instance's own entry: bubbler never
/// overwrites a file it did not write, and does not guess who wrote one it
/// cannot recognise. A file that is not even UTF-8 is no entry of bubbler's.
pub fn may_write(path: &[u8], held: &Held, instance: &str) -> (r: Result<(), DesktopError>)
    ensures
        match r {
            Ok(()) => refused(path@, *held, instance@) is None,
            Err(e) => refused(path@, *held, instance@) == Some(e@),
        },
{
    match held {
        Held::Nothing => Ok(()),
        Held::Link => Err(DesktopError::Foreign(copy_bytes(path))),
        Held::Failed(why) => Err(DesktopError::Io(copy_bytes(path), why.as_str().to_owned())),
        Held::File(bytes) => match text_of_bytes(bytes) {
            None => Err(DesktopError::Foreign(copy_bytes(path))),
            Some(text) => {
                proof {
                    encode_utf8_decode_utf8(text@);
                }
                match owner(&text) {
                    Some(o) => {
                        if same_text(&o, instance) {
                            Ok(())
                        } else {
                            Err(DesktopError::OtherInstance { path: copy_bytes(path), instance: o })
                        }
                    },
                    None => Err(DesktopError::Foreign(copy_bytes(path))),
                }
            },
        },
    }
}

/// The models of a list of generated entries.
pub open spec fn owned_views(list: Seq<(Vec<u8>, String)>) -> Seq<(Seq<u8>, Seq<char>)> {
    Seq::new(list.len(), |i: int| (list[i].0@, list[i].1@))
}

/// The entries bubbler generated among the first `n` names of a directory.
pub open spec fn generated_among(
    dir: Seq<u8>,
    names: Seq<Seq<u8>>,
    n: int,
    files: FilesView,
) -> Seq<(Seq<u8>, Seq<char>)>
    decreases n,
{
    if n <= 0 {
        Seq::empty()
    } else {
        let before = generated_among(dir, names, n - 1, files);
        let path = join_path(dir, names[n - 1]);
        if !entry_file(names[n - 1]) {
            before
        } else {
            match text_at(files, path) {
                Some(text) => match head_of(text).marker {
                    Some(owner) => before.push((path, owner)),
                    None => before,
                },
                None => before,
            }
        }
    }
}

/// Every entry bubbler generated, with the instance it is for.
pub open spec fn all_generated(user: Seq<u8>, files: FilesView) -> Seq<(Seq<u8>, Seq<char>)> {
    let names = in_sequence(names_in(files, user));
    generated_among(user, names, names.len() as int, files)
}

/// Every entry bubbler generated, as `(path, instance)`, sorted by file name.
/// Only the user's directory: it is the only one bubbler writes.
pub fn generated(dirs: &Dirs, files: &EntryFiles) -> (r: Vec<(Vec<u8>, String)>)
    ensures
        owned_views(r@) == all_generated(dirs@.user, files@),
{
    let names = files.names(&dirs.user);
    let ghost model = byte_views(names@);
    let mut out: Vec<(Vec<u8>, String)> = Vec::new();
    let mut i: usize = 0;
    assert(owned_views(out@) =~= Seq::empty());
    while i < names.len()
        invariant
            model == byte_views(names@),
            i <= names@.len(),
            owned_views(out@) == generated_among(dirs.user@, model, i as int, files@),
        decreases names@.len() - i,
    {
        let name = names[i].as_slice();
        assert(model[i as int] == name@);
        let ghost before = owned_views(out@);
        if is_entry_name(name) {
            let path = join(&dirs.user, name);
            match files.text(&path) {
                Some(text) => match owner(text) {
                    Some(o) => {
                        let ghost pair = (path@, o@);
                        out.push((path, o));
                        assert(owned_views(out@) =~= before.push(pair));
                    },
                    None => {},
                },
                None => {},
            }
        }
        i = i + 1;
    }
    out
}

/// The paths of an instance's entries among the first `n`.
pub open spec fn paths_of(
    list: Seq<(Seq<u8>, Seq<char>)>,
    n: int,
    instance: Seq<char>,
) -> Seq<Seq<u8>>
    decreases n,
{
    if n <= 0 {
        Seq::empty()
    } else if list[n - 1].1 == instance {
        paths_of(list, n - 1, instance).push(list[n - 1].0)
    } else {
        paths_of(list, n - 1, instance)
    }
}

/// The files of an instance's that a removal deletes, or that there is none.
pub open spec fn removals(user: Seq<u8>, files: FilesView, instance: Seq<char>) -> Result<
    Seq<Seq<u8>>,
    DesktopErrorView,
> {
    let list = all_generated(user, files);
    let mine = paths_of(list, list.len() as int, instance);
    if mine.len() == 0 {
        Err(DesktopErrorView::NotGenerated { instance, dir: user })
    } else {
        Ok(mine)
    }
}

/// This instance's generated entries, and only those, which a removal
/// deletes: a file without bubbler's marker is left where it is.
pub fn remove(dirs: &Dirs, instance: &str, files: &EntryFiles) -> (r: Result<
    Vec<Vec<u8>>,
    DesktopError,
>)
    ensures
        match r {
            Ok(paths) => removals(dirs@.user, files@, instance@) == Ok::<
                Seq<Seq<u8>>,
                DesktopErrorView,
            >(byte_views(paths@)),
            Err(e) => removals(dirs@.user, files@, instance@) == Err::<
                Seq<Seq<u8>>,
                DesktopErrorView,
            >(e@),
        },
{
    let list = generated(dirs, files);
    let ghost model = owned_views(list@);
    let mut mine: Vec<Vec<u8>> = Vec::new();
    let mut i: usize = 0;
    assert(byte_views(mine@) =~= Seq::empty());
    while i < list.len()
        invariant
            model == owned_views(list@),
            i <= list@.len(),
            byte_views(mine@) == paths_of(model, i as int, instance@),
        decreases list@.len() - i,
    {
        assert(model[i as int] == (list@[i as int].0@, list@[i as int].1@));
        let ghost before = byte_views(mine@);
        if same_text(&list[i].1, instance) {
            mine.push(copy_bytes(&list[i].0));
            assert(byte_views(mine@) =~= before.push(model[i as int].0));
        }
        i = i + 1;
    }
    assert(byte_views(mine@).len() == mine@.len());
    if mine.len() == 0 {
        return Err(
            DesktopError::NotGenerated {
                instance: instance.to_owned(),
                dir: copy_bytes(&dirs.user),
            },
        );
    }
    Ok(mine)
}

/// The first file from `i` on that a `PATH` search would run.
pub open spec fn first_executable(
    search_path: Seq<Seq<u8>>,
    i: int,
    executables: Seq<Seq<u8>>,
) -> Option<Seq<u8>>
    decreases search_path.len() - i,
{
    if i < 0 || i >= search_path.len() {
        None
    } else if executables.contains(join_path(search_path[i], utf8(BINARY@))) {
        Some(join_path(search_path[i], utf8(BINARY@)))
    } else {
        first_executable(search_path, i + 1, executables)
    }
}

/// What a generated entry calls.
pub open spec fn program_for(
    exe: Seq<u8>,
    search_path: Seq<Seq<u8>>,
    executables: Seq<Seq<u8>>,
    host: Seq<(Seq<u8>, Seq<u8>)>,
) -> Seq<u8> {
    let own = match real_path(host, exe) {
        Some(path) => path,
        None => exe,
    };
    match first_executable(search_path, 0, executables) {
        Some(candidate) => if real_path(host, candidate) == Some(own) {
            utf8(BINARY@)
        } else {
            own
        },
        None => own,
    }
}

fn has_path(list: &[Vec<u8>], path: &[u8]) -> (r: bool)
    ensures
        r == byte_views(list@).contains(path@),
{
    let ghost model = byte_views(list@);
    let mut i: usize = 0;
    while i < list.len()
        invariant
            model == byte_views(list@),
            i <= list@.len(),
            forall|j: int| 0 <= j < i ==> model[j] != path@,
        decreases list@.len() - i,
    {
        assert(model[i as int] == list@[i as int]@);
        if same_bytes(&list[i], path) {
            assert(model[i as int] == path@);
            return true;
        }
        i = i + 1;
    }
    false
}

/// What a generated entry should call to reach this bubbler: the bare name
/// where `PATH` resolves it to this very binary, else the absolute path. A
/// launcher shows no entry at all when it cannot find the program, so a
/// development build must name itself where it actually is.
///
/// `executables` are the files of a `PATH` search that have an execute bit.
/// Only the first of them counts, because that is where the search stops:
/// another bubbler ahead of this one means the bare name would start that
/// binary instead, and one behind it is never reached at all.
pub fn program(
    exe: &[u8],
    search_path: &[Vec<u8>],
    executables: &[Vec<u8>],
    host: &Canonical,
) -> (r: Vec<u8>)
    ensures
        r@ == program_for(exe@, byte_views(search_path@), byte_views(executables@), host@),
{
    let own = match host.canonicalize(exe) {
        Some(path) => path,
        None => copy_bytes(exe),
    };
    let binary = bytes_of(BINARY);
    let ghost model = byte_views(search_path@);
    let ghost runnable = byte_views(executables@);
    let mut i: usize = 0;
    while i < search_path.len()
        invariant
            binary@ == utf8(BINARY@),
            model == byte_views(search_path@),
            runnable == byte_views(executables@),
            i <= search_path@.len(),
            own@ == (match real_path(host@, exe@) {
                Some(path) => path,
                None => exe@,
            }),
            first_executable(model, 0, runnable) == first_executable(model, i as int, runnable),
        decreases search_path@.len() - i,
    {
        assert(model[i as int] == search_path@[i as int]@);
        let candidate = join(&search_path[i], &binary);
        if has_path(executables, &candidate) {
            return match host.canonicalize(&candidate) {
                Some(found) => {
                    if same_bytes(&found, &own) {
                        binary
                    } else {
                        own
                    }
                },
                None => own,
            };
        }
        i = i + 1;
    }
    own
}

/// Whether a text holds another.
pub open spec fn holds(s: Seq<char>, part: Seq<char>) -> bool {
    exists|i: int|
        0 <= i <= s.len() - part.len() && #[trigger] s.subrange(i, i + part.len()) == part
}

fn contains_text(s: &str, part: &str) -> (r: bool)
    ensures
        r == holds(s@, part@),
{
    let all = chars_of(s);
    let wanted = chars_of(part);
    if wanted.len() > all.len() {
        return false;
    }
    let total: usize = all.len();
    let last: usize = total - wanted.len();
    let mut i: usize = 0;
    loop
        invariant
            all@ == s@,
            wanted@ == part@,
            total == all@.len(),
            total == last + wanted@.len(),
            i <= last,
            forall|j: int| 0 <= j < i ==> #[trigger] s@.subrange(j, j + part@.len()) != part@,
        decreases last - i,
    {
        let cut = vstd::slice::slice_subrange(all.as_slice(), i, i + wanted.len());
        if same_chars(cut, &wanted) {
            assert(s@.subrange(i as int, i + part@.len()) == part@);
            return true;
        }
        if i == last {
            return false;
        }
        i = i + 1;
    }
}

/// The lines among the first `n` that report an error.
pub open spec fn error_lines(lines: Seq<Seq<char>>, n: int) -> Seq<Seq<char>>
    decreases n,
{
    if n <= 0 {
        Seq::empty()
    } else if holds(lines[n - 1], "error:"@) {
        error_lines(lines, n - 1).push(lines[n - 1])
    } else {
        error_lines(lines, n - 1)
    }
}

/// What `desktop-file-validate` calls an error, out of what it printed. Its
/// hints and warnings are left out: they are about the application's own
/// file, which bubbler copied and is not in a position to fix.
pub fn validate(printed: &[u8]) -> (r: Vec<String>)
    ensures
        text_views(r@) == error_lines(
            lines_of(lossy(printed@)),
            lines_of(lossy(printed@)).len() as int,
        ),
        forall|line: Seq<char>| #[trigger]
            text_views(r@).contains(line) <==> holds(line, "error:"@) && lines_of(
                lossy(printed@),
            ).contains(line),
{
    let all = lines(&lossy_text(printed));
    let ghost model = text_views(all@);
    let mut out: Vec<String> = Vec::new();
    let mut i: usize = 0;
    assert(text_views(out@) =~= Seq::empty());
    while i < all.len()
        invariant
            model == text_views(all@),
            i <= all@.len(),
            text_views(out@) == error_lines(model, i as int),
        decreases all@.len() - i,
    {
        assert(model[i as int] == all@[i as int]@);
        let ghost before = text_views(out@);
        if contains_text(&all[i], "error:") {
            out.push(all[i].as_str().to_owned());
            assert(text_views(out@) =~= before.push(model[i as int]));
        }
        i = i + 1;
    }
    proof {
        every_line_that_tells_an_error_is_kept(model);
    }
    out
}

proof fn lemma_found(dirs: Seq<Seq<u8>>, i: int, file: Seq<u8>, files: FilesView)
    requires
        0 <= i <= dirs.len(),
        found_from(dirs, i, file, files) is Some,
    ensures
        vendor_entry(files, found_from(dirs, i, file, files)->Some_0),
    decreases dirs.len() - i,
{
    if i < dirs.len() && !vendor_entry(files, join_path(dirs[i], file)) {
        lemma_found(dirs, i + 1, file, files);
    }
}

/// Whether every path of a list is an entry somebody else wrote.
spec fn all_vendor(paths: Seq<Seq<u8>>, files: FilesView) -> bool {
    forall|i: int| 0 <= i < paths.len() ==> vendor_entry(files, #[trigger] paths[i])
}

proof fn lemma_scan_names(
    found: Seq<Seq<u8>>,
    dir: Seq<u8>,
    names: Seq<Seq<u8>>,
    n: int,
    command: Seq<u8>,
    files: FilesView,
)
    requires
        all_vendor(found, files),
    ensures
        all_vendor(scan_names(found, dir, names, n, command, files), files),
    decreases n,
{
    if n > 0 {
        lemma_scan_names(found, dir, names, n - 1, command, files);
    }
}

proof fn lemma_scan_dirs(dirs: Seq<Seq<u8>>, n: int, command: Seq<u8>, files: FilesView)
    ensures
        all_vendor(scan_dirs(dirs, n, command, files), files),
    decreases n,
{
    if n > 0 {
        lemma_scan_dirs(dirs, n - 1, command, files);
        let names = in_sequence(names_in(files, dirs[n - 1]));
        lemma_scan_names(
            scan_dirs(dirs, n - 1, command, files),
            dirs[n - 1],
            names,
            names.len() as int,
            command,
            files,
        );
    }
}

/// An entry bubbler generated is never the source of another.
pub proof fn a_generated_entry_is_no_source(
    dirs: DirsView,
    name: Seq<char>,
    hint: Option<Seq<char>>,
    command: Option<Seq<u8>>,
    files: FilesView,
)
    ensures
        source_of(dirs, name, hint, command, files) matches Ok(path) ==> text_at(
            files,
            path,
        ) is Some && head_of(text_at(files, path)->Some_0).marker is None,
{
    let order = lookup_order(dirs);
    match hint {
        Some(file) => {
            if found_from(order, 0, utf8(file), files) is Some {
                lemma_found(order, 0, utf8(file), files);
            }
        },
        None => {
            if command is Some {
                let own = command->Some_0;
                let exact = own + utf8(crate::desktop::names::ENTRY_SUFFIX@);
                if found_from(order, 0, exact, files) is Some {
                    lemma_found(order, 0, exact, files);
                }
                lemma_scan_dirs(order, order.len() as int, own, files);
            }
        },
    }
}

proof fn lemma_generated(dir: Seq<u8>, names: Seq<Seq<u8>>, n: int, files: FilesView)
    ensures
        forall|i: int|
            0 <= i < generated_among(dir, names, n, files).len() ==> {
                let (path, owner) = #[trigger] generated_among(dir, names, n, files)[i];
                text_at(files, path) is Some && head_of(text_at(files, path)->Some_0).marker
                    == Some(owner)
            },
    decreases n,
{
    if n > 0 {
        lemma_generated(dir, names, n - 1, files);
        let before = generated_among(dir, names, n - 1, files);
        let all = generated_among(dir, names, n, files);
        assert forall|i: int| 0 <= i < all.len() implies {
            let (path, owner) = #[trigger] all[i];
            text_at(files, path) is Some && head_of(text_at(files, path)->Some_0).marker == Some(
                owner,
            )
        } by {
            if i < before.len() {
                assert(all[i] == before[i]);
            }
        }
    }
}

proof fn lemma_paths(
    list: Seq<(Seq<u8>, Seq<char>)>,
    n: int,
    instance: Seq<char>,
    files: FilesView,
)
    requires
        n <= list.len(),
        forall|i: int|
            0 <= i < list.len() ==> text_at(files, (#[trigger] list[i]).0) is Some && head_of(
                text_at(files, list[i].0)->Some_0,
            ).marker == Some(list[i].1),
    ensures
        forall|i: int|
            0 <= i < paths_of(list, n, instance).len() ==> text_at(
                files,
                #[trigger] paths_of(list, n, instance)[i],
            ) is Some && head_of(
                text_at(files, paths_of(list, n, instance)[i])->Some_0,
            ).marker == Some(instance),
    decreases n,
{
    if n > 0 {
        lemma_paths(list, n - 1, instance, files);
        let before = paths_of(list, n - 1, instance);
        let all = paths_of(list, n, instance);
        assert forall|i: int| 0 <= i < all.len() implies text_at(
            files,
            #[trigger] all[i],
        ) is Some && head_of(text_at(files, all[i])->Some_0).marker == Some(instance) by {
            if i < before.len() {
                assert(all[i] == before[i]);
            }
        }
    }
}

/// A removal deletes nothing but entries generated for that very instance.
pub proof fn a_removal_is_of_the_instances_own_entries(
    user: Seq<u8>,
    files: FilesView,
    instance: Seq<char>,
)
    ensures
        removals(user, files, instance) matches Ok(paths) ==> paths.len() > 0 && forall|i: int|
            0 <= i < paths.len() ==> text_at(files, #[trigger] paths[i]) is Some && head_of(
                text_at(files, paths[i])->Some_0,
            ).marker == Some(instance),
{
    let names = in_sequence(names_in(files, user));
    lemma_generated(user, names, names.len() as int, files);
    let list = all_generated(user, files);
    assert forall|i: int| 0 <= i < list.len() implies text_at(
        files,
        (#[trigger] list[i]).0,
    ) is Some && head_of(text_at(files, list[i].0)->Some_0).marker == Some(list[i].1) by {}
    lemma_paths(list, list.len() as int, instance, files);
}

} // verus!
