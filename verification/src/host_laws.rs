//! What is told of the host is what was found on it.

use vstd::prelude::*;
use vstd::utf8::is_ascii_chars_encode_utf8;

use crate::audio_policy::{
    drop_in_at, drop_in_dirs, first_held, hook_at, hook_dirs_of, missing_half, script_bases,
    script_dirs, Missing,
};
use crate::env::{passes_through, PASSTHROUGH_VARS};
use crate::host::{file_kind, kind_of, real_from, real_path, FileKind};
use crate::paths::join_path;
use crate::text::utf8;

verus! {

proof fn lemma_kind_of(files: Seq<(Seq<u8>, FileKind)>, path: Seq<u8>, i: int)
    requires
        0 <= i <= files.len(),
    ensures
        match kind_of(files, path, i) {
            None => forall|k: int| i <= k < files.len() ==> (#[trigger] files[k]).0 != path,
            Some(kind) => exists|k: int|
                i <= k < files.len() && (#[trigger] files[k]) == (path, kind) && forall|j: int|
                    i <= j < k ==> (#[trigger] files[j]).0 != path,
        },
    decreases files.len() - i,
{
    if i < files.len() && files[i].0 != path {
        lemma_kind_of(files, path, i + 1);
    } else if i < files.len() {
        assert(files[i] == (path, files[i].1));
    }
}

/// A path has the kind that the first entry of it tells, and none where no
/// entry is of it.
pub proof fn a_path_has_the_kind_that_was_found(files: Seq<(Seq<u8>, FileKind)>, path: Seq<u8>)
    ensures
        match file_kind(files, path) {
            None => forall|k: int| 0 <= k < files.len() ==> (#[trigger] files[k]).0 != path,
            Some(kind) => exists|k: int|
                0 <= k < files.len() && (#[trigger] files[k]) == (path, kind) && forall|j: int|
                    0 <= j < k ==> (#[trigger] files[j]).0 != path,
        },
{
    lemma_kind_of(files, path, 0);
}

proof fn lemma_real_from(table: Seq<(Seq<u8>, Seq<u8>)>, path: Seq<u8>, i: int)
    requires
        0 <= i <= table.len(),
    ensures
        match real_from(table, path, i) {
            None => forall|k: int| i <= k < table.len() ==> (#[trigger] table[k]).0 != path,
            Some(to) => exists|k: int|
                i <= k < table.len() && (#[trigger] table[k]) == (path, to) && forall|j: int|
                    i <= j < k ==> (#[trigger] table[j]).0 != path,
        },
    decreases table.len() - i,
{
    if i < table.len() && table[i].0 != path {
        lemma_real_from(table, path, i + 1);
    } else if i < table.len() {
        assert(table[i] == (path, table[i].1));
    }
}

/// A path leads where the first entry of it says, and nowhere where no entry
/// is of it.
pub proof fn a_path_leads_where_it_was_found_to(table: Seq<(Seq<u8>, Seq<u8>)>, path: Seq<u8>)
    ensures
        match real_path(table, path) {
            None => forall|k: int| 0 <= k < table.len() ==> (#[trigger] table[k]).0 != path,
            Some(to) => exists|k: int|
                0 <= k < table.len() && (#[trigger] table[k]) == (path, to) && forall|j: int|
                    0 <= j < k ==> (#[trigger] table[j]).0 != path,
        },
{
    lemma_real_from(table, path, 0);
}

proof fn lemma_first_held(
    files: Seq<(Seq<u8>, FileKind)>,
    dirs: Seq<Seq<u8>>,
    name: Seq<u8>,
    i: int,
)
    requires
        0 <= i <= dirs.len(),
    ensures
        match first_held(files, dirs, name, i) {
            None => forall|k: int|
                i <= k < dirs.len() ==> file_kind(files, join_path(#[trigger] dirs[k], name))
                    is None,
            Some(path) => exists|k: int|
                i <= k < dirs.len() && path == join_path(#[trigger] dirs[k], name) && file_kind(
                    files,
                    path,
                ) is Some && forall|j: int|
                    i <= j < k ==> file_kind(files, join_path(#[trigger] dirs[j], name)) is None,
        },
    decreases dirs.len() - i,
{
    if i < dirs.len() {
        if file_kind(files, join_path(dirs[i], name)) is None {
            lemma_first_held(files, dirs, name, i + 1);
        } else {
            assert(join_path(dirs[i], name) == join_path(dirs[i], name));
        }
    }
}

/// The drop-in is looked for in the three directories that are read, and found
/// in the first that has it; so is the hook in the directories of scripts,
/// with the data home's first and the built-in one last.
pub proof fn a_policy_file_is_found_where_it_is(
    files: Seq<(Seq<u8>, FileKind)>,
    config_home: Seq<u8>,
    data_home: Seq<u8>,
    data_dirs: Seq<Seq<u8>>,
)
    ensures
        drop_in_dirs(config_home).len() == 3,
        drop_in_dirs(config_home)[0] == utf8("/usr/share/wireplumber/wireplumber.conf.d"@),
        drop_in_dirs(config_home)[1] == utf8("/etc/wireplumber/wireplumber.conf.d"@),
        drop_in_dirs(config_home)[2] == join_path(
            config_home,
            utf8("wireplumber/wireplumber.conf.d"@),
        ),
        match drop_in_at(files, config_home) {
            None => forall|k: int|
                0 <= k < 3 ==> file_kind(
                    files,
                    join_path(#[trigger] drop_in_dirs(config_home)[k], utf8("50-bubbler.conf"@)),
                ) is None,
            Some(path) => exists|k: int|
                0 <= k < 3 && path == join_path(
                    #[trigger] drop_in_dirs(config_home)[k],
                    utf8("50-bubbler.conf"@),
                ) && file_kind(files, path) is Some && forall|j: int|
                    0 <= j < k ==> file_kind(
                        files,
                        join_path(#[trigger] drop_in_dirs(config_home)[j], utf8("50-bubbler.conf"@)),
                    ) is None,
        },
        script_bases(data_home, data_dirs)[0] == data_home,
        script_bases(data_home, data_dirs).last() == utf8("/usr/share"@),
        script_bases(data_home, data_dirs).len() == data_dirs.len() + 2,
        forall|i: int|
            0 <= i < data_dirs.len() ==> script_bases(data_home, data_dirs)[i + 1]
                == #[trigger] data_dirs[i],
        ({
            let dirs = hook_dirs_of(data_home, data_dirs);
            match hook_at(files, data_home, data_dirs) {
                None => forall|k: int|
                    0 <= k < dirs.len() ==> file_kind(
                        files,
                        join_path(#[trigger] dirs[k], utf8("bubbler/refuse-links.lua"@)),
                    ) is None,
                Some(path) => exists|k: int|
                    0 <= k < dirs.len() && path == join_path(
                        #[trigger] dirs[k],
                        utf8("bubbler/refuse-links.lua"@),
                    ) && file_kind(files, path) is Some && forall|j: int|
                        0 <= j < k ==> file_kind(
                            files,
                            join_path(#[trigger] dirs[j], utf8("bubbler/refuse-links.lua"@)),
                        ) is None,
            }
        }),
{
    lemma_first_held(files, drop_in_dirs(config_home), utf8("50-bubbler.conf"@), 0);
    let dirs = hook_dirs_of(data_home, data_dirs);
    lemma_first_held(files, dirs, utf8("bubbler/refuse-links.lua"@), 0);
}

proof fn lemma_scripts_are_of_bases(bases: Seq<Seq<u8>>, n: int)
    requires
        0 <= n <= bases.len(),
    ensures
        forall|k: int|
            0 <= k < script_dirs(bases, n).len() ==> exists|i: int|
                0 <= i < n && #[trigger] script_dirs(bases, n)[k] == join_path(
                    #[trigger] bases[i],
                    utf8("wireplumber/scripts"@),
                ),
        n > 0 ==> script_dirs(bases, n).len() > 0 && script_dirs(bases, n)[0] == join_path(
            bases[0],
            utf8("wireplumber/scripts"@),
        ),
    decreases n,
{
    if n > 0 {
        lemma_scripts_are_of_bases(bases, n - 1);
        let before = script_dirs(bases, n - 1);
        let all = script_dirs(bases, n);
        assert forall|k: int| 0 <= k < all.len() implies exists|i: int|
            0 <= i < n && #[trigger] all[k] == join_path(
                #[trigger] bases[i],
                utf8("wireplumber/scripts"@),
            ) by {
            if k < before.len() {
                assert(all[k] == before[k]);
            } else {
                assert(all[k] == join_path(bases[n - 1], utf8("wireplumber/scripts"@)));
            }
        }
    }
}

/// Scripts are looked for under the data directories and nowhere else, and
/// first under the data home.
pub proof fn scripts_are_looked_for_under_the_data_directories(
    data_home: Seq<u8>,
    data_dirs: Seq<Seq<u8>>,
)
    ensures
        ({
            let dirs = hook_dirs_of(data_home, data_dirs);
            let bases = script_bases(data_home, data_dirs);
            &&& dirs.len() > 0
            &&& dirs[0] == join_path(data_home, utf8("wireplumber/scripts"@))
            &&& forall|k: int|
                0 <= k < dirs.len() ==> exists|i: int|
                    0 <= i < bases.len() && #[trigger] dirs[k] == join_path(
                        #[trigger] bases[i],
                        utf8("wireplumber/scripts"@),
                    )
        }),
{
    let bases = script_bases(data_home, data_dirs);
    lemma_scripts_are_of_bases(bases, bases.len() as int);
}

/// Nothing is missing where both halves are there, and what is missing is the
/// half, or both, that is not.
pub proof fn what_is_missing_is_what_is_not_there(drop_in: bool, hook: bool)
    ensures
        missing_half(drop_in, hook) is None <==> drop_in && hook,
        missing_half(drop_in, hook) == Some(Missing::DropIn) <==> !drop_in && hook,
        missing_half(drop_in, hook) == Some(Missing::Hook) <==> drop_in && !hook,
        missing_half(drop_in, hook) == Some(Missing::Both) <==> !drop_in && !hook,
{
}

/// A host variable is copied into the sandbox exactly where it is of the
/// terminal or of the locale: one of five names, or any that begins with
/// `LC_`, whatever follows.
pub proof fn the_terminal_and_the_locale_pass_through(name: Seq<u8>, rest: Seq<u8>)
    ensures
        passes_through(utf8("LC_"@) + rest),
        passes_through(name) <==> {
            ||| name == utf8("TERM"@)
            ||| name == utf8("LANG"@)
            ||| name == utf8("LANGUAGE"@)
            ||| name == utf8("COLORTERM"@)
            ||| name == utf8("TZ"@)
            ||| exists|rest: Seq<u8>| name == #[trigger] (utf8("LC_"@) + rest)
        },
{
    let all = PASSTHROUGH_VARS@;
    assert(all[0]@ == "TERM"@ && all[1]@ == "LANG"@ && all[2]@ == "LANGUAGE"@ && all[3]@
        == "COLORTERM"@ && all[4]@ == "TZ"@);
    reveal_strlit("LC_");
    is_ascii_chars_encode_utf8("LC_"@);
    assert((utf8("LC_"@) + rest).take(3) =~= utf8("LC_"@));
    if name.len() >= 3 && name.take(3) == utf8("LC_"@) {
        assert(name =~= utf8("LC_"@) + name.skip(3));
    }
    assert forall|rest: Seq<u8>| name == #[trigger] (utf8("LC_"@) + rest) implies passes_through(
        name,
    ) by {
        assert(name.take(3) =~= utf8("LC_"@));
    }
}

proof fn lemma_scripts_prefix(bases: Seq<Seq<u8>>, base: Seq<u8>, n: int)
    requires
        0 <= n <= bases.len(),
    ensures
        script_dirs(bases.push(base), n) == script_dirs(bases, n),
    decreases n,
{
    if n > 0 {
        lemma_scripts_prefix(bases, base, n - 1);
    }
}

/// Script directories stand in the order of the data directories they are
/// under: one more data directory adds its own at the end, or nothing where
/// that is there already.
pub proof fn scripts_are_looked_for_in_order(bases: Seq<Seq<u8>>, base: Seq<u8>)
    ensures
        ({
            let before = script_dirs(bases, bases.len() as int);
            let after = script_dirs(bases.push(base), bases.len() as int + 1);
            let dir = join_path(base, utf8("wireplumber/scripts"@));
            after == if before.contains(dir) {
                before
            } else {
                before.push(dir)
            }
        }),
{
    lemma_scripts_prefix(bases, base, bases.len() as int);
    assert(bases.push(base)[bases.len() as int] == base);
}

} // verus!
