//! Which of the host's entries an instance's is copied from, and where the
//! copy goes.

use vstd::prelude::*;

use crate::config::model::InstanceConfig;
use crate::desktop::entry::{head, head_of, owner, HeadView};
use crate::desktop::lookup_laws::{a_scan_finds_every_entry_of_the_command, candidate};
use crate::desktop::names::{
    entry_file, file_name, file_name_of, in_sequence, is_entry_name, sorted_names,
};
use crate::desktop::quote::{exec_program, program_of};
use crate::env::Env;
use crate::error::{DesktopError, DesktopErrorView};
use crate::paths::{join, join_path};
use crate::text::{
    byte_views, bytes_of, copy_bytes, lossy, lossy_text, maybe, outcome, push_bytes, same_bytes,
    text_views, utf8,
};

verus! {

/// Name of the `bubbler` binary as an entry's `Exec` may name it.
pub const BINARY: &'static str = "bubbler";

/// Subdirectory of a data directory that holds desktop entries.
pub const APPLICATIONS: &'static str = "applications";

/// Where entries are read from and written to. Read order is user first,
/// which is the precedence the XDG base directory specification gives
/// `$XDG_DATA_HOME` over `$XDG_DATA_DIRS`.
#[derive(Debug, Clone)]
pub struct Dirs {
    /// `$XDG_DATA_HOME/applications`: the only directory bubbler writes.
    pub user: Vec<u8>,
    /// System entry directories, in precedence order.
    pub system: Vec<Vec<u8>>,
}

/// Model of [`Dirs`].
pub struct DirsView {
    pub user: Seq<u8>,
    pub system: Seq<Seq<u8>>,
}

impl View for Dirs {
    type V = DirsView;

    open spec fn view(&self) -> DirsView {
        DirsView { user: self.user@, system: byte_views(self.system@) }
    }
}

/// The directory of entries of each data directory.
pub open spec fn application_dirs(dirs: Seq<Seq<u8>>) -> Seq<Seq<u8>> {
    Seq::new(dirs.len(), |i: int| join_path(dirs[i], utf8(APPLICATIONS@)))
}

/// Every directory an entry may be read from, in lookup order.
pub open spec fn lookup_order(dirs: DirsView) -> Seq<Seq<u8>> {
    seq![dirs.user] + dirs.system
}

impl Dirs {
    /// The `applications` directory of `$XDG_DATA_HOME` and of every
    /// `$XDG_DATA_DIRS` entry, which is exactly where a launcher looks — a
    /// host that puts entries elsewhere says so in that variable and is
    /// followed.
    pub fn from_env(env: &Env) -> (r: Self)
        ensures
            r@.user == join_path(env.data_home@, utf8(APPLICATIONS@)),
            r@.system == application_dirs(byte_views(env.data_dirs@)),
    {
        let tail = bytes_of(APPLICATIONS);
        let ghost model = application_dirs(byte_views(env.data_dirs@));
        let mut system: Vec<Vec<u8>> = Vec::new();
        let mut i: usize = 0;
        assert(byte_views(system@) =~= model.take(0));
        while i < env.data_dirs.len()
            invariant
                tail@ == utf8(APPLICATIONS@),
                model == application_dirs(byte_views(env.data_dirs@)),
                i <= env.data_dirs@.len(),
                byte_views(system@) == model.take(i as int),
            decreases env.data_dirs@.len() - i,
        {
            let ghost before = byte_views(system@);
            system.push(join(&env.data_dirs[i], &tail));
            assert(byte_views(system@) =~= before.push(model[i as int]));
            assert(model.take(i + 1) =~= before.push(model[i as int]));
            i = i + 1;
        }
        assert(model.take(i as int) =~= model);
        Dirs { user: join(&env.data_home, &tail), system }
    }

    /// Every directory an entry may be read from, in lookup order.
    pub fn lookup(&self) -> (r: Vec<Vec<u8>>)
        ensures
            byte_views(r@) == lookup_order(self@),
    {
        let ghost model = lookup_order(self@);
        let mut out: Vec<Vec<u8>> = Vec::new();
        out.push(copy_bytes(&self.user));
        let mut i: usize = 0;
        assert(byte_views(out@) =~= model.take(1));
        while i < self.system.len()
            invariant
                model == lookup_order(self@),
                i <= self.system@.len(),
                byte_views(out@) == model.take(i + 1),
            decreases self.system@.len() - i,
        {
            let ghost before = byte_views(out@);
            out.push(copy_bytes(&self.system[i]));
            assert(byte_views(out@) =~= before.push(model[i + 1]));
            assert(model.take(i + 2) =~= before.push(model[i + 1]));
            i = i + 1;
        }
        assert(model.take(i + 1) =~= model);
        out
    }
}

/// What was read of the entry directories: the names in each that could be
/// listed, and the text of each file that could be read and is UTF-8.
#[derive(Debug, Clone)]
pub struct EntryFiles {
    pub listings: Vec<(Vec<u8>, Vec<Vec<u8>>)>,
    pub texts: Vec<(Vec<u8>, String)>,
}

/// Model of [`EntryFiles`].
pub struct FilesView {
    pub listings: Seq<(Seq<u8>, Seq<Seq<u8>>)>,
    pub texts: Seq<(Seq<u8>, Seq<char>)>,
}

impl View for EntryFiles {
    type V = FilesView;

    open spec fn view(&self) -> FilesView {
        FilesView {
            listings: Seq::new(
                self.listings@.len(),
                |i: int| (self.listings@[i].0@, byte_views(self.listings@[i].1@)),
            ),
            texts: Seq::new(
                self.texts@.len(),
                |i: int| (self.texts@[i].0@, self.texts@[i].1@),
            ),
        }
    }
}

/// The names in a directory, by the first listing from `i` on; none where it
/// could not be listed.
pub open spec fn listed_from(
    listings: Seq<(Seq<u8>, Seq<Seq<u8>>)>,
    dir: Seq<u8>,
    i: int,
) -> Seq<Seq<u8>>
    decreases listings.len() - i,
{
    if i < 0 || i >= listings.len() {
        Seq::empty()
    } else if listings[i].0 == dir {
        listings[i].1
    } else {
        listed_from(listings, dir, i + 1)
    }
}

/// The names in a directory.
pub open spec fn names_in(files: FilesView, dir: Seq<u8>) -> Seq<Seq<u8>> {
    listed_from(files.listings, dir, 0)
}

/// The text of a file, by the first one from `i` on.
pub open spec fn text_from(texts: Seq<(Seq<u8>, Seq<char>)>, path: Seq<u8>, i: int) -> Option<
    Seq<char>,
>
    decreases texts.len() - i,
{
    if i < 0 || i >= texts.len() {
        None
    } else if texts[i].0 == path {
        Some(texts[i].1)
    } else {
        text_from(texts, path, i + 1)
    }
}

/// The text of a file, where it could be read.
pub open spec fn text_at(files: FilesView, path: Seq<u8>) -> Option<Seq<char>> {
    text_from(files.texts, path, 0)
}

impl EntryFiles {
    /// The names in a directory, in order.
    pub fn names(&self, dir: &[u8]) -> (r: Vec<Vec<u8>>)
        ensures
            byte_views(r@) == in_sequence(names_in(self@, dir@)),
    {
        let ghost all = self@.listings;
        let mut i: usize = 0;
        while i < self.listings.len()
            invariant
                all == self@.listings,
                i <= self.listings@.len(),
                listed_from(all, dir@, 0) == listed_from(all, dir@, i as int),
            decreases self.listings@.len() - i,
        {
            assert(all[i as int] == (
                self.listings@[i as int].0@,
                byte_views(self.listings@[i as int].1@),
            ));
            if same_bytes(&self.listings[i].0, dir) {
                return sorted_names(&self.listings[i].1);
            }
            i = i + 1;
        }
        let out: Vec<Vec<u8>> = Vec::new();
        assert(byte_views(out@) =~= Seq::empty());
        out
    }

    /// The text of a file, where it could be read.
    pub fn text(&self, path: &[u8]) -> (r: Option<&String>)
        ensures
            match r {
                Some(s) => text_at(self@, path@) == Some(s@),
                None => text_at(self@, path@) is None,
            },
    {
        let ghost all = self@.texts;
        let mut i: usize = 0;
        while i < self.texts.len()
            invariant
                all == self@.texts,
                i <= self.texts@.len(),
                text_from(all, path@, 0) == text_from(all, path@, i as int),
            decreases self.texts@.len() - i,
        {
            assert(all[i as int] == (self.texts@[i as int].0@, self.texts@[i as int].1@));
            if same_bytes(&self.texts[i].0, path) {
                return Some(&self.texts[i].1);
            }
            i = i + 1;
        }
        None
    }
}

/// Whether a path is an entry somebody else wrote.
pub open spec fn vendor_entry(files: FilesView, path: Seq<u8>) -> bool {
    match text_at(files, path) {
        Some(text) => head_of(text).marker is None,
        None => false,
    }
}

/// The first of the directories from `i` on that holds `file` as an entry
/// somebody else wrote.
pub open spec fn found_from(
    dirs: Seq<Seq<u8>>,
    i: int,
    file: Seq<u8>,
    files: FilesView,
) -> Option<Seq<u8>>
    decreases dirs.len() - i,
{
    if i < 0 || i >= dirs.len() {
        None
    } else if vendor_entry(files, join_path(dirs[i], file)) {
        Some(join_path(dirs[i], file))
    } else {
        found_from(dirs, i + 1, file, files)
    }
}

/// The first directory holding `file` as an entry bubbler did not write.
fn find(dirs: &[Vec<u8>], file: &[u8], files: &EntryFiles) -> (r: Option<Vec<u8>>)
    ensures
        maybe(r) == found_from(byte_views(dirs@), 0, file@, files@),
{
    let ghost model = byte_views(dirs@);
    let mut i: usize = 0;
    while i < dirs.len()
        invariant
            model == byte_views(dirs@),
            i <= dirs@.len(),
            found_from(model, 0, file@, files@) == found_from(model, i as int, file@, files@),
        decreases dirs@.len() - i,
    {
        assert(model[i as int] == dirs@[i as int]@);
        let path = join(&dirs[i], file);
        match files.text(&path) {
            Some(text) => {
                if owner(text).is_none() {
                    return Some(path);
                }
            },
            None => {},
        }
        i = i + 1;
    }
    None
}

/// Whether some path of a list has this file name.
pub open spec fn has_name(paths: Seq<Seq<u8>>, name: Seq<u8>) -> bool {
    exists|i: int| 0 <= i < paths.len() && file_name_of(#[trigger] paths[i]) == Some(name)
}

/// Whether an entry is one a launcher shows, that somebody else wrote, and
/// that runs `command`.
pub open spec fn runs_command(found: HeadView, command: Seq<u8>) -> bool {
    &&& found.marker is None
    &&& !found.no_display
    &&& !found.hidden
    &&& match found.command {
        Some(line) => match program_of(line) {
            Some(program) => file_name_of(utf8(program)) == Some(command),
            None => false,
        },
        None => false,
    }
}

/// The entries found once the name `name` in `dir` was looked at: a file name
/// found before shadows it.
pub open spec fn scan_step(
    found: Seq<Seq<u8>>,
    dir: Seq<u8>,
    name: Seq<u8>,
    command: Seq<u8>,
    files: FilesView,
) -> Seq<Seq<u8>> {
    let path = join_path(dir, name);
    if !entry_file(name) || has_name(found, name) {
        found
    } else {
        match text_at(files, path) {
            Some(text) => if runs_command(head_of(text), command) {
                found.push(path)
            } else {
                found
            },
            None => found,
        }
    }
}

/// The entries found once the first `n` names in `dir` were looked at.
pub open spec fn scan_names(
    found: Seq<Seq<u8>>,
    dir: Seq<u8>,
    names: Seq<Seq<u8>>,
    n: int,
    command: Seq<u8>,
    files: FilesView,
) -> Seq<Seq<u8>>
    decreases n,
{
    if n <= 0 {
        found
    } else {
        scan_step(
            scan_names(found, dir, names, n - 1, command, files),
            dir,
            names[n - 1],
            command,
            files,
        )
    }
}

/// The entries found in the first `n` directories.
pub open spec fn scan_dirs(
    dirs: Seq<Seq<u8>>,
    n: int,
    command: Seq<u8>,
    files: FilesView,
) -> Seq<Seq<u8>>
    decreases n,
{
    if n <= 0 {
        Seq::empty()
    } else {
        let names = in_sequence(names_in(files, dirs[n - 1]));
        scan_names(
            scan_dirs(dirs, n - 1, command, files),
            dirs[n - 1],
            names,
            names.len() as int,
            command,
            files,
        )
    }
}

fn name_found(paths: &[Vec<u8>], name: &[u8]) -> (r: bool)
    ensures
        r == has_name(byte_views(paths@), name@),
{
    let ghost model = byte_views(paths@);
    let mut i: usize = 0;
    while i < paths.len()
        invariant
            model == byte_views(paths@),
            i <= paths@.len(),
            forall|j: int| 0 <= j < i ==> file_name_of(#[trigger] model[j]) != Some(name@),
        decreases paths@.len() - i,
    {
        assert(model[i as int] == paths@[i as int]@);
        match file_name(&paths[i]) {
            Some(own) => {
                if same_bytes(&own, name) {
                    assert(file_name_of(model[i as int]) == Some(name@));
                    return true;
                }
            },
            None => {},
        }
        i = i + 1;
    }
    false
}

fn runs(text: &str, command: &[u8]) -> (r: bool)
    ensures
        r == runs_command(head_of(text@), command@),
{
    let found = head(text);
    if found.marker.is_some() || found.no_display || found.hidden {
        return false;
    }
    match found.command {
        Some(line) => match exec_program(&line) {
            Some(program) => match file_name(program.as_str().as_bytes()) {
                Some(own) => same_bytes(&own, command),
                None => false,
            },
            None => false,
        },
        None => false,
    }
}

/// Every entry whose `Exec` runs `command`, in lookup order, one per file
/// name: a user's own copy of an entry shadows the system's, the way a
/// launcher resolves it.
pub fn scan(dirs: &[Vec<u8>], command: &[u8], files: &EntryFiles) -> (r: Vec<Vec<u8>>)
    ensures
        byte_views(r@) == scan_dirs(byte_views(dirs@), dirs@.len() as int, command@, files@),
        forall|i: int, name: Seq<u8>|
            0 <= i < dirs@.len() && #[trigger] candidate(files@, dirs@[i]@, name, command@)
                && names_in(files@, dirs@[i]@).contains(name) && file_name_of(
                join_path(dirs@[i]@, name),
            ) == Some(name) ==> has_name(byte_views(r@), name),
{
    let ghost model = byte_views(dirs@);
    let mut found: Vec<Vec<u8>> = Vec::new();
    let mut i: usize = 0;
    assert(byte_views(found@) =~= Seq::empty());
    while i < dirs.len()
        invariant
            model == byte_views(dirs@),
            i <= dirs@.len(),
            byte_views(found@) == scan_dirs(model, i as int, command@, files@),
        decreases dirs@.len() - i,
    {
        let dir = dirs[i].as_slice();
        assert(model[i as int] == dir@);
        let names = files.names(dir);
        let ghost listed = byte_views(names@);
        let ghost before = byte_views(found@);
        let mut j: usize = 0;
        while j < names.len()
            invariant
                listed == byte_views(names@),
                j <= names@.len(),
                byte_views(found@) == scan_names(before, dir@, listed, j as int, command@, files@),
            decreases names@.len() - j,
        {
            let name = names[j].as_slice();
            assert(listed[j as int] == name@);
            let ghost so_far = byte_views(found@);
            if is_entry_name(name) && !name_found(&found, name) {
                let path = join(dir, name);
                match files.text(&path) {
                    Some(text) => {
                        if runs(text, command) {
                            let ghost at = path@;
                            found.push(path);
                            assert(byte_views(found@) =~= so_far.push(at));
                        }
                    },
                    None => {},
                }
            }
            j = j + 1;
        }
        i = i + 1;
    }
    proof {
        assert forall|i: int, name: Seq<u8>|
            0 <= i < dirs@.len() && #[trigger] candidate(files@, dirs@[i]@, name, command@)
                && names_in(files@, dirs@[i]@).contains(name) && file_name_of(
                join_path(dirs@[i]@, name),
            ) == Some(name) implies has_name(byte_views(found@), name) by {
            assert(model[i] == dirs@[i]@);
            a_scan_finds_every_entry_of_the_command(model, command@, files@, i, name);
        }
    }
    found
}

/// The command basename an entry is looked up by: the first word of an
/// instance's `command`, without its directory.
pub open spec fn looked_up(command: Option<Seq<Seq<u8>>>) -> Option<Seq<u8>> {
    match command {
        Some(argv) => if argv.len() > 0 {
            file_name_of(argv[0])
        } else {
            None
        },
        None => None,
    }
}

/// The command basename an entry is looked up by: the first word of the
/// instance's `command`, without its directory.
pub fn command_name(config: &InstanceConfig) -> (r: Option<Vec<u8>>)
    ensures
        maybe(r) == looked_up(config@.command),
{
    match &config.command {
        Some(argv) => {
            if argv.len() == 0 {
                return None;
            }
            assert(byte_views(argv@)[0] == argv@[0]@);
            file_name(&argv[0])
        },
        None => None,
    }
}

/// The names paths are listed with.
pub open spec fn shown_names(paths: Seq<Seq<u8>>) -> Seq<Seq<char>> {
    Seq::new(
        paths.len(),
        |i: int|
            match file_name_of(paths[i]) {
                Some(name) => lossy(name),
                None => lossy(paths[i]),
            },
    )
}

fn name_texts(paths: &[Vec<u8>]) -> (r: Vec<String>)
    ensures
        text_views(r@) == shown_names(byte_views(paths@)),
{
    let ghost model = shown_names(byte_views(paths@));
    let mut out: Vec<String> = Vec::new();
    let mut i: usize = 0;
    assert(text_views(out@) =~= model.take(0));
    while i < paths.len()
        invariant
            model == shown_names(byte_views(paths@)),
            i <= paths@.len(),
            text_views(out@) == model.take(i as int),
        decreases paths@.len() - i,
    {
        let ghost before = text_views(out@);
        assert(byte_views(paths@)[i as int] == paths@[i as int]@);
        let shown = match file_name(&paths[i]) {
            Some(name) => lossy_text(&name),
            None => lossy_text(&paths[i]),
        };
        out.push(shown);
        assert(text_views(out@) =~= before.push(model[i as int]));
        assert(model.take(i + 1) =~= before.push(model[i as int]));
        i = i + 1;
    }
    assert(model.take(i as int) =~= model);
    out
}

/// The file that is asked for by its name before any directory is searched.
pub open spec fn asked_name(hint: Option<Seq<char>>, command: Option<Seq<u8>>) -> Option<Seq<u8>> {
    match hint {
        Some(file) => Some(utf8(file)),
        None => match command {
            Some(command) => Some(command + utf8(crate::desktop::names::ENTRY_SUFFIX@)),
            None => None,
        },
    }
}

/// Where [`source`] asks for a file by its name. A file may be read in a
/// directory that cannot be listed.
pub fn asked(dirs: &Dirs, config: &InstanceConfig) -> (r: Vec<Vec<u8>>)
    ensures
        byte_views(r@) == match asked_name(config@.desktop, looked_up(config@.command)) {
            Some(file) => lookup_order(dirs@).map_values(|dir: Seq<u8>| join_path(dir, file)),
            None => Seq::empty(),
        },
{
    let mut out: Vec<Vec<u8>> = Vec::new();
    let file = match &config.desktop {
        Some(hint) => copy_bytes(hint.as_str().as_bytes()),
        None => match command_name(config) {
            Some(command) => {
                let mut exact = command;
                push_bytes(&mut exact, crate::desktop::names::ENTRY_SUFFIX.as_bytes());
                exact
            },
            None => {
                assert(byte_views(out@) =~= Seq::empty());
                return out;
            },
        },
    };
    let order = dirs.lookup();
    let ghost model = byte_views(order@);
    let ghost all = model.map_values(|dir: Seq<u8>| join_path(dir, file@));
    let mut i: usize = 0;
    assert(byte_views(out@) =~= all.take(0));
    while i < order.len()
        invariant
            model == byte_views(order@),
            all == model.map_values(|dir: Seq<u8>| join_path(dir, file@)),
            i <= order@.len(),
            byte_views(out@) == all.take(i as int),
        decreases order@.len() - i,
    {
        assert(model[i as int] == order@[i as int]@);
        let ghost before = byte_views(out@);
        out.push(join(&order[i], &file));
        i = i + 1;
        assert(byte_views(out@) =~= before.push(all[i - 1]));
        assert(all.take(i as int) =~= before.push(all[i - 1]));
    }
    assert(all.take(i as int) =~= all);
    out
}

/// The vendor entry an instance's launcher entry is copied from, or why there
/// is none.
pub open spec fn source_of(
    dirs: DirsView,
    name: Seq<char>,
    hint: Option<Seq<char>>,
    command: Option<Seq<u8>>,
    files: FilesView,
) -> Result<Seq<u8>, DesktopErrorView> {
    let order = lookup_order(dirs);
    match hint {
        Some(file) => match found_from(order, 0, utf8(file), files) {
            Some(path) => Ok(path),
            None => Err(DesktopErrorView::HintNotFound { name: file, dirs: order }),
        },
        None => match command {
            None => Err(DesktopErrorView::NoCommand(name)),
            Some(command) => match found_from(
                order,
                0,
                command + utf8(crate::desktop::names::ENTRY_SUFFIX@),
                files,
            ) {
                Some(path) => Ok(path),
                None => {
                    let candidates = scan_dirs(order, order.len() as int, command, files);
                    if candidates.len() == 0 {
                        Err(DesktopErrorView::NotFound { command: lossy(command) })
                    } else if candidates.len() == 1 {
                        Ok(candidates[0])
                    } else {
                        Err(
                            DesktopErrorView::Ambiguous {
                                command: lossy(command),
                                candidates: shown_names(candidates),
                            },
                        )
                    }
                },
            },
        },
    }
}

/// The vendor entry an instance's launcher entry is copied from: the
/// `desktop` node if the config has one, else `<command>.desktop`, else the
/// one entry whose `Exec` runs `<command>`.
///
/// Entries bubbler generated are never a source; neither are entries a
/// launcher does not display, which is what an application's
/// MIME-handler-only entries are. Two candidates are an error rather than a
/// guess: `lutris` matches its own entry and its URL handler, and only the
/// user knows which one the instance is for.
pub fn source(dirs: &Dirs, name: &str, config: &InstanceConfig, files: &EntryFiles) -> (r: Result<
    Vec<u8>,
    DesktopError,
>)
    ensures
        outcome(r) == source_of(
            dirs@,
            name@,
            config@.desktop,
            looked_up(config@.command),
            files@,
        ),
{
    let order = dirs.lookup();
    match &config.desktop {
        Some(hint) => {
            return match find(&order, hint.as_str().as_bytes(), files) {
                Some(path) => Ok(path),
                None => Err(
                    DesktopError::HintNotFound { name: hint.as_str().to_owned(), dirs: order },
                ),
            };
        },
        None => {},
    }
    let command = match command_name(config) {
        Some(command) => command,
        None => {
            return Err(DesktopError::NoCommand(name.to_owned()));
        },
    };
    let mut exact = copy_bytes(&command);
    push_bytes(&mut exact, crate::desktop::names::ENTRY_SUFFIX.as_bytes());
    match find(&order, &exact, files) {
        Some(path) => {
            return Ok(path);
        },
        None => {},
    }
    let candidates = scan(&order, &command, files);
    assert(byte_views(order@).len() == order@.len());
    if candidates.len() == 0 {
        Err(DesktopError::NotFound { command: lossy_text(&command) })
    } else if candidates.len() == 1 {
        assert(byte_views(candidates@)[0] == candidates@[0]@);
        Ok(copy_bytes(&candidates[0]))
    } else {
        assert(byte_views(candidates@).len() == candidates@.len());
        Err(
            DesktopError::Ambiguous {
                command: lossy_text(&command),
                candidates: name_texts(&candidates),
            },
        )
    }
}

} // verus!
