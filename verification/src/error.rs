//! Error types, one enum per module boundary so callers can match on what
//! went wrong.

use vstd::prelude::*;

use crate::text::{byte_views, decimal, decimal_digits, joined, lossy, lossy_text, text_views};

verus! {

/// One thing the KDL parser found wrong: where, counting bytes, and what.
#[derive(Debug, PartialEq, Eq)]
pub struct KdlFault {
    pub offset: usize,
    pub message: Option<String>,
}

/// Model of a [`KdlFault`].
pub struct KdlFaultView {
    pub offset: nat,
    pub message: Option<Seq<char>>,
}

impl View for KdlFault {
    type V = KdlFaultView;

    open spec fn view(&self) -> KdlFaultView {
        KdlFaultView { offset: self.offset as nat, message: crate::text::maybe(self.message) }
    }
}

/// The models of a list of faults.
pub open spec fn fault_views(faults: Seq<KdlFault>) -> Seq<KdlFaultView> {
    Seq::new(faults.len(), |i: int| faults[i]@)
}

/// Failures while reading an instance or profile configuration.
#[derive(Debug, PartialEq, Eq)]
pub enum ConfigError {
    /// KDL syntax error, with what the parser said of it.
    Parse(Vec<KdlFault>),
    /// A top-level node that is not a known service or `command`.
    UnknownNode(String),
    /// A property the node does not accept.
    UnknownProperty {
        /// Name of the node that carried the property.
        node: String,
        /// The offending property name.
        prop: String,
    },
    /// An argument with the wrong shape or value.
    BadArgument {
        /// Name of the node that carried the argument.
        node: String,
        /// What the node expected instead.
        reason: String,
    },
    /// A node or `env` key that may appear only once appeared again.
    Duplicate(String),
    /// Neither the config nor the CLI supplied a command to run.
    MissingCommand,
    /// Larger than [`crate::config::bounds::MAX_BYTES`], and so refused
    /// before the parser sees it.
    TooLarge {
        /// Size of the text that was offered.
        bytes: usize,
        /// The bound it passed.
        max: usize,
    },
    /// `{` nested deeper than [`crate::config::bounds::MAX_NESTING`]. The
    /// KDL parser descends by recursion, so a file deep enough overflows the
    /// stack and aborts the process instead of failing to parse.
    TooDeep {
        /// Line the bound was passed on, counting from one.
        line: u32,
        /// The bound it passed.
        max: usize,
    },
    /// From some line on the text is not plainly KDL, and so much follows that
    /// the KDL parser could overflow the stack on it and was handed only the
    /// beginning, in which it found no fault; see [`crate::config::plain`].
    Tangled {
        /// Line of the first byte that is not plain, counting from one.
        line: u32,
    },
}

/// Model of a [`ConfigError`].
pub enum ConfigErrorView {
    Parse(Seq<KdlFaultView>),
    UnknownNode(Seq<char>),
    UnknownProperty { node: Seq<char>, prop: Seq<char> },
    BadArgument { node: Seq<char>, reason: Seq<char> },
    Duplicate(Seq<char>),
    MissingCommand,
    TooLarge { bytes: nat, max: nat },
    TooDeep { line: u32, max: nat },
    Tangled { line: u32 },
}

impl View for ConfigError {
    type V = ConfigErrorView;

    open spec fn view(&self) -> ConfigErrorView {
        match self {
            ConfigError::Parse(faults) => ConfigErrorView::Parse(fault_views(faults@)),
            ConfigError::UnknownNode(s) => ConfigErrorView::UnknownNode(s@),
            ConfigError::UnknownProperty { node, prop } => ConfigErrorView::UnknownProperty {
                node: node@,
                prop: prop@,
            },
            ConfigError::BadArgument { node, reason } => ConfigErrorView::BadArgument {
                node: node@,
                reason: reason@,
            },
            ConfigError::Duplicate(s) => ConfigErrorView::Duplicate(s@),
            ConfigError::MissingCommand => ConfigErrorView::MissingCommand,
            ConfigError::TooLarge { bytes, max } => ConfigErrorView::TooLarge {
                bytes: *bytes as nat,
                max: *max as nat,
            },
            ConfigError::TooDeep { line, max } => ConfigErrorView::TooDeep {
                line: *line,
                max: *max as nat,
            },
            ConfigError::Tangled { line } => ConfigErrorView::Tangled { line: *line },
        }
    }
}

/// The message an error is shown with.
pub open spec fn config_message(e: ConfigErrorView) -> Seq<char> {
    match e {
        ConfigErrorView::Parse(_) => "invalid KDL"@,
        ConfigErrorView::UnknownNode(n) => "unknown node `"@ + n + "`"@,
        ConfigErrorView::UnknownProperty { node, prop } => "node `"@ + node
            + "` does not accept property `"@ + prop + "`"@,
        ConfigErrorView::BadArgument { node, reason } => "bad argument for `"@ + node + "`: "@
            + reason,
        ConfigErrorView::Duplicate(n) => "`"@ + n + "` given more than once"@,
        ConfigErrorView::MissingCommand =>
            "no command: add a `command` node to the config or pass one after `--`"@,
        ConfigErrorView::TooLarge { bytes, max } => "configuration is "@ + decimal_digits(bytes)
            + " bytes; bubbler parses at most "@ + decimal_digits(max),
        ConfigErrorView::TooDeep { line, max } => "`{` nested deeper than "@ + decimal_digits(max)
            + " at line "@ + decimal_digits(line as nat),
        ConfigErrorView::Tangled { line } => "too much for the KDL parser from line "@
            + decimal_digits(line as nat) + " on"@,
    }
}

impl ConfigError {
    /// The message this error is shown with.
    pub fn message(&self) -> (r: String)
        ensures
            r@ == config_message(self@),
    {
        match self {
            ConfigError::Parse(_) => "invalid KDL".to_owned(),
            ConfigError::UnknownNode(n) => joined(&joined("unknown node `", n), "`"),
            ConfigError::UnknownProperty { node, prop } => joined(
                &joined(&joined(&joined("node `", node), "` does not accept property `"), prop),
                "`",
            ),
            ConfigError::BadArgument { node, reason } => joined(
                &joined(&joined("bad argument for `", node), "`: "),
                reason,
            ),
            ConfigError::Duplicate(n) => joined(&joined("`", n), "` given more than once"),
            ConfigError::MissingCommand =>
                "no command: add a `command` node to the config or pass one after `--`".to_owned(),
            ConfigError::TooLarge { bytes, max } => joined(
                &joined(
                    &joined("configuration is ", &decimal(*bytes as u64)),
                    " bytes; bubbler parses at most ",
                ),
                &decimal(*max as u64),
            ),
            ConfigError::TooDeep { line, max } => joined(
                &joined(
                    &joined("`{` nested deeper than ", &decimal(*max as u64)),
                    " at line ",
                ),
                &decimal(*line as u64),
            ),
            ConfigError::Tangled { line } => joined(
                &joined("too much for the KDL parser from line ", &decimal(*line as u64)),
                " on",
            ),
        }
    }
}

/// Failures while turning a config into a running sandbox.
#[derive(Debug, PartialEq, Eq)]
pub enum LaunchError {
    /// A service was given a value it cannot interpret.
    BadValue {
        /// Name of the service that rejected the value.
        service: &'static str,
        /// Why the value was rejected.
        reason: String,
    },
    /// The accessibility bus could not be found: `$AT_SPI_BUS_ADDRESS` named
    /// no socket that can be bound, or `org.a11y.Bus` did not answer with a
    /// `unix:path=` address. An `a11y` sandbox stops here rather than start
    /// with a socket that has no bus behind it.
    A11y(String),
    /// The sandbox's network could not be set up. The sandbox is stopped
    /// rather than let go: an isolated `network` that reached nothing would
    /// look like a broken application.
    Network(String),
    /// Creating an fd bwrap must inherit failed, and why: a data file, the
    /// control socket or a sidecar's ready pipe.
    Data(String),
    /// The other end of the exec channel spoke out of protocol or hung up.
    Protocol(String),
    /// The sandbox's pseudoterminal is not there, and why; the sandbox would
    /// have had to use the host's terminal.
    Pty(String),
}

/// Model of a [`LaunchError`].
pub enum LaunchErrorView {
    BadValue { service: Seq<char>, reason: Seq<char> },
    A11y(Seq<char>),
    Network(Seq<char>),
    Data(Seq<char>),
    Protocol(Seq<char>),
    Pty(Seq<char>),
}

impl View for LaunchError {
    type V = LaunchErrorView;

    open spec fn view(&self) -> LaunchErrorView {
        match self {
            LaunchError::BadValue { service, reason } => LaunchErrorView::BadValue {
                service: service@,
                reason: reason@,
            },
            LaunchError::A11y(s) => LaunchErrorView::A11y(s@),
            LaunchError::Network(s) => LaunchErrorView::Network(s@),
            LaunchError::Data(s) => LaunchErrorView::Data(s@),
            LaunchError::Protocol(s) => LaunchErrorView::Protocol(s@),
            LaunchError::Pty(s) => LaunchErrorView::Pty(s@),
        }
    }
}

/// The message an error is shown with.
pub open spec fn launch_message(e: LaunchErrorView) -> Seq<char> {
    match e {
        LaunchErrorView::BadValue { service, reason } => "service `"@ + service + "`: "@ + reason,
        LaunchErrorView::A11y(s) => "finding the accessibility bus: "@ + s,
        LaunchErrorView::Network(s) => "connecting the sandbox network namespace: "@ + s,
        LaunchErrorView::Data(_) => "preparing an fd for bwrap"@,
        LaunchErrorView::Protocol(s) => "exec channel: "@ + s,
        LaunchErrorView::Pty(_) => "setting up the sandbox terminal"@,
    }
}

impl LaunchError {
    /// The message this error is shown with.
    pub fn message(&self) -> (r: String)
        ensures
            r@ == launch_message(self@),
    {
        match self {
            LaunchError::BadValue { service, reason } => joined(
                &joined(&joined("service `", service), "`: "),
                reason,
            ),
            LaunchError::A11y(s) => joined("finding the accessibility bus: ", s),
            LaunchError::Network(s) => joined("connecting the sandbox network namespace: ", s),
            LaunchError::Data(_) => "preparing an fd for bwrap".to_owned(),
            LaunchError::Protocol(s) => joined("exec channel: ", s),
            LaunchError::Pty(_) => "setting up the sandbox terminal".to_owned(),
        }
    }
}

/// Failures while generating or removing a launcher entry.
#[derive(Debug, PartialEq, Eq)]
pub enum DesktopError {
    /// The instance has neither a `command` to look an entry up by nor a
    /// `desktop` node naming one.
    NoCommand(String),
    /// The `desktop` node names an entry no application directory holds.
    HintNotFound {
        /// The file name the `desktop` node asked for.
        name: String,
        /// The directories that were searched, in lookup order.
        dirs: Vec<Vec<u8>>,
    },
    /// Nothing in the application directories launches this command.
    NotFound {
        /// Basename of the command that was searched for.
        command: String,
    },
    /// More than one entry launches this command, and guessing between them
    /// would pick an application's helper entry as often as its own.
    Ambiguous {
        /// Basename of the command that was searched for.
        command: String,
        /// File names of the entries that matched, in lookup order.
        candidates: Vec<String>,
    },
    /// The source file has no `[Desktop Entry]` group, so it is not a desktop
    /// entry at all.
    NoEntryGroup,
    /// The source file's `[Desktop Entry]` group has no `Exec` key, so there
    /// is no command line to wrap: a `Link` or `Directory` entry.
    NoExec,
    /// The source says it is to be treated as if it were not there, so a copy
    /// of it would be an entry that does nothing.
    Hidden,
    /// The source is itself a generated entry. Patching it again would suffix
    /// the name twice and wrap the wrapper.
    Generated(String),
    /// A desktop entry is UTF-8 by specification; this file is not.
    NotUtf8(Vec<u8>),
    /// The path of the `bubbler` binary is not UTF-8, so it cannot go into a
    /// file that is.
    ProgramNotUtf8,
    /// The target exists and carries no marker of bubbler's, so bubbler did
    /// not write it and will not overwrite it.
    Foreign(Vec<u8>),
    /// The target is bubbler's entry for a different instance.
    OtherInstance {
        /// The target path.
        path: Vec<u8>,
        /// The instance the file there belongs to.
        instance: String,
    },
    /// A removal found no entry of this instance's.
    NotGenerated {
        /// The instance whose entry was looked for.
        instance: String,
        /// The directory that was searched.
        dir: Vec<u8>,
    },
    /// Filesystem failure at a specific path, and what the system said of it.
    Io(Vec<u8>, String),
}

/// Model of a [`DesktopError`].
pub enum DesktopErrorView {
    NoCommand(Seq<char>),
    HintNotFound { name: Seq<char>, dirs: Seq<Seq<u8>> },
    NotFound { command: Seq<char> },
    Ambiguous { command: Seq<char>, candidates: Seq<Seq<char>> },
    NoEntryGroup,
    NoExec,
    Hidden,
    Generated(Seq<char>),
    NotUtf8(Seq<u8>),
    ProgramNotUtf8,
    Foreign(Seq<u8>),
    OtherInstance { path: Seq<u8>, instance: Seq<char> },
    NotGenerated { instance: Seq<char>, dir: Seq<u8> },
    Io(Seq<u8>, Seq<char>),
}

impl View for DesktopError {
    type V = DesktopErrorView;

    open spec fn view(&self) -> DesktopErrorView {
        match self {
            DesktopError::NoCommand(s) => DesktopErrorView::NoCommand(s@),
            DesktopError::HintNotFound { name, dirs } => DesktopErrorView::HintNotFound {
                name: name@,
                dirs: byte_views(dirs@),
            },
            DesktopError::NotFound { command } => DesktopErrorView::NotFound { command: command@ },
            DesktopError::Ambiguous { command, candidates } => DesktopErrorView::Ambiguous {
                command: command@,
                candidates: text_views(candidates@),
            },
            DesktopError::NoEntryGroup => DesktopErrorView::NoEntryGroup,
            DesktopError::NoExec => DesktopErrorView::NoExec,
            DesktopError::Hidden => DesktopErrorView::Hidden,
            DesktopError::Generated(s) => DesktopErrorView::Generated(s@),
            DesktopError::NotUtf8(p) => DesktopErrorView::NotUtf8(p@),
            DesktopError::ProgramNotUtf8 => DesktopErrorView::ProgramNotUtf8,
            DesktopError::Foreign(p) => DesktopErrorView::Foreign(p@),
            DesktopError::OtherInstance { path, instance } => DesktopErrorView::OtherInstance {
                path: path@,
                instance: instance@,
            },
            DesktopError::NotGenerated { instance, dir } => DesktopErrorView::NotGenerated {
                instance: instance@,
                dir: dir@,
            },
            DesktopError::Io(p, e) => DesktopErrorView::Io(p@, e@),
        }
    }
}

/// The first `n` texts with a comma and a space between them.
pub open spec fn comma_list(list: Seq<Seq<char>>, n: int) -> Seq<char>
    decreases n,
{
    if n <= 0 {
        Seq::empty()
    } else if n == 1 {
        list[0]
    } else {
        comma_list(list, n - 1) + ", "@ + list[n - 1]
    }
}

/// The texts paths are shown with.
pub open spec fn shown_paths(paths: Seq<Seq<u8>>) -> Seq<Seq<char>> {
    Seq::new(paths.len(), |i: int| lossy(paths[i]))
}

fn commas(list: &[String]) -> (r: String)
    ensures
        r@ == comma_list(text_views(list@), text_views(list@).len() as int),
{
    let ghost model = text_views(list@);
    let mut out = String::new();
    let mut i: usize = 0;
    assert(out@ =~= Seq::empty());
    while i < list.len()
        invariant
            model == text_views(list@),
            i <= list@.len(),
            out@ == comma_list(model, i as int),
        decreases list@.len() - i,
    {
        assert(model[i as int] == list@[i as int]@);
        let ghost before = out@;
        if i > 0 {
            out.append(", ");
        }
        out.append(&list[i]);
        i = i + 1;
        assert(out@ =~= comma_list(model, i as int));
    }
    out
}

fn path_texts(paths: &[Vec<u8>]) -> (r: Vec<String>)
    ensures
        text_views(r@) == shown_paths(byte_views(paths@)),
        text_views(r@).len() == byte_views(paths@).len(),
{
    let ghost model = shown_paths(byte_views(paths@));
    let mut out: Vec<String> = Vec::new();
    let mut i: usize = 0;
    assert(text_views(out@) =~= model.take(0));
    while i < paths.len()
        invariant
            model == shown_paths(byte_views(paths@)),
            i <= paths@.len(),
            text_views(out@) == model.take(i as int),
        decreases paths@.len() - i,
    {
        let ghost before = text_views(out@);
        out.push(lossy_text(&paths[i]));
        assert(text_views(out@) =~= before.push(model[i as int]));
        assert(model.take(i + 1) =~= before.push(model[i as int]));
        i = i + 1;
    }
    assert(model.take(i as int) =~= model);
    out
}

/// The message an error is shown with.
pub open spec fn desktop_message(e: DesktopErrorView) -> Seq<char> {
    match e {
        DesktopErrorView::NoCommand(name) => "instance `"@ + name
            + "` has no `command` node, so there is no application to find an entry for; name one with `desktop \"<name>.desktop\"`"@,
        DesktopErrorView::HintNotFound { name, dirs } => "no `"@ + name + "` in "@ + comma_list(
            shown_paths(dirs),
            dirs.len() as int,
        ),
        DesktopErrorView::NotFound { command } => "no desktop entry runs `"@ + command
            + "`; name one with `desktop \"<name>.desktop\"` in the instance's config.kdl"@,
        DesktopErrorView::Ambiguous { command, candidates } => decimal_digits(candidates.len())
            + " desktop entries run `"@ + command + "`: "@ + comma_list(
            candidates,
            candidates.len() as int,
        ) + "; name one with `desktop \"<name>.desktop\"` in the instance's config.kdl"@,
        DesktopErrorView::NoEntryGroup => "no `[Desktop Entry]` group"@,
        DesktopErrorView::NoExec => "no `Exec` key in its `[Desktop Entry]` group"@,
        DesktopErrorView::Hidden =>
            "it carries `Hidden=true`, which means the entry is not to be used at all"@,
        DesktopErrorView::Generated(name) => "it is bubbler's own entry for instance `"@ + name
            + "`, not an application's"@,
        DesktopErrorView::NotUtf8(path) => lossy(path)
            + " is not UTF-8, so it is not a desktop entry"@,
        DesktopErrorView::ProgramNotUtf8 =>
            "the path of this bubbler binary is not UTF-8, so no entry can name it"@,
        DesktopErrorView::Foreign(path) => lossy(path)
            + " exists and is not bubbler's; move it aside first"@,
        DesktopErrorView::OtherInstance { path, instance } => lossy(path)
            + " is the entry of instance `"@ + instance + "`; remove that one first"@,
        DesktopErrorView::NotGenerated { instance, dir } => "no desktop entry of instance `"@
            + instance + "` in "@ + lossy(dir),
        DesktopErrorView::Io(path, _) => lossy(path),
    }
}

impl DesktopError {
    /// The message this error is shown with.
    pub fn message(&self) -> (r: String)
        ensures
            r@ == desktop_message(self@),
    {
        match self {
            DesktopError::NoCommand(name) => joined(
                &joined("instance `", name),
                "` has no `command` node, so there is no application to find an entry for; name one with `desktop \"<name>.desktop\"`",
            ),
            DesktopError::HintNotFound { name, dirs } => joined(
                &joined(&joined("no `", name), "` in "),
                &commas(&path_texts(dirs)),
            ),
            DesktopError::NotFound { command } => joined(
                &joined("no desktop entry runs `", command),
                "`; name one with `desktop \"<name>.desktop\"` in the instance's config.kdl",
            ),
            DesktopError::Ambiguous { command, candidates } => joined(
                &joined(
                    &joined(
                        &joined(
                            &joined(&decimal(candidates.len() as u64), " desktop entries run `"),
                            command,
                        ),
                        "`: ",
                    ),
                    &commas(candidates),
                ),
                "; name one with `desktop \"<name>.desktop\"` in the instance's config.kdl",
            ),
            DesktopError::NoEntryGroup => "no `[Desktop Entry]` group".to_owned(),
            DesktopError::NoExec => "no `Exec` key in its `[Desktop Entry]` group".to_owned(),
            DesktopError::Hidden =>
                "it carries `Hidden=true`, which means the entry is not to be used at all".to_owned(),
            DesktopError::Generated(name) => joined(
                &joined("it is bubbler's own entry for instance `", name),
                "`, not an application's",
            ),
            DesktopError::NotUtf8(path) => joined(
                &lossy_text(path),
                " is not UTF-8, so it is not a desktop entry",
            ),
            DesktopError::ProgramNotUtf8 =>
                "the path of this bubbler binary is not UTF-8, so no entry can name it".to_owned(),
            DesktopError::Foreign(path) => joined(
                &lossy_text(path),
                " exists and is not bubbler's; move it aside first",
            ),
            DesktopError::OtherInstance { path, instance } => joined(
                &joined(&joined(&lossy_text(path), " is the entry of instance `"), instance),
                "`; remove that one first",
            ),
            DesktopError::NotGenerated { instance, dir } => joined(
                &joined(&joined("no desktop entry of instance `", instance), "` in "),
                &lossy_text(dir),
            ),
            DesktopError::Io(path, _) => lossy_text(path),
        }
    }
}

} // verus!
