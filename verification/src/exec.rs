//! Client side of the exec channel: what is decided of a command that runs in
//! a live instance, through the control socket in its runtime directory.
//!
//! What the command gets for stdio is the terminal mode's decision: a pty
//! bubbler allocated and relays, or bubbler's own descriptors. Descriptors
//! handed over are reachable through `/proc` by everything else in the
//! sandbox, so the channel is a tooling path, not a hardening boundary.

use vstd::prelude::*;

use crate::dbus::address::RUNTIME_SUBDIR;
use crate::env::Env;
use crate::error::{LaunchError, LaunchErrorView};
use crate::exec_laws::every_piped_descriptor_is_a_pipe;
use crate::paths::{join, join_path};
use crate::text::utf8;

verus! {

/// Name of the control socket inside an instance's runtime directory.
pub const SOCKET_NAME: &'static str = "init.sock";

/// Where the control socket of an instance is.
pub open spec fn control_socket(runtime_dir: Seq<u8>, name: Seq<char>) -> Seq<u8> {
    join_path(
        join_path(join_path(runtime_dir, utf8(RUNTIME_SUBDIR@)), utf8(name)),
        utf8(SOCKET_NAME@),
    )
}

/// `$XDG_RUNTIME_DIR/bubbler/<name>/init.sock`. `name` is an instance name
/// the caller has already validated.
pub fn socket_path(env: &Env, name: &str) -> (r: Vec<u8>)
    ensures
        r@ == control_socket(env.runtime_dir@, name@),
{
    join(
        &join(&join(&env.runtime_dir, RUNTIME_SUBDIR.as_bytes()), name.as_bytes()),
        SOCKET_NAME.as_bytes(),
    )
}

/// What came of connecting to the control socket.
#[derive(Debug, Clone, Copy, PartialEq, Eq, Structural)]
pub enum Connecting {
    /// Somebody listens.
    Connected,
    /// There is no socket.
    Missing,
    /// There is one, and nobody listens on it.
    Refused,
    /// Anything else.
    Failed,
}

/// What is made of it.
#[derive(Debug, Clone, Copy, PartialEq, Eq, Structural)]
pub enum Liveness {
    /// The instance runs.
    Running,
    /// It does not.
    NotRunning,
    /// It does not, and the socket it left is to be unlinked so a fresh start
    /// can bind the path again.
    Stale,
    /// It cannot be told: the failure is reported.
    Unknown,
}

/// What an attempt to connect tells of an instance.
pub open spec fn told_by(connecting: Connecting) -> Liveness {
    match connecting {
        Connecting::Connected => Liveness::Running,
        Connecting::Missing => Liveness::NotRunning,
        Connecting::Refused => Liveness::Stale,
        Connecting::Failed => Liveness::Unknown,
    }
}

/// Whether an instance runs, by what came of connecting to it.
pub fn liveness(connecting: Connecting) -> (r: Liveness)
    ensures
        r == told_by(connecting),
        r == (match connecting {
            Connecting::Connected => Liveness::Running,
            Connecting::Missing => Liveness::NotRunning,
            Connecting::Refused => Liveness::Stale,
            Connecting::Failed => Liveness::Unknown,
        }),
{
    match connecting {
        Connecting::Connected => Liveness::Running,
        Connecting::Missing => Liveness::NotRunning,
        Connecting::Refused => Liveness::Stale,
        Connecting::Failed => Liveness::Unknown,
    }
}

/// The signals that end a relayed command. Caught rather than fatal because
/// the terminal is bubbler's to give back: a killed relay would leave the
/// user's terminal raw.
#[derive(Debug, Clone, Copy, PartialEq, Eq, Structural)]
pub enum StopSignal {
    Interrupt,
    Terminate,
    Hangup,
}

/// The code a signal leaves: 128 and its number.
pub open spec fn signal_code(signal: StopSignal) -> i32 {
    match signal {
        StopSignal::Interrupt => 130,
        StopSignal::Terminate => 143,
        StopSignal::Hangup => 129,
    }
}

impl StopSignal {
    /// The code it leaves.
    pub fn code(self) -> (r: i32)
        ensures
            r == signal_code(self),
    {
        match self {
            StopSignal::Interrupt => 130,
            StopSignal::Terminate => 143,
            StopSignal::Hangup => 129,
        }
    }
}

/// The exit code a wait status is propagated as: the code the command exited
/// with, or 128 and the signal that ended it.
pub open spec fn code_of(status: u32) -> int {
    if status % 128 == 0 {
        ((status / 256) % 256) as int
    } else {
        128 + status % 128
    }
}

/// The exit code a wait status is propagated as.
pub fn exit_code(status: u32) -> (r: i32)
    ensures
        r == code_of(status),
        0 <= r <= 255,
        status < 65536 && status % 256 == 0 ==> 256 * r == status,
        1 <= status < 128 ==> r == 128 + status,
{
    if status % 128 == 0 {
        ((status / 256) % 256) as i32
    } else {
        128 + (status % 128) as i32
    }
}

/// A command that exits with a code is propagated as that code, every code
/// there is, so two that exit differently are never told as one; and one that
/// a signal ends as 128 and that signal, with a core dump or without.
pub proof fn every_code_is_propagated_as_it_is(code: u32, other: u32, signal: u32)
    requires
        code <= 255,
        other <= 255,
        1 <= signal <= 127,
    ensures
        code_of((code * 256) as u32) == code,
        code != other ==> code_of((code * 256) as u32) != code_of((other * 256) as u32),
        code_of(signal) == 128 + signal,
        code_of((signal + 128) as u32) == 128 + signal,
{
    let status = (code * 256) as u32;
    let differs = (other * 256) as u32;
    assert(status % 128 == 0 && (status / 256) % 256 == code);
    assert(differs % 128 == 0 && (differs / 256) % 256 == other);
}

/// The code of a stop signal is the one a command ended by that signal is
/// propagated as: 2 for an interrupt, 15 for a termination and 1 for a hangup.
pub proof fn a_stop_signal_has_the_code_of_its_number()
    ensures
        signal_code(StopSignal::Interrupt) == code_of(2),
        signal_code(StopSignal::Terminate) == code_of(15),
        signal_code(StopSignal::Hangup) == code_of(1),
        code_of(2) == 130 && code_of(15) == 143 && code_of(1) == 129,
{
}

/// What bubbler moves for a command.
#[derive(Debug, Clone, Copy, PartialEq, Eq, Structural)]
pub enum Relay {
    /// The pty it allocated.
    Terminal,
    /// The pipes that stand for some of the command's descriptors.
    Pipes,
    /// Nothing: the status is all there is to wait for.
    Bare,
}

/// What bubbler moves for a command with so many pipes.
pub open spec fn relayed(has_terminal: bool, pipes: nat) -> Relay {
    if has_terminal {
        Relay::Terminal
    } else if pipes > 0 {
        Relay::Pipes
    } else {
        Relay::Bare
    }
}

/// What bubbler moves for a command.
pub fn relay(has_terminal: bool, pipes: usize) -> (r: Relay)
    ensures
        r == relayed(has_terminal, pipes as nat),
        r == (if has_terminal {
            Relay::Terminal
        } else if pipes > 0 {
            Relay::Pipes
        } else {
            Relay::Bare
        }),
{
    if has_terminal {
        Relay::Terminal
    } else if pipes > 0 {
        Relay::Pipes
    } else {
        Relay::Bare
    }
}

impl Relay {
    /// Whether the stop signals are caught: only while something is being
    /// relayed. With nothing of bubbler's in between, the terminal is
    /// untouched and a signal is the caller's to die of.
    pub fn catches_signals(self) -> (r: bool)
        ensures
            r == (self != Relay::Bare),
    {
        match self {
            Relay::Bare => false,
            _ => true,
        }
    }

    /// Whether a change of the terminal's size is caught.
    pub fn follows_size(self) -> (r: bool)
        ensures
            r == (self == Relay::Terminal),
    {
        match self {
            Relay::Terminal => true,
            _ => false,
        }
    }
}

/// The first of bubbler's three descriptors that is a terminal, which is the
/// one a pty is made like.
pub fn first_terminal(is_tty: [bool; 3]) -> (r: Option<usize>)
    ensures
        match r {
            Some(i) => i < 3 && is_tty[i as int] && forall|j: int| 0 <= j < i ==> !is_tty[j],
            None => forall|j: int| 0 <= j < 3 ==> !is_tty[j],
        },
{
    if is_tty[0] {
        Some(0)
    } else if is_tty[1] {
        Some(1)
    } else if is_tty[2] {
        Some(2)
    } else {
        None
    }
}

/// What a command gets for one of its three descriptors.
#[derive(Debug, Clone, Copy, PartialEq, Eq, Structural)]
pub enum StdioTarget {
    /// The pty bubbler allocated.
    Slave,
    /// bubbler's own descriptor.
    Inherit,
    /// Nothing: `/dev/null`.
    Null,
    /// A pipe whose other end bubbler reads.
    Pipe,
}

/// What is done for each of the three descriptors, and which of them are
/// pipes.
#[derive(Debug, Clone, PartialEq, Eq)]
pub struct Stdio {
    pub targets: [StdioTarget; 3],
    pub pipes: Vec<usize>,
}

/// The descriptors among the first `n` that are pipes, in order.
pub open spec fn piped(targets: Seq<StdioTarget>, n: int) -> Seq<usize>
    decreases n,
{
    if n <= 0 {
        Seq::empty()
    } else if targets[n - 1] == StdioTarget::Pipe {
        piped(targets, n - 1).push((n - 1) as usize)
    } else {
        piped(targets, n - 1)
    }
}

/// What is done for each of the command's three descriptors. Everything that
/// is handed over is duplicated: bubbler drops its copies once the request is
/// on its way, and the ones inside the sandbox live on.
///
/// A target that names a pty that was never allocated is refused: sending
/// bubbler's own terminal instead would hide the mistake.
pub fn stdio(targets: [StdioTarget; 3], has_pty: bool) -> (r: Result<Stdio, LaunchError>)
    ensures
        match r {
            Ok(s) => (has_pty || !targets@.contains(StdioTarget::Slave)) && s.targets == targets
                && s.pipes@ == piped(targets@, 3) && (forall|i: int|
                0 <= i < 3 ==> (s.pipes@.contains(i as usize) <==> #[trigger] targets@[i]
                    == StdioTarget::Pipe)),
            Err(e) => !has_pty && targets@.contains(StdioTarget::Slave) && e@
                == LaunchErrorView::Pty("no pty was allocated for this command"@),
        },
{
    let mut pipes: Vec<usize> = Vec::new();
    let mut i: usize = 0;
    while i < 3
        invariant
            i <= 3,
            has_pty || (forall|j: int| 0 <= j < i ==> targets@[j] != StdioTarget::Slave),
            pipes@ == piped(targets@, i as int),
        decreases 3 - i,
    {
        let target = targets[i];
        assert(target == targets@[i as int]);
        if target == StdioTarget::Slave && !has_pty {
            assert(targets@.contains(StdioTarget::Slave));
            return Err(LaunchError::Pty("no pty was allocated for this command".to_owned()));
        }
        if target == StdioTarget::Pipe {
            pipes.push(i);
        }
        i = i + 1;
    }
    proof {
        every_piped_descriptor_is_a_pipe(targets@, 3);
    }
    Ok(Stdio { targets, pipes })
}

/// Why no status could be read of the channel.
#[derive(Debug, PartialEq, Eq)]
pub enum ChannelFault {
    /// It was closed.
    Closed,
    /// Anything else, and what the system said.
    Broken(String),
}

/// Model of a [`ChannelFault`].
pub enum FaultView {
    Closed,
    Broken(Seq<char>),
}

impl View for ChannelFault {
    type V = FaultView;

    open spec fn view(&self) -> FaultView {
        match self {
            ChannelFault::Closed => FaultView::Closed,
            ChannelFault::Broken(s) => FaultView::Broken(s@),
        }
    }
}

/// The error a fault is reported by.
pub open spec fn fault_error(fault: FaultView) -> LaunchErrorView {
    LaunchErrorView::Protocol(
        match fault {
            FaultView::Closed => "the instance stopped while the command was running"@,
            FaultView::Broken(s) => s,
        },
    )
}

/// The error a fault is reported by.
pub fn protocol_error(fault: ChannelFault) -> (r: LaunchError)
    ensures
        r@ == fault_error(fault@),
{
    LaunchError::Protocol(
        match fault {
            ChannelFault::Closed => "the instance stopped while the command was running".to_owned(),
            ChannelFault::Broken(s) => s,
        },
    )
}

/// What is known of a command that runs: the answer that came, and the signal
/// that was caught.
#[derive(Debug)]
pub struct Waiting {
    pub received: Option<Result<u32, ChannelFault>>,
    pub signalled: Option<StopSignal>,
}

/// Model of [`Waiting`].
pub struct WaitingView {
    pub received: Option<Result<u32, FaultView>>,
    pub signalled: Option<StopSignal>,
}

/// The model of an answer.
pub open spec fn answer_view(answer: Result<u32, ChannelFault>) -> Result<u32, FaultView> {
    match answer {
        Ok(status) => Ok(status),
        Err(fault) => Err(fault@),
    }
}

impl View for Waiting {
    type V = WaitingView;

    open spec fn view(&self) -> WaitingView {
        WaitingView {
            received: match self.received {
                Some(answer) => Some(answer_view(answer)),
                None => None,
            },
            signalled: self.signalled,
        }
    }
}

/// How a relay ended.
#[derive(Debug, Clone, Copy, PartialEq, Eq, Structural)]
pub enum RelayEnd {
    /// The user detached.
    Detached,
    /// It was told to end.
    Exited,
}

/// How a command ended for bubbler.
#[derive(Debug, Clone, Copy, PartialEq, Eq, Structural)]
pub enum Ended {
    /// The user detached: the command stays with the supervisor, and the code
    /// is zero. The terminal is restored before a note says so.
    Detached,
    /// The code to propagate.
    Code(i32),
}

/// The code the relay is told to end with when it asks.
pub open spec fn polled_code(
    answer: Option<Result<u32, FaultView>>,
    signal: Option<StopSignal>,
) -> Option<int> {
    match answer {
        Some(Ok(status)) => Some(code_of(status)),
        Some(Err(_)) => Some(1),
        None => match signal {
            Some(s) => Some(signal_code(s) as int),
            None => None,
        },
    }
}

/// What is known once the relay has asked.
pub open spec fn polled(
    before: WaitingView,
    answer: Option<Result<u32, FaultView>>,
    signal: Option<StopSignal>,
) -> WaitingView {
    match answer {
        Some(a) => WaitingView { received: Some(a), signalled: before.signalled },
        None => match signal {
            Some(s) => WaitingView { received: before.received, signalled: Some(s) },
            None => before,
        },
    }
}

/// What a command's run comes to.
pub open spec fn concluded(end: RelayEnd, known: WaitingView) -> Result<Ended, LaunchErrorView> {
    match end {
        RelayEnd::Detached => Ok(Ended::Detached),
        RelayEnd::Exited => match known.received {
            Some(Ok(status)) => Ok(Ended::Code(code_of(status) as i32)),
            Some(Err(fault)) => Err(fault_error(fault)),
            None => match known.signalled {
                Some(s) => Ok(Ended::Code(signal_code(s))),
                None => Err(
                    LaunchErrorView::Protocol("the instance sent no status for the command"@),
                ),
            },
        },
    }
}

impl Waiting {
    /// Nothing known yet.
    pub fn new() -> (r: Self)
        ensures
            r@ == (WaitingView { received: None, signalled: None }),
    {
        Waiting { received: None, signalled: None }
    }

    /// The relay asks whether to end, and with what code. Any answer of the
    /// supervisor's ends the wait, since the status is the only thing it ever
    /// writes; a broken one is reported at the end. A status already in hand
    /// wins over a signal arriving with it.
    pub fn poll(
        &mut self,
        answer: Option<Result<u32, ChannelFault>>,
        signal: Option<StopSignal>,
    ) -> (r: Option<i32>)
        ensures
            final(self)@ == polled(
                old(self)@,
                (match answer {
                    Some(a) => Some(answer_view(a)),
                    None => None,
                }),
                signal,
            ),
            match r {
                Some(code) => polled_code(
                    (match answer {
                        Some(a) => Some(answer_view(a)),
                        None => None,
                    }),
                    signal,
                ) == Some(code as int),
                None => answer is None && signal is None,
            },
    {
        match answer {
            Some(a) => {
                let code = match &a {
                    Ok(status) => exit_code(*status),
                    Err(_) => 1,
                };
                self.received = Some(a);
                Some(code)
            },
            None => match signal {
                Some(s) => {
                    self.signalled = Some(s);
                    Some(s.code())
                },
                None => None,
            },
        }
    }

    /// What the run comes to once the relay has ended: the exit code to
    /// propagate. A detached command is left under the instance's supervisor,
    /// and so is one whose relay a signal ended: the channel carries a
    /// request and a status, and nothing else.
    pub fn conclude(self, end: RelayEnd) -> (r: Result<Ended, LaunchError>)
        ensures
            match r {
                Ok(ended) => concluded(end, self@) == Ok::<Ended, LaunchErrorView>(ended),
                Err(e) => concluded(end, self@) == Err::<Ended, LaunchErrorView>(e@),
            },
    {
        match end {
            RelayEnd::Detached => Ok(Ended::Detached),
            RelayEnd::Exited => match self.received {
                Some(Ok(status)) => Ok(Ended::Code(exit_code(status))),
                Some(Err(fault)) => Err(protocol_error(fault)),
                None => match self.signalled {
                    Some(s) => Ok(Ended::Code(s.code())),
                    None => Err(
                        LaunchError::Protocol(
                            "the instance sent no status for the command".to_owned(),
                        ),
                    ),
                },
            },
        }
    }
}

/// A status that has arrived is the one that is propagated, whatever signals
/// came before it, with it or after it.
pub proof fn a_status_wins_over_a_signal(
    known: WaitingView,
    status: u32,
    first: Option<StopSignal>,
    later: Option<StopSignal>,
)
    ensures
        ({
            let now = polled(known, Some(Ok(status)), first);
            let then = polled(now, None, later);
            &&& polled_code(Some(Ok(status)), first) == Some(code_of(status))
            &&& concluded(RelayEnd::Exited, now) == Ok::<Ended, LaunchErrorView>(
                Ended::Code(code_of(status) as i32),
            )
            &&& concluded(RelayEnd::Exited, then) == concluded(RelayEnd::Exited, now)
        }),
{
}

} // verus!
