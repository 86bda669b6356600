//! What is propagated of a command, whatever happens to it.

use vstd::prelude::*;
use vstd::utf8::is_ascii_chars_encode_utf8;

use crate::error::LaunchErrorView;
use crate::exec::{
    code_of, concluded, control_socket, fault_error, piped, polled, polled_code, relayed,
    signal_code, told_by, Connecting, Ended, FaultView, Liveness, Relay, RelayEnd, StdioTarget,
    StopSignal, WaitingView,
};
use crate::paths::join_path;
use crate::text::{lemma_utf8_injective, utf8};

verus! {

/// The pipes are the descriptors that are to be piped, each of them once, from
/// the lowest up, and no other.
pub proof fn every_piped_descriptor_is_a_pipe(targets: Seq<StdioTarget>, n: int)
    requires
        0 <= n <= targets.len() <= 3,
    ensures
        forall|i: int|
            0 <= i < n ==> (piped(targets, n).contains(i as usize) <==> #[trigger] targets[i]
                == StdioTarget::Pipe),
        forall|k: int|
            0 <= k < piped(targets, n).len() ==> (#[trigger] piped(targets, n)[k]) < n,
        forall|k: int, l: int|
            0 <= k < l < piped(targets, n).len() ==> #[trigger] piped(targets, n)[k]
                < #[trigger] piped(targets, n)[l],
    decreases n,
{
    if n > 0 {
        every_piped_descriptor_is_a_pipe(targets, n - 1);
        let before = piped(targets, n - 1);
        let all = piped(targets, n);
        assert forall|i: int| 0 <= i < n implies (all.contains(i as usize) <==> #[trigger] targets[i]
            == StdioTarget::Pipe) by {
            if before.contains(i as usize) {
                assert(all[before.index_of(i as usize)] == i as usize);
            }
            if i == n - 1 && targets[i] == StdioTarget::Pipe {
                assert(all.last() == i as usize);
            }
            if all.contains(i as usize) {
                let k = all.index_of(i as usize);
                if k < before.len() {
                    assert(before[k] == i as usize);
                }
            }
        }
    }
}

/// A poll that brings nothing changes nothing and ends nothing; a signal alone
/// ends the wait with its own code, and is remembered beside an answer that
/// had come; a fault ends it with 1.
pub proof fn a_wait_ends_with_what_came(
    known: WaitingView,
    signal: StopSignal,
    fault: FaultView,
    beside: Option<StopSignal>,
)
    ensures
        polled(known, None, None) == known,
        polled_code(None, None) is None,
        polled(known, None, Some(signal)).signalled == Some(signal),
        polled(known, None, Some(signal)).received == known.received,
        polled_code(None, Some(signal)) == Some(signal_code(signal) as int),
        polled(known, Some(Err(fault)), beside).received == Some(Err::<u32, FaultView>(fault)),
        polled(known, Some(Err(fault)), beside).signalled == known.signalled,
        polled_code(Some(Err(fault)), beside) == Some(1int),
{
}

/// How a command is told to have ended: a user who detached is told so,
/// whatever came; else the status that came, a fault that came, or the signal
/// that was caught, in this order, and an error where there is none of these.
/// A code is the one the poll that ended the wait gave.
pub proof fn an_end_is_what_is_known_of_it(
    known: WaitingView,
    status: u32,
    fault: FaultView,
    signal: StopSignal,
)
    ensures
        concluded(RelayEnd::Detached, known) == Ok::<Ended, LaunchErrorView>(Ended::Detached),
        known.received == Some(Ok::<u32, FaultView>(status)) ==> concluded(RelayEnd::Exited, known)
            == Ok::<Ended, LaunchErrorView>(Ended::Code(code_of(status) as i32)),
        known.received == Some(Err::<u32, FaultView>(fault)) ==> concluded(RelayEnd::Exited, known)
            == Err::<Ended, LaunchErrorView>(fault_error(fault)),
        known.received is None && known.signalled == Some(signal) ==> concluded(
            RelayEnd::Exited,
            known,
        ) == Ok::<Ended, LaunchErrorView>(Ended::Code(signal_code(signal))),
        known.received is None && known.signalled is None ==> concluded(RelayEnd::Exited, known)
            is Err,
        0 <= code_of(status) <= 255,
{
}

/// A fault is told in the words of the system where it gave any, and a closed
/// channel in the same words every time.
pub proof fn a_fault_is_told_in_its_own_words(words: Seq<char>)
    ensures
        fault_error(FaultView::Broken(words)) == LaunchErrorView::Protocol(words),
        fault_error(FaultView::Closed) == LaunchErrorView::Protocol(
            "the instance stopped while the command was running"@,
        ),
{
}

/// The control socket of an instance is `bubbler/<instance>/init.sock` under
/// the runtime directory, so no two instances have one.
pub proof fn every_instance_has_its_own_socket(runtime_dir: Seq<u8>, a: Seq<char>, b: Seq<char>)
    requires
        runtime_dir.len() > 0,
        runtime_dir.last() != 47,
        utf8(a).len() > 0,
        utf8(a)[0] != 47,
        utf8(a).last() != 47,
        utf8(b).len() > 0,
        utf8(b)[0] != 47,
        utf8(b).last() != 47,
    ensures
        control_socket(runtime_dir, a) == runtime_dir + utf8("/bubbler/"@) + utf8(a) + utf8(
            "/init.sock"@,
        ),
        control_socket(runtime_dir, a) == control_socket(runtime_dir, b) ==> a == b,
{
    lemma_socket(runtime_dir, a);
    lemma_socket(runtime_dir, b);
    let (x, y) = (control_socket(runtime_dir, a), control_socket(runtime_dir, b));
    if x == y {
        let head = runtime_dir + utf8("/bubbler/"@);
        let tail = utf8("/init.sock"@);
        assert(utf8(a) =~= x.subrange(head.len() as int, x.len() - tail.len()));
        assert(utf8(b) =~= y.subrange(head.len() as int, y.len() - tail.len()));
        lemma_utf8_injective(a, b);
    }
}

proof fn lemma_socket(runtime_dir: Seq<u8>, a: Seq<char>)
    requires
        runtime_dir.len() > 0,
        runtime_dir.last() != 47,
        utf8(a).len() > 0,
        utf8(a)[0] != 47,
        utf8(a).last() != 47,
    ensures
        control_socket(runtime_dir, a) == runtime_dir + utf8("/bubbler/"@) + utf8(a) + utf8(
            "/init.sock"@,
        ),
{
    lemma_words();
    let one = join_path(runtime_dir, utf8("bubbler"@));
    assert(one =~= runtime_dir.push(47) + utf8("bubbler"@));
    let two = join_path(one, utf8(a));
    assert(two =~= one.push(47) + utf8(a));
    assert(control_socket(runtime_dir, a) =~= two.push(47) + utf8("init.sock"@));
    assert(control_socket(runtime_dir, a) =~= runtime_dir + utf8("/bubbler/"@) + utf8(a) + utf8(
        "/init.sock"@,
    ));
}

proof fn lemma_words()
    ensures
        utf8("/bubbler/"@) == seq![47u8] + utf8("bubbler"@) + seq![47u8],
        utf8("/init.sock"@) == seq![47u8] + utf8("init.sock"@),
        utf8("bubbler"@).len() > 0 && utf8("bubbler"@)[0] != 47 && utf8("bubbler"@).last() != 47,
        utf8("init.sock"@).len() > 0 && utf8("init.sock"@)[0] != 47,
{
    reveal_strlit("/bubbler/");
    reveal_strlit("bubbler");
    reveal_strlit("/init.sock");
    reveal_strlit("init.sock");
    is_ascii_chars_encode_utf8("/bubbler/"@);
    is_ascii_chars_encode_utf8("bubbler"@);
    is_ascii_chars_encode_utf8("/init.sock"@);
    is_ascii_chars_encode_utf8("init.sock"@);
    assert(utf8("/bubbler/"@) =~= seq![47u8] + utf8("bubbler"@) + seq![47u8]);
    assert(utf8("/init.sock"@) =~= seq![47u8] + utf8("init.sock"@));
}

/// An instance runs exactly where somebody listens, and its socket is to be
/// unlinked exactly where there is one that nobody listens on; no two attempts
/// tell the same.
pub proof fn an_instance_runs_where_somebody_listens(a: Connecting, b: Connecting)
    ensures
        told_by(a) == Liveness::Running <==> a == Connecting::Connected,
        told_by(a) == Liveness::Stale <==> a == Connecting::Refused,
        told_by(a) == Liveness::NotRunning <==> a == Connecting::Missing,
        told_by(a) == told_by(b) ==> a == b,
{
}

/// A terminal is moved where there is one, however many pipes there are; pipes
/// where there is one and no terminal; and nothing else.
pub proof fn a_terminal_is_moved_before_pipes(has_terminal: bool, pipes: nat)
    ensures
        relayed(has_terminal, pipes) == Relay::Terminal <==> has_terminal,
        relayed(has_terminal, pipes) == Relay::Bare <==> !has_terminal && pipes == 0,
        relayed(has_terminal, pipes) == Relay::Pipes <==> !has_terminal && pipes >= 1,
{
}

} // verus!
