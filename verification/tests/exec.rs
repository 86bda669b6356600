//! Commands in a live instance.

use bubbler_core::env::Env;
use bubbler_core::error::LaunchError;
use bubbler_core::exec::{
    exit_code, first_terminal, liveness, relay, socket_path, stdio, ChannelFault, Connecting,
    Ended, Liveness, Relay, RelayEnd, StdioTarget, StopSignal, Waiting,
};

fn env(runtime_dir: &str) -> Env {
    Env {
        home: "/home/han".into(),
        data_home: "/home/han/.local/share".into(),
        config_home: "/home/han/.config".into(),
        data_dirs: vec![],
        runtime_dir: runtime_dir.into(),
        uid: 1000,
        gid: 1000,
        wayland_display: None,
        display: None,
        xauthority: None,
        passthrough: vec![],
        init_override: None,
        dbus_address: None,
        dbus_system_address: None,
        at_spi_bus_address: None,
        dbus_log: false,
        net_proxy_log: false,
        seccomp_log: false,
        test_allow_path: None,
        profile_dir_override: None,
        proxy_override: None,
        pasta_override: None,
        wl_proxy_override: None,
        net_proxy_override: None,
    }
}

#[test]
fn a_missing_socket_is_not_running() {
    let e = env("/run/user/1000");
    assert_eq!(
        socket_path(&e, "t"),
        b"/run/user/1000/bubbler/t/init.sock".to_vec()
    );
    assert_eq!(liveness(Connecting::Missing), Liveness::NotRunning);
}

#[test]
fn a_socket_nobody_listens_on_is_unlinked_and_a_missing_one_is_not_running() {
    assert_eq!(liveness(Connecting::Connected), Liveness::Running);
    assert_eq!(liveness(Connecting::Missing), Liveness::NotRunning);
    assert_eq!(liveness(Connecting::Refused), Liveness::Stale);
    assert_eq!(liveness(Connecting::Failed), Liveness::Unknown);
}

#[test]
fn a_status_is_the_code_or_the_signal_that_ended_the_command() {
    assert_eq!(exit_code(3 << 8), 3);
    assert_eq!(exit_code(0), 0);
    assert_eq!(exit_code(255 << 8), 255);
    assert_eq!(exit_code(9), 137);
    // With a core dump the signal is the same.
    assert_eq!(exit_code(0x80 | 11), 139);
}

#[test]
fn a_status_that_arrives_is_the_code_that_is_propagated() {
    let mut waiting = Waiting::new();
    assert_eq!(waiting.poll(None, None), None);
    assert_eq!(
        waiting.poll(Some(Ok(3 << 8)), Some(StopSignal::Interrupt)),
        Some(3)
    );
    assert_eq!(waiting.conclude(RelayEnd::Exited), Ok(Ended::Code(3)));
}

#[test]
fn a_hangup_and_a_broken_channel_are_protocol_errors() {
    let mut waiting = Waiting::new();
    assert_eq!(waiting.poll(Some(Err(ChannelFault::Closed)), None), Some(1));
    assert_eq!(
        waiting.conclude(RelayEnd::Exited),
        Err(LaunchError::Protocol(
            "the instance stopped while the command was running".to_owned()
        ))
    );
    let mut waiting = Waiting::new();
    let broken = ChannelFault::Broken("odd".to_owned());
    assert_eq!(waiting.poll(Some(Err(broken)), None), Some(1));
    let err = waiting.conclude(RelayEnd::Exited).unwrap_err();
    assert_eq!(err.message(), "exec channel: odd");
    assert_eq!(
        Waiting::new().conclude(RelayEnd::Exited),
        Err(LaunchError::Protocol(
            "the instance sent no status for the command".to_owned()
        ))
    );
}

#[test]
fn a_signal_ends_the_relay_and_leaves_its_own_code() {
    for (signal, code) in [
        (StopSignal::Interrupt, 130),
        (StopSignal::Terminate, 143),
        (StopSignal::Hangup, 129),
    ] {
        let mut waiting = Waiting::new();
        assert_eq!(waiting.poll(None, Some(signal)), Some(code));
        assert_eq!(waiting.conclude(RelayEnd::Exited), Ok(Ended::Code(code)));
    }
}

#[test]
fn detaching_wins_over_whatever_came() {
    let mut waiting = Waiting::new();
    assert_eq!(waiting.poll(Some(Ok(256)), None), Some(1));
    assert_eq!(waiting.conclude(RelayEnd::Detached), Ok(Ended::Detached));
}

#[test]
fn signals_are_caught_only_while_something_is_relayed() {
    assert_eq!(relay(true, 2), Relay::Terminal);
    assert_eq!(relay(false, 1), Relay::Pipes);
    assert_eq!(relay(false, 0), Relay::Bare);
    assert!(Relay::Terminal.catches_signals() && Relay::Pipes.catches_signals());
    assert!(!Relay::Bare.catches_signals());
    assert!(Relay::Terminal.follows_size() && !Relay::Pipes.follows_size());
}

#[test]
fn a_pty_is_made_like_the_first_terminal_there_is() {
    assert_eq!(first_terminal([false, true, true]), Some(1));
    assert_eq!(first_terminal([true, true, true]), Some(0));
    assert_eq!(first_terminal([false, false, true]), Some(2));
    assert_eq!(first_terminal([false, false, false]), None);
}

#[test]
fn a_pty_that_was_never_allocated_is_not_replaced_by_the_users_terminal() {
    let (own, null) = (StdioTarget::Inherit, StdioTarget::Null);
    let (pipe, pty) = (StdioTarget::Pipe, StdioTarget::Slave);
    let plan = stdio([pipe, own, pipe], false).unwrap();
    assert_eq!(plan.targets, [pipe, own, pipe]);
    assert_eq!(plan.pipes, [0, 2]);
    assert_eq!(stdio([pty, pty, null], true).unwrap().pipes, [0usize; 0]);
    let refused = stdio([own, pty, null], false).unwrap_err();
    assert_eq!(
        refused,
        LaunchError::Pty("no pty was allocated for this command".to_owned())
    );
    assert_eq!(refused.message(), "setting up the sandbox terminal");
}

#[test]
fn a_status_in_hand_is_not_forgotten_for_a_later_signal() {
    let mut waiting = Waiting::new();
    assert_eq!(waiting.poll(Some(Ok(7 << 8)), None), Some(7));
    assert_eq!(waiting.poll(None, Some(StopSignal::Hangup)), Some(129));
    assert_eq!(waiting.conclude(RelayEnd::Exited), Ok(Ended::Code(7)));
}
