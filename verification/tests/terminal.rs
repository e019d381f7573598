use kurumi_containerd::helper::process::WaitStatus;
use kurumi_containerd::helper::signal::SignalNumber;
use kurumi_containerd::host::process::{
    poll_milliseconds, require_handle, wait_for_exit, PollOutcome, WaitDecision,
};
use kurumi_containerd::host::terminal::{
    ensure_broker_success, pty_broker_id, write_all, BrokerError, InputDecision, InputRead,
    OutputDecision, OutputRead, Platform, Proxy, WriteDecision, WriteOutcome,
};

#[test]
fn uses_android_nobody_for_pty_broker() {
    assert_eq!(pty_broker_id(Platform::Android), 9_999);
}

#[test]
fn uses_linux_nobody_for_pty_broker() {
    assert_eq!(pty_broker_id(Platform::Linux), 65_534);
}

#[test]
fn brokers_have_to_succeed() {
    let signal = SignalNumber::from_kernel(9);
    assert_eq!(ensure_broker_success(WaitStatus::Exited(1, 0)), Ok(()));
    assert_eq!(ensure_broker_success(WaitStatus::Exited(1, 4)), Err(BrokerError::Exited(4)));
    assert_eq!(
        ensure_broker_success(WaitStatus::Signaled(1, signal, false)),
        Err(BrokerError::Terminated(9))
    );
    assert_eq!(ensure_broker_success(WaitStatus::StillAlive), Err(BrokerError::Unexpected));
}

#[test]
fn writing_goes_on_until_all_is_written() {
    assert_eq!(write_all(10, WriteOutcome::Wrote(4)), WriteDecision::Remaining(6));
    assert_eq!(write_all(10, WriteOutcome::Wrote(10)), WriteDecision::Remaining(0));
    assert_eq!(write_all(10, WriteOutcome::Wrote(0)), WriteDecision::Stopped);
    assert_eq!(write_all(10, WriteOutcome::Interrupted), WriteDecision::Remaining(10));
    assert_eq!(write_all(10, WriteOutcome::Failed), WriteDecision::Report);
}

#[test]
fn escape_and_control_q_ask_for_shutdown() {
    let mut proxy = Proxy::new(true);
    assert_eq!(
        proxy.on_input(&InputRead::Data(b"ls\n".to_vec())),
        InputDecision::Forward(0)
    );
    assert_eq!(
        proxy.on_input(&InputRead::Data(vec![0x1b, 0x11, b'b'])),
        InputDecision::Shutdown(2)
    );
    let mut plain = Proxy::new(false);
    assert_eq!(
        plain.on_input(&InputRead::Data(vec![0x1b, 0x11, b'b'])),
        InputDecision::Forward(0)
    );
}

#[test]
fn the_proxy_ends_with_its_child() {
    let mut proxy = Proxy::new(false);
    assert_eq!(proxy.on_output(OutputRead::Data), OutputDecision::Show);
    let status = WaitStatus::Exited(5, 3);
    assert_eq!(proxy.end_round(WaitStatus::StillAlive), None);
    assert_eq!(proxy.end_round(status), None);
    proxy.begin_round(0);
    assert_eq!(proxy.end_round(WaitStatus::StillAlive), None);
    proxy.begin_round(0);
    assert_eq!(proxy.end_round(WaitStatus::StillAlive), Some(status));
    let mut closed = Proxy::new(false);
    assert_eq!(closed.on_output(OutputRead::Closed), OutputDecision::Pass);
    closed.end_round(status);
    assert_eq!(closed.on_output(OutputRead::Closed), OutputDecision::Finish(status));
}

#[test]
fn signals_are_passed_to_the_child_once() {
    assert_eq!(Proxy::new(false).begin_round(15), None);
    let mut proxy = Proxy::new(true);
    assert_eq!(proxy.begin_round(15), Some(15));
    assert_eq!(proxy.begin_round(0), None);
    assert_eq!(proxy.on_input(&InputRead::Closed), InputDecision::Pass);
    assert!(!proxy.stdin_open);
    assert_eq!(proxy.on_output(OutputRead::Failed), OutputDecision::Report);
}

#[test]
fn handles_need_a_process_and_waits_are_cut() {
    assert_eq!(require_handle(12).unwrap().as_raw(), 12);
    assert!(require_handle(0).is_none());
    assert!(require_handle(-3).is_none());
    assert_eq!(poll_milliseconds(1_000), 100);
    assert_eq!(poll_milliseconds(30), 30);
    assert_eq!(poll_milliseconds(0), 0);
    assert_eq!(wait_for_exit(PollOutcome::Ended, false), WaitDecision::Ended);
    assert_eq!(wait_for_exit(PollOutcome::Quiet, true), WaitDecision::TimedOut);
    assert_eq!(wait_for_exit(PollOutcome::Quiet, false), WaitDecision::LookAgain);
    assert_eq!(wait_for_exit(PollOutcome::Failed, false), WaitDecision::Report);
}
