//! Supervision: what the end of a process means, and which signals the
//! processes of the runtime ignore.
use vstd::prelude::*;

use crate::helper::process::WaitStatus;
use crate::helper::signal::{Signal, SignalNumber, SignalTable};

verus! {

/// Whether the init process of a namespace ended because the container asked
/// for a reboot: the kernel then reports a hangup.
pub open spec fn reboots(status: WaitStatus, hangup: i32) -> bool {
    match status {
        WaitStatus::Signaled(pid, signal, core) => signal.number == hangup,
        _ => false,
    }
}

/// Whether the init process ended because the container asked for a reboot.
pub fn is_reboot_status(status: WaitStatus, table: &SignalTable) -> (result: bool)
    ensures
        result == reboots(status, table.numbers()[Signal::Hangup.place()]),
{
    match status {
        WaitStatus::Signaled(_, signal, _) => signal.number == Signal::Hangup.raw(table),
        _ => false,
    }
}

/// The exit code with which a worker passes the end of its child on.
pub open spec fn exit_code_of(status: WaitStatus) -> int {
    match status {
        WaitStatus::Exited(pid, code) => code as int,
        WaitStatus::Signaled(pid, signal, core) => 128 + signal.number,
        _ => 125,
    }
}

/// The exit code with which a worker passes the end of its child on.
pub fn wait_status_code(status: WaitStatus) -> (code: i32)
    requires
        exit_code_of(status) <= i32::MAX,
    ensures
        code == exit_code_of(status),
{
    match status {
        WaitStatus::Exited(_, code) => code,
        WaitStatus::Signaled(_, signal, _) => 128 + signal.number,
        _ => 125,
    }
}

/// The byte by which a generation worker reports the end of init.
pub open spec fn result_byte(reboot: bool) -> u8 {
    if reboot {
        0x52
    } else {
        0x45
    }
}

/// The byte by which a generation worker reports the end of init: `R` for a
/// reboot and `E` for any other end.
pub fn generation_result(reboot: bool) -> (byte: u8)
    ensures
        byte == result_byte(reboot),
{
    if reboot {
        0x52
    } else {
        0x45
    }
}

/// The signals that a monitor ignores and its init gets back.
pub fn monitor_signals() -> (signals: Vec<Signal>)
    ensures
        signals@ == seq![
            Signal::Terminate,
            Signal::Interrupt,
            Signal::Quit,
            Signal::Hangup,
            Signal::Pipe,
            Signal::User1,
            Signal::User2,
        ],
{
    let mut signals: Vec<Signal> = Vec::new();
    signals.push(Signal::Terminate);
    signals.push(Signal::Interrupt);
    signals.push(Signal::Quit);
    signals.push(Signal::Hangup);
    signals.push(Signal::Pipe);
    signals.push(Signal::User1);
    signals.push(Signal::User2);
    signals
}

/// The signals that the parent of a foreground container ignores.
pub fn foreground_parent_signals() -> (signals: Vec<Signal>)
    ensures
        signals@ == seq![Signal::Interrupt, Signal::Terminate],
{
    let mut signals: Vec<Signal> = Vec::new();
    signals.push(Signal::Interrupt);
    signals.push(Signal::Terminate);
    signals
}

/// A reboot is a hangup and nothing else, and is told by another byte than any
/// other end. An exit is passed on with its code, a signal as the number by
/// which shells know it, and anything else as a failure.
pub proof fn law_ends_are_passed_on(
    pid: i32,
    code: i32,
    signal: SignalNumber,
    core: bool,
    hangup: i32,
)
    ensures
        exit_code_of(WaitStatus::Exited(pid, code)) == code,
        exit_code_of(WaitStatus::Signaled(pid, signal, core)) == 128 + signal.number,
        exit_code_of(WaitStatus::StillAlive) == 125,
        exit_code_of(WaitStatus::Continued(pid)) == 125,
        exit_code_of(WaitStatus::Stopped(pid, signal)) == 125,
        reboots(WaitStatus::Signaled(pid, signal, core), hangup) <==> signal.number == hangup,
        !reboots(WaitStatus::Exited(pid, code), hangup),
        !reboots(WaitStatus::StillAlive, hangup),
        !reboots(WaitStatus::Continued(pid), hangup),
        !reboots(WaitStatus::Stopped(pid, signal), hangup),
        result_byte(true) == 'R' as u8,
        result_byte(false) == 'E' as u8,
{
}

} // verus!
