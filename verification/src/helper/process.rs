//! Processes: how they are forked, how they end, and which of their open
//! files a program they become may inherit.
use vstd::prelude::*;

use crate::helper::signal::SignalNumber;
use crate::text::{decimal, law_decimal_round_trip, parse_decimal, parse_number};

verus! {

/// What became of a child.
#[derive(Clone, Copy, Debug, PartialEq, Eq, Structural)]
pub enum WaitStatus {
    /// The process and its exit code.
    Exited(i32, i32),
    /// The process, the signal that ended it, and whether it left a core.
    Signaled(i32, SignalNumber, bool),
    /// The process and the signal that stopped it.
    Stopped(i32, SignalNumber),
    Continued(i32),
    StillAlive,
}

/// Which side of a fork this is.
#[derive(Clone, Copy, Debug, PartialEq, Eq, Structural)]
pub enum ForkResult {
    Parent { child: i32 },
    Child,
}

/// What the kernel returns from a fork; nothing where it failed.
pub fn fork_result(pid: i32) -> (result: Option<ForkResult>)
    ensures
        result == if pid == -1 {
            None
        } else if pid == 0 {
            Some(ForkResult::Child)
        } else {
            Some(ForkResult::Parent { child: pid })
        },
{
    if pid == -1 {
        None
    } else if pid == 0 {
        Some(ForkResult::Child)
    } else {
        Some(ForkResult::Parent { child: pid })
    }
}

/// `libc::WIFEXITED`: whether the process ended by itself.
pub assume_specification[ libc::WIFEXITED ](status: libc::c_int) -> (result: bool)
    ensures
        result == (status & 0x7f == 0),
;

/// `libc::WEXITSTATUS`: the exit code of a process that ended by itself.
pub assume_specification[ libc::WEXITSTATUS ](status: libc::c_int) -> (result: libc::c_int)
    ensures
        result == (status >> 8) & 0xff,
;

/// `libc::WIFSIGNALED`: whether a signal ended the process.
pub assume_specification[ libc::WIFSIGNALED ](status: libc::c_int) -> (result: bool)
    ensures
        result == (1 <= status & 0x7f <= 126),
;

/// `libc::WTERMSIG`: the signal that ended the process.
pub assume_specification[ libc::WTERMSIG ](status: libc::c_int) -> (result: libc::c_int)
    ensures
        result == status & 0x7f,
;

/// `libc::WCOREDUMP`: whether the process left a core.
pub assume_specification[ libc::WCOREDUMP ](status: libc::c_int) -> (result: bool)
    ensures
        result == (status & 0x80 != 0),
;

/// `libc::WIFSTOPPED`: whether a signal stopped the process.
pub assume_specification[ libc::WIFSTOPPED ](status: libc::c_int) -> (result: bool)
    ensures
        result == (status & 0xff == 0x7f),
;

/// `libc::WSTOPSIG`: the signal that stopped the process.
pub assume_specification[ libc::WSTOPSIG ](status: libc::c_int) -> (result: libc::c_int)
    ensures
        result == (status >> 8) & 0xff,
;

/// What the kernel's answer to a wait means: the process that it is about,
/// or zero where none has changed, and the status word.
pub open spec fn wait_meaning(pid: i32, status: i32) -> WaitStatus {
    if pid == 0 {
        WaitStatus::StillAlive
    } else if status & 0x7f == 0 {
        WaitStatus::Exited(pid, (status >> 8) & 0xff)
    } else if 1 <= status & 0x7f <= 126 {
        WaitStatus::Signaled(pid, SignalNumber { number: status & 0x7f }, status & 0x80 != 0)
    } else if status & 0xff == 0x7f {
        WaitStatus::Stopped(pid, SignalNumber { number: (status >> 8) & 0xff })
    } else {
        WaitStatus::Continued(pid)
    }
}

/// What the kernel's answer to a wait means.
pub fn wait_status(pid: i32, status: i32) -> (result: WaitStatus)
    ensures
        result == wait_meaning(pid, status),
{
    if pid == 0 {
        return WaitStatus::StillAlive;
    }
    if libc::WIFEXITED(status) {
        WaitStatus::Exited(pid, libc::WEXITSTATUS(status))
    } else if libc::WIFSIGNALED(status) {
        WaitStatus::Signaled(
            pid,
            SignalNumber::from_kernel(libc::WTERMSIG(status)),
            libc::WCOREDUMP(status),
        )
    } else if libc::WIFSTOPPED(status) {
        WaitStatus::Stopped(pid, SignalNumber::from_kernel(libc::WSTOPSIG(status)))
    } else {
        WaitStatus::Continued(pid)
    }
}

/// A process that exits with a code below 256 is reported with that code.
pub proof fn law_exit_code_is_reported(pid: i32, code: i32)
    requires
        pid != 0,
        0 <= code <= 255,
    ensures
        wait_meaning(pid, (code << 8) as i32) == WaitStatus::Exited(pid, code),
{
    assert(((code << 8) as i32) & 0x7f == 0 && (((code << 8) as i32) >> 8) & 0xff == code)
        by (bit_vector)
        requires
            0 <= code <= 255,
    ;
}

/// The descriptor that an entry of `/proc/self/fd` names, where a program
/// must not inherit it: all but standard input, output and error.
pub open spec fn withheld(name: Seq<char>) -> Option<nat> {
    match parse_decimal(name, i32::MAX as nat) {
        Some(fd) => if fd > 2 {
            Some(fd)
        } else {
            None
        },
        None => None,
    }
}

/// The descriptor that an entry of `/proc/self/fd` names, where a program
/// must not inherit it.
pub fn withheld_descriptor(name: &str) -> (fd: Option<i32>)
    ensures
        (match fd {
            Some(fd) => Some(fd as nat),
            None => None,
        }) == withheld(name@),
{
    match parse_number(name, 0x7fff_ffff) {
        Some(fd) => if fd > 2 {
            Some(fd as i32)
        } else {
            None
        },
        None => None,
    }
}

/// A process that a signal ends is reported with that signal, and with whether
/// it left a core; a process that is stopped, with the signal that stopped it.
/// Where no process has changed, all are alive.
pub proof fn law_signals_are_reported(pid: i32, signal: i32, core: bool, status: i32)
    requires
        pid != 0,
        1 <= signal <= 126,
    ensures
        wait_meaning(
            pid,
            if core {
                (signal | 0x80) as i32
            } else {
                signal
            },
        ) == WaitStatus::Signaled(pid, SignalNumber { number: signal }, core),
        wait_meaning(pid, ((signal << 8) | 0x7f) as i32) == WaitStatus::Stopped(
            pid,
            SignalNumber { number: signal },
        ),
        wait_meaning(pid, 0xffff) == WaitStatus::Continued(pid),
        wait_meaning(0, status) == WaitStatus::StillAlive,
{
    assert(signal & 0x7f == signal && signal & 0x80 == 0) by (bit_vector)
        requires
            1 <= signal <= 126,
    ;
    assert((signal | 0x80) & 0x7f == signal && (signal | 0x80) & 0x80 != 0) by (bit_vector)
        requires
            1 <= signal <= 126,
    ;
    assert(((signal << 8) | 0x7f) & 0x7f == 0x7f && ((signal << 8) | 0x7f) & 0xff == 0x7f && ((
    (signal << 8) | 0x7f) >> 8) & 0xff == signal) by (bit_vector)
        requires
            1 <= signal <= 126,
    ;
    assert(0xffffi32 & 0x7f == 0x7f && 0xffffi32 & 0xff == 0xff) by (bit_vector);
}

/// Every descriptor but standard input, output and error is withheld.
pub proof fn law_standard_descriptors_are_kept(fd: nat)
    requires
        fd <= i32::MAX,
    ensures
        withheld(decimal(fd)) == if fd == 0 || fd == 1 || fd == 2 {
            None
        } else {
            Some(fd)
        },
{
    law_decimal_round_trip(fd, i32::MAX as nat);
}

} // verus!
