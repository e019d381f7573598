//! The console of a container: the broker that opens it, and the proxy that
//! carries it to the terminal of the user.
use vstd::prelude::*;

use crate::helper::process::WaitStatus;

verus! {

/// The kind of host.
#[derive(Clone, Copy, Debug, PartialEq, Eq, Structural)]
pub enum Platform {
    Linux,
    Android,
}

/// The user and group without rights, as which the broker opens a terminal.
pub fn pty_broker_id(platform: Platform) -> (id: u32)
    ensures
        id == match platform {
            Platform::Linux => 65_534u32,
            Platform::Android => 9_999u32,
        },
{
    match platform {
        Platform::Linux => 65_534,
        Platform::Android => 9_999,
    }
}

/// How a broker failed.
#[derive(Clone, Copy, Debug, PartialEq, Eq, Structural)]
pub enum BrokerError {
    Exited(i32),
    Terminated(i32),
    Unexpected,
}

/// Whether the broker did its work.
pub fn ensure_broker_success(status: WaitStatus) -> (result: Result<(), BrokerError>)
    ensures
        result == match status {
            WaitStatus::Exited(pid, code) => if code == 0 {
                Ok(())
            } else {
                Err(BrokerError::Exited(code))
            },
            WaitStatus::Signaled(pid, signal, core) => Err(
                BrokerError::Terminated(signal.number),
            ),
            _ => Err(BrokerError::Unexpected),
        },
{
    match status {
        WaitStatus::Exited(_, code) => if code == 0 {
            Ok(())
        } else {
            Err(BrokerError::Exited(code))
        },
        WaitStatus::Signaled(_, signal, _) => Err(BrokerError::Terminated(signal.number)),
        _ => Err(BrokerError::Unexpected),
    }
}

/// What a write to the terminal gave.
#[derive(Clone, Copy, Debug, PartialEq, Eq, Structural)]
pub enum WriteOutcome {
    /// So many bytes were taken.
    Wrote(usize),
    Interrupted,
    Failed,
}

/// How the writing goes on.
#[derive(Clone, Copy, Debug, PartialEq, Eq, Structural)]
pub enum WriteDecision {
    /// This many bytes are left.
    Remaining(usize),
    /// The terminal takes no more.
    Stopped,
    Report,
}

/// Decides after one write of `length` bytes that were left.
pub fn write_all(length: usize, outcome: WriteOutcome) -> (decision: WriteDecision)
    requires
        outcome matches WriteOutcome::Wrote(count) ==> count <= length,
    ensures
        decision == match outcome {
            WriteOutcome::Wrote(count) => if count == 0 {
                WriteDecision::Stopped
            } else {
                WriteDecision::Remaining((length - count) as usize)
            },
            WriteOutcome::Interrupted => WriteDecision::Remaining(length),
            WriteOutcome::Failed => WriteDecision::Report,
        },
{
    match outcome {
        WriteOutcome::Wrote(count) => if count == 0 {
            WriteDecision::Stopped
        } else {
            WriteDecision::Remaining(length - count)
        },
        WriteOutcome::Interrupted => WriteDecision::Remaining(length),
        WriteOutcome::Failed => WriteDecision::Report,
    }
}

/// What a read from the container's side gave.
#[derive(Clone, Copy, Debug, PartialEq, Eq, Structural)]
pub enum OutputRead {
    /// The other side is closed.
    Closed,
    /// Some bytes came.
    Data,
    /// Interrupted, or nothing there yet.
    Retry,
    Failed,
}

/// What to do about it.
#[derive(Clone, Copy, Debug, PartialEq, Eq, Structural)]
pub enum OutputDecision {
    /// Nothing.
    Pass,
    /// Show the bytes to the user.
    Show,
    /// The container has ended like this.
    Finish(WaitStatus),
    Report,
}

/// What a read from the user's side gave.
pub enum InputRead {
    /// The user's side is closed.
    Closed,
    /// These bytes came.
    Data(Vec<u8>),
    /// Interrupted, or nothing there yet.
    Retry,
    Failed,
}

/// What to do about it.
#[derive(Clone, Copy, Debug, PartialEq, Eq, Structural)]
pub enum InputDecision {
    /// Nothing.
    Pass,
    /// Pass the bytes on from this position.
    Forward(usize),
    /// Ask init to shut down, then pass on the bytes from this position.
    Shutdown(usize),
    Report,
}

/// Whether input begins with the keys that ask for a shutdown: escape and
/// control-Q.
pub open spec fn asks_for_shutdown(input: Seq<u8>) -> bool {
    input.len() >= 2 && input[0] == 0x1b && input[1] == 0x11
}

/// What to do about a read from the container's side, where `child` is how the
/// container ended if it has.
pub open spec fn output_decision(read: OutputRead, child: Option<WaitStatus>) -> OutputDecision {
    match read {
        OutputRead::Closed => match child {
            Some(status) => OutputDecision::Finish(status),
            None => OutputDecision::Pass,
        },
        OutputRead::Data => OutputDecision::Show,
        OutputRead::Retry => OutputDecision::Pass,
        OutputRead::Failed => OutputDecision::Report,
    }
}

/// What to do about what was typed.
pub open spec fn input_decision(controls: bool, input: Seq<u8>) -> InputDecision {
    if controls && asks_for_shutdown(input) {
        InputDecision::Shutdown(2)
    } else {
        InputDecision::Forward(0)
    }
}

/// The proxy after a round, and how the container ended where the proxy is done.
pub open spec fn round_end(before: Proxy, status: WaitStatus) -> (Proxy, Option<WaitStatus>) {
    let known = match before.child_status {
        Some(known) => Some(known),
        None => if status == WaitStatus::StillAlive {
            None
        } else {
            Some(status)
        },
    };
    let quiet: u8 = if known is None {
        before.quiet_polls
    } else if before.read_output {
        0
    } else {
        (before.quiet_polls + 1) as u8
    };
    (
        Proxy { child_status: known, quiet_polls: quiet, ..before },
        if quiet >= 2 {
            known
        } else {
            None
        },
    )
}

/// The state of the proxy between the user's terminal and the container.
#[derive(Clone, Copy, Debug, PartialEq, Eq, Structural)]
pub struct Proxy {
    /// The user may ask for a shutdown, and signals are forwarded.
    pub controls: bool,
    /// The user's side is still open.
    pub stdin_open: bool,
    /// How the container ended, once it has.
    pub child_status: Option<WaitStatus>,
    /// How many rounds brought no output since then.
    pub quiet_polls: u8,
    /// The current round brought output.
    pub read_output: bool,
}

impl Proxy {
    /// Whether the state is one that the proxy can be in.
    pub open spec fn valid(self) -> bool {
        &&& self.quiet_polls < 2
        &&& self.child_status is None ==> self.quiet_polls == 0
    }

    /// The proxy at its beginning.
    pub fn new(controls: bool) -> (proxy: Proxy)
        ensures
            proxy == (Proxy {
                controls,
                stdin_open: true,
                child_status: None,
                quiet_polls: 0,
                read_output: false,
            }),
            proxy.valid(),
    {
        Proxy { controls, stdin_open: true, child_status: None, quiet_polls: 0, read_output: false }
    }

    /// Begins a round. A signal that came in meanwhile is to be forwarded
    /// where the proxy controls the container; zero stands for none.
    pub fn begin_round(&mut self, signal: i32) -> (forward: Option<i32>)
        requires
            old(self).valid(),
        ensures
            *final(self) == (Proxy { read_output: false, ..*old(self) }),
            final(self).valid(),
            forward == if old(self).controls && signal != 0 {
                Some(signal)
            } else {
                None
            },
    {
        self.read_output = false;
        if self.controls && signal != 0 {
            Some(signal)
        } else {
            None
        }
    }

    /// Takes what the container wrote.
    pub fn on_output(&mut self, read: OutputRead) -> (decision: OutputDecision)
        requires
            old(self).valid(),
        ensures
            final(self).valid(),
            *final(self) == (Proxy {
                read_output: old(self).read_output || read == OutputRead::Data,
                ..*old(self)
            }),
            decision == output_decision(read, old(self).child_status),
            decision == match read {
                OutputRead::Closed => match old(self).child_status {
                    Some(status) => OutputDecision::Finish(status),
                    None => OutputDecision::Pass,
                },
                OutputRead::Data => OutputDecision::Show,
                OutputRead::Retry => OutputDecision::Pass,
                OutputRead::Failed => OutputDecision::Report,
            },
    {
        match read {
            OutputRead::Closed => match self.child_status {
                Some(status) => OutputDecision::Finish(status),
                None => OutputDecision::Pass,
            },
            OutputRead::Data => {
                self.read_output = true;
                OutputDecision::Show
            },
            OutputRead::Retry => OutputDecision::Pass,
            OutputRead::Failed => OutputDecision::Report,
        }
    }

    /// Takes what the user typed.
    pub fn on_input(&mut self, read: &InputRead) -> (decision: InputDecision)
        requires
            old(self).valid(),
        ensures
            final(self).valid(),
            *final(self) == (Proxy {
                stdin_open: old(self).stdin_open && !(read is Closed),
                ..*old(self)
            }),
            read matches InputRead::Data(bytes) ==> decision == input_decision(
                old(self).controls,
                bytes@,
            ),
            decision == match read {
                InputRead::Closed => InputDecision::Pass,
                InputRead::Data(bytes) => if old(self).controls && asks_for_shutdown(bytes@) {
                    InputDecision::Shutdown(2)
                } else {
                    InputDecision::Forward(0)
                },
                InputRead::Retry => InputDecision::Pass,
                InputRead::Failed => InputDecision::Report,
            },
    {
        match read {
            InputRead::Closed => {
                self.stdin_open = false;
                InputDecision::Pass
            },
            InputRead::Data(bytes) => {
                if self.controls && bytes.len() >= 2 && bytes[0] == 0x1b && bytes[1] == 0x11 {
                    InputDecision::Shutdown(2)
                } else {
                    InputDecision::Forward(0)
                }
            },
            InputRead::Retry => InputDecision::Pass,
            InputRead::Failed => InputDecision::Report,
        }
    }

    /// Ends a round with what a look at the container gave, which is taken
    /// only while its end is not known. The proxy is done once the container
    /// has ended and two rounds in a row brought no output.
    pub fn end_round(&mut self, status: WaitStatus) -> (done: Option<WaitStatus>)
        requires
            old(self).valid(),
        ensures
            (*final(self), done) == round_end(*old(self), status),
            ({
                let before = *old(self);
                let known = match before.child_status {
                    Some(known) => Some(known),
                    None => if status == WaitStatus::StillAlive {
                        None
                    } else {
                        Some(status)
                    },
                };
                let quiet: u8 = if known is None {
                    before.quiet_polls
                } else if before.read_output {
                    0
                } else {
                    (before.quiet_polls + 1) as u8
                };
                &&& *final(self) == (Proxy { child_status: known, quiet_polls: quiet, ..before })
                &&& done == if quiet >= 2 {
                    known
                } else {
                    None
                }
            }),
            done is None ==> final(self).valid(),
    {
        if self.child_status.is_none() {
            if status != WaitStatus::StillAlive {
                self.child_status = Some(status);
            }
        }
        if let Some(known) = self.child_status {
            if self.read_output {
                self.quiet_polls = 0;
            } else {
                self.quiet_polls = self.quiet_polls + 1;
                if self.quiet_polls >= 2 {
                    return Some(known);
                }
            }
        }
        None
    }
}

/// What of the user's input reaches the container.
pub open spec fn forwarded(input: Seq<u8>, decision: InputDecision) -> Seq<u8> {
    match decision {
        InputDecision::Forward(from) => input.skip(from as int),
        InputDecision::Shutdown(from) => input.skip(from as int),
        _ => Seq::empty(),
    }
}

/// No input is lost or changed: all of it reaches the container but for the
/// two keys that ask for a shutdown where they are understood.
pub proof fn law_input_is_passed_on(controls: bool, input: Seq<u8>, decision: InputDecision)
    requires
        decision == if controls && asks_for_shutdown(input) {
            InputDecision::Shutdown(2)
        } else {
            InputDecision::Forward(0)
        },
    ensures
        decision is Forward ==> forwarded(input, decision) == input,
        decision is Shutdown ==> seq![0x1bu8, 0x11u8] + forwarded(input, decision) == input,
{
    if decision is Forward {
        assert(forwarded(input, decision) =~= input);
    } else {
        assert(seq![0x1bu8, 0x11u8] + forwarded(input, decision) =~= input);
    }
}

/// What of the container's output is shown, and when the proxy is done: a side
/// that is closed ends it only once the end of the container is known.
pub proof fn law_output_is_shown(child: Option<WaitStatus>)
    ensures
        output_decision(OutputRead::Data, child) == OutputDecision::Show,
        output_decision(OutputRead::Failed, child) == OutputDecision::Report,
        output_decision(OutputRead::Retry, child) == OutputDecision::Pass,
        child matches Some(status) ==> output_decision(OutputRead::Closed, child)
            == OutputDecision::Finish(status),
        child is None ==> output_decision(OutputRead::Closed, child) == OutputDecision::Pass,
{
}

/// The keys for a shutdown are escape and control-Q at the beginning of what
/// was typed, and only where the proxy controls the container; then the rest is
/// passed on, and otherwise everything.
pub proof fn law_shutdown_keys(controls: bool, rest: Seq<u8>, input: Seq<u8>)
    ensures
        controls ==> input_decision(controls, seq![0x1bu8, 0x11u8] + rest)
            == InputDecision::Shutdown(2),
        !controls ==> input_decision(controls, input) == InputDecision::Forward(0),
        input_decision(controls, input) is Shutdown ==> controls && input.len() >= 2 && input[0]
            == 27 && input[1] == 17,
        input_decision(controls, input) is Forward || input_decision(controls, input) is Shutdown,
        forwarded(seq![0x1bu8, 0x11u8] + rest, InputDecision::Shutdown(2)) == rest,
        forwarded(input, InputDecision::Forward(0)) == input,
{
    let typed = seq![0x1bu8, 0x11u8] + rest;
    assert(typed[0] == 0x1b && typed[1] == 0x11);
    assert(typed.skip(2) =~= rest);
    assert(input.skip(0) =~= input);
}

/// A proxy is done only after the container has ended, and with the status that
/// was first learned; it waits for two rounds in a row that bring no output, so
/// that nothing that the container wrote last is lost.
pub proof fn law_proxy_ends_after_quiet_rounds(proxy: Proxy, status: WaitStatus)
    requires
        proxy.valid(),
    ensures
        ({
            let (next, done) = round_end(proxy, status);
            &&& proxy.child_status is Some ==> next.child_status == proxy.child_status
            &&& proxy.child_status is None && status != WaitStatus::StillAlive
                ==> next.child_status == Some(status)
            &&& proxy.child_status is None && status == WaitStatus::StillAlive
                ==> next.child_status is None && done is None
            &&& proxy.read_output ==> done is None && next.quiet_polls == 0
            &&& done is Some ==> proxy.quiet_polls == 1 && !proxy.read_output && done
                == next.child_status
            &&& proxy.quiet_polls == 1 && !proxy.read_output && next.child_status is Some ==> done
                == next.child_status
            &&& proxy.quiet_polls == 0 && !proxy.read_output && next.child_status is Some
                ==> next.quiet_polls == 1 && done is None
            &&& next.controls == proxy.controls
            &&& next.stdin_open == proxy.stdin_open
        }),
{
}

} // verus!
