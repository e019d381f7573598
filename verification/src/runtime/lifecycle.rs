//! The life of a container: its start, the monitor that carries it through
//! its generations, and its stop.
use vstd::prelude::*;

use crate::config::model::NetworkMode;
use crate::container::init::InitSystem;
use crate::edition::Edition;
use crate::helper::process::WaitStatus;
use crate::helper::signal::SignalNumber;
use crate::host::terminal::Platform;
use crate::runtime::layout::Runtime;
use crate::runtime::state::{is_live, lives, ContainerState, ProcessFacts};
use crate::runtime::supervisor::{exit_code_of, reboots, result_byte};
use crate::text::{chars_of, trim_start, trimmed_start, whitespace};

verus! {

// ---------------------------------------------------------------------------
// Start
// ---------------------------------------------------------------------------
/// What the process that starts a container makes of the monitor's answer.
#[derive(Clone, Copy, Debug, PartialEq, Eq, Structural)]
pub enum StartReply {
    /// The container runs.
    Started,
    /// The answer is a state that cannot be read.
    Malformed,
    /// The answer says why the container did not start.
    Refused,
}

/// Whether an answer is meant as a state: it begins with a brace.
pub open spec fn looks_like_state(payload: Seq<char>) -> bool {
    trim_start(payload).len() > 0 && trim_start(payload)[0] == '{'
}

/// What the process that starts a container makes of the monitor's answer,
/// where `readable` says that it could be read as a state.
pub fn startup_reply(payload: &str, readable: bool) -> (reply: StartReply)
    ensures
        reply == if readable {
            StartReply::Started
        } else if looks_like_state(payload@) {
            StartReply::Malformed
        } else {
            StartReply::Refused
        },
{
    if readable {
        return StartReply::Started;
    }
    let text = trimmed_start(&chars_of(payload));
    if text.len() > 0 && text[0] == '{' {
        StartReply::Malformed
    } else {
        StartReply::Refused
    }
}

/// Why a container is not started: no process is forked then.
#[derive(Clone, Copy, Debug, PartialEq, Eq, Structural)]
pub enum StartError {
    NotRoot,
    AlreadyRunning,
}

/// Whether a monitor is forked, where `state` is the state of the container if
/// it runs. The result tells whether the start waits for its end.
pub fn begin_start(
    root: bool,
    state: &Option<ContainerState>,
    asked: bool,
    configured: bool,
) -> (result: Result<bool, StartError>)
    ensures
        result == if !root {
            Err::<bool, StartError>(StartError::NotRoot)
        } else if state is Some {
            Err(StartError::AlreadyRunning)
        } else {
            Ok(asked || configured)
        },
{
    if !root {
        Err(StartError::NotRoot)
    } else if state.is_some() {
        Err(StartError::AlreadyRunning)
    } else {
        Ok(in_foreground(asked, configured))
    }
}

/// Whether the start waits for the end of the container.
pub fn in_foreground(asked: bool, configured: bool) -> (result: bool)
    ensures
        result == (asked || configured),
{
    asked || configured
}

/// Whether a container that ran in the foreground ended well.
pub fn ended_well(status: WaitStatus) -> (result: bool)
    ensures
        result == (status matches WaitStatus::Exited(pid, code) && code == 0),
{
    match status {
        WaitStatus::Exited(_, code) => code == 0,
        _ => false,
    }
}

/// Whether a container is given a network of its own at its start.
pub open spec fn has_own_network(mode: NetworkMode) -> bool {
    match mode {
        NetworkMode::Host => false,
        NetworkMode::Isolated | NetworkMode::Nat | NetworkMode::Gateway | NetworkMode::Dhcp => true,
    }
}

/// The namespaces of a generation besides those of the monitor.
pub fn generation_network(mode: NetworkMode) -> (own: bool)
    ensures
        own == has_own_network(mode),
        own == (mode != NetworkMode::Host),
{
    mode != NetworkMode::Host
}

// ---------------------------------------------------------------------------
// Monitor
// ---------------------------------------------------------------------------
/// What a monitor gets ready before the first generation, each step only where
/// the ones before it succeeded.
#[derive(Clone, Copy, Debug, PartialEq, Eq, Structural)]
pub enum Preparation {
    /// Leaves the session of the process that started it.
    LeaveSession,
    ConfigureSignals,
    OpenConsole,
    /// Changes the mode of SELinux as the configuration asks for it.
    ApplySelinux,
    /// Keeps hold of the network namespace of the host.
    OpenHostNetwork,
    /// Enters new UTS and IPC namespaces, and a mount namespace if asked for.
    Unshare { mounts: bool },
    /// Keeps the mounts to itself.
    SealMounts,
    PrepareRootfs,
    /// Makes sure that init can be executed.
    PrepareInit,
    DetectInit,
    CreateCgroup,
    /// Reads the identity of the running kernel and its own start time.
    ReadIdentity,
}

/// What a monitor gets ready, in order. That of the older edition shares the
/// mounts of the host until its containers boot, and leaves it to the boot to
/// find out whether init can be executed.
pub open spec fn preparation_steps(
    edition: Edition,
    foreground: bool,
    platform: Platform,
) -> Seq<Preparation> {
    (if foreground {
        Seq::empty()
    } else {
        seq![Preparation::LeaveSession]
    }) + seq![Preparation::ConfigureSignals, Preparation::OpenConsole] + (if platform
        == Platform::Android {
        seq![Preparation::ApplySelinux]
    } else {
        Seq::empty()
    }) + seq![Preparation::OpenHostNetwork] + (match edition {
        Edition::Gnosis => seq![
            Preparation::Unshare { mounts: false },
            Preparation::PrepareRootfs,
        ],
        Edition::Kurumi => seq![
            Preparation::Unshare { mounts: true },
            Preparation::SealMounts,
            Preparation::PrepareRootfs,
            Preparation::PrepareInit,
        ],
    }) + seq![Preparation::DetectInit, Preparation::CreateCgroup, Preparation::ReadIdentity]
}

/// What a monitor gets ready, in order.
pub fn preparation(edition: Edition, foreground: bool, platform: Platform) -> (steps: Vec<
    Preparation,
>)
    ensures
        steps@ == preparation_steps(edition, foreground, platform),
{
    let mut steps: Vec<Preparation> = Vec::new();
    if !foreground {
        steps.push(Preparation::LeaveSession);
    }
    steps.push(Preparation::ConfigureSignals);
    steps.push(Preparation::OpenConsole);
    if platform == Platform::Android {
        steps.push(Preparation::ApplySelinux);
    }
    steps.push(Preparation::OpenHostNetwork);
    match edition {
        Edition::Gnosis => {
            steps.push(Preparation::Unshare { mounts: false });
            steps.push(Preparation::PrepareRootfs);
        },
        Edition::Kurumi => {
            steps.push(Preparation::Unshare { mounts: true });
            steps.push(Preparation::SealMounts);
            steps.push(Preparation::PrepareRootfs);
            steps.push(Preparation::PrepareInit);
        },
    }
    steps.push(Preparation::DetectInit);
    steps.push(Preparation::CreateCgroup);
    steps.push(Preparation::ReadIdentity);
    assert(steps@ =~= preparation_steps(edition, foreground, platform));
    steps
}

/// Whether one step of a preparation comes before another.
pub open spec fn prepared_in_order(
    steps: Seq<Preparation>,
    first: Preparation,
    second: Preparation,
) -> bool {
    exists|i: int, j: int|
        #![trigger steps[i], steps[j]]
        0 <= i < j < steps.len() && steps[i] == first && steps[j] == second
}

/// A monitor holds on to the network of the host before it leaves any
/// namespace, and prepares the root after it has left those of the host; the
/// newer edition then keeps its mounts to itself. The init system is told from
/// the prepared root, and the groups are made for it. Only a monitor in the
/// background leaves its session, which it does first, and only on Android the
/// mode of SELinux is changed.
pub proof fn law_monitors_prepare_in_order(
    edition: Edition,
    foreground: bool,
    platform: Platform,
)
    ensures
        ({
            let steps = preparation_steps(edition, foreground, platform);
            let apart = Preparation::Unshare { mounts: edition == Edition::Kurumi };
            &&& steps.contains(Preparation::LeaveSession) <==> !foreground
            &&& !foreground ==> steps[0] == Preparation::LeaveSession
            &&& steps.contains(Preparation::ApplySelinux) <==> platform == Platform::Android
            &&& prepared_in_order(steps, Preparation::ConfigureSignals, Preparation::OpenConsole)
            &&& prepared_in_order(steps, Preparation::OpenConsole, Preparation::OpenHostNetwork)
            &&& prepared_in_order(steps, Preparation::OpenHostNetwork, apart)
            &&& prepared_in_order(steps, apart, Preparation::PrepareRootfs)
            &&& steps.contains(Preparation::SealMounts) <==> edition == Edition::Kurumi
            &&& steps.contains(Preparation::PrepareInit) <==> edition == Edition::Kurumi
            &&& edition == Edition::Kurumi ==> {
                &&& prepared_in_order(steps, apart, Preparation::SealMounts)
                &&& prepared_in_order(steps, Preparation::SealMounts, Preparation::PrepareRootfs)
                &&& prepared_in_order(steps, Preparation::PrepareRootfs, Preparation::PrepareInit)
                &&& prepared_in_order(steps, Preparation::PrepareInit, Preparation::DetectInit)
            }
            &&& prepared_in_order(steps, Preparation::PrepareRootfs, Preparation::DetectInit)
            &&& prepared_in_order(steps, Preparation::DetectInit, Preparation::CreateCgroup)
            &&& steps.last() == Preparation::ReadIdentity
            &&& steps.len() == 8 + (if foreground {
                0int
            } else {
                1
            }) + (if platform == Platform::Android {
                1int
            } else {
                0
            }) + (if edition == Edition::Kurumi {
                2int
            } else {
                0
            })
        }),
{
    let steps = preparation_steps(edition, foreground, platform);
    let a: int = if foreground {
        0
    } else {
        1
    };
    let b: int = if platform == Platform::Android {
        a + 3
    } else {
        a + 2
    };
    if !foreground {
        assert(steps[0] == Preparation::LeaveSession);
    }
    if platform == Platform::Android {
        assert(steps[a + 2] == Preparation::ApplySelinux);
    }
    assert(steps[a] == Preparation::ConfigureSignals);
    assert(steps[a + 1] == Preparation::OpenConsole);
    assert(steps[b] == Preparation::OpenHostNetwork);
    assert(steps[b + 1] == (Preparation::Unshare { mounts: edition == Edition::Kurumi }));
    if edition == Edition::Kurumi {
        assert(steps[b + 2] == Preparation::SealMounts);
        assert(steps[b + 3] == Preparation::PrepareRootfs);
        assert(steps[b + 4] == Preparation::PrepareInit);
        assert(steps[b + 5] == Preparation::DetectInit);
        assert(steps[b + 6] == Preparation::CreateCgroup);
        assert(steps[b + 7] == Preparation::ReadIdentity);
    } else {
        assert(steps[b + 2] == Preparation::PrepareRootfs);
        assert(steps[b + 3] == Preparation::DetectInit);
        assert(steps[b + 4] == Preparation::CreateCgroup);
        assert(steps[b + 5] == Preparation::ReadIdentity);
    }
}

/// Where a monitor stands in a generation of its container.
#[derive(Clone, Copy, Debug, PartialEq, Eq, Structural)]
pub enum Phase {
    /// Forks the worker of the generation.
    Fork,
    /// Waits for the worker to report the number of init.
    AwaitPid,
    /// Opens a handle on init.
    OpenInit,
    /// Looks up the parent of init.
    CheckParent,
    SetupNetwork,
    AttachCgroup,
    /// Tells init that its network is ready.
    Handshake,
    /// Waits for init to be executed or to fail.
    AwaitBoot,
    /// Gathers what is recorded of the container.
    CollectState,
    WriteState,
    /// Reports the first start to the process that asked for it.
    ReportStart,
    /// Waits for the worker to end.
    AwaitEnd,
    /// Reads how the worker says that init ended.
    ReadResult,
    /// Tries to lock the container for a reboot.
    LockReboot,
    /// Removes the record of the container, then its cgroups.
    RemoveState(Outcome),
    RemoveCgroup(Outcome),
    Done(Outcome),
}

/// How a monitor ends.
#[derive(Clone, Copy, Debug, PartialEq, Eq, Structural)]
pub enum Outcome {
    /// The container ended well, or somebody else manages it now.
    Finished,
    /// An operation of the host failed.
    HostFailed,
    /// The reported init is not a child of the worker.
    Orphan,
    /// Init could not be executed.
    BootFailed,
    /// The worker ended without saying how init did.
    Unverified,
    /// There have been too many generations to count.
    GenerationOverflow,
    Exited(i32),
    Terminated(i32),
    UnexpectedStatus,
}

/// What a monitor learns.
#[derive(Clone, Copy, Debug, PartialEq, Eq, Structural)]
pub enum MonitorEvent {
    /// The operation of the phase succeeded.
    Done,
    /// It failed.
    Failed,
    /// The parent of init is the worker, or is not.
    Parent { worker: bool },
    /// Init closed its side without a word, or said why it failed.
    Boot { silent: bool },
    /// The worker ended.
    Ended(WaitStatus),
    /// The worker's report on init: how many bytes came and the first of them.
    Result { length: usize, byte: u8 },
    /// The container could be locked, or somebody else holds it.
    Lock { held: bool },
}

/// What a monitor does.
#[derive(Clone, Copy, Debug, PartialEq, Eq, Structural)]
pub enum MonitorAction {
    ForkWorker,
    ReadPid,
    OpenInit,
    LookUpParent,
    SetupNetwork,
    AttachCgroup,
    Handshake,
    ReadBootStatus,
    CollectState,
    WriteState,
    /// Lets go of the lock that carried the container through a reboot.
    ReleaseLock,
    /// Writes the state, or the reason of a failed boot, to the process that
    /// started the container.
    ReportState,
    ReportBootFailure,
    /// Leaves the terminal.
    Detach,
    /// Carries the console until the worker ends.
    ProxyConsole,
    WaitWorker,
    ReadResult,
    TryLock,
    KillWorker,
    KillInit,
    /// Waits for the killed worker.
    ReapWorker,
    CleanupNetwork,
    RemoveState,
    RemoveCgroup,
    /// The removal where a failure is of no account.
    RemoveStateQuietly,
    RemoveCgroupQuietly,
}

/// What stays the same of a container through all its generations.
#[derive(Clone, Copy, Debug, PartialEq, Eq, Structural)]
pub struct MonitorIdentity {
    pub uuid: u128,
    /// The process that monitors it, and when that started.
    pub pid: i32,
    pub start_time: u64,
}

/// The state of a monitor.
#[derive(Clone, Copy, Debug, PartialEq, Eq, Structural)]
pub struct Monitor {
    pub identity: MonitorIdentity,
    pub foreground: bool,
    pub phase: Phase,
    /// How often the container has rebooted.
    pub generation: u64,
    /// Nothing has been reported to the process that started the container.
    pub first_boot: bool,
    /// How the worker of this generation ended, once it has.
    pub status: Option<WaitStatus>,
}

/// What a monitor does in its phase; nothing where it is done.
pub open spec fn phase_action(monitor: Monitor) -> Option<MonitorAction> {
    match monitor.phase {
        Phase::Fork => Some(MonitorAction::ForkWorker),
        Phase::AwaitPid => Some(MonitorAction::ReadPid),
        Phase::OpenInit => Some(MonitorAction::OpenInit),
        Phase::CheckParent => Some(MonitorAction::LookUpParent),
        Phase::SetupNetwork => Some(MonitorAction::SetupNetwork),
        Phase::AttachCgroup => Some(MonitorAction::AttachCgroup),
        Phase::Handshake => Some(MonitorAction::Handshake),
        Phase::AwaitBoot => Some(MonitorAction::ReadBootStatus),
        Phase::CollectState => Some(MonitorAction::CollectState),
        Phase::WriteState => Some(MonitorAction::WriteState),
        Phase::ReportStart => Some(MonitorAction::ReportState),
        Phase::AwaitEnd => Some(
            if monitor.foreground {
                MonitorAction::ProxyConsole
            } else {
                MonitorAction::WaitWorker
            },
        ),
        Phase::ReadResult => Some(MonitorAction::ReadResult),
        Phase::LockReboot => Some(MonitorAction::TryLock),
        Phase::RemoveState(outcome) => Some(MonitorAction::RemoveState),
        Phase::RemoveCgroup(outcome) => Some(MonitorAction::RemoveCgroup),
        Phase::Done(outcome) => None,
    }
}

/// The end of a generation whose init is killed, with its network and without.
pub open spec fn kill_init(network: bool) -> Seq<MonitorAction> {
    if network {
        seq![
            MonitorAction::KillInit,
            MonitorAction::ReapWorker,
            MonitorAction::CleanupNetwork,
        ]
    } else {
        seq![MonitorAction::KillInit, MonitorAction::ReapWorker]
    }
}

/// The removal of what is recorded of the container, where a failure is of no
/// account.
pub open spec fn remove_records_quietly() -> Seq<MonitorAction> {
    seq![MonitorAction::RemoveStateQuietly, MonitorAction::RemoveCgroupQuietly]
}

/// How the end of a worker is reported where init did not ask for a reboot.
pub open spec fn outcome_of(status: Option<WaitStatus>) -> Outcome {
    match status {
        Some(WaitStatus::Exited(pid, code)) => if code == 0 {
            Outcome::Finished
        } else {
            Outcome::Exited(code)
        },
        Some(WaitStatus::Signaled(pid, signal, core)) => Outcome::Terminated(signal.number),
        _ => Outcome::UnexpectedStatus,
    }
}

/// A monitor in another phase.
pub open spec fn at(monitor: Monitor, phase: Phase) -> Monitor {
    Monitor { phase, ..monitor }
}

/// A monitor that is done.
pub open spec fn ended(monitor: Monitor, outcome: Outcome) -> Monitor {
    at(monitor, Phase::Done(outcome))
}

/// The step of a monitor: where it goes, and what it does before it enters
/// that phase. An event that does not belong to the phase changes nothing.
pub open spec fn monitor_step(monitor: Monitor, event: MonitorEvent) -> (
    Monitor,
    Seq<MonitorAction>,
) {
    let nothing = Seq::<MonitorAction>::empty();
    match (monitor.phase, event) {
        (Phase::Fork, MonitorEvent::Done) => (at(monitor, Phase::AwaitPid), nothing),
        (Phase::Fork, MonitorEvent::Failed) => (ended(monitor, Outcome::HostFailed), nothing),
        (Phase::AwaitPid, MonitorEvent::Done) => (at(monitor, Phase::OpenInit), nothing),
        (Phase::AwaitPid, MonitorEvent::Failed) => (ended(monitor, Outcome::HostFailed), nothing),
        (Phase::OpenInit, MonitorEvent::Done) => (at(monitor, Phase::CheckParent), nothing),
        (Phase::OpenInit, MonitorEvent::Failed) => (
            ended(monitor, Outcome::HostFailed),
            seq![MonitorAction::KillWorker, MonitorAction::ReapWorker],
        ),
        (Phase::CheckParent, MonitorEvent::Parent { worker }) => if worker {
            (at(monitor, Phase::SetupNetwork), nothing)
        } else {
            (
                ended(monitor, Outcome::Orphan),
                seq![MonitorAction::KillWorker, MonitorAction::ReapWorker],
            )
        },
        (Phase::SetupNetwork, MonitorEvent::Done) => (at(monitor, Phase::AttachCgroup), nothing),
        (Phase::SetupNetwork, MonitorEvent::Failed) => (
            ended(monitor, Outcome::HostFailed),
            kill_init(false),
        ),
        (Phase::AttachCgroup, MonitorEvent::Done) => (at(monitor, Phase::Handshake), nothing),
        (Phase::AttachCgroup, MonitorEvent::Failed) => (
            ended(monitor, Outcome::HostFailed),
            kill_init(true),
        ),
        (Phase::Handshake, MonitorEvent::Done) => (at(monitor, Phase::AwaitBoot), nothing),
        (Phase::Handshake, MonitorEvent::Failed) => (
            ended(monitor, Outcome::HostFailed),
            kill_init(true),
        ),
        (Phase::AwaitBoot, MonitorEvent::Failed) => (
            ended(monitor, Outcome::HostFailed),
            seq![MonitorAction::CleanupNetwork],
        ),
        (Phase::AwaitBoot, MonitorEvent::Boot { silent }) => if silent {
            (at(monitor, Phase::CollectState), nothing)
        } else {
            (
                ended(monitor, Outcome::BootFailed),
                if monitor.first_boot {
                    kill_init(true).push(MonitorAction::ReportBootFailure)
                } else {
                    kill_init(true)
                },
            )
        },
        (Phase::CollectState, MonitorEvent::Done) => (at(monitor, Phase::WriteState), nothing),
        (Phase::CollectState, MonitorEvent::Failed) => (
            ended(monitor, Outcome::HostFailed),
            kill_init(true),
        ),
        (Phase::WriteState, MonitorEvent::Done) => if monitor.first_boot {
            (at(monitor, Phase::ReportStart), seq![MonitorAction::ReleaseLock])
        } else {
            (at(monitor, Phase::AwaitEnd), seq![MonitorAction::ReleaseLock])
        },
        (Phase::WriteState, MonitorEvent::Failed) => (
            ended(monitor, Outcome::HostFailed),
            kill_init(true),
        ),
        (Phase::ReportStart, MonitorEvent::Done) => (
            Monitor { phase: Phase::AwaitEnd, first_boot: false, ..monitor },
            if monitor.foreground {
                nothing
            } else {
                seq![MonitorAction::Detach]
            },
        ),
        (Phase::ReportStart, MonitorEvent::Failed) => (
            ended(monitor, Outcome::HostFailed),
            seq![MonitorAction::CleanupNetwork],
        ),
        (Phase::AwaitEnd, MonitorEvent::Ended(status)) => (
            Monitor { phase: Phase::ReadResult, status: Some(status), ..monitor },
            nothing,
        ),
        (Phase::AwaitEnd, MonitorEvent::Failed) => (
            ended(monitor, Outcome::HostFailed),
            kill_init(true) + remove_records_quietly(),
        ),
        (Phase::ReadResult, MonitorEvent::Failed) => (
            ended(monitor, Outcome::HostFailed),
            seq![MonitorAction::CleanupNetwork],
        ),
        (Phase::ReadResult, MonitorEvent::Result { length, byte }) => if length == 1 && byte
            == result_byte(true) {
            (at(monitor, Phase::LockReboot), seq![MonitorAction::CleanupNetwork])
        } else if length == 1 && byte == result_byte(false) {
            (
                at(monitor, Phase::RemoveState(outcome_of(monitor.status))),
                seq![MonitorAction::CleanupNetwork],
            )
        } else {
            (
                ended(monitor, Outcome::Unverified),
                seq![MonitorAction::CleanupNetwork, MonitorAction::KillInit]
                    + remove_records_quietly(),
            )
        },
        (Phase::LockReboot, MonitorEvent::Failed) => (
            ended(monitor, Outcome::HostFailed),
            nothing,
        ),
        (Phase::LockReboot, MonitorEvent::Lock { held }) => if !held {
            (at(monitor, Phase::RemoveState(Outcome::Finished)), nothing)
        } else if monitor.generation == u64::MAX {
            (ended(monitor, Outcome::GenerationOverflow), nothing)
        } else {
            (
                Monitor {
                    phase: Phase::Fork,
                    generation: (monitor.generation + 1) as u64,
                    status: None,
                    ..monitor
                },
                nothing,
            )
        },
        (Phase::RemoveState(outcome), MonitorEvent::Done) => (
            at(monitor, Phase::RemoveCgroup(outcome)),
            nothing,
        ),
        (Phase::RemoveState(outcome), MonitorEvent::Failed) => (
            ended(monitor, Outcome::HostFailed),
            nothing,
        ),
        (Phase::RemoveCgroup(outcome), MonitorEvent::Done) => (ended(monitor, outcome), nothing),
        (Phase::RemoveCgroup(outcome), MonitorEvent::Failed) => (
            ended(monitor, Outcome::HostFailed),
            nothing,
        ),
        _ => (monitor, nothing),
    }
}

fn actions1(a: MonitorAction) -> (actions: Vec<MonitorAction>)
    ensures
        actions@ == seq![a],
{
    let mut actions: Vec<MonitorAction> = Vec::new();
    actions.push(a);
    assert(actions@ =~= seq![a]);
    actions
}

fn actions2(a: MonitorAction, b: MonitorAction) -> (actions: Vec<MonitorAction>)
    ensures
        actions@ == seq![a, b],
{
    let mut actions = actions1(a);
    actions.push(b);
    assert(actions@ =~= seq![a, b]);
    actions
}

fn actions3(a: MonitorAction, b: MonitorAction, c: MonitorAction) -> (actions: Vec<MonitorAction>)
    ensures
        actions@ == seq![a, b, c],
{
    let mut actions = actions2(a, b);
    actions.push(c);
    assert(actions@ =~= seq![a, b, c]);
    actions
}

fn killing_init(network: bool) -> (actions: Vec<MonitorAction>)
    ensures
        actions@ == kill_init(network),
{
    if network {
        actions3(
            MonitorAction::KillInit,
            MonitorAction::ReapWorker,
            MonitorAction::CleanupNetwork,
        )
    } else {
        actions2(MonitorAction::KillInit, MonitorAction::ReapWorker)
    }
}

impl Monitor {
    /// A monitor before the first generation of its container.
    pub fn new(identity: MonitorIdentity, foreground: bool) -> (monitor: Monitor)
        ensures
            monitor == (Monitor {
                identity,
                foreground,
                phase: Phase::Fork,
                generation: 0,
                first_boot: true,
                status: None,
            }),
    {
        Monitor {
            identity,
            foreground,
            phase: Phase::Fork,
            generation: 0,
            first_boot: true,
            status: None,
        }
    }

    /// What the monitor does in its phase; nothing where it is done.
    pub fn action(&self) -> (action: Option<MonitorAction>)
        ensures
            action == phase_action(*self),
    {
        match self.phase {
            Phase::Fork => Some(MonitorAction::ForkWorker),
            Phase::AwaitPid => Some(MonitorAction::ReadPid),
            Phase::OpenInit => Some(MonitorAction::OpenInit),
            Phase::CheckParent => Some(MonitorAction::LookUpParent),
            Phase::SetupNetwork => Some(MonitorAction::SetupNetwork),
            Phase::AttachCgroup => Some(MonitorAction::AttachCgroup),
            Phase::Handshake => Some(MonitorAction::Handshake),
            Phase::AwaitBoot => Some(MonitorAction::ReadBootStatus),
            Phase::CollectState => Some(MonitorAction::CollectState),
            Phase::WriteState => Some(MonitorAction::WriteState),
            Phase::ReportStart => Some(MonitorAction::ReportState),
            Phase::AwaitEnd => if self.foreground {
                Some(MonitorAction::ProxyConsole)
            } else {
                Some(MonitorAction::WaitWorker)
            },
            Phase::ReadResult => Some(MonitorAction::ReadResult),
            Phase::LockReboot => Some(MonitorAction::TryLock),
            Phase::RemoveState(_) => Some(MonitorAction::RemoveState),
            Phase::RemoveCgroup(_) => Some(MonitorAction::RemoveCgroup),
            Phase::Done(_) => None,
        }
    }

    fn end(&mut self, outcome: Outcome)
        ensures
            *final(self) == ended(*old(self), outcome),
    {
        self.phase = Phase::Done(outcome);
    }

    fn outcome(&self) -> (outcome: Outcome)
        ensures
            outcome == outcome_of(self.status),
    {
        match self.status {
            Some(WaitStatus::Exited(_, code)) => if code == 0 {
                Outcome::Finished
            } else {
                Outcome::Exited(code)
            },
            Some(WaitStatus::Signaled(_, signal, _)) => Outcome::Terminated(signal.number),
            _ => Outcome::UnexpectedStatus,
        }
    }

    /// Takes what the monitor learned in its phase. The result is what it does
    /// before it goes on.
    pub fn step(&mut self, event: MonitorEvent) -> (actions: Vec<MonitorAction>)
        ensures
            *final(self) == monitor_step(*old(self), event).0,
            actions@ == monitor_step(*old(self), event).1,
    {
        match (self.phase, event) {
            (Phase::Fork, MonitorEvent::Done) => {
                self.phase = Phase::AwaitPid;
                Vec::new()
            },
            (Phase::AwaitPid, MonitorEvent::Done) => {
                self.phase = Phase::OpenInit;
                Vec::new()
            },
            (Phase::Fork, MonitorEvent::Failed) => {
                self.end(Outcome::HostFailed);
                Vec::new()
            },
            (Phase::AwaitPid, MonitorEvent::Failed) => {
                self.end(Outcome::HostFailed);
                Vec::new()
            },
            (Phase::AwaitBoot, MonitorEvent::Failed) => {
                self.end(Outcome::HostFailed);
                actions1(MonitorAction::CleanupNetwork)
            },
            (Phase::ReportStart, MonitorEvent::Failed) => {
                self.end(Outcome::HostFailed);
                actions1(MonitorAction::CleanupNetwork)
            },
            (Phase::ReadResult, MonitorEvent::Failed) => {
                self.end(Outcome::HostFailed);
                actions1(MonitorAction::CleanupNetwork)
            },
            (Phase::LockReboot, MonitorEvent::Failed) => {
                self.end(Outcome::HostFailed);
                Vec::new()
            },
            (Phase::OpenInit, MonitorEvent::Done) => {
                self.phase = Phase::CheckParent;
                Vec::new()
            },
            (Phase::OpenInit, MonitorEvent::Failed) => {
                self.end(Outcome::HostFailed);
                actions2(MonitorAction::KillWorker, MonitorAction::ReapWorker)
            },
            (Phase::CheckParent, MonitorEvent::Parent { worker }) => {
                if worker {
                    self.phase = Phase::SetupNetwork;
                    Vec::new()
                } else {
                    self.end(Outcome::Orphan);
                    actions2(MonitorAction::KillWorker, MonitorAction::ReapWorker)
                }
            },
            (Phase::SetupNetwork, MonitorEvent::Done) => {
                self.phase = Phase::AttachCgroup;
                Vec::new()
            },
            (Phase::SetupNetwork, MonitorEvent::Failed) => {
                self.end(Outcome::HostFailed);
                killing_init(false)
            },
            (Phase::AttachCgroup, MonitorEvent::Done) => {
                self.phase = Phase::Handshake;
                Vec::new()
            },
            (Phase::Handshake, MonitorEvent::Done) => {
                self.phase = Phase::AwaitBoot;
                Vec::new()
            },
            (Phase::AttachCgroup, MonitorEvent::Failed) => {
                self.end(Outcome::HostFailed);
                killing_init(true)
            },
            (Phase::Handshake, MonitorEvent::Failed) => {
                self.end(Outcome::HostFailed);
                killing_init(true)
            },
            (Phase::CollectState, MonitorEvent::Failed) => {
                self.end(Outcome::HostFailed);
                killing_init(true)
            },
            (Phase::WriteState, MonitorEvent::Failed) => {
                self.end(Outcome::HostFailed);
                killing_init(true)
            },
            (Phase::AwaitBoot, MonitorEvent::Boot { silent }) => {
                if silent {
                    self.phase = Phase::CollectState;
                    Vec::new()
                } else {
                    let mut actions = killing_init(true);
                    if self.first_boot {
                        actions.push(MonitorAction::ReportBootFailure);
                    }
                    self.end(Outcome::BootFailed);
                    actions
                }
            },
            (Phase::CollectState, MonitorEvent::Done) => {
                self.phase = Phase::WriteState;
                Vec::new()
            },
            (Phase::WriteState, MonitorEvent::Done) => {
                self.phase = if self.first_boot {
                    Phase::ReportStart
                } else {
                    Phase::AwaitEnd
                };
                actions1(MonitorAction::ReleaseLock)
            },
            (Phase::ReportStart, MonitorEvent::Done) => {
                self.first_boot = false;
                self.phase = Phase::AwaitEnd;
                if self.foreground {
                    Vec::new()
                } else {
                    actions1(MonitorAction::Detach)
                }
            },
            (Phase::AwaitEnd, MonitorEvent::Ended(status)) => {
                self.status = Some(status);
                self.phase = Phase::ReadResult;
                Vec::new()
            },
            (Phase::AwaitEnd, MonitorEvent::Failed) => {
                self.end(Outcome::HostFailed);
                let mut actions = killing_init(true);
                actions.push(MonitorAction::RemoveStateQuietly);
                actions.push(MonitorAction::RemoveCgroupQuietly);
                assert(actions@ =~= kill_init(true) + remove_records_quietly());
                actions
            },
            (Phase::ReadResult, MonitorEvent::Result { length, byte }) => {
                if length == 1 && byte == 0x52 {
                    self.phase = Phase::LockReboot;
                    actions1(MonitorAction::CleanupNetwork)
                } else if length == 1 && byte == 0x45 {
                    self.phase = Phase::RemoveState(self.outcome());
                    actions1(MonitorAction::CleanupNetwork)
                } else {
                    self.end(Outcome::Unverified);
                    let mut actions = actions3(
                        MonitorAction::CleanupNetwork,
                        MonitorAction::KillInit,
                        MonitorAction::RemoveStateQuietly,
                    );
                    actions.push(MonitorAction::RemoveCgroupQuietly);
                    assert(actions@ =~= seq![
                        MonitorAction::CleanupNetwork,
                        MonitorAction::KillInit,
                    ] + remove_records_quietly());
                    actions
                }
            },
            (Phase::LockReboot, MonitorEvent::Lock { held }) => {
                if !held {
                    self.phase = Phase::RemoveState(Outcome::Finished);
                    Vec::new()
                } else if self.generation == u64::MAX {
                    self.end(Outcome::GenerationOverflow);
                    Vec::new()
                } else {
                    self.generation = self.generation + 1;
                    self.status = None;
                    self.phase = Phase::Fork;
                    Vec::new()
                }
            },
            (Phase::RemoveState(outcome), MonitorEvent::Done) => {
                self.phase = Phase::RemoveCgroup(outcome);
                Vec::new()
            },
            (Phase::RemoveCgroup(outcome), MonitorEvent::Done) => {
                self.end(outcome);
                Vec::new()
            },
            (Phase::RemoveState(_), MonitorEvent::Failed) => {
                self.end(Outcome::HostFailed);
                Vec::new()
            },
            (Phase::RemoveCgroup(_), MonitorEvent::Failed) => {
                self.end(Outcome::HostFailed);
                Vec::new()
            },
            _ => Vec::new(),
        }
    }
}

/// What is collected of a generation for its record.
pub struct GenerationFacts {
    pub init_pid: i32,
    pub rootfs: String,
    pub host_boot_id: String,
    pub init_start_time: u64,
    pub pid_namespace_inode: u64,
    pub now: u64,
    pub init_system: InitSystem,
}

/// Whether a record is one of the generation that a monitor has come to.
pub open spec fn records(state: &ContainerState, name: Seq<char>, monitor: Monitor) -> bool {
    &&& state.name@ == name
    &&& state.uuid == monitor.identity.uuid
    &&& state.monitor_pid == monitor.identity.pid
    &&& state.monitor_start_time == monitor.identity.start_time
    &&& state.generation == monitor.generation
}

impl Runtime {
    /// The record of the generation that a monitor has come to.
    pub fn record(&self, monitor: &Monitor, facts: GenerationFacts) -> (state: ContainerState)
        ensures
            records(&state, self.config.container.name@, *monitor),
            state.init_pid == facts.init_pid,
            state.rootfs@ == facts.rootfs@,
            state.host_boot_id@ == facts.host_boot_id@,
            state.init_start_time == facts.init_start_time,
            state.pid_namespace_inode == facts.pid_namespace_inode,
            state.started_at_unix == facts.now,
            state.init_system == facts.init_system,
    {
        ContainerState {
            name: self.config.container.name.clone(),
            init_pid: facts.init_pid,
            monitor_pid: monitor.identity.pid,
            rootfs: facts.rootfs,
            uuid: monitor.identity.uuid,
            host_boot_id: facts.host_boot_id,
            init_start_time: facts.init_start_time,
            pid_namespace_inode: facts.pid_namespace_inode,
            started_at_unix: facts.now,
            monitor_start_time: monitor.identity.start_time,
            init_system: facts.init_system,
            generation: monitor.generation,
        }
    }
}

/// A monitor after these events.
pub open spec fn monitor_run(monitor: Monitor, events: Seq<MonitorEvent>) -> Monitor
    decreases events.len(),
{
    if events.len() == 0 {
        monitor
    } else {
        monitor_step(monitor_run(monitor, events.drop_last()), events.last()).0
    }
}

/// Whether a monitor comes to no reboot before the last of these events.
pub open spec fn no_reboot_in(monitor: Monitor, events: Seq<MonitorEvent>) -> bool {
    forall|i: int|
        0 <= i < events.len() ==> (#[trigger] monitor_run(monitor, events.take(i))).phase
            != Phase::LockReboot
}

proof fn lemma_run_keeps(monitor: Monitor, events: Seq<MonitorEvent>)
    requires
        no_reboot_in(monitor, events),
    ensures
        monitor_run(monitor, events).identity == monitor.identity,
        monitor_run(monitor, events).generation == monitor.generation,
    decreases events.len(),
{
    if events.len() > 0 {
        let shorter = events.drop_last();
        assert forall|i: int| 0 <= i < shorter.len() implies (#[trigger] monitor_run(
            monitor,
            shorter.take(i),
        )).phase != Phase::LockReboot by {
            assert(shorter.take(i) =~= events.take(i));
        }
        lemma_run_keeps(monitor, shorter);
        assert(shorter =~= events.take(events.len() - 1));
        assert(monitor_run(monitor, events.take(events.len() - 1)).phase != Phase::LockReboot);
    }
}

/// A container that reboots, and could be locked for it, boots again: the
/// record of its next generation has the next number, and keeps the name, the
/// identity and the monitor.
pub proof fn law_reboot_keeps_identity(
    monitor: Monitor,
    events: Seq<MonitorEvent>,
    name: Seq<char>,
    before: &ContainerState,
    after: &ContainerState,
)
    requires
        monitor.phase == Phase::LockReboot,
        monitor.generation < u64::MAX,
        no_reboot_in(monitor_step(monitor, MonitorEvent::Lock { held: true }).0, events),
        records(before, name, monitor),
        records(
            after,
            name,
            monitor_run(monitor_step(monitor, MonitorEvent::Lock { held: true }).0, events),
        ),
    ensures
        monitor_step(monitor, MonitorEvent::Lock { held: true }).0.phase == Phase::Fork,
        after.generation == before.generation + 1,
        after.name@ == before.name@,
        after.uuid == before.uuid,
        after.monitor_pid == before.monitor_pid,
        after.monitor_start_time == before.monitor_start_time,
{
    lemma_run_keeps(monitor_step(monitor, MonitorEvent::Lock { held: true }).0, events);
}

/// A monitor that is done stays done and does nothing more.
pub proof fn law_done_monitor_rests(monitor: Monitor, event: MonitorEvent)
    requires
        monitor.phase is Done,
    ensures
        monitor_step(monitor, event) == (monitor, Seq::<MonitorAction>::empty()),
{
}

/// A container gets a new generation exactly where init asked for a reboot and
/// the container could be locked for it; the count then grows by one, and
/// nothing else ever changes it.
pub proof fn law_generations_count_reboots(monitor: Monitor, event: MonitorEvent)
    ensures
        ({
            let next = monitor_step(monitor, event).0;
            &&& next.generation == monitor.generation || next.generation == monitor.generation + 1
            &&& next.generation != monitor.generation <==> (monitor.phase == Phase::LockReboot
                && event == (MonitorEvent::Lock { held: true }) && monitor.generation < u64::MAX)
            &&& next.generation != monitor.generation ==> next.phase == Phase::Fork
        }),
{
}

/// The lock for a reboot is tried for only after the worker has reported one.
pub proof fn law_reboot_needs_a_report(monitor: Monitor, event: MonitorEvent)
    requires
        monitor.phase != Phase::LockReboot,
        monitor_step(monitor, event).0.phase == Phase::LockReboot,
    ensures
        monitor.phase == Phase::ReadResult,
        event == (MonitorEvent::Result { length: 1, byte: result_byte(true) }),
{
}

/// The monitor goes on to another generation exactly where the end of init,
/// as the worker reports it, was a reboot.
pub proof fn law_only_reboots_go_on(monitor: Monitor, status: WaitStatus, hangup: i32)
    requires
        monitor.phase == Phase::ReadResult,
    ensures
        ({
            let byte = result_byte(reboots(status, hangup));
            let next = monitor_step(monitor, MonitorEvent::Result { length: 1, byte }).0;
            &&& reboots(status, hangup) <==> next.phase == Phase::LockReboot
            &&& !reboots(status, hangup) <==> next.phase == Phase::RemoveState(
                outcome_of(monitor.status),
            )
        }),
{
}

/// The end of init decides how the monitor goes on, where the steps after it
/// succeed. The network is taken down in any case. A reboot starts another
/// generation where the container could be locked for it, and otherwise ends
/// well with its record and its cgroups removed. Any other end removes both,
/// and is a success exactly where init exited with zero. The worker passes the
/// end of init on as its own.
pub proof fn law_end_of_init_decides(
    monitor: Monitor,
    init: WaitStatus,
    worker: i32,
    hangup: i32,
    held: bool,
)
    requires
        monitor.phase == Phase::AwaitEnd,
        monitor.generation < u64::MAX,
        i32::MIN <= exit_code_of(init) <= i32::MAX,
        init matches WaitStatus::Signaled(pid, signal, core) ==> signal.number > 0,
    ensures
        ({
            let status = WaitStatus::Exited(worker, exit_code_of(init) as i32);
            let byte = result_byte(reboots(init, hangup));
            let waited = monitor_step(monitor, MonitorEvent::Ended(status)).0;
            let (told, actions) = monitor_step(waited, MonitorEvent::Result { length: 1, byte });
            let locked = monitor_step(told, MonitorEvent::Lock { held }).0;
            let removing = if reboots(init, hangup) {
                locked
            } else {
                told
            };
            let last = monitor_step(
                monitor_step(removing, MonitorEvent::Done).0,
                MonitorEvent::Done,
            ).0;
            &&& actions == seq![MonitorAction::CleanupNetwork]
            &&& reboots(init, hangup) && held ==> locked.phase == Phase::Fork && locked.generation
                == monitor.generation + 1
            &&& !(reboots(init, hangup) && held) ==> {
                &&& removing.phase is RemoveState
                &&& monitor_step(removing, MonitorEvent::Done).0.phase is RemoveCgroup
                &&& last.phase is Done
                &&& last.phase == Phase::Done(Outcome::Finished) <==> (reboots(init, hangup) || (
                init matches WaitStatus::Exited(pid, code) && code == 0))
            }
        }),
{
}

/// Whether init is watched in a phase, so that a failure ends it: it has been
/// forked, and neither its boot nor the report of it is awaited.
pub open spec fn init_may_run(phase: Phase) -> bool {
    phase == Phase::SetupNetwork || phase == Phase::AttachCgroup || phase == Phase::Handshake
        || phase == Phase::CollectState || phase == Phase::WriteState || phase == Phase::AwaitEnd
}

/// Whether the container has a network in a phase.
pub open spec fn network_is_up(phase: Phase) -> bool {
    phase == Phase::AttachCgroup || phase == Phase::Handshake || phase == Phase::AwaitBoot || phase
        == Phase::CollectState || phase == Phase::WriteState || phase == Phase::ReportStart || phase
        == Phase::AwaitEnd || phase == Phase::ReadResult
}

/// Where an operation fails, the monitor ends, and takes the network down if
/// it is up. Where init is watched meanwhile, it is killed first and its worker
/// waited for.
pub proof fn law_failures_leave_nothing_running(monitor: Monitor)
    requires
        init_may_run(monitor.phase) || network_is_up(monitor.phase),
    ensures
        ({
            let (next, actions) = monitor_step(monitor, MonitorEvent::Failed);
            &&& next.phase == Phase::Done(Outcome::HostFailed)
            &&& init_may_run(monitor.phase) ==> actions.len() >= 2 && actions[0]
                == MonitorAction::KillInit && actions[1] == MonitorAction::ReapWorker
            &&& network_is_up(monitor.phase) ==> actions.contains(MonitorAction::CleanupNetwork)
        }),
{
    let actions = monitor_step(monitor, MonitorEvent::Failed).1;
    if network_is_up(monitor.phase) {
        if init_may_run(monitor.phase) {
            assert(actions[2] == MonitorAction::CleanupNetwork);
        } else {
            assert(actions[0] == MonitorAction::CleanupNetwork);
        }
    }
}

/// In whatever way a monitor leaves a phase in which the network is up, it
/// stays up in the phase after it or is taken down.
pub proof fn law_network_is_taken_down(monitor: Monitor, event: MonitorEvent)
    requires
        network_is_up(monitor.phase),
    ensures
        ({
            let (next, actions) = monitor_step(monitor, event);
            network_is_up(next.phase) || actions.contains(MonitorAction::CleanupNetwork)
        }),
{
    let (next, actions) = monitor_step(monitor, event);
    if !network_is_up(next.phase) {
        assert(actions[0] == MonitorAction::CleanupNetwork || actions[2]
            == MonitorAction::CleanupNetwork);
    }
}

/// The end of a worker is followed by the end of the network. Unless the
/// container reboots, its record is then removed: now, or before anything else
/// happens.
pub proof fn law_ended_containers_leave_no_records(monitor: Monitor, length: usize, byte: u8)
    requires
        monitor.phase == Phase::ReadResult,
    ensures
        ({
            let (next, actions) = monitor_step(monitor, MonitorEvent::Result { length, byte });
            &&& actions.len() >= 1
            &&& actions[0] == MonitorAction::CleanupNetwork
            &&& next.phase == Phase::LockReboot || next.phase is RemoveState || actions.contains(
                MonitorAction::RemoveStateQuietly,
            )
        }),
{
    let (next, actions) = monitor_step(monitor, MonitorEvent::Result { length, byte });
    if length != 1 || (byte != result_byte(true) && byte != result_byte(false)) {
        assert(actions[2] == MonitorAction::RemoveStateQuietly);
    }
}

/// A container that ended well, or that somebody else manages now, has left
/// neither a record nor a cgroup behind.
pub proof fn law_finished_containers_are_removed(monitor: Monitor, event: MonitorEvent)
    requires
        !(monitor.phase is Done),
        monitor_step(monitor, event).0.phase == Phase::Done(Outcome::Finished),
    ensures
        monitor.phase == Phase::RemoveCgroup(Outcome::Finished),
        event == MonitorEvent::Done,
{
}

/// The cgroups of a container are removed only after its record.
pub proof fn law_records_are_removed_first(monitor: Monitor, event: MonitorEvent)
    requires
        !(monitor.phase is RemoveCgroup),
        monitor_step(monitor, event).0.phase is RemoveCgroup,
    ensures
        monitor.phase is RemoveState,
        event == MonitorEvent::Done,
{
}

/// The start of a container is reported once: after the first report the
/// monitor neither reports a state nor a failed boot again.
pub proof fn law_start_is_reported_once(monitor: Monitor, event: MonitorEvent)
    requires
        !monitor.first_boot,
        monitor.phase != Phase::ReportStart,
    ensures
        !monitor_step(monitor, event).0.first_boot,
        monitor_step(monitor, event).0.phase != Phase::ReportStart,
        !monitor_step(monitor, event).1.contains(MonitorAction::ReportBootFailure),
{
    let actions = monitor_step(monitor, event).1;
    assert forall|i: int| 0 <= i < actions.len() implies actions[i]
        != MonitorAction::ReportBootFailure by {}
}

/// A container is booted step by step, each after the one before has
/// succeeded: only a child of the worker is taken for init; init is told to go
/// on only after its network is set up and it is in its groups; a state is
/// written only after init was executed; and a start is reported only after
/// the state is written.
pub proof fn law_boot_goes_step_by_step(monitor: Monitor, event: MonitorEvent)
    requires
        monitor_step(monitor, event).0.phase != monitor.phase,
    ensures
        ({
            let next = monitor_step(monitor, event).0.phase;
            &&& next == Phase::Fork ==> monitor.phase == Phase::LockReboot && event == (
            MonitorEvent::Lock { held: true })
            &&& next == Phase::AwaitPid ==> monitor.phase == Phase::Fork && event
                == MonitorEvent::Done
            &&& next == Phase::OpenInit ==> monitor.phase == Phase::AwaitPid && event
                == MonitorEvent::Done
            &&& next == Phase::CheckParent ==> monitor.phase == Phase::OpenInit && event
                == MonitorEvent::Done
            &&& next == Phase::SetupNetwork ==> monitor.phase == Phase::CheckParent && event == (
            MonitorEvent::Parent { worker: true })
            &&& next == Phase::AttachCgroup ==> monitor.phase == Phase::SetupNetwork && event
                == MonitorEvent::Done
            &&& next == Phase::Handshake ==> monitor.phase == Phase::AttachCgroup && event
                == MonitorEvent::Done
            &&& next == Phase::AwaitBoot ==> monitor.phase == Phase::Handshake && event
                == MonitorEvent::Done
            &&& next == Phase::CollectState ==> monitor.phase == Phase::AwaitBoot && event == (
            MonitorEvent::Boot { silent: true })
            &&& next == Phase::WriteState ==> monitor.phase == Phase::CollectState && event
                == MonitorEvent::Done
            &&& next == Phase::ReportStart ==> monitor.phase == Phase::WriteState && event
                == MonitorEvent::Done && monitor.first_boot
            &&& next == Phase::AwaitEnd ==> event == MonitorEvent::Done && (monitor.phase
                == Phase::ReportStart || (monitor.phase == Phase::WriteState
                && !monitor.first_boot))
            &&& next == Phase::ReadResult ==> monitor.phase == Phase::AwaitEnd && event is Ended
            &&& next is RemoveState ==> (monitor.phase == Phase::ReadResult && event is Result) || (
            monitor.phase == Phase::LockReboot && event == (MonitorEvent::Lock { held: false }))
        }),
{
}

/// A monitor after one event.
pub open spec fn after(monitor: Monitor, event: MonitorEvent) -> Monitor {
    monitor_step(monitor, event).0
}

/// Where everything succeeds a generation comes to run: the monitor waits for
/// its end, and the start has been reported.
pub proof fn law_good_starts_come_to_run(monitor: Monitor)
    requires
        monitor.phase == Phase::Fork,
    ensures
        ({
            let done = MonitorEvent::Done;
            let reported = after(after(after(monitor, done), done), done);
            let own = after(reported, MonitorEvent::Parent { worker: true });
            let told = after(after(after(own, done), done), done);
            let booted = after(told, MonitorEvent::Boot { silent: true });
            let written = after(after(booted, done), done);
            let running = if monitor.first_boot {
                after(written, done)
            } else {
                written
            };
            running == (Monitor { phase: Phase::AwaitEnd, first_boot: false, ..monitor })
        }),
{
}

/// What a monitor does in a phase is what the phase is called after, and it has
/// something to do until it is done.
pub proof fn law_every_phase_has_its_work(monitor: Monitor)
    ensures
        phase_action(monitor) is None <==> monitor.phase is Done,
        phase_action(monitor) == Some(MonitorAction::ForkWorker) <==> monitor.phase == Phase::Fork,
        phase_action(monitor) == Some(MonitorAction::ReadPid) <==> monitor.phase
            == Phase::AwaitPid,
        phase_action(monitor) == Some(MonitorAction::OpenInit) <==> monitor.phase
            == Phase::OpenInit,
        phase_action(monitor) == Some(MonitorAction::LookUpParent) <==> monitor.phase
            == Phase::CheckParent,
        phase_action(monitor) == Some(MonitorAction::SetupNetwork) <==> monitor.phase
            == Phase::SetupNetwork,
        phase_action(monitor) == Some(MonitorAction::AttachCgroup) <==> monitor.phase
            == Phase::AttachCgroup,
        phase_action(monitor) == Some(MonitorAction::Handshake) <==> monitor.phase
            == Phase::Handshake,
        phase_action(monitor) == Some(MonitorAction::ReadBootStatus) <==> monitor.phase
            == Phase::AwaitBoot,
        phase_action(monitor) == Some(MonitorAction::CollectState) <==> monitor.phase
            == Phase::CollectState,
        phase_action(monitor) == Some(MonitorAction::WriteState) <==> monitor.phase
            == Phase::WriteState,
        phase_action(monitor) == Some(MonitorAction::ReportState) <==> monitor.phase
            == Phase::ReportStart,
        phase_action(monitor) == Some(MonitorAction::ProxyConsole) <==> monitor.phase
            == Phase::AwaitEnd && monitor.foreground,
        phase_action(monitor) == Some(MonitorAction::WaitWorker) <==> monitor.phase
            == Phase::AwaitEnd && !monitor.foreground,
        phase_action(monitor) == Some(MonitorAction::ReadResult) <==> monitor.phase
            == Phase::ReadResult,
        phase_action(monitor) == Some(MonitorAction::TryLock) <==> monitor.phase
            == Phase::LockReboot,
        phase_action(monitor) == Some(MonitorAction::RemoveState) <==> monitor.phase is RemoveState,
        phase_action(monitor) == Some(MonitorAction::RemoveCgroup) <==> monitor.phase
            is RemoveCgroup,
{
}

/// The lock that carried a container through a reboot is let go once its state
/// is written; a monitor in the background leaves the terminal once the start
/// is reported, and one in the foreground stays. A first boot that fails is
/// reported with its reason, after init is killed, its worker waited for and
/// the network taken down.
pub proof fn law_starts_are_reported(monitor: Monitor)
    ensures
        monitor.phase == Phase::WriteState ==> monitor_step(monitor, MonitorEvent::Done).1 == seq![
            MonitorAction::ReleaseLock,
        ],
        monitor.phase == Phase::ReportStart && monitor.foreground ==> monitor_step(
            monitor,
            MonitorEvent::Done,
        ).1.len() == 0,
        monitor.phase == Phase::ReportStart && !monitor.foreground ==> monitor_step(
            monitor,
            MonitorEvent::Done,
        ).1 == seq![MonitorAction::Detach],
        monitor.phase == Phase::AwaitBoot ==> {
            let (next, actions) = monitor_step(monitor, MonitorEvent::Boot { silent: false });
            &&& next.phase == Phase::Done(Outcome::BootFailed)
            &&& actions[0] == MonitorAction::KillInit
            &&& actions[1] == MonitorAction::ReapWorker
            &&& actions[2] == MonitorAction::CleanupNetwork
            &&& monitor.first_boot ==> actions.len() == 4 && actions[3]
                == MonitorAction::ReportBootFailure
            &&& !monitor.first_boot ==> actions.len() == 3
        },
{
}

/// Before init is watched it is the worker that is killed and waited for: where
/// init cannot be opened, or is not the worker's child.
pub proof fn law_strangers_are_not_watched(monitor: Monitor)
    ensures
        monitor.phase == Phase::OpenInit ==> monitor_step(monitor, MonitorEvent::Failed) == (
            Monitor { phase: Phase::Done(Outcome::HostFailed), ..monitor },
            seq![MonitorAction::KillWorker, MonitorAction::ReapWorker],
        ),
        monitor.phase == Phase::CheckParent ==> monitor_step(
            monitor,
            MonitorEvent::Parent { worker: false },
        ) == (
            Monitor { phase: Phase::Done(Outcome::Orphan), ..monitor },
            seq![MonitorAction::KillWorker, MonitorAction::ReapWorker],
        ),
{
}

/// A worker whose report cannot be understood is not believed: init is killed,
/// and nothing is left of the container.
pub proof fn law_unclear_reports_end_the_container(monitor: Monitor, length: usize, byte: u8)
    requires
        monitor.phase == Phase::ReadResult,
        length != 1 || (byte != 0x52 && byte != 0x45),
    ensures
        ({
            let (next, actions) = monitor_step(monitor, MonitorEvent::Result { length, byte });
            &&& next.phase == Phase::Done(Outcome::Unverified)
            &&& actions.contains(MonitorAction::CleanupNetwork)
            &&& actions.contains(MonitorAction::KillInit)
            &&& actions.contains(MonitorAction::RemoveStateQuietly)
            &&& actions.contains(MonitorAction::RemoveCgroupQuietly)
        }),
{
    let actions = monitor_step(monitor, MonitorEvent::Result { length, byte }).1;
    assert(actions[0] == MonitorAction::CleanupNetwork);
    assert(actions[1] == MonitorAction::KillInit);
    assert(actions[2] == MonitorAction::RemoveStateQuietly);
    assert(actions[3] == MonitorAction::RemoveCgroupQuietly);
}

/// How a worker ended is how the container ended: only an exit with zero is a
/// success, a code and a signal are told as they are.
pub proof fn law_outcome_tells_the_end(pid: i32, code: i32, signal: SignalNumber, core: bool)
    ensures
        code == 0 ==> outcome_of(Some(WaitStatus::Exited(pid, code))) == Outcome::Finished,
        code != 0 ==> outcome_of(Some(WaitStatus::Exited(pid, code))) == Outcome::Exited(code),
        outcome_of(Some(WaitStatus::Signaled(pid, signal, core))) == Outcome::Terminated(
            signal.number,
        ),
        outcome_of(None) == Outcome::UnexpectedStatus,
        outcome_of(Some(WaitStatus::StillAlive)) == Outcome::UnexpectedStatus,
{
}

// ---------------------------------------------------------------------------
// Stop
// ---------------------------------------------------------------------------
/// Where the stop of a container stands.
#[derive(Clone, Copy, Debug, PartialEq, Eq, Structural)]
pub enum StopPhase {
    /// Looks whether init is the recorded process.
    Identify,
    /// Opens a handle on it.
    Open,
    /// Looks again, now that its number cannot be given to another process.
    Confirm,
    /// Tells its init system, which was not recorded.
    Detect,
    /// Asks it to shut down.
    Request(InitSystem),
    /// Waits for it to end.
    Await,
    /// Kills it.
    Kill,
    /// Waits for the end of the killed process.
    AwaitKilled,
    /// Waits for the monitor to clean up.
    AwaitMonitor,
    Failed(StopError),
}

/// Why a container was not stopped.
#[derive(Clone, Copy, Debug, PartialEq, Eq, Structural)]
pub enum StopError {
    NotRoot,
    NotRunning,
    /// An operation of the host failed.
    Host,
    /// The number of init was given to another process meanwhile.
    IdentityChanged,
}

/// Whether a container is stopped, where `facts` is what the host says of the
/// processes of its record: only root may, and only one that lives.
pub fn begin_stop(root: bool, state: &Option<ContainerState>, facts: &ProcessFacts) -> (result:
    Result<StopPhase, StopError>)
    ensures
        result == if !root {
            Err::<StopPhase, StopError>(StopError::NotRoot)
        } else if state is Some && lives(&state->0, facts) {
            Ok(StopPhase::Identify)
        } else {
            Err(StopError::NotRunning)
        },
{
    if !root {
        return Err(StopError::NotRoot);
    }
    match state {
        Some(state) => if is_live(state, facts) {
            Ok(StopPhase::Identify)
        } else {
            Err(StopError::NotRunning)
        },
        None => Err(StopError::NotRunning),
    }
}

/// What is learned on the way.
#[derive(Clone, Copy, Debug, PartialEq, Eq, Structural)]
pub enum StopEvent {
    /// The operation of the phase succeeded.
    Done,
    Failed,
    /// Init is the recorded process, or is not.
    Recorded(bool),
    /// The init system that was told from the root of init.
    System(InitSystem),
    /// Init ended in time, or did not.
    Exited(bool),
}

/// How long the end of a killed process is waited for, in seconds.
pub const KILL_SECONDS: u64 = 5;

/// How a stop goes on, where `recorded` is the init system of the record.
pub open spec fn stop_step(phase: StopPhase, event: StopEvent, recorded: InitSystem) -> StopPhase {
    match (phase, event) {
        (StopPhase::Identify, StopEvent::Recorded(true)) => StopPhase::Open,
        (StopPhase::Identify, StopEvent::Recorded(false)) => StopPhase::AwaitMonitor,
        (StopPhase::Open, StopEvent::Done) => StopPhase::Confirm,
        (StopPhase::Confirm, StopEvent::Recorded(true)) => if recorded == InitSystem::Unknown {
            StopPhase::Detect
        } else {
            StopPhase::Request(recorded)
        },
        (StopPhase::Confirm, StopEvent::Recorded(false)) => StopPhase::Failed(
            StopError::IdentityChanged,
        ),
        (StopPhase::Detect, StopEvent::System(system)) => StopPhase::Request(system),
        (StopPhase::Request(system), StopEvent::Done) => StopPhase::Await,
        (StopPhase::Await, StopEvent::Exited(true)) => StopPhase::AwaitMonitor,
        (StopPhase::Await, StopEvent::Exited(false)) => StopPhase::Kill,
        (StopPhase::Kill, StopEvent::Done) => StopPhase::AwaitKilled,
        (StopPhase::AwaitKilled, StopEvent::Exited(in_time)) => StopPhase::AwaitMonitor,
        (StopPhase::Failed(error), _) => phase,
        (StopPhase::AwaitMonitor, _) => phase,
        (_, StopEvent::Failed) => StopPhase::Failed(StopError::Host),
        _ => phase,
    }
}

/// How a stop goes on, where `recorded` is the init system of the record.
pub fn stop(phase: StopPhase, event: StopEvent, recorded: InitSystem) -> (next: StopPhase)
    ensures
        next == stop_step(phase, event, recorded),
{
    match (phase, event) {
        (StopPhase::Identify, StopEvent::Recorded(true)) => StopPhase::Open,
        (StopPhase::Identify, StopEvent::Recorded(false)) => StopPhase::AwaitMonitor,
        (StopPhase::Open, StopEvent::Done) => StopPhase::Confirm,
        (StopPhase::Confirm, StopEvent::Recorded(true)) => if recorded == InitSystem::Unknown {
            StopPhase::Detect
        } else {
            StopPhase::Request(recorded)
        },
        (StopPhase::Confirm, StopEvent::Recorded(false)) => StopPhase::Failed(
            StopError::IdentityChanged,
        ),
        (StopPhase::Detect, StopEvent::System(system)) => StopPhase::Request(system),
        (StopPhase::Request(_), StopEvent::Done) => StopPhase::Await,
        (StopPhase::Await, StopEvent::Exited(true)) => StopPhase::AwaitMonitor,
        (StopPhase::Await, StopEvent::Exited(false)) => StopPhase::Kill,
        (StopPhase::Kill, StopEvent::Done) => StopPhase::AwaitKilled,
        (StopPhase::AwaitKilled, StopEvent::Exited(_)) => StopPhase::AwaitMonitor,
        (StopPhase::Failed(_), _) => phase,
        (StopPhase::AwaitMonitor, _) => phase,
        (_, StopEvent::Failed) => StopPhase::Failed(StopError::Host),
        _ => phase,
    }
}

/// No process is asked to shut down before its identity has been confirmed
/// through a handle, and none is killed before it was asked and the time ran
/// out.
pub proof fn law_stop_signals_only_the_container(
    phase: StopPhase,
    event: StopEvent,
    recorded: InitSystem,
)
    ensures
        stop_step(phase, event, recorded) is Request && !(phase is Request) ==> (phase
            == StopPhase::Confirm && event == StopEvent::Recorded(true)) || phase
            == StopPhase::Detect,
        stop_step(phase, event, recorded) == StopPhase::Detect && phase != StopPhase::Detect
            ==> phase == StopPhase::Confirm && event == StopEvent::Recorded(true),
        stop_step(phase, event, recorded) == StopPhase::Kill && phase != StopPhase::Kill ==> phase
            == StopPhase::Await && event == StopEvent::Exited(false),
{
}

/// A stop that goes well: once init is known through a handle it is asked to
/// shut down in the way of its system, which is looked up where it was not
/// recorded; its end is waited for, and it is killed where it does not come in
/// time. In any case the monitor cleans up.
pub proof fn law_stops_come_to_an_end(recorded: InitSystem, found: InitSystem, in_time: bool)
    ensures
        ({
            let open = stop_step(StopPhase::Identify, StopEvent::Recorded(true), recorded);
            let confirm = stop_step(open, StopEvent::Done, recorded);
            let known = stop_step(confirm, StopEvent::Recorded(true), recorded);
            let request = if recorded == InitSystem::Unknown {
                stop_step(known, StopEvent::System(found), recorded)
            } else {
                known
            };
            let waiting = stop_step(request, StopEvent::Done, recorded);
            let killing = stop_step(waiting, StopEvent::Exited(false), recorded);
            let killed = stop_step(killing, StopEvent::Done, recorded);
            &&& open == StopPhase::Open
            &&& confirm == StopPhase::Confirm
            &&& recorded == InitSystem::Unknown ==> known == StopPhase::Detect && request
                == StopPhase::Request(found)
            &&& recorded != InitSystem::Unknown ==> request == StopPhase::Request(recorded)
            &&& waiting == StopPhase::Await
            &&& stop_step(waiting, StopEvent::Exited(true), recorded) == StopPhase::AwaitMonitor
            &&& killing == StopPhase::Kill
            &&& killed == StopPhase::AwaitKilled
            &&& stop_step(killed, StopEvent::Exited(in_time), recorded) == StopPhase::AwaitMonitor
        }),
{
}

/// A process that is not the recorded one is left alone: before the handle is
/// opened the monitor is all that is waited for, and after it the stop fails.
/// A failure of the host ends a stop wherever it is, and an ended stop stays
/// ended.
pub proof fn law_stops_leave_strangers_alone(
    phase: StopPhase,
    event: StopEvent,
    recorded: InitSystem,
    error: StopError,
)
    ensures
        stop_step(StopPhase::Identify, StopEvent::Recorded(false), recorded)
            == StopPhase::AwaitMonitor,
        stop_step(StopPhase::Confirm, StopEvent::Recorded(false), recorded) == StopPhase::Failed(
            StopError::IdentityChanged,
        ),
        !(phase is Failed) && phase != StopPhase::AwaitMonitor ==> stop_step(
            phase,
            StopEvent::Failed,
            recorded,
        ) == StopPhase::Failed(StopError::Host),
        stop_step(StopPhase::Failed(error), event, recorded) == StopPhase::Failed(error),
        stop_step(StopPhase::AwaitMonitor, event, recorded) == StopPhase::AwaitMonitor,
        KILL_SECONDS == 5,
{
}

/// An answer is meant as a state exactly where its first character that is no
/// white space is a brace.
pub proof fn law_states_begin_with_a_brace(front: Seq<char>, c: char, rest: Seq<char>)
    requires
        forall|i: int| 0 <= i < front.len() ==> whitespace(#[trigger] front[i]),
        !whitespace(c),
    ensures
        looks_like_state(front + seq![c] + rest) <==> c == '{',
        !looks_like_state(front),
    decreases front.len(),
{
    let whole = front + seq![c] + rest;
    if front.len() > 0 {
        assert(whitespace(front[0]));
        let shorter = front.skip(1);
        assert forall|i: int| 0 <= i < shorter.len() implies whitespace(#[trigger] shorter[i]) by {
            assert(shorter[i] == front[i + 1]);
        }
        law_states_begin_with_a_brace(shorter, c, rest);
        assert(whole.skip(1) =~= shorter + seq![c] + rest);
        assert(whole[0] == front[0]);
    } else {
        assert(whole[0] == c);
    }
}

} // verus!
