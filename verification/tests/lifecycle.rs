use kurumi_containerd::config::model::{
    default_init, AndroidConfig, Config, ContainerConfig, NetworkConfig, NetworkMode,
    ResourceConfig, RuntimeConfig, SecurityConfig,
};
use kurumi_containerd::container::init::InitSystem;
use kurumi_containerd::edition::Edition;
use kurumi_containerd::env::Environment;
use kurumi_containerd::helper::process::WaitStatus;
use kurumi_containerd::helper::signal::SignalNumber;
use kurumi_containerd::host::terminal::Platform;
use kurumi_containerd::runtime::layout::Runtime;
use kurumi_containerd::runtime::lifecycle::{
    begin_start, begin_stop, ended_well, generation_network, in_foreground, preparation,
    startup_reply, stop, GenerationFacts, Monitor, MonitorAction, MonitorEvent, MonitorIdentity,
    Outcome, Phase, Preparation, StartError, StartReply, StopError, StopEvent, StopPhase,
};
use kurumi_containerd::runtime::state::{ContainerState, ProcessFacts};

const IDENTITY: MonitorIdentity = MonitorIdentity { uuid: 77, pid: 9, start_time: 90 };

fn state() -> ContainerState {
    ContainerState {
        name: "test".to_owned(),
        init_pid: 10,
        monitor_pid: 9,
        rootfs: "/rootfs".to_owned(),
        uuid: 77,
        host_boot_id: "boot".to_owned(),
        init_start_time: 100,
        pid_namespace_inode: 200,
        started_at_unix: 1_000,
        monitor_start_time: 90,
        init_system: InitSystem::Systemd,
        generation: 0,
    }
}

fn facts(monitor_start_time: u64) -> ProcessFacts {
    ProcessFacts {
        boot_id: Some("boot".to_owned()),
        init_start_time: None,
        init_namespace: None,
        init_name: None,
        monitor_start_time: Some(monitor_start_time),
    }
}

/// Takes a monitor through the start of a generation.
fn boot(monitor: &mut Monitor) -> Vec<MonitorAction> {
    let mut done = Vec::new();
    for event in [
        MonitorEvent::Done,
        MonitorEvent::Done,
        MonitorEvent::Done,
        MonitorEvent::Parent { worker: true },
        MonitorEvent::Done,
        MonitorEvent::Done,
        MonitorEvent::Done,
        MonitorEvent::Boot { silent: true },
        MonitorEvent::Done,
        MonitorEvent::Done,
    ] {
        done.extend(monitor.action());
        done.extend(monitor.step(event));
    }
    if monitor.phase == Phase::ReportStart {
        done.extend(monitor.action());
        done.extend(monitor.step(MonitorEvent::Done));
    }
    done
}

#[test]
fn a_container_starts_runs_and_ends() {
    let mut monitor = Monitor::new(IDENTITY, false);
    assert_eq!(
        boot(&mut monitor),
        [
            MonitorAction::ForkWorker,
            MonitorAction::ReadPid,
            MonitorAction::OpenInit,
            MonitorAction::LookUpParent,
            MonitorAction::SetupNetwork,
            MonitorAction::AttachCgroup,
            MonitorAction::Handshake,
            MonitorAction::ReadBootStatus,
            MonitorAction::CollectState,
            MonitorAction::WriteState,
            MonitorAction::ReleaseLock,
            MonitorAction::ReportState,
            MonitorAction::Detach,
        ]
    );
    assert!(!monitor.first_boot);
    assert_eq!(monitor.action(), Some(MonitorAction::WaitWorker));
    assert_eq!(monitor.step(MonitorEvent::Ended(WaitStatus::Exited(3, 0))), []);
    assert_eq!(monitor.action(), Some(MonitorAction::ReadResult));
    assert_eq!(
        monitor.step(MonitorEvent::Result { length: 1, byte: b'E' }),
        [MonitorAction::CleanupNetwork]
    );
    assert_eq!(monitor.action(), Some(MonitorAction::RemoveState));
    assert_eq!(monitor.step(MonitorEvent::Done), []);
    assert_eq!(monitor.action(), Some(MonitorAction::RemoveCgroup));
    assert_eq!(monitor.step(MonitorEvent::Done), []);
    assert_eq!(monitor.phase, Phase::Done(Outcome::Finished));
    assert_eq!(monitor.action(), None);
    let rested = monitor;
    assert_eq!(monitor.step(MonitorEvent::Failed), []);
    assert_eq!(monitor, rested);
}

#[test]
fn a_reboot_starts_another_generation() {
    let mut monitor = Monitor::new(IDENTITY, true);
    boot(&mut monitor);
    assert_eq!(monitor.action(), Some(MonitorAction::ProxyConsole));
    monitor.step(MonitorEvent::Ended(WaitStatus::Exited(3, 129)));
    monitor.step(MonitorEvent::Result { length: 1, byte: b'R' });
    assert_eq!(monitor.action(), Some(MonitorAction::TryLock));
    let mut other = monitor;
    monitor.step(MonitorEvent::Lock { held: true });
    assert_eq!(monitor.phase, Phase::Fork);
    assert_eq!(monitor.generation, 1);
    let actions = boot(&mut monitor);
    assert!(!actions.contains(&MonitorAction::ReportState));
    assert_eq!(monitor.phase, Phase::AwaitEnd);

    other.step(MonitorEvent::Lock { held: false });
    assert_eq!(other.phase, Phase::RemoveState(Outcome::Finished));
    assert_eq!(other.generation, 0);

    let mut many = other;
    many.phase = Phase::LockReboot;
    many.generation = u64::MAX;
    many.step(MonitorEvent::Lock { held: true });
    assert_eq!(many.phase, Phase::Done(Outcome::GenerationOverflow));
}

#[test]
fn the_end_of_init_decides_the_outcome() {
    let outcome = |status: WaitStatus| {
        let mut monitor = Monitor::new(IDENTITY, false);
        boot(&mut monitor);
        monitor.step(MonitorEvent::Ended(status));
        monitor.step(MonitorEvent::Result { length: 1, byte: b'E' });
        monitor.step(MonitorEvent::Done);
        monitor.step(MonitorEvent::Done);
        monitor.phase
    };
    let kill = SignalNumber::from_kernel(9);
    assert_eq!(outcome(WaitStatus::Exited(3, 7)), Phase::Done(Outcome::Exited(7)));
    assert_eq!(
        outcome(WaitStatus::Signaled(3, kill, false)),
        Phase::Done(Outcome::Terminated(9))
    );
    assert_eq!(outcome(WaitStatus::Continued(3)), Phase::Done(Outcome::UnexpectedStatus));
}

#[test]
fn failures_kill_init_and_clean_up() {
    let failing = |steps: usize, event: MonitorEvent| {
        let mut monitor = Monitor::new(IDENTITY, false);
        let mut at = 0;
        while at < steps {
            let next = match monitor.phase {
                Phase::CheckParent => MonitorEvent::Parent { worker: true },
                Phase::AwaitBoot => MonitorEvent::Boot { silent: true },
                _ => MonitorEvent::Done,
            };
            monitor.step(next);
            at += 1;
        }
        let actions = monitor.step(event);
        (monitor.phase, actions)
    };
    let host = Phase::Done(Outcome::HostFailed);
    assert_eq!(failing(0, MonitorEvent::Failed), (host, vec![]));
    assert_eq!(failing(1, MonitorEvent::Failed), (host, vec![]));
    let end_worker = vec![MonitorAction::KillWorker, MonitorAction::ReapWorker];
    assert_eq!(failing(2, MonitorEvent::Failed), (host, end_worker.clone()));
    assert_eq!(
        failing(3, MonitorEvent::Parent { worker: false }),
        (Phase::Done(Outcome::Orphan), end_worker)
    );
    assert_eq!(
        failing(4, MonitorEvent::Failed),
        (host, vec![MonitorAction::KillInit, MonitorAction::ReapWorker])
    );
    let end_init = vec![
        MonitorAction::KillInit,
        MonitorAction::ReapWorker,
        MonitorAction::CleanupNetwork,
    ];
    assert_eq!(failing(5, MonitorEvent::Failed), (host, end_init.clone()));
    assert_eq!(failing(6, MonitorEvent::Failed), (host, end_init.clone()));
    let end_network = vec![MonitorAction::CleanupNetwork];
    assert_eq!(failing(7, MonitorEvent::Failed), (host, end_network.clone()));
    let mut reported = end_init.clone();
    reported.push(MonitorAction::ReportBootFailure);
    assert_eq!(
        failing(7, MonitorEvent::Boot { silent: false }),
        (Phase::Done(Outcome::BootFailed), reported)
    );
    assert_eq!(failing(8, MonitorEvent::Failed), (host, end_init.clone()));
    assert_eq!(failing(9, MonitorEvent::Failed), (host, end_init.clone()));
    assert_eq!(failing(10, MonitorEvent::Failed), (host, end_network));
    let mut removed = end_init;
    removed.push(MonitorAction::RemoveStateQuietly);
    removed.push(MonitorAction::RemoveCgroupQuietly);
    assert_eq!(failing(11, MonitorEvent::Failed), (host, removed));
}

#[test]
fn unverified_ends_are_failures() {
    for (length, byte) in [(0, b'E'), (1, b'X'), (2, b'R')] {
        let mut monitor = Monitor::new(IDENTITY, false);
        boot(&mut monitor);
        monitor.step(MonitorEvent::Ended(WaitStatus::Exited(3, 0)));
        assert_eq!(
            monitor.step(MonitorEvent::Result { length, byte }),
            [
                MonitorAction::CleanupNetwork,
                MonitorAction::KillInit,
                MonitorAction::RemoveStateQuietly,
                MonitorAction::RemoveCgroupQuietly,
            ]
        );
        assert_eq!(monitor.phase, Phase::Done(Outcome::Unverified));
    }
}

#[test]
fn removals_that_fail_are_reported() {
    let mut monitor = Monitor::new(IDENTITY, false);
    boot(&mut monitor);
    monitor.step(MonitorEvent::Ended(WaitStatus::Exited(3, 0)));
    monitor.step(MonitorEvent::Result { length: 1, byte: b'E' });
    let mut other = monitor;
    monitor.step(MonitorEvent::Failed);
    assert_eq!(monitor.phase, Phase::Done(Outcome::HostFailed));
    other.step(MonitorEvent::Done);
    other.step(MonitorEvent::Failed);
    assert_eq!(other.phase, Phase::Done(Outcome::HostFailed));
}

#[test]
fn monitors_prepare_in_order() {
    let steps = preparation(Edition::Kurumi, true, Platform::Linux);
    assert_eq!(steps[0], Preparation::ConfigureSignals);
    assert_eq!(steps.len(), 10);
    let steps = preparation(Edition::Kurumi, false, Platform::Android);
    assert_eq!(steps[0], Preparation::LeaveSession);
    assert_eq!(steps[3], Preparation::ApplySelinux);
    assert_eq!(
        preparation(Edition::Gnosis, true, Platform::Linux),
        [
            Preparation::ConfigureSignals,
            Preparation::OpenConsole,
            Preparation::OpenHostNetwork,
            Preparation::Unshare { mounts: false },
            Preparation::PrepareRootfs,
            Preparation::DetectInit,
            Preparation::CreateCgroup,
            Preparation::ReadIdentity,
        ]
    );
    assert_eq!(steps.len(), 12);
}

#[test]
fn starts_are_judged_by_the_answer() {
    assert_eq!(startup_reply("{\"name\":1}", true), StartReply::Started);
    assert_eq!(startup_reply(" {oops", false), StartReply::Malformed);
    assert_eq!(startup_reply("mount failed", false), StartReply::Refused);
    assert_eq!(startup_reply("", false), StartReply::Refused);
    assert!(in_foreground(false, true));
    assert!(in_foreground(true, false));
    assert!(!in_foreground(false, false));
    assert!(ended_well(WaitStatus::Exited(1, 0)));
    assert!(!ended_well(WaitStatus::Exited(1, 1)));
    assert!(!ended_well(WaitStatus::StillAlive));
    assert!(!generation_network(NetworkMode::Host));
    assert!(generation_network(NetworkMode::Isolated));
}

#[test]
fn stopping_asks_before_it_kills() {
    let known = InitSystem::Systemd;
    let mut phase = StopPhase::Identify;
    for (event, expected) in [
        (StopEvent::Recorded(true), StopPhase::Open),
        (StopEvent::Done, StopPhase::Confirm),
        (StopEvent::Recorded(true), StopPhase::Request(known)),
        (StopEvent::Done, StopPhase::Await),
        (StopEvent::Exited(false), StopPhase::Kill),
        (StopEvent::Done, StopPhase::AwaitKilled),
        (StopEvent::Exited(false), StopPhase::AwaitMonitor),
    ] {
        phase = stop(phase, event, known);
        assert_eq!(phase, expected);
    }
    assert_eq!(
        stop(StopPhase::Identify, StopEvent::Recorded(false), known),
        StopPhase::AwaitMonitor
    );
    assert_eq!(
        stop(StopPhase::Confirm, StopEvent::Recorded(false), known),
        StopPhase::Failed(StopError::IdentityChanged)
    );
    assert_eq!(
        stop(StopPhase::Confirm, StopEvent::Recorded(true), InitSystem::Unknown),
        StopPhase::Detect
    );
    assert_eq!(
        stop(StopPhase::Detect, StopEvent::System(InitSystem::S6), InitSystem::Unknown),
        StopPhase::Request(InitSystem::S6)
    );
    assert_eq!(
        stop(StopPhase::Await, StopEvent::Exited(true), known),
        StopPhase::AwaitMonitor
    );
    assert_eq!(
        stop(StopPhase::Open, StopEvent::Failed, known),
        StopPhase::Failed(StopError::Host)
    );
}

#[test]
fn a_result_that_cannot_be_read_takes_the_network_down() {
    let mut monitor = Monitor::new(IDENTITY, false);
    boot(&mut monitor);
    monitor.step(MonitorEvent::Ended(WaitStatus::Exited(3, 0)));
    assert_eq!(monitor.step(MonitorEvent::Failed), [MonitorAction::CleanupNetwork]);
    assert_eq!(monitor.phase, Phase::Done(Outcome::HostFailed));
}

#[test]
fn records_keep_their_identity_over_a_reboot() {
    let runtime = Runtime::new(config(), "/run/k".to_owned());
    let facts = |pid: i32| GenerationFacts {
        init_pid: pid,
        rootfs: "/rootfs".to_owned(),
        host_boot_id: "boot".to_owned(),
        init_start_time: 1,
        pid_namespace_inode: 2,
        now: 3,
        init_system: InitSystem::Openrc,
    };
    let mut monitor = Monitor::new(IDENTITY, false);
    boot(&mut monitor);
    let before = runtime.record(&monitor, facts(50));
    monitor.step(MonitorEvent::Ended(WaitStatus::Exited(3, 129)));
    monitor.step(MonitorEvent::Result { length: 1, byte: b'R' });
    monitor.step(MonitorEvent::Lock { held: true });
    boot(&mut monitor);
    let after = runtime.record(&monitor, facts(60));
    assert_eq!((before.generation, after.generation), (0, 1));
    assert_eq!((before.uuid, after.uuid), (77, 77));
    assert_eq!((after.monitor_pid, after.monitor_start_time), (9, 90));
    assert_eq!(after.name, "test");
    assert_eq!(after.init_pid, 60);
}

#[test]
fn starts_and_stops_are_refused_before_anything_is_done() {
    assert_eq!(begin_start(false, &None, true, true), Err(StartError::NotRoot));
    assert_eq!(begin_start(true, &Some(state()), true, true), Err(StartError::AlreadyRunning));
    assert_eq!(begin_start(true, &None, false, true), Ok(true));
    assert_eq!(begin_start(true, &None, false, false), Ok(false));
    assert_eq!(begin_stop(false, &Some(state()), &facts(90)), Err(StopError::NotRoot));
    assert_eq!(begin_stop(true, &None, &facts(90)), Err(StopError::NotRunning));
    assert_eq!(begin_stop(true, &Some(state()), &facts(91)), Err(StopError::NotRunning));
    assert_eq!(begin_stop(true, &Some(state()), &facts(90)), Ok(StopPhase::Identify));
}

fn config() -> Config {
    Config {
        runtime: RuntimeConfig { workdir: "/run/x".to_owned(), stop_timeout_seconds: 15 },
        container: ContainerConfig {
            name: "test".to_owned(),
            uuid: None,
            rootfs: Some("/rootfs".to_owned()),
            rootfs_image: None,
            hostname: String::new(),
            init: default_init(),
            foreground: false,
            volatile: false,
            network: NetworkMode::Host,
            network_options: NetworkConfig::default(),
            android: AndroidConfig::default(),
            resources: ResourceConfig::default(),
            security: SecurityConfig::default(),
            mounts: Vec::new(),
            environment: Environment::new(),
            environment_file: None,
        },
    }
}
