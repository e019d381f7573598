use kurumi_containerd::config::model::{
    default_init, AndroidConfig, Config, ContainerConfig, NetworkConfig, NetworkMode,
    ResourceConfig, RuntimeConfig, SecurityConfig,
};
use kurumi_containerd::container::init::InitSystem;
use kurumi_containerd::edition::Edition;
use kurumi_containerd::env::Environment;
use kurumi_containerd::helper::process::{wait_status, WaitStatus};
use kurumi_containerd::helper::signal::{Signal, SignalNumber, SignalTable};
use kurumi_containerd::host::terminal::Platform;
use kurumi_containerd::runtime::info::{
    format_duration, format_memory, format_unit, signed_text, ContainerInfo,
};
use kurumi_containerd::runtime::install::{
    install_step, parse_size, InstallError, InstallOutcome, InstallPhase, InstallTarget,
};
use kurumi_containerd::runtime::layout::{runtime_workdir, Runtime, WorkdirError};
use kurumi_containerd::runtime::state::{
    adopt, collect_usage, current_state, ensure_trusted_directory, find_generation_init, is_live,
    is_record_file, judge_record, list, recover, valid_state_name, validate_monitor_identity,
    validate_process_identity, wait_for_monitor_cleanup, ContainerState, DirectoryFacts, InfoError,
    MonitorWait, ProcessFacts, ProcessRecord, ProcessUsage, RecordDecision, TrustError,
};
use kurumi_containerd::runtime::supervisor::{
    foreground_parent_signals, generation_result, is_reboot_status, monitor_signals,
    wait_status_code,
};

fn checks_uptime() {
    assert_eq!(format_duration(0), "0s");
    assert_eq!(format_duration(62), "1m 02s");
    assert_eq!(format_duration(3_723), "1h 02m 03s");
    assert_eq!(format_duration(93_784), "1d 02h 03m 04s");
}

#[test]
fn state_formats_uptime() {
    checks_uptime();
}

#[test]
fn info_formats_uptime() {
    checks_uptime();
}

fn checks_memory() {
    assert_eq!(format_memory(512), "512 KiB");
    assert_eq!(format_memory(1_536), "1.5 MiB");
    assert_eq!(format_memory(1_572_864), "1.5 GiB");
}

#[test]
fn state_formats_memory() {
    checks_memory();
}

#[test]
fn info_formats_memory() {
    checks_memory();
}

fn active_info() -> ContainerInfo {
    ContainerInfo {
        name: "test".to_owned(),
        active: true,
        init_pid: Some(123),
        monitor_pid: Some(122),
        rootfs: "/rootfs".to_owned(),
        uuid: Some(0),
        init_system: Some(InitSystem::Systemd),
        generation: Some(1),
        uptime_seconds: Some(3_723),
        memory_kb: Some(1_536),
        processes: Some(4),
    }
}

fn checks_container_info() {
    assert_eq!(
        active_info().describe(),
        "test\n      Active: active (running) for 1h 02m 03s\n    Main PID: 123 (systemd)\n Monitor PID: 122\n       Tasks: 4\n      Memory: 1.5 MiB\n  Generation: 1\n      Rootfs: /rootfs\n        UUID: 00000000-0000-0000-0000-000000000000"
    );
}

#[test]
fn state_displays_container_info() {
    checks_container_info();
}

#[test]
fn info_displays_container_info() {
    checks_container_info();
}

#[test]
fn displays_inactive_container_info() {
    let info = ContainerInfo {
        name: "test".to_owned(),
        active: false,
        init_pid: None,
        monitor_pid: None,
        rootfs: "/rootfs".to_owned(),
        uuid: Some(0),
        init_system: None,
        generation: None,
        uptime_seconds: None,
        memory_kb: None,
        processes: None,
    };
    assert_eq!(
        info.describe(),
        "test\n      Active: inactive (dead)\n      Rootfs: /rootfs\n        UUID: 00000000-0000-0000-0000-000000000000"
    );
}

fn config() -> Config {
    Config {
        runtime: RuntimeConfig { workdir: "/run/x".to_owned(), stop_timeout_seconds: 15 },
        container: ContainerConfig {
            name: "test".to_owned(),
            uuid: None,
            rootfs: Some("/rootfs".to_owned()),
            rootfs_image: None,
            hostname: String::new(),
            init: default_init(),
            foreground: false,
            volatile: false,
            network: NetworkMode::Host,
            network_options: NetworkConfig::default(),
            android: AndroidConfig::default(),
            resources: ResourceConfig::default(),
            security: SecurityConfig::default(),
            mounts: Vec::new(),
            environment: Environment::new(),
            environment_file: None,
        },
    }
}

fn runtime() -> Runtime {
    Runtime::new(config(), runtime_workdir(Platform::Linux, None).unwrap())
}

#[test]
fn reports_inactive_container_without_state() {
    let info = runtime().info(Edition::Kurumi, None, (0, 0), 0).unwrap();
    assert!(!info.active);
    assert_eq!(info.name, "test");
    assert_eq!(info.rootfs, "/rootfs");
    assert_eq!(info.init_pid, None);
}

#[test]
fn supervisor_recognizes_only_namespace_reboot_signal() {
    let table = SignalTable::host();
    let pid = 42;
    let hangup = SignalNumber::from_signal(Signal::Hangup, &table);
    assert!(is_reboot_status(WaitStatus::Signaled(pid, hangup, false), &table));
    assert!(!is_reboot_status(WaitStatus::Exited(pid, 0), &table));
    assert!(!is_reboot_status(WaitStatus::Exited(pid, 249), &table));
}

#[test]
fn recognizes_only_namespace_reboot_signal() {
    let table = SignalTable::host();
    let pid = 42;
    assert!(is_reboot_status(wait_status(pid, libc::SIGHUP), &table));
    assert!(!is_reboot_status(wait_status(pid, libc::SIGINT), &table));
    assert!(!is_reboot_status(WaitStatus::Exited(pid, 0), &table));
    assert!(!is_reboot_status(WaitStatus::Exited(pid, 249), &table));
}

#[test]
fn workers_report_how_init_ended() {
    assert_eq!(wait_status_code(WaitStatus::Exited(1, 7)), 7);
    let kill = SignalNumber::from_kernel(9);
    assert_eq!(wait_status_code(WaitStatus::Signaled(1, kill, false)), 137);
    assert_eq!(wait_status_code(WaitStatus::StillAlive), 125);
    assert_eq!(generation_result(true), b'R');
    assert_eq!(generation_result(false), b'E');
    assert!(monitor_signals().contains(&Signal::Hangup));
    assert!(foreground_parent_signals().contains(&Signal::Interrupt));
}

#[test]
fn numbers_are_formatted_exactly() {
    assert_eq!(format_unit(1_023, 1_024, "X"), "0.9 X");
    assert_eq!(format_memory(1_023), "1023 KiB");
    assert_eq!(format_memory(1_024), "1.0 MiB");
    assert_eq!(format_memory(1_048_575), "1023.9 MiB");
    assert_eq!(format_memory(1_048_576), "1.0 GiB");
    assert_eq!(format_duration(59), "59s");
    assert_eq!(format_duration(86_400), "1d 00h 00m 00s");
    assert_eq!(signed_text(-7), "-7");
    assert_eq!(signed_text(i32::MIN), "-2147483648");
    assert_eq!(signed_text(40), "40");
}

fn state() -> ContainerState {
    ContainerState {
        name: "test".to_owned(),
        init_pid: 10,
        monitor_pid: 9,
        rootfs: "/rootfs".to_owned(),
        uuid: 5,
        host_boot_id: "boot".to_owned(),
        init_start_time: 100,
        pid_namespace_inode: 200,
        started_at_unix: 1_000,
        monitor_start_time: 90,
        init_system: InitSystem::Systemd,
        generation: 2,
    }
}

fn facts() -> ProcessFacts {
    ProcessFacts {
        boot_id: Some("boot".to_owned()),
        init_start_time: Some(100),
        init_namespace: Some(200),
        init_name: Some("test".to_owned()),
        monitor_start_time: Some(90),
    }
}

#[test]
fn records_hold_of_the_recorded_processes_only() {
    assert!(validate_process_identity(&state(), &facts()));
    assert!(validate_monitor_identity(&state(), &facts()));
    for change in [
        |f: &mut ProcessFacts| f.boot_id = Some("other".to_owned()),
        |f: &mut ProcessFacts| f.init_start_time = Some(101),
        |f: &mut ProcessFacts| f.init_namespace = None,
        |f: &mut ProcessFacts| f.init_name = Some("tess".to_owned()),
    ] {
        let mut found = facts();
        change(&mut found);
        assert!(!validate_process_identity(&state(), &found));
    }
    let mut gone = facts();
    gone.init_start_time = None;
    assert!(is_live(&state(), &gone));
    gone.monitor_start_time = Some(91);
    assert!(!is_live(&state(), &gone));
    assert!(current_state(Some(state()), &gone).is_none());
    assert_eq!(current_state(Some(state()), &facts()), Some(state()));
    assert!(current_state(None, &facts()).is_none());
}

#[test]
fn active_containers_are_described_by_their_state() {
    let info = runtime().info(Edition::Kurumi, Some(state()), (2_048, 3), 1_062).unwrap();
    assert!(info.active);
    assert_eq!(info.uptime_seconds, Some(62));
    assert_eq!(info.memory_kb, Some(2_048));
    assert_eq!(info.processes, Some(3));
    assert_eq!(info.generation, Some(2));
    let early = runtime().info(Edition::Kurumi, Some(state()), (0, 0), 999).unwrap();
    assert_eq!(early.uptime_seconds, Some(0));
    let mut bare = config();
    bare.container.rootfs = None;
    let bare = Runtime::new(bare, "/run/k".to_owned());
    assert_eq!(bare.info(Edition::Kurumi, None, (0, 0), 0), Err(InfoError::NoRoot));
    assert_eq!(runtime().info(Edition::Gnosis, None, (0, 0), 0), Err(InfoError::NotRunning));
    assert!(runtime().info(Edition::Gnosis, Some(state()), (0, 0), 0).is_ok());
}

#[test]
fn usage_is_that_of_the_namespace() {
    let usages = vec![
        ProcessUsage { namespace: Some(1), memory_kb: Some(10) },
        ProcessUsage { namespace: Some(2), memory_kb: Some(20) },
        ProcessUsage { namespace: Some(1), memory_kb: None },
        ProcessUsage { namespace: None, memory_kb: Some(40) },
    ];
    assert_eq!(collect_usage(&usages, 1), (10, 2));
    assert_eq!(collect_usage(&usages, 3), (0, 0));
}

#[test]
fn containers_are_listed_by_name() {
    let names: Vec<String> = ["c", "a", "b"].iter().map(|name| name.to_string()).collect();
    assert_eq!(list(&names, &vec![true, true, true]), [1, 2, 0]);
    assert_eq!(list(&names, &vec![true, false, true]), [2, 0]);
}

#[test]
fn records_are_judged_and_adopted() {
    let mut gone = facts();
    gone.init_start_time = None;
    gone.monitor_start_time = None;
    assert_eq!(judge_record(&state(), &facts()), RecordDecision::Search);
    assert_eq!(judge_record(&state(), &gone), RecordDecision::Remove);
    let mut unsafe_name = state();
    unsafe_name.name = "../x".to_owned();
    assert_eq!(judge_record(&unsafe_name, &facts()), RecordDecision::Skip);
    let process = |pid: i32| ProcessRecord {
        pid,
        namespace_pid: Some(1),
        name: Some("test".to_owned()),
        uuid: Some("00000000-0000-0000-0000-000000000005".to_owned()),
        parent: Some(11),
        grandparent: Some(9),
    };
    assert_eq!(find_generation_init(&state(), &vec![process(77)]), Some(77));
    let mut stranger = process(78);
    stranger.uuid = Some("00000000-0000-0000-0000-000000000006".to_owned());
    assert_eq!(find_generation_init(&state(), &vec![stranger]), None);
    let adopted = adopt(state(), 77, 500, 600);
    assert_eq!(adopted.init_pid, 77);
    assert_eq!(adopted.init_start_time, 500);
    assert_eq!(adopted.pid_namespace_inode, 600);
    assert_eq!(adopted.name, "test");
    assert_eq!(adopted.monitor_pid, 9);
}

#[test]
fn recovered_names_must_be_usable() {
    assert!(valid_state_name("debian"));
    assert!(!valid_state_name(""));
    assert!(!valid_state_name("../x"));
    let mut other = state();
    other.name = "another".to_owned();
    assert_eq!(recover(&vec![state(), other]), Ok(vec![1, 0]));
    assert_eq!(recover(&vec![state(), state()]), Ok(vec![1]));
    let mut rival = state();
    rival.uuid = 6;
    assert_eq!(recover(&vec![state(), rival]), Err(1));
}

#[test]
fn directories_are_trusted_by_their_owner_and_mode() {
    let good = DirectoryFacts { directory: true, symlink: false, owner: 0, mode: 0o755 };
    assert_eq!(ensure_trusted_directory(good), Ok(()));
    assert_eq!(
        ensure_trusted_directory(DirectoryFacts { directory: false, ..good }),
        Err(TrustError::NotDirectory)
    );
    assert_eq!(
        ensure_trusted_directory(DirectoryFacts { symlink: true, ..good }),
        Err(TrustError::Symlink)
    );
    assert_eq!(
        ensure_trusted_directory(DirectoryFacts { owner: 1000, ..good }),
        Err(TrustError::Owner)
    );
    assert_eq!(
        ensure_trusted_directory(DirectoryFacts { mode: 0o775, ..good }),
        Err(TrustError::Writable)
    );
}

#[test]
fn monitors_are_waited_for_by_identity() {
    assert_eq!(wait_for_monitor_cleanup(true, true), MonitorWait::Wait);
    assert_eq!(wait_for_monitor_cleanup(true, false), MonitorWait::IdentityChanged);
    assert_eq!(wait_for_monitor_cleanup(false, true), MonitorWait::Report);
    assert_eq!(wait_for_monitor_cleanup(false, false), MonitorWait::RemoveState);
}

#[test]
fn the_runtime_keeps_its_files_below_its_directory() {
    let runtime = runtime();
    assert_eq!(runtime.workdir, "/run/kurumi-containerd");
    assert_eq!(runtime.lock_path, "/run/kurumi-containerd/test.lock");
    assert_eq!(runtime.state_path(), "/run/kurumi-containerd/state/test.json");
    assert_eq!(runtime.state_path_for("x"), "/run/kurumi-containerd/state/x.json");
    assert_eq!(
        runtime.recovery_path(1),
        "/run/kurumi-containerd/recovery/00000000-0000-0000-0000-000000000001.json"
    );
    assert_eq!(runtime.volatile_dir, "/run/kurumi-containerd/volatile");
    assert_eq!(
        runtime_workdir(Platform::Android, Some("/data/tmp")),
        Ok("/data/tmp/kurumi-containerd".to_owned())
    );
    assert_eq!(runtime_workdir(Platform::Android, None), Err(WorkdirError::Unset));
    assert_eq!(runtime_workdir(Platform::Android, Some("tmp")), Err(WorkdirError::Relative));
}

#[test]
fn installations_are_careful() {
    let directory = runtime();
    assert_eq!(
        directory.install(false, None, false, false),
        Ok(InstallTarget::Directory("/rootfs".to_owned()))
    );
    assert_eq!(directory.install(true, None, false, true), Err(InstallError::Running));
    assert_eq!(directory.install(false, Some(1), false, false), Err(InstallError::SizeGiven));
    assert_eq!(directory.install(false, None, true, false), Err(InstallError::TargetExists));
    assert!(directory.install(false, None, true, true).is_ok());
    let mut with_image = config();
    with_image.container.rootfs = None;
    with_image.container.rootfs_image = Some("/image".to_owned());
    let image = Runtime::new(with_image, "/run/k".to_owned());
    assert_eq!(image.install(false, None, false, false), Err(InstallError::SizeMissing));
    assert_eq!(
        image.install(false, Some(99), false, false),
        Ok(InstallTarget::Image("/image".to_owned(), 99))
    );
    let mut bare = config();
    bare.container.rootfs = None;
    let nothing = Runtime::new(bare, "/run/k".to_owned());
    assert_eq!(nothing.install(false, None, false, false), Err(InstallError::NoTarget));
}

#[test]
fn sizes_have_binary_units() {
    assert_eq!(parse_size("8G"), Some(8 << 30));
    assert_eq!(parse_size("512MiB"), Some(512 << 20));
    assert_eq!(parse_size("3K"), Some(3_072));
    assert_eq!(parse_size("1TiB"), Some(1 << 40));
    assert_eq!(parse_size("4096"), Some(4_096));
    assert_eq!(parse_size(""), None);
    assert_eq!(parse_size("G"), None);
    assert_eq!(parse_size("+1G"), None);
    assert_eq!(parse_size("8g"), None);
    assert_eq!(parse_size("99999999999T"), None);
}

fn installed(successes: &[bool]) -> (Vec<InstallPhase>, InstallPhase) {
    let mut phase = InstallPhase::Stage;
    let mut seen = Vec::new();
    for success in successes {
        seen.push(phase);
        phase = install_step(phase, *success);
    }
    (seen, phase)
}

#[test]
fn targets_are_replaced_only_after_extraction_and_init_validation() {
    let (seen, last) = installed(&[true, true, true, true, true]);
    assert_eq!(
        seen,
        [
            InstallPhase::Stage,
            InstallPhase::Extract,
            InstallPhase::CheckInit,
            InstallPhase::Replace,
            InstallPhase::Discard(InstallOutcome::Installed),
        ]
    );
    assert_eq!(last, InstallPhase::Done(InstallOutcome::Installed));
    for (failing, outcome) in [
        (0, InstallOutcome::StagingFailed),
        (1, InstallOutcome::ArchiveRefused),
        (2, InstallOutcome::InitRefused),
    ] {
        let mut successes = vec![true; 6];
        successes[failing] = false;
        let (seen, last) = installed(&successes);
        assert!(!seen.contains(&InstallPhase::Replace));
        assert_eq!(last, InstallPhase::Done(outcome));
    }
    let (_, last) = installed(&[true, true, true, false, false]);
    assert_eq!(last, InstallPhase::Done(InstallOutcome::ReplacementFailed));
}

/// The seconds that the numbers in a text make up.
fn shown_seconds(text: &str) -> u64 {
    text.split(' ')
        .map(|part| {
            let (number, letter) = part.split_at(part.len() - 1);
            let unit = match letter {
                "d" => 86_400,
                "h" => 3_600,
                "m" => 60,
                _ => 1,
            };
            number.parse::<u64>().unwrap() * unit
        })
        .sum()
}

#[test]
fn times_are_read_back_from_their_text() {
    for seconds in [0, 9, 59, 60, 61, 3_599, 3_600, 3_660, 86_399, 86_400, 86_401, 1_000_000] {
        assert_eq!(shown_seconds(&format_duration(seconds)), seconds);
    }
}

#[test]
fn records_are_told_by_their_extension() {
    for name in ["a.json", ".json", "json", "a.json.tmp", "..json", "a.b.json", "a.jsonx", "x"] {
        assert_eq!(
            is_record_file(name),
            std::path::Path::new(name).extension().is_some_and(|extension| extension == "json"),
            "{name}"
        );
    }
}
