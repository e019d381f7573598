use kurumi_containerd::config::model::NetworkMode;
use kurumi_containerd::container::init::InitSystem;
use kurumi_containerd::helper::process::WaitStatus;
use kurumi_containerd::helper::signal::SignalNumber;
use kurumi_containerd::runtime::execute::{
    begin_execute, command_arguments, command_candidates, command_status, enter, execute, login_arguments, login_environment,
    login_programs, namespaces, parse_passwd, replace_environment, resolve_container_command, run,
    shell_arguments, usable_shell, valid_login_name, worker_plan, CommandError, ExecuteAction,
    ExecuteError, ExecuteEvent, ExecutePhase, PasswdEntry, RequestError, WorkerStep,
};
use kurumi_containerd::runtime::state::{ContainerState, ProcessFacts};

fn texts(items: &[&str]) -> Vec<String> {
    items.iter().map(|item| item.to_string()).collect()
}

#[test]
fn parses_login_account() {
    let source = "root:x:0:0:root:/root:/bin/bash\nuser:x:1000:1000::/home/user:/bin/sh\n";
    assert_eq!(
        parse_passwd(source, "user"),
        Some(PasswdEntry {
            uid: 1000,
            gid: 1000,
            home: "/home/user".to_owned(),
            shell: "/bin/sh".to_owned()
        })
    );
    assert_eq!(parse_passwd(source, "missing"), None);
}

#[test]
fn rejects_unsafe_login_names() {
    assert!(valid_login_name("root"));
    assert!(valid_login_name("service-user_1"));
    assert!(!valid_login_name(""));
    assert!(!valid_login_name("../../root"));
    assert!(!valid_login_name("user:name"));
}

#[test]
fn malformed_accounts_are_passed_over() {
    let source = "user:x:bad:1::/a:/b\nuser:x:1\nuser:x:5:6::/home:/bin/zsh\nuser:x:7:8::/:/x";
    assert_eq!(parse_passwd(source, "user").unwrap().uid, 5);
    assert_eq!(parse_passwd("user:x:4294967296:0::/:/x", "user"), None);
    assert_eq!(parse_passwd("user:x:4294967295:0::/:/x", "user").unwrap().uid, u32::MAX);
    assert!(valid_login_name(&"a".repeat(256)));
    assert!(!valid_login_name(&"a".repeat(257)));
}

#[test]
fn requests_are_checked_first() {
    assert_eq!(enter("root"), Ok(()));
    assert_eq!(enter("a b"), Err(RequestError::LoginName));
    assert_eq!(run(&texts(&["ls"])), Ok(()));
    assert_eq!(run(&Vec::new()), Err(RequestError::NoCommand));
}

#[test]
fn namespaces_depend_on_the_network() {
    assert_eq!(namespaces(NetworkMode::Host), ["mnt", "uts", "ipc", "pid"]);
    assert_eq!(namespaces(NetworkMode::Nat), ["mnt", "uts", "ipc", "pid", "net"]);
}

#[test]
fn workers_are_confined_before_they_execute() {
    assert_eq!(
        worker_plan(false),
        [
            WorkerStep::JoinNamespaces,
            WorkerStep::AttachCgroup,
            WorkerStep::InstallSeccomp,
            WorkerStep::Fork,
            WorkerStep::EnterRoot,
            WorkerStep::CloseDescriptors,
            WorkerStep::Command,
        ]
    );
    let login = worker_plan(true);
    assert_eq!(login[2], WorkerStep::OpenConsole);
    assert_eq!(*login.last().unwrap(), WorkerStep::Login);
}

#[test]
fn failed_executions_are_terminated() {
    let start = ExecutePhase::Started { login: true };
    assert_eq!(
        execute(start, ExecuteEvent::TerminalReceived),
        (ExecutePhase::Running, ExecuteAction::Proxy)
    );
    assert_eq!(
        execute(start, ExecuteEvent::TerminalMissing),
        (ExecutePhase::Done, ExecuteAction::TerminateAndReap)
    );
    assert_eq!(
        execute(ExecutePhase::Running, ExecuteEvent::WaitFailed),
        (ExecutePhase::Done, ExecuteAction::TerminateSessionAndReap)
    );
    assert_eq!(
        execute(ExecutePhase::Running, ExecuteEvent::Ended(WaitStatus::Exited(1, 0))),
        (ExecutePhase::Done, ExecuteAction::Report(Ok(())))
    );
    assert_eq!(
        execute(
            ExecutePhase::Started { login: false },
            ExecuteEvent::Ended(WaitStatus::Exited(1, 2))
        ),
        (ExecutePhase::Done, ExecuteAction::Report(Err(CommandError::Exited(2))))
    );
    assert_eq!(
        execute(ExecutePhase::Done, ExecuteEvent::WaitFailed),
        (ExecutePhase::Done, ExecuteAction::Ignore)
    );
}

#[test]
fn statuses_are_reported() {
    let kill = SignalNumber::from_kernel(9);
    assert_eq!(command_status(WaitStatus::Exited(1, 0)), Ok(()));
    assert_eq!(command_status(WaitStatus::Exited(1, 3)), Err(CommandError::Exited(3)));
    assert_eq!(
        command_status(WaitStatus::Signaled(1, kill, false)),
        Err(CommandError::Terminated(kill))
    );
    assert_eq!(
        command_status(WaitStatus::StillAlive),
        Err(CommandError::Unexpected(WaitStatus::StillAlive))
    );
}

#[test]
fn commands_are_looked_up_in_the_container() {
    let candidates = command_candidates("ls");
    assert_eq!(
        candidates,
        [
            "/usr/local/sbin/ls",
            "/usr/local/bin/ls",
            "/usr/sbin/ls",
            "/usr/bin/ls",
            "/sbin/ls",
            "/bin/ls",
        ]
    );
    let mut present = vec![false; 6];
    assert_eq!(resolve_container_command("ls", &present), None);
    assert_eq!(resolve_container_command("./ls", &present).as_deref(), Some("./ls"));
    present[3] = true;
    present[5] = true;
    assert_eq!(resolve_container_command("ls", &present).as_deref(), Some("/usr/bin/ls"));
    assert_eq!(
        command_arguments(&texts(&["ls", "-l", "ls"]), &present),
        Some(texts(&["/usr/bin/ls", "-l", "ls"]))
    );
    assert_eq!(command_arguments(&texts(&["ls"]), &vec![false; 6]), None);
}

fn account(shell: &str) -> PasswdEntry {
    PasswdEntry { uid: 1, gid: 2, home: "/h".to_owned(), shell: shell.to_owned() }
}

#[test]
fn logins_use_su_or_the_shell() {
    assert_eq!(login_programs(), ["/bin/su", "/usr/bin/su", "/run/wrappers/bin/su"]);
    assert_eq!(login_arguments("me"), ["su", "-l", "me"]);
    assert!(usable_shell(&account("/bin/zsh"), true));
    assert!(!usable_shell(&account("/bin/zsh"), false));
    assert!(!usable_shell(&account("zsh"), true));
    assert_eq!(shell_arguments(&account("/bin/zsh")), ["zsh", "-l"]);
    assert_eq!(shell_arguments(&account("/")), ["sh", "-l"]);
}

#[test]
fn login_environments_replace_what_they_set() {
    let base = texts(&["HOME=/root", "A=1", "USER=root", "HOMEX=2"]);
    assert_eq!(
        login_environment(&base, &account("/bin/zsh"), "me"),
        ["A=1", "HOMEX=2", "HOME=/h", "USER=me", "LOGNAME=me", "SHELL=/bin/zsh"]
    );
    assert_eq!(replace_environment(&texts(&["A=1", "A=2"]), "A", "3"), ["A=3"]);
}

#[test]
fn nothing_is_forked_for_a_refused_request() {
    let state = || {
        Some(ContainerState {
            name: "test".to_owned(),
            init_pid: 10,
            monitor_pid: 9,
            rootfs: "/rootfs".to_owned(),
            uuid: 5,
            host_boot_id: "boot".to_owned(),
            init_start_time: 100,
            pid_namespace_inode: 200,
            started_at_unix: 1_000,
            monitor_start_time: 90,
            init_system: InitSystem::Systemd,
            generation: 2,
        })
    };
    let facts = |start: u64| ProcessFacts {
        boot_id: Some("boot".to_owned()),
        init_start_time: Some(start),
        init_namespace: Some(200),
        init_name: Some("test".to_owned()),
        monitor_start_time: Some(90),
    };
    assert_eq!(
        begin_execute(true, &state(), &facts(100), true),
        Ok(ExecutePhase::Started { login: true })
    );
    assert_eq!(begin_execute(false, &state(), &facts(100), true), Err(ExecuteError::NotRoot));
    assert_eq!(begin_execute(true, &None, &facts(100), false), Err(ExecuteError::NotRunning));
    assert_eq!(
        begin_execute(true, &state(), &facts(101), false),
        Err(ExecuteError::IdentityChanged)
    );
}
