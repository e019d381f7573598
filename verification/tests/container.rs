use kurumi_containerd::config::environment_file::parse_environment;
use kurumi_containerd::config::model::{AndroidConfig, SecurityConfig};
use kurumi_containerd::container::environment::{
    container_environment, render_profile_environment, session_environment_from, terminal_type,
    write_profile_environment, SessionError,
};
use kurumi_containerd::container::init::{
    detect, init_control_paths, init_request, init_request_from, prepare_runtime, probe_paths, request_shutdown, Init,
    InitError, InitFacts, InitFile, InitSystem, ShutdownRequest,
};
use kurumi_containerd::container::security::{
    audit_arch, harden_mounts, hidden_paths, install_seccomp, seccomp_filter, Architecture,
    Presence, SeccompError,
};
use kurumi_containerd::edition::Edition;
use kurumi_containerd::env::Environment;
use kurumi_containerd::helper::fs::{Mount, INERT, MS_BIND, MS_RDONLY, READ_ONLY_BIND};
use kurumi_containerd::helper::security::{
    blocked_syscalls, FilterInstruction, SyscallNumbers, BPF_JMP_JEQ_K, BPF_JMP_JSET_K,
    BPF_LD_W_ABS, BPF_RET_K, SECCOMP_ALLOW, SECCOMP_ERRNO_NOT_IMPLEMENTED,
    SECCOMP_ERRNO_PERMISSION, SECCOMP_KILL_PROCESS,
};
use kurumi_containerd::helper::signal::Signal;
use kurumi_containerd::plan::Action;

fn root_with(files: &[&str]) -> InitFacts {
    InitFacts {
        present: probe_paths().iter().map(|path| files.contains(&path.as_str())).collect(),
        link: None,
        regular: false,
        content: Vec::new(),
    }
}

fn root_with_init(content: &[u8]) -> InitFacts {
    InitFacts { regular: true, content: content.to_vec(), ..root_with(&[]) }
}

fn root_with_link(target: &str) -> InitFacts {
    InitFacts { link: Some(target.to_owned()), ..root_with(&[]) }
}

#[test]
fn detects_supported_init_families() {
    for (path, expected) in [
        ("usr/lib/systemd/systemd", InitSystem::Systemd),
        ("sbin/procd", InitSystem::Procd),
        ("sbin/openrc-init", InitSystem::Openrc),
        ("sbin/runit", InitSystem::Runit),
        ("bin/s6-svscan", InitSystem::S6),
    ] {
        assert_eq!(detect("/sbin/init", &root_with(&[path])), expected);
    }
}

#[test]
fn distinguishes_busybox_sysv_and_nix_wrappers() {
    assert_eq!(
        detect("/sbin/init", &root_with_init(b"#!/bin/sh\nexec busybox init")),
        InitSystem::Busybox
    );
    assert_eq!(detect("/sbin/init", &root_with_init(b"binary init")), InitSystem::Sysvinit);
    assert_eq!(
        detect("/sbin/init", &root_with_init(b"#!/bin/sh\nexec /nix/store/abc-finit")),
        InitSystem::Unknown
    );
}

#[test]
fn links_and_custom_programs_are_told_apart() {
    assert_eq!(detect("/init", &root_with(&["sbin/procd"])), InitSystem::Custom);
    assert_eq!(detect("/sbin//init", &root_with(&["sbin/procd"])), InitSystem::Procd);
    assert_eq!(detect("/sbin/init", &root_with(&[])), InitSystem::Unknown);
    assert_eq!(
        detect("/sbin/init", &root_with_link("/lib/systemd/systemd")),
        InitSystem::Systemd
    );
    assert_eq!(detect("/sbin/init", &root_with_link("/bin/busybox")), InitSystem::Busybox);
    assert_eq!(detect("/sbin/init", &root_with_link("init.sysv")), InitSystem::Sysvinit);
    assert_eq!(detect("/sbin/init", &root_with_link("elsewhere")), InitSystem::Unknown);
    assert_eq!(detect("/sbin/init", &root_with_init(b"run systemd")), InitSystem::Systemd);
    assert_eq!(
        Init { path: "/sbin/init".to_owned() }.detect(&root_with(&["usr/bin/runit"])),
        InitSystem::Runit
    );
}

#[test]
fn validates_init_inside_rootfs() {
    let init = Init { path: "/sbin/init".to_owned() };
    assert_eq!(init.host_path("/rootfs").as_deref(), Some("/rootfs/sbin/init"));
    assert_eq!(
        init.prepare(Some(InitFile { regular: true, mode: 0o644 })),
        Err(InitError::NotExecutable)
    );
    assert_eq!(init.prepare(Some(InitFile { regular: true, mode: 0o755 })), Ok(()));
    assert_eq!(init.prepare(None), Err(InitError::Missing));
    assert_eq!(
        init.prepare(Some(InitFile { regular: false, mode: 0o755 })),
        Err(InitError::NotRegular)
    );
    let relative = Init { path: "sbin/init".to_owned() };
    assert_eq!(
        relative.prepare(Some(InitFile { regular: true, mode: 0o755 })),
        Err(InitError::Relative)
    );
    assert_eq!(relative.host_path("/rootfs"), None);
}

#[test]
fn builds_sysvinit_poweroff_request() {
    let request = init_request();
    assert_eq!(i32::from_ne_bytes(request[0..4].try_into().unwrap()), 0x0309_1969);
    assert_eq!(i32::from_ne_bytes(request[4..8].try_into().unwrap()), 1);
    assert_eq!(i32::from_ne_bytes(request[8..12].try_into().unwrap()), i32::from(b'0'));
    assert_eq!(request.len(), 384);
    assert_eq!(i32::from_ne_bytes(request[12..16].try_into().unwrap()), 3);
    assert!(request[16..].iter().all(|byte| *byte == 0));
    let low = init_request_from(0x0309_1969_i32.to_le_bytes());
    let high = init_request_from(0x0309_1969_i32.to_be_bytes());
    for (place, word) in [0x0309_1969, 1, 48, 3].into_iter().enumerate() {
        let bytes = 4 * place..4 * place + 4;
        assert_eq!(i32::from_le_bytes(low[bytes.clone()].try_into().unwrap()), word);
        assert_eq!(i32::from_be_bytes(high[bytes].try_into().unwrap()), word);
    }
    assert_eq!(request, init_request_from(0x0309_1969_i32.to_ne_bytes()));
}

#[test]
fn shutdown_is_asked_for_in_the_way_of_the_init_system() {
    assert_eq!(request_shutdown(InitSystem::Systemd), ShutdownRequest::Realtime(3));
    assert_eq!(request_shutdown(InitSystem::Procd), ShutdownRequest::Signal(Signal::User2));
    assert_eq!(request_shutdown(InitSystem::S6), ShutdownRequest::Signal(Signal::User2));
    assert_eq!(request_shutdown(InitSystem::Busybox), ShutdownRequest::Signal(Signal::User2));
    assert_eq!(request_shutdown(InitSystem::Runit), ShutdownRequest::Signal(Signal::Continue));
    assert_eq!(request_shutdown(InitSystem::Openrc), ShutdownRequest::Signal(Signal::Power));
    assert_eq!(request_shutdown(InitSystem::Sysvinit), ShutdownRequest::InitControl);
    assert_eq!(request_shutdown(InitSystem::Custom), ShutdownRequest::Signal(Signal::Kill));
    assert_eq!(request_shutdown(InitSystem::Unknown), ShutdownRequest::Signal(Signal::Terminate));
    assert_eq!(
        init_control_paths(12),
        ["/proc/12/root/run/initctl", "/proc/12/root/dev/initctl"]
    );
    assert_eq!(InitSystem::Openrc.name(), "openrc");
    assert_eq!(InitSystem::S6.name(), "s6");
}

#[test]
fn systemd_is_prepared_and_nothing_else() {
    assert!(prepare_runtime(InitSystem::Openrc, Edition::Kurumi, false).is_empty());
    let plan = prepare_runtime(InitSystem::Systemd, Edition::Kurumi, false);
    assert_eq!(plan[0], Action::CreateDirAll("/run/systemd/journal".to_owned()));
    assert!(plan.contains(&Action::WriteFile {
        path: "/run/systemd/container".to_owned(),
        contents: "kurumi-containerd".to_owned(),
    }));
    assert!(plan.contains(&Action::Symlink {
        target: "/dev/null".to_owned(),
        link: "/run/systemd/system/systemd-journald-audit.socket".to_owned(),
    }));
    let gnosis = prepare_runtime(InitSystem::Systemd, Edition::Gnosis, true);
    assert_eq!(gnosis.len(), plan.len() + 4);
    assert!(gnosis.contains(&Action::WriteFile {
        path: "/run/systemd/journald.conf.d/gnosis.conf".to_owned(),
        contents: "[Journal]\nReadKMsg=no\nAudit=no\nStorage=volatile\n".to_owned(),
    }));
}

// ---------------------------------------------------------------------------
// Environment
// ---------------------------------------------------------------------------
fn environment(pairs: &[(&str, &str)]) -> Environment {
    let mut environment = Environment::new();
    for (key, value) in pairs {
        environment.insert(key.to_string(), value.to_string());
    }
    environment
}

fn contains(environment: &[String], entry: &str) -> bool {
    environment.iter().any(|value| value == entry)
}

#[test]
fn applies_defaults_and_user_overrides() {
    let configured = environment(&[("LANG", "C.UTF-8"), ("APP_MODE", "test")]);
    let environment =
        container_environment(Edition::Kurumi, &configured, &AndroidConfig::default(), None)
            .unwrap();
    assert!(contains(
        &environment,
        "PATH=/usr/local/sbin:/usr/local/bin:/usr/sbin:/usr/bin:/sbin:/bin"
    ));
    assert!(contains(&environment, "container=kurumi-containerd"));
    assert!(contains(&environment, "LANG=C.UTF-8"));
    assert_eq!(environment.iter().filter(|entry| entry.starts_with("LANG=")).count(), 1);
    assert!(contains(&environment, "APP_MODE=test"));
}

#[test]
fn quotes_profile_values_for_shell() {
    let configured = environment(&[("VALUE", "it's safe")]);
    let rendered = render_profile_environment(&configured);
    assert_eq!(rendered, "export VALUE='it'\\''s safe'\n");
}

#[test]
fn configured_environment_overrides_session_environment() {
    let configured = environment(&[("LANG", "configured")]);
    let environment = session_environment_from(
        Edition::Kurumi,
        "LANG=image\nIMAGE_ONLY=yes\n",
        &configured,
        &AndroidConfig::default(),
        None,
    )
    .unwrap();
    assert!(contains(&environment, "LANG=configured"));
    assert!(contains(&environment, "IMAGE_ONLY=yes"));
    assert!(!contains(&environment, "LANG=image"));
}

#[test]
fn environments_with_faults_are_refused() {
    let android = AndroidConfig::default();
    let faulty = environment(&[("ZERO", "a\0b")]);
    assert!(container_environment(Edition::Kurumi, &faulty, &android, None).is_err());
    assert!(matches!(
        session_environment_from(Edition::Kurumi, "X\n", &Environment::new(), &android, None),
        Err(SessionError::File(_))
    ));
    assert!(matches!(
        session_environment_from(Edition::Kurumi, "", &faulty, &android, None),
        Err(SessionError::Nul(_))
    ));
}

#[test]
fn terminals_are_named_conservatively() {
    assert_eq!(terminal_type(Some("screen")), "screen");
    assert_eq!(terminal_type(Some("")), "xterm-256color");
    assert_eq!(terminal_type(Some("vt.5")), "xterm-256color");
    assert_eq!(terminal_type(Some("bgterm")), "xterm-256color");
    assert_eq!(terminal_type(None), "xterm-256color");
}

#[test]
fn shared_android_services_are_announced() {
    let mut android = AndroidConfig::default();
    android.termux_x11 = true;
    android.virgl = true;
    android.pulse_audio = true;
    let environment_texts =
        container_environment(Edition::Gnosis, &Environment::new(), &android, Some("vt100"))
            .unwrap();
    assert_eq!(
        environment_texts,
        [
            "DISPLAY=:5",
            "GALLIUM_DRIVER=virpipe",
            "HOME=/root",
            "LANG=en_US.UTF-8",
            "PATH=/usr/local/sbin:/usr/local/bin:/usr/sbin:/usr/bin:/sbin:/bin",
            "PULSE_SERVER=unix:/tmp/.pulse-socket",
            "TERM=vt100",
            "container=gnosis",
        ]
    );
    let configured = environment(&[("DISPLAY", ":9")]);
    let plan = write_profile_environment(&configured, &android, true);
    assert_eq!(
        plan,
        [
            Action::WriteFile {
                path: "/run/kurumi-containerd.env".to_owned(),
                contents: "export DISPLAY=':9'\nexport GALLIUM_DRIVER='virpipe'\nexport \
                           PULSE_SERVER='unix:/tmp/.pulse-socket'\n"
                    .to_owned(),
            },
            Action::RemoveFile("/etc/profile.d/kurumi_containerd_env.sh".to_owned()),
            Action::Symlink {
                target: "/run/kurumi-containerd.env".to_owned(),
                link: "/etc/profile.d/kurumi_containerd_env.sh".to_owned(),
            },
        ]
    );
    assert_eq!(write_profile_environment(&configured, &android, false).len(), 1);
}

// ---------------------------------------------------------------------------
// Security
// ---------------------------------------------------------------------------
#[test]
fn existing_paths_are_masked() {
    let paths = hidden_paths();
    assert_eq!(
        paths,
        [
            "/proc/kcore",
            "/proc/keys",
            "/proc/timer_list",
            "/proc/sysrq-trigger",
            "/sys/kernel/debug",
            "/sys/kernel/tracing",
        ]
    );
    let mut presences = vec![Presence::Missing; 6];
    presences[0] = Presence::File;
    presences[4] = Presence::Directory;
    let security = SecurityConfig { read_only_sys: true, allow_user_namespaces: false };
    let plan = harden_mounts(&security, &presences);
    let seal = |target: &str| {
        Action::Mount(Mount {
            source: None,
            target: target.to_owned(),
            filesystem: None,
            flags: READ_ONLY_BIND,
            data: None,
        })
    };
    let bind = |source: &str, target: &str| {
        Action::Mount(Mount {
            source: Some(source.to_owned()),
            target: target.to_owned(),
            filesystem: None,
            flags: MS_BIND,
            data: None,
        })
    };
    assert_eq!(
        plan,
        [
            seal("/sys"),
            bind("/proc/sys", "/proc/sys"),
            seal("/proc/sys"),
            bind("/dev/null", "/proc/kcore"),
            seal("/proc/kcore"),
            Action::Mount(Mount {
                source: Some("tmpfs".to_owned()),
                target: "/sys/kernel/debug".to_owned(),
                filesystem: Some("tmpfs".to_owned()),
                flags: MS_RDONLY | INERT,
                data: Some("size=4k".to_owned()),
            }),
        ]
    );
    let open = SecurityConfig { read_only_sys: false, allow_user_namespaces: false };
    assert_eq!(harden_mounts(&open, &vec![Presence::Missing; 6]).len(), 2);
}

fn numbers() -> SyscallNumbers {
    SyscallNumbers {
        init_module: 175,
        finit_module: 313,
        delete_module: 176,
        kexec_load: 246,
        settimeofday: 164,
        adjtimex: 159,
        clock_settime: 227,
        clock_adjtime: 305,
        kexec_file_load: Some(320),
        unshare: 272,
        clone: 56,
        clone3: 435,
        socket: 41,
    }
}

/// What a filter answers to a system call.
fn answer(filter: &[FilterInstruction], arch: u32, number: u32, argument: u32) -> u32 {
    let mut at: usize = 0;
    let mut accumulator: u32 = 0;
    loop {
        let instruction = &filter[at];
        if instruction.code == BPF_LD_W_ABS {
            accumulator = match instruction.value {
                0 => number,
                4 => arch,
                16 => argument,
                _ => panic!("an unknown field"),
            };
            at += 1;
        } else if instruction.code == BPF_RET_K {
            return instruction.value;
        } else {
            let holds = if instruction.code == BPF_JMP_JEQ_K {
                accumulator == instruction.value
            } else {
                assert_eq!(instruction.code, BPF_JMP_JSET_K);
                accumulator & instruction.value != 0
            };
            let skip = if holds { instruction.jump_true } else { instruction.jump_false };
            at += 1 + usize::from(skip);
        }
    }
}

#[test]
fn the_filter_answers_as_the_policy_says() {
    let arch = audit_arch(Architecture::X86_64);
    assert_eq!(arch, 0xc000_003e);
    let strict = SecurityConfig { read_only_sys: true, allow_user_namespaces: false };
    let filter = seccomp_filter(&strict, &numbers(), Architecture::X86_64).unwrap();
    for blocked in blocked_syscalls(&numbers()) {
        assert_eq!(answer(&filter, arch, blocked as u32, 0), SECCOMP_ERRNO_PERMISSION);
    }
    assert_eq!(answer(&filter, 0x4000_0003, 0, 0), SECCOMP_KILL_PROCESS);
    assert_eq!(answer(&filter, arch, 0x4000_0001, 0), SECCOMP_KILL_PROCESS);
    assert_eq!(answer(&filter, arch, 272, 0x1000_0000), SECCOMP_ERRNO_PERMISSION);
    assert_eq!(answer(&filter, arch, 272, 0x2000_0000), SECCOMP_ALLOW);
    assert_eq!(answer(&filter, arch, 56, 0x1000_0011), SECCOMP_ERRNO_PERMISSION);
    assert_eq!(answer(&filter, arch, 56, 0x11), SECCOMP_ALLOW);
    assert_eq!(answer(&filter, arch, 435, 0), SECCOMP_ERRNO_NOT_IMPLEMENTED);
    assert_eq!(answer(&filter, arch, 41, 38), SECCOMP_ERRNO_PERMISSION);
    assert_eq!(answer(&filter, arch, 41, 2), SECCOMP_ALLOW);
    assert_eq!(answer(&filter, arch, 0, 0), SECCOMP_ALLOW);
    let lax = SecurityConfig { read_only_sys: true, allow_user_namespaces: true };
    let filter = seccomp_filter(&lax, &numbers(), Architecture::Aarch64).unwrap();
    let arch = audit_arch(Architecture::Aarch64);
    assert_eq!(answer(&filter, arch, 272, 0x1000_0000), SECCOMP_ALLOW);
    assert_eq!(answer(&filter, arch, 435, 0), SECCOMP_ALLOW);
}

#[test]
fn negative_numbers_make_no_filter() {
    let strict = SecurityConfig { read_only_sys: true, allow_user_namespaces: false };
    let filter = |change: fn(&mut SyscallNumbers)| {
        let mut table = numbers();
        change(&mut table);
        seccomp_filter(&strict, &table, Architecture::X86_64).err()
    };
    assert_eq!(filter(|n| n.init_module = -1), Some(SeccompError::Blocked(0)));
    assert_eq!(filter(|n| n.unshare = -1), Some(SeccompError::Unshare));
    assert_eq!(filter(|n| n.clone = -1), Some(SeccompError::Clone));
    assert_eq!(filter(|n| n.clone3 = -1), Some(SeccompError::Clone3));
    assert_eq!(filter(|n| n.socket = 0x1_0000_0000), Some(SeccompError::Socket));
}

#[test]
fn the_installed_filter_uses_the_numbers_of_the_host() {
    let strict = SecurityConfig { read_only_sys: true, allow_user_namespaces: false };
    let filter =
        install_seccomp(&strict, Architecture::X86_64, Some(libc::SYS_kexec_file_load)).unwrap();
    let arch = audit_arch(Architecture::X86_64);
    for blocked in [
        libc::SYS_init_module,
        libc::SYS_finit_module,
        libc::SYS_delete_module,
        libc::SYS_kexec_load,
        libc::SYS_kexec_file_load,
        libc::SYS_settimeofday,
        libc::SYS_adjtimex,
        libc::SYS_clock_settime,
        libc::SYS_clock_adjtime,
    ] {
        assert_eq!(answer(&filter, arch, blocked as u32, 0), SECCOMP_ERRNO_PERMISSION);
    }
    let user = libc::CLONE_NEWUSER as u32;
    assert_eq!(
        answer(&filter, arch, libc::SYS_unshare as u32, user),
        SECCOMP_ERRNO_PERMISSION
    );
    assert_eq!(answer(&filter, arch, libc::SYS_clone as u32, user), SECCOMP_ERRNO_PERMISSION);
    assert_eq!(
        answer(&filter, arch, libc::SYS_clone3 as u32, 0),
        SECCOMP_ERRNO_NOT_IMPLEMENTED
    );
    assert_eq!(
        answer(&filter, arch, libc::SYS_socket as u32, libc::AF_ALG as u32),
        SECCOMP_ERRNO_PERMISSION
    );
    assert_eq!(answer(&filter, arch, libc::SYS_read as u32, 0), SECCOMP_ALLOW);
}

#[test]
fn exported_environments_are_read_back() {
    let written = environment(&[("A", ""), ("B_1", " x \"y\" = \r"), ("C", "#z")]);
    assert_eq!(parse_environment(&render_profile_environment(&written)), Ok(written));
}

#[test]
fn joined_environment_files_merge() {
    let joined = |a: &str, b: &str| parse_environment(&format!("{a}\n{b}"));
    let merged = joined("A=1\nB=2\r", "B=3\nC=4\n").unwrap();
    assert_eq!(merged, environment(&[("A", "1"), ("B", "3"), ("C", "4")]));
    assert!(joined("A=1", "B").is_err());
    assert!(joined("A", "B=1").is_err());
    assert_eq!(joined("", "").unwrap().len(), 0);
}
