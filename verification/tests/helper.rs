use kurumi_containerd::helper::fs::{
    loop_attach, loop_device_paths, loop_file_name, LoopDecision, LoopOutcome, INERT, MS_BIND,
    MS_DIRSYNC, MS_NOATIME, MS_NODEV, MS_NODIRATIME, MS_NOEXEC, MS_NOSUID, MS_PRIVATE, MS_RDONLY,
    MS_REC, MS_REMOUNT, READ_ONLY_BIND, RECURSIVE_BIND, TMPFS_MAGIC,
};
use kurumi_containerd::helper::process::{
    fork_result, wait_status, withheld_descriptor, ForkResult, WaitStatus,
};
use kurumi_containerd::helper::security::{
    jump, statement, BPF_JMP_JEQ_K, BPF_JMP_JSET_K, BPF_LD_W_ABS, BPF_RET_K, CLONE_NEWUSER,
    SECCOMP_ALLOW, SECCOMP_ERRNO_NOT_IMPLEMENTED, SECCOMP_ERRNO_PERMISSION, SECCOMP_KILL_PROCESS,
};
use kurumi_containerd::helper::signal::{Signal, SignalNumber, SignalTable};
use kurumi_containerd::helper::terminal::{
    receive_fds, ControlHeader, ControlLayout, DescriptorFault,
};

#[test]
fn validates_signal_numbers_and_flags() {
    let table = SignalTable::host();
    assert_eq!(SignalNumber::from_signal(Signal::Kill, &table).raw(), libc::SIGKILL);
    assert_eq!(SignalNumber::new(0), Some(SignalNumber::none()));
    assert_eq!(SignalNumber::new(-1), None);
    assert_eq!(SignalNumber::new(libc::SIGRTMAX() + 1), None);
    assert_eq!(SignalNumber::realtime(3).unwrap().raw(), libc::SIGRTMIN() + 3);
}

#[test]
fn signals_have_the_numbers_and_names_of_the_host() {
    let table = SignalTable::host();
    for (signal, number, name) in [
        (Signal::Hangup, libc::SIGHUP, "SIGHUP"),
        (Signal::Interrupt, libc::SIGINT, "SIGINT"),
        (Signal::Quit, libc::SIGQUIT, "SIGQUIT"),
        (Signal::Kill, libc::SIGKILL, "SIGKILL"),
        (Signal::User1, libc::SIGUSR1, "SIGUSR1"),
        (Signal::User2, libc::SIGUSR2, "SIGUSR2"),
        (Signal::Pipe, libc::SIGPIPE, "SIGPIPE"),
        (Signal::Continue, libc::SIGCONT, "SIGCONT"),
        (Signal::Power, libc::SIGPWR, "SIGPWR"),
        (Signal::Terminate, libc::SIGTERM, "SIGTERM"),
    ] {
        assert_eq!(signal.raw(&table), number);
        assert_eq!(SignalNumber::from_kernel(number).name(&table), name);
    }
    assert_eq!(SignalNumber::from_kernel(libc::SIGSEGV).name(&table), "SIGSEGV");
    assert_eq!(SignalNumber::realtime(-1), None);
    assert_eq!(SignalNumber::realtime(libc::SIGRTMAX() - libc::SIGRTMIN() + 1), None);
    assert!(SignalNumber::realtime(libc::SIGRTMAX() - libc::SIGRTMIN()).is_some());
    assert!(SignalNumber::new(libc::SIGRTMAX()).is_some());
}

#[test]
fn wait_statuses_are_told_apart() {
    assert_eq!(wait_status(7, 0), WaitStatus::Exited(7, 0));
    assert_eq!(wait_status(7, 3 << 8), WaitStatus::Exited(7, 3));
    assert_eq!(
        wait_status(7, libc::SIGKILL),
        WaitStatus::Signaled(7, SignalNumber::from_kernel(libc::SIGKILL), false)
    );
    assert_eq!(
        wait_status(7, libc::SIGSEGV | 0x80),
        WaitStatus::Signaled(7, SignalNumber::from_kernel(libc::SIGSEGV), true)
    );
    assert_eq!(
        wait_status(7, (libc::SIGSTOP << 8) | 0x7f),
        WaitStatus::Stopped(7, SignalNumber::from_kernel(libc::SIGSTOP))
    );
    assert_eq!(wait_status(7, 0xffff), WaitStatus::Continued(7));
    let mut code: i32 = 0;
    while code < 256 {
        assert_eq!(wait_status(1, code << 8), WaitStatus::Exited(1, code));
        code += 1;
    }
}

#[test]
fn forks_and_descriptors() {
    assert!(matches!(fork_result(0), Some(ForkResult::Child)));
    assert!(matches!(fork_result(9), Some(ForkResult::Parent { child: 9 })));
    assert!(fork_result(-1).is_none());
    assert_eq!(withheld_descriptor("3"), Some(3));
    assert_eq!(withheld_descriptor("2"), None);
    assert_eq!(withheld_descriptor("1024"), Some(1024));
    assert_eq!(withheld_descriptor("."), None);
}

#[test]
fn mount_flags_are_those_of_the_kernel() {
    for (flag, expected) in [
        (MS_RDONLY, libc::MS_RDONLY),
        (MS_NOSUID, libc::MS_NOSUID),
        (MS_NODEV, libc::MS_NODEV),
        (MS_NOEXEC, libc::MS_NOEXEC),
        (MS_REMOUNT, libc::MS_REMOUNT),
        (MS_DIRSYNC, libc::MS_DIRSYNC),
        (MS_NOATIME, libc::MS_NOATIME),
        (MS_NODIRATIME, libc::MS_NODIRATIME),
        (MS_BIND, libc::MS_BIND),
        (MS_REC, libc::MS_REC),
        (MS_PRIVATE, libc::MS_PRIVATE),
    ] {
        assert_eq!(flag, expected);
    }
    assert_eq!(READ_ONLY_BIND, libc::MS_BIND | libc::MS_REMOUNT | libc::MS_RDONLY);
    assert_eq!(RECURSIVE_BIND, libc::MS_BIND | libc::MS_REC);
    assert_eq!(INERT, libc::MS_NOSUID | libc::MS_NODEV | libc::MS_NOEXEC);
    assert_eq!(TMPFS_MAGIC, libc::TMPFS_MAGIC as i64);
}

#[test]
fn filter_instructions_are_those_of_the_kernel() {
    assert_eq!(u32::from(BPF_LD_W_ABS), libc::BPF_LD | libc::BPF_W | libc::BPF_ABS);
    assert_eq!(u32::from(BPF_JMP_JEQ_K), libc::BPF_JMP | libc::BPF_JEQ | libc::BPF_K);
    assert_eq!(u32::from(BPF_JMP_JSET_K), libc::BPF_JMP | libc::BPF_JSET | libc::BPF_K);
    assert_eq!(u32::from(BPF_RET_K), libc::BPF_RET | libc::BPF_K);
    assert_eq!(SECCOMP_ALLOW, libc::SECCOMP_RET_ALLOW);
    assert_eq!(SECCOMP_KILL_PROCESS, libc::SECCOMP_RET_KILL_PROCESS);
    assert_eq!(SECCOMP_ERRNO_PERMISSION, libc::SECCOMP_RET_ERRNO | libc::EPERM as u32);
    assert_eq!(SECCOMP_ERRNO_NOT_IMPLEMENTED, libc::SECCOMP_RET_ERRNO | libc::ENOSYS as u32);
    assert_eq!(CLONE_NEWUSER, libc::CLONE_NEWUSER as u32);
    let load = statement(BPF_LD_W_ABS, 4);
    assert_eq!((load.code, load.jump_true, load.jump_false, load.value), (0x20, 0, 0, 4));
    let test = jump(BPF_JMP_JEQ_K, 9, 1, 2);
    assert_eq!((test.code, test.jump_true, test.jump_false, test.value), (0x15, 1, 2, 9));
}

#[test]
fn loop_devices_are_tried_again_while_busy() {
    assert_eq!(loop_attach(0, LoopOutcome::Attached), LoopDecision::Keep);
    assert_eq!(loop_attach(0, LoopOutcome::Busy), LoopDecision::Retry);
    assert_eq!(loop_attach(0, LoopOutcome::Failed), LoopDecision::Report);
    assert_eq!(loop_attach(7, LoopOutcome::Busy), LoopDecision::ReportBusy);
    assert_eq!(loop_device_paths(12), ["/dev/loop12", "/dev/block/loop12"]);
    let name = loop_file_name(b"/image");
    assert_eq!(name.len(), 64);
    assert_eq!(&name[..7], b"/image\0");
    assert_eq!(loop_file_name(&[b'x'; 100])[63], 0);
}

fn layout() -> ControlLayout {
    ControlLayout {
        header_length: 16,
        control_length: 64,
        descriptor_size: 4,
        socket_level: 1,
        rights_kind: 1,
    }
}

#[test]
fn descriptors_are_counted() {
    let header = |length: usize| ControlHeader { length, level: 1, kind: 1 };
    let receipt = receive_fds(layout(), &vec![header(24)], false, 2);
    assert_eq!(receipt.counts, [2]);
    assert_eq!(receipt.fault, None);
    let fault = |headers: Vec<ControlHeader>, truncated: bool, count: usize| {
        receive_fds(layout(), &headers, truncated, count).fault
    };
    assert_eq!(fault(vec![header(20)], false, 2), Some(DescriptorFault::Count));
    assert_eq!(fault(vec![header(15)], false, 0), Some(DescriptorFault::Length));
    assert_eq!(fault(vec![header(22)], false, 1), Some(DescriptorFault::Unaligned));
    assert_eq!(fault(vec![header(20)], true, 1), Some(DescriptorFault::Truncated));
    assert_eq!(
        fault(vec![ControlHeader { length: 24, level: 2, kind: 1 }], false, 0),
        None
    );
}
