//! What a container is kept from: parts of `/proc` and `/sys`, and system
//! calls.
use vstd::prelude::*;

use crate::config::model::SecurityConfig;
use crate::helper::fs::{Mount, MS_NODEV, MS_NOEXEC, MS_NOSUID, MS_RDONLY, READ_ONLY_BIND};
use crate::helper::security::{
    all_fit, blocked, blocked_syscalls, fits, host_syscalls, jump, jump_step, lemma_run_suffix,
    load, plain_step, run_filter, statement, FilterInstruction, SyscallData, SyscallNumbers,
    ADDRESS_FAMILY_ALG, BPF_JMP_JEQ_K, BPF_JMP_JSET_K, BPF_LD_W_ABS, BPF_RET_K, CLONE_NEWUSER,
    SECCOMP_ALLOW, SECCOMP_DATA_ARCH_OFFSET, SECCOMP_DATA_ARG0_OFFSET, SECCOMP_DATA_NR_OFFSET,
    SECCOMP_ERRNO_NOT_IMPLEMENTED, SECCOMP_ERRNO_PERMISSION, SECCOMP_KILL_PROCESS, X32_SYSCALL_BIT,
};
use crate::plan::{bind, bind_step, mount, mount_step, seal, seal_step, Action, Steps};
use crate::text::{lemma_views_empty, lemma_views_push, views};

verus! {

// ---------------------------------------------------------------------------
// Mounts
// ---------------------------------------------------------------------------
/// What stands at a path.
#[derive(Clone, Copy, Debug, PartialEq, Eq, Structural)]
pub enum Presence {
    Missing,
    Directory,
    /// Anything else than a directory.
    File,
}

/// The paths of `/proc` and `/sys` that are covered.
pub open spec fn masked_paths() -> Seq<Seq<char>> {
    seq![
        "/proc/kcore"@,
        "/proc/keys"@,
        "/proc/timer_list"@,
        "/proc/sysrq-trigger"@,
        "/sys/kernel/debug"@,
        "/sys/kernel/tracing"@,
    ]
}

/// The paths of `/proc` and `/sys` that are covered.
pub fn hidden_paths() -> (paths: Vec<String>)
    ensures
        views(paths@) == masked_paths(),
        paths@.len() == 6,
{
    broadcast use {lemma_views_push, lemma_views_empty};

    let mut paths: Vec<String> = Vec::new();
    paths.push("/proc/kcore".to_owned());
    paths.push("/proc/keys".to_owned());
    paths.push("/proc/timer_list".to_owned());
    paths.push("/proc/sysrq-trigger".to_owned());
    paths.push("/sys/kernel/debug".to_owned());
    paths.push("/sys/kernel/tracing".to_owned());
    assert(views(paths@) =~= masked_paths());
    paths
}

/// The steps that cover a path: an empty read-only file system over a
/// directory, and the null device, made read-only, over a file.
pub open spec fn mask_steps(path: Seq<char>, presence: Presence) -> Steps {
    match presence {
        Presence::Missing => Seq::empty(),
        Presence::Directory => seq![
            mount_step(
                Some("tmpfs"@),
                path,
                Some("tmpfs"@),
                MS_RDONLY | MS_NOSUID | MS_NODEV | MS_NOEXEC,
                Some("size=4k"@),
            ),
        ],
        Presence::File => seq![bind_step("/dev/null"@, path), seal_step(path)],
    }
}

/// The steps that cover the first `count` paths.
pub open spec fn masks(presences: Seq<Presence>, count: int) -> Steps
    decreases count,
{
    if count <= 0 {
        Seq::empty()
    } else {
        masks(presences, count - 1) + mask_steps(masked_paths()[count - 1], presences[count - 1])
    }
}

/// The steps that keep the container from the kernel's controls.
pub open spec fn hardening(config: SecurityConfig, presences: Seq<Presence>) -> Steps {
    (if config.read_only_sys {
        seq![seal_step("/sys"@)]
    } else {
        Seq::empty()
    }) + seq![bind_step("/proc/sys"@, "/proc/sys"@), seal_step("/proc/sys"@)] + masks(presences, 6)
}

/// The steps that keep the container from the kernel's controls, where
/// `presences` says what stands at each of the hidden paths.
pub fn harden_mounts(config: &SecurityConfig, presences: &Vec<Presence>) -> (plan: Vec<
    Action<String>,
>)
    requires
        presences@.len() == masked_paths().len(),
    ensures
        views(plan@) == hardening(*config, presences@),
{
    broadcast use {lemma_views_push, lemma_views_empty};

    let mut plan: Vec<Action<String>> = Vec::new();
    if config.read_only_sys {
        plan.push(seal("/sys"));
    }
    plan.push(bind("/proc/sys", "/proc/sys"));
    plan.push(seal("/proc/sys"));
    let ghost head = (if config.read_only_sys {
        seq![seal_step("/sys"@)]
    } else {
        Seq::empty()
    }) + seq![bind_step("/proc/sys"@, "/proc/sys"@), seal_step("/proc/sys"@)];
    assert(views(plan@) =~= head);
    let paths = hidden_paths();
    let mut i: usize = 0;
    assert(head + masks(presences@, 0) =~= head);
    while i < paths.len()
        invariant
            i <= paths.len(),
            paths@.len() == 6,
            presences@.len() == 6,
            views(paths@) == masked_paths(),
            views(plan@) == head + masks(presences@, i as int),
        decreases paths.len() - i,
    {
        broadcast use {lemma_views_push, lemma_views_empty};

        let path = &paths[i];
        assert(path@ == masked_paths()[i as int]);
        let ghost covered = masks(presences@, i as int);
        match presences[i] {
            Presence::Missing => {
                assert(covered + Seq::<Action<Seq<char>>>::empty() =~= covered);
            },
            Presence::Directory => {
                plan.push(
                    mount(
                        Some("tmpfs"),
                        path,
                        Some("tmpfs"),
                        MS_RDONLY | MS_NOSUID | MS_NODEV | MS_NOEXEC,
                        Some("size=4k"),
                    ),
                );
            },
            Presence::File => {
                plan.push(bind("/dev/null", path));
                plan.push(seal(path));
            },
        }
        i += 1;
        assert(views(plan@) =~= head + masks(presences@, i as int));
    }
    plan
}

/// Every hidden path that exists is covered, and what covers it is read-only.
pub proof fn law_existing_paths_are_masked(
    config: SecurityConfig,
    presences: Seq<Presence>,
    index: int,
)
    requires
        presences.len() == masked_paths().len(),
        0 <= index < 6,
    ensures
        presences[index] == Presence::Directory ==> hardening(config, presences).contains(
            mount_step(
                Some("tmpfs"@),
                masked_paths()[index],
                Some("tmpfs"@),
                MS_RDONLY | MS_NOSUID | MS_NODEV | MS_NOEXEC,
                Some("size=4k"@),
            ),
        ),
        presences[index] == Presence::File ==> hardening(config, presences).contains(
            bind_step("/dev/null"@, masked_paths()[index]),
        ) && hardening(config, presences).contains(seal_step(masked_paths()[index])),
{
    lemma_masks_contain(presences, 6, index);
    let plan = hardening(config, presences);
    let covered = masks(presences, 6);
    let steps = mask_steps(masked_paths()[index], presences[index]);
    let before = plan.len() - covered.len();
    assert forall|k: int| 0 <= k < steps.len() implies plan.contains(#[trigger] steps[k]) by {
        assert(covered.contains(steps[k]));
        let n = choose|n: int| 0 <= n < covered.len() && covered[n] == steps[k];
        assert(plan[before + n] == covered[n]);
    }
    if presences[index] == Presence::Directory {
        assert(plan.contains(steps[0]));
    }
    if presences[index] == Presence::File {
        assert(plan.contains(steps[0]));
        assert(plan.contains(steps[1]));
    }
}

proof fn lemma_masks_contain(presences: Seq<Presence>, count: int, index: int)
    requires
        0 <= index < count <= 6,
        presences.len() == 6,
    ensures
        ({
            let steps = mask_steps(masked_paths()[index], presences[index]);
            forall|k: int|
                0 <= k < steps.len() ==> masks(presences, count).contains(#[trigger] steps[k])
        }),
    decreases count,
{
    let steps = mask_steps(masked_paths()[index], presences[index]);
    let all = masks(presences, count);
    let shorter = masks(presences, count - 1);
    if index == count - 1 {
        assert forall|k: int| 0 <= k < steps.len() implies all.contains(#[trigger] steps[k]) by {
            assert(all[shorter.len() + k] == steps[k]);
        }
    } else {
        lemma_masks_contain(presences, count - 1, index);
        assert forall|k: int| 0 <= k < steps.len() implies all.contains(#[trigger] steps[k]) by {
            assert(shorter.contains(steps[k]));
            let n = choose|n: int| 0 <= n < shorter.len() && shorter[n] == steps[k];
            assert(all[n] == shorter[n]);
        }
    }
}

// ---------------------------------------------------------------------------
// System calls
// ---------------------------------------------------------------------------
/// The machine that the runtime is built for.
#[derive(Clone, Copy, Debug, PartialEq, Eq, Structural)]
pub enum Architecture {
    X86_64,
    Aarch64,
    Riscv64,
    X86,
    Arm,
    Other,
}

impl Architecture {
    /// The number by which the kernel knows the machine.
    pub open spec fn audit_number(self) -> u32 {
        match self {
            Architecture::X86_64 => 0xc000_003e,
            Architecture::Aarch64 => 0xc000_00b7,
            Architecture::Riscv64 => 0xc000_00f3,
            Architecture::X86 => 0x4000_0003,
            Architecture::Arm => 0x4000_0028,
            Architecture::Other => 0,
        }
    }

    /// Whether `clone3` is denied on the machine.
    pub open spec fn knows_clone3(self) -> bool {
        self == Architecture::X86_64 || self == Architecture::Aarch64 || self
            == Architecture::Riscv64
    }
}

/// The number by which the kernel knows a machine.
pub fn audit_arch(arch: Architecture) -> (number: u32)
    ensures
        number == arch.audit_number(),
{
    match arch {
        Architecture::X86_64 => 0xc000_003e,
        Architecture::Aarch64 => 0xc000_00b7,
        Architecture::Riscv64 => 0xc000_00f3,
        Architecture::X86 => 0x4000_0003,
        Architecture::Arm => 0x4000_0028,
        Architecture::Other => 0,
    }
}

/// The first system call whose number cannot stand in a filter.
#[derive(Clone, Copy, Debug, PartialEq, Eq, Structural)]
pub enum SeccompError {
    /// One of the blocked calls, by its position.
    Blocked(usize),
    Unshare,
    Clone,
    Clone3,
    Socket,
}

/// The first blocked call from position `i` on whose number does not fit.
pub open spec fn blocked_error(list: Seq<i64>, i: int) -> Option<SeccompError>
    decreases list.len() - i,
{
    if i < 0 || i >= list.len() {
        None
    } else if !fits(list[i]) {
        Some(SeccompError::Blocked(i as usize))
    } else {
        blocked_error(list, i + 1)
    }
}

/// The first system call whose number cannot stand in a filter.
pub open spec fn seccomp_error(
    config: SecurityConfig,
    numbers: SyscallNumbers,
    arch: Architecture,
) -> Option<SeccompError> {
    if blocked_error(blocked(numbers), 0) is Some {
        blocked_error(blocked(numbers), 0)
    } else if !config.allow_user_namespaces && !fits(numbers.unshare) {
        Some(SeccompError::Unshare)
    } else if !config.allow_user_namespaces && !fits(numbers.clone) {
        Some(SeccompError::Clone)
    } else if !config.allow_user_namespaces && arch.knows_clone3() && !fits(numbers.clone3) {
        Some(SeccompError::Clone3)
    } else if !fits(numbers.socket) {
        Some(SeccompError::Socket)
    } else {
        None
    }
}

/// Kills on a foreign machine, and loads the number of the call.
pub open spec fn arch_part(arch: Architecture) -> Seq<FilterInstruction> {
    seq![
        plain_step(BPF_LD_W_ABS, SECCOMP_DATA_ARCH_OFFSET),
        jump_step(BPF_JMP_JEQ_K, arch.audit_number(), 1, 0),
        plain_step(BPF_RET_K, SECCOMP_KILL_PROCESS),
        plain_step(BPF_LD_W_ABS, SECCOMP_DATA_NR_OFFSET),
    ]
}

/// Kills on calls with narrow pointers.
pub open spec fn narrow_part(arch: Architecture) -> Seq<FilterInstruction> {
    if arch == Architecture::X86_64 {
        seq![
            jump_step(BPF_JMP_JSET_K, X32_SYSCALL_BIT, 0, 1),
            plain_step(BPF_RET_K, SECCOMP_KILL_PROCESS),
        ]
    } else {
        Seq::empty()
    }
}

/// Denies the call with this number.
pub open spec fn deny_part(number: i64) -> Seq<FilterInstruction> {
    seq![
        jump_step(BPF_JMP_JEQ_K, number as u32, 0, 1),
        plain_step(BPF_RET_K, SECCOMP_ERRNO_PERMISSION),
    ]
}

/// Denies the calls with these numbers.
pub open spec fn blocked_part(list: Seq<i64>) -> Seq<FilterInstruction>
    decreases list.len(),
{
    if list.len() == 0 {
        Seq::empty()
    } else {
        blocked_part(list.drop_last()) + deny_part(list.last())
    }
}

/// Denies a call whose first argument asks for a user namespace.
pub open spec fn flag_part(number: i64) -> Seq<FilterInstruction> {
    seq![
        plain_step(BPF_LD_W_ABS, SECCOMP_DATA_NR_OFFSET),
        jump_step(BPF_JMP_JEQ_K, number as u32, 0, 3),
        plain_step(BPF_LD_W_ABS, SECCOMP_DATA_ARG0_OFFSET),
        jump_step(BPF_JMP_JSET_K, CLONE_NEWUSER, 0, 1),
        plain_step(BPF_RET_K, SECCOMP_ERRNO_PERMISSION),
    ]
}

/// Says that `clone3`, whose flags a filter cannot see, is not implemented.
pub open spec fn clone3_part(numbers: SyscallNumbers, arch: Architecture) -> Seq<
    FilterInstruction,
> {
    if arch.knows_clone3() {
        seq![
            plain_step(BPF_LD_W_ABS, SECCOMP_DATA_NR_OFFSET),
            jump_step(BPF_JMP_JEQ_K, numbers.clone3 as u32, 0, 1),
            plain_step(BPF_RET_K, SECCOMP_ERRNO_NOT_IMPLEMENTED),
        ]
    } else {
        Seq::empty()
    }
}

/// Denies user namespaces unless they are allowed.
pub open spec fn namespace_part(
    config: SecurityConfig,
    numbers: SyscallNumbers,
    arch: Architecture,
) -> Seq<FilterInstruction> {
    if config.allow_user_namespaces {
        Seq::empty()
    } else {
        flag_part(numbers.unshare) + flag_part(numbers.clone) + clone3_part(numbers, arch)
    }
}

/// Denies the sockets of the kernel's cryptography.
pub open spec fn socket_part(number: i64) -> Seq<FilterInstruction> {
    seq![
        plain_step(BPF_LD_W_ABS, SECCOMP_DATA_NR_OFFSET),
        jump_step(BPF_JMP_JEQ_K, number as u32, 0, 3),
        plain_step(BPF_LD_W_ABS, SECCOMP_DATA_ARG0_OFFSET),
        jump_step(BPF_JMP_JEQ_K, ADDRESS_FAMILY_ALG, 0, 1),
        plain_step(BPF_RET_K, SECCOMP_ERRNO_PERMISSION),
    ]
}

/// The whole filter.
pub open spec fn filter(
    config: SecurityConfig,
    numbers: SyscallNumbers,
    arch: Architecture,
) -> Seq<FilterInstruction> {
    arch_part(arch) + narrow_part(arch) + blocked_part(blocked(numbers)) + namespace_part(
        config,
        numbers,
        arch,
    ) + socket_part(numbers.socket) + seq![plain_step(BPF_RET_K, SECCOMP_ALLOW)]
}

fn push_flag_part(program: &mut Vec<FilterInstruction>, number: i64)
    requires
        fits(number),
    ensures
        final(program)@ == old(program)@ + flag_part(number),
{
    program.push(statement(BPF_LD_W_ABS, SECCOMP_DATA_NR_OFFSET));
    program.push(jump(BPF_JMP_JEQ_K, number as u32, 0, 3));
    program.push(statement(BPF_LD_W_ABS, SECCOMP_DATA_ARG0_OFFSET));
    program.push(jump(BPF_JMP_JSET_K, CLONE_NEWUSER, 0, 1));
    program.push(statement(BPF_RET_K, SECCOMP_ERRNO_PERMISSION));
    assert(program@ =~= old(program)@ + flag_part(number));
}

/// A number that fits.
fn fitting(number: i64) -> (result: bool)
    ensures
        result == fits(number),
{
    0 <= number && number <= 0xffff_ffff
}

fn push_blocked_part(program: &mut Vec<FilterInstruction>, list: &Vec<i64>) -> (result: Result<
    (),
    SeccompError,
>)
    ensures
        match result {
            Ok(()) => blocked_error(list@, 0) is None && final(program)@ == old(program)@
                + blocked_part(list@),
            Err(error) => blocked_error(list@, 0) == Some(error),
        },
{
    let ghost before = program@;
    let mut i: usize = 0;
    assert(before + blocked_part(list@.take(0)) =~= before);
    while i < list.len()
        invariant
            i <= list.len(),
            program@ == before + blocked_part(list@.take(i as int)),
            blocked_error(list@, 0) == blocked_error(list@, i as int),
        decreases list.len() - i,
    {
        let number: i64 = list[i];
        if !fitting(number) {
            return Err(SeccompError::Blocked(i));
        }
        program.push(jump(BPF_JMP_JEQ_K, number as u32, 0, 1));
        program.push(statement(BPF_RET_K, SECCOMP_ERRNO_PERMISSION));
        assert(list@.take(i + 1).drop_last() =~= list@.take(i as int));
        assert(program@ =~= before + (blocked_part(list@.take(i as int)) + deny_part(number)));
        i += 1;
    }
    assert(list@.take(i as int) =~= list@);
    Ok(())
}

/// The filter for a machine with these numbers.
pub fn seccomp_filter(
    config: &SecurityConfig,
    numbers: &SyscallNumbers,
    arch: Architecture,
) -> (result: Result<Vec<FilterInstruction>, SeccompError>)
    ensures
        match result {
            Ok(program) => seccomp_error(*config, *numbers, arch) is None && program@ == filter(
                *config,
                *numbers,
                arch,
            ),
            Err(error) => seccomp_error(*config, *numbers, arch) == Some(error),
        },
{
    let mut program: Vec<FilterInstruction> = Vec::new();
    program.push(statement(BPF_LD_W_ABS, SECCOMP_DATA_ARCH_OFFSET));
    program.push(jump(BPF_JMP_JEQ_K, audit_arch(arch), 1, 0));
    program.push(statement(BPF_RET_K, SECCOMP_KILL_PROCESS));
    program.push(statement(BPF_LD_W_ABS, SECCOMP_DATA_NR_OFFSET));
    if arch == Architecture::X86_64 {
        program.push(jump(BPF_JMP_JSET_K, X32_SYSCALL_BIT, 0, 1));
        program.push(statement(BPF_RET_K, SECCOMP_KILL_PROCESS));
    }
    assert(program@ =~= arch_part(arch) + narrow_part(arch));
    let list = blocked_syscalls(numbers);
    if let Err(error) = push_blocked_part(&mut program, &list) {
        return Err(error);
    }
    let ghost head = program@;
    if !config.allow_user_namespaces {
        if !fitting(numbers.unshare) {
            return Err(SeccompError::Unshare);
        }
        push_flag_part(&mut program, numbers.unshare);
        if !fitting(numbers.clone) {
            return Err(SeccompError::Clone);
        }
        push_flag_part(&mut program, numbers.clone);
        if arch == Architecture::X86_64 || arch == Architecture::Aarch64 || arch
            == Architecture::Riscv64 {
            if !fitting(numbers.clone3) {
                return Err(SeccompError::Clone3);
            }
            program.push(statement(BPF_LD_W_ABS, SECCOMP_DATA_NR_OFFSET));
            program.push(jump(BPF_JMP_JEQ_K, numbers.clone3 as u32, 0, 1));
            program.push(statement(BPF_RET_K, SECCOMP_ERRNO_NOT_IMPLEMENTED));
        }
    }
    assert(program@ =~= head + namespace_part(*config, *numbers, arch));
    if !fitting(numbers.socket) {
        return Err(SeccompError::Socket);
    }
    let ghost middle = program@;
    program.push(statement(BPF_LD_W_ABS, SECCOMP_DATA_NR_OFFSET));
    program.push(jump(BPF_JMP_JEQ_K, numbers.socket as u32, 0, 3));
    program.push(statement(BPF_LD_W_ABS, SECCOMP_DATA_ARG0_OFFSET));
    program.push(jump(BPF_JMP_JEQ_K, ADDRESS_FAMILY_ALG, 0, 1));
    program.push(statement(BPF_RET_K, SECCOMP_ERRNO_PERMISSION));
    program.push(statement(BPF_RET_K, SECCOMP_ALLOW));
    assert(program@ =~= middle + socket_part(numbers.socket) + seq![
        plain_step(BPF_RET_K, SECCOMP_ALLOW),
    ]);
    Ok(program)
}

/// The filter for this machine. `kexec_file_load` is the number of that call
/// where the C library has one.
pub fn install_seccomp(
    config: &SecurityConfig,
    arch: Architecture,
    kexec_file_load: Option<i64>,
) -> (result: Result<Vec<FilterInstruction>, SeccompError>)
    ensures
        exists|numbers: SyscallNumbers|
            {
                &&& #[trigger] all_fit(numbers)
                &&& numbers.kexec_file_load == kexec_file_load
                &&& match result {
                    Ok(program) => seccomp_error(*config, numbers, arch) is None && program@
                        == filter(*config, numbers, arch) && program@.len() <= u16::MAX,
                    Err(error) => seccomp_error(*config, numbers, arch) == Some(error),
                }
            },
        (kexec_file_load is None || fits(kexec_file_load->0)) ==> result is Ok,
{
    let numbers = host_syscalls(kexec_file_load);
    assert(all_fit(numbers));
    proof {
        if kexec_file_load is None || fits(kexec_file_load->0) {
            lemma_blocked_fit(numbers);
        }
        lemma_filter_length(*config, numbers, arch);
    }
    seccomp_filter(config, &numbers, arch)
}

proof fn lemma_blocked_fit(numbers: SyscallNumbers)
    requires
        all_fit(numbers),
        numbers.kexec_file_load is None || fits(numbers.kexec_file_load->0),
    ensures
        blocked_error(blocked(numbers), 0) is None,
{
    reveal_with_fuel(blocked_error, 10);
}

proof fn lemma_filter_length(config: SecurityConfig, numbers: SyscallNumbers, arch: Architecture)
    ensures
        filter(config, numbers, arch).len() <= u16::MAX,
{
    lemma_blocked_length(blocked(numbers));
}

proof fn lemma_blocked_length(list: Seq<i64>)
    ensures
        blocked_part(list).len() == 2 * list.len(),
    decreases list.len(),
{
    if list.len() > 0 {
        lemma_blocked_length(list.drop_last());
    }
}

// ---------------------------------------------------------------------------
// What the filter does
// ---------------------------------------------------------------------------
/// What the runtime wants of a system call.
pub open spec fn verdict(
    config: SecurityConfig,
    numbers: SyscallNumbers,
    arch: Architecture,
    data: SyscallData,
) -> u32 {
    let number = data.number as i64;
    if data.arch != arch.audit_number() {
        SECCOMP_KILL_PROCESS
    } else if arch == Architecture::X86_64 && data.number & X32_SYSCALL_BIT != 0 {
        SECCOMP_KILL_PROCESS
    } else if blocked(numbers).contains(number) {
        SECCOMP_ERRNO_PERMISSION
    } else if !config.allow_user_namespaces && (number == numbers.unshare || number
        == numbers.clone) && data.argument & CLONE_NEWUSER != 0 {
        SECCOMP_ERRNO_PERMISSION
    } else if !config.allow_user_namespaces && arch.knows_clone3() && number == numbers.clone3 {
        SECCOMP_ERRNO_NOT_IMPLEMENTED
    } else if number == numbers.socket && data.argument == ADDRESS_FAMILY_ALG {
        SECCOMP_ERRNO_PERMISSION
    } else {
        SECCOMP_ALLOW
    }
}

proof fn lemma_arch_part(arch: Architecture, rest: Seq<FilterInstruction>, data: SyscallData)
    ensures
        run_filter(arch_part(arch) + rest, data, 0, 0) == if data.arch == arch.audit_number() {
            run_filter(rest, data, 0, data.number)
        } else {
            SECCOMP_KILL_PROCESS
        },
{
    let program = arch_part(arch) + rest;
    assert(program[0] == arch_part(arch)[0]);
    assert(program[1] == arch_part(arch)[1]);
    assert(program[2] == arch_part(arch)[2]);
    assert(program[3] == arch_part(arch)[3]);
    lemma_run_suffix(arch_part(arch), rest, data, 0, data.number);
    reveal_with_fuel(run_filter, 5);
}

proof fn lemma_narrow_part(arch: Architecture, rest: Seq<FilterInstruction>, data: SyscallData)
    ensures
        run_filter(narrow_part(arch) + rest, data, 0, data.number) == if arch
            == Architecture::X86_64 && data.number & X32_SYSCALL_BIT != 0 {
            SECCOMP_KILL_PROCESS
        } else {
            run_filter(rest, data, 0, data.number)
        },
{
    let part = narrow_part(arch);
    let program = part + rest;
    lemma_run_suffix(part, rest, data, 0, data.number);
    if arch == Architecture::X86_64 {
        assert(program[0] == part[0]);
        assert(program[1] == part[1]);
        reveal_with_fuel(run_filter, 3);
    }
}

proof fn lemma_blocked_part(list: Seq<i64>, rest: Seq<FilterInstruction>, data: SyscallData)
    requires
        forall|i: int| 0 <= i < list.len() ==> fits(#[trigger] list[i]),
    ensures
        run_filter(blocked_part(list) + rest, data, 0, data.number) == if list.contains(
            data.number as i64,
        ) {
            SECCOMP_ERRNO_PERMISSION
        } else {
            run_filter(rest, data, 0, data.number)
        },
    decreases list.len(),
{
    let number = data.number as i64;
    if list.len() == 0 {
        assert(blocked_part(list) + rest =~= rest);
    } else {
        let shorter = list.drop_last();
        let part = deny_part(list.last());
        let tail = part + rest;
        assert(blocked_part(list) + rest =~= blocked_part(shorter) + tail);
        assert forall|i: int| 0 <= i < shorter.len() implies fits(#[trigger] shorter[i]) by {
            assert(shorter[i] == list[i]);
        }
        lemma_blocked_part(shorter, tail, data);
        assert(tail[0] == part[0]);
        assert(tail[1] == part[1]);
        lemma_run_suffix(part, rest, data, 0, data.number);
        reveal_with_fuel(run_filter, 3);
        assert(fits(list[list.len() - 1]));
        if shorter.contains(number) {
            let i = choose|i: int| 0 <= i < shorter.len() && shorter[i] == number;
            assert(list[i] == number);
        }
        if list.contains(number) && !shorter.contains(number) {
            let i = choose|i: int| 0 <= i < list.len() && list[i] == number;
            if i < shorter.len() {
                assert(shorter[i] == number);
            }
        }
        if list.last() == number {
            assert(list[list.len() - 1] == number);
        }
    }
}

proof fn lemma_flag_part(number: i64, rest: Seq<FilterInstruction>, data: SyscallData, word: u32)
    requires
        fits(number),
        forall|w: u32| #[trigger]
            run_filter(rest, data, 0, w) == run_filter(rest, data, 0, data.number),
    ensures
        run_filter(flag_part(number) + rest, data, 0, word) == if data.number == number
            && data.argument & CLONE_NEWUSER != 0 {
            SECCOMP_ERRNO_PERMISSION
        } else {
            run_filter(rest, data, 0, data.number)
        },
{
    let part = flag_part(number);
    let program = part + rest;
    assert(program[0] == part[0]);
    assert(program[1] == part[1]);
    assert(program[2] == part[2]);
    assert(program[3] == part[3]);
    assert(program[4] == part[4]);
    lemma_run_suffix(part, rest, data, 0, data.number);
    lemma_run_suffix(part, rest, data, 0, data.argument);
    assert(run_filter(rest, data, 0, data.argument) == run_filter(rest, data, 0, data.number));
    reveal_with_fuel(run_filter, 6);
}

proof fn lemma_clone3_part(
    numbers: SyscallNumbers,
    arch: Architecture,
    rest: Seq<FilterInstruction>,
    data: SyscallData,
    word: u32,
)
    requires
        fits(numbers.clone3),
        forall|w: u32| #[trigger]
            run_filter(rest, data, 0, w) == run_filter(rest, data, 0, data.number),
    ensures
        run_filter(clone3_part(numbers, arch) + rest, data, 0, word) == if arch.knows_clone3()
            && data.number == numbers.clone3 {
            SECCOMP_ERRNO_NOT_IMPLEMENTED
        } else {
            run_filter(rest, data, 0, data.number)
        },
{
    let part = clone3_part(numbers, arch);
    let program = part + rest;
    lemma_run_suffix(part, rest, data, 0, data.number);
    lemma_run_suffix(part, rest, data, 0, word);
    assert(run_filter(rest, data, 0, word) == run_filter(rest, data, 0, data.number));
    if arch.knows_clone3() {
        assert(program[0] == part[0]);
        assert(program[1] == part[1]);
        assert(program[2] == part[2]);
        reveal_with_fuel(run_filter, 4);
    }
}

proof fn lemma_socket_part(number: i64, data: SyscallData, word: u32)
    requires
        fits(number),
    ensures
        run_filter(
            socket_part(number) + seq![plain_step(BPF_RET_K, SECCOMP_ALLOW)],
            data,
            0,
            word,
        ) == if data.number == number && data.argument == ADDRESS_FAMILY_ALG {
            SECCOMP_ERRNO_PERMISSION
        } else {
            SECCOMP_ALLOW
        },
{
    let part = socket_part(number);
    let program = part + seq![plain_step(BPF_RET_K, SECCOMP_ALLOW)];
    assert(program[0] == part[0]);
    assert(program[1] == part[1]);
    assert(program[2] == part[2]);
    assert(program[3] == part[3]);
    assert(program[4] == part[4]);
    assert(program[5] == plain_step(BPF_RET_K, SECCOMP_ALLOW));
    reveal_with_fuel(run_filter, 7);
}

proof fn lemma_blocked_numbers_fit(list: Seq<i64>, i: int, k: int)
    requires
        0 <= i <= k < list.len(),
        blocked_error(list, i) is None,
    ensures
        fits(list[k]),
    decreases list.len() - i,
{
    if i < k {
        lemma_blocked_numbers_fit(list, i + 1, k);
    }
}

/// The filter does what is wanted of every system call: the kernel's verdict
/// on it is the one that the policy names.
pub proof fn law_filter_enforces_policy(
    config: SecurityConfig,
    numbers: SyscallNumbers,
    arch: Architecture,
    data: SyscallData,
)
    requires
        seccomp_error(config, numbers, arch) is None,
    ensures
        run_filter(filter(config, numbers, arch), data, 0, 0) == verdict(
            config,
            numbers,
            arch,
            data,
        ),
{
    let list = blocked(numbers);
    let ending = socket_part(numbers.socket) + seq![plain_step(BPF_RET_K, SECCOMP_ALLOW)];
    let spaces = namespace_part(config, numbers, arch);
    let after_blocked = spaces + ending;
    let after_narrow = blocked_part(list) + after_blocked;
    let after_arch = narrow_part(arch) + after_narrow;
    assert(filter(config, numbers, arch) =~= arch_part(arch) + after_arch);
    assert forall|i: int| 0 <= i < list.len() implies fits(#[trigger] list[i]) by {
        lemma_blocked_numbers_fit(list, 0, i);
    }
    lemma_arch_part(arch, after_arch, data);
    lemma_narrow_part(arch, after_narrow, data);
    lemma_blocked_part(list, after_blocked, data);
    assert forall|w: u32| #[trigger]
        run_filter(ending, data, 0, w) == run_filter(ending, data, 0, data.number) by {
        lemma_socket_part(numbers.socket, data, w);
        lemma_socket_part(numbers.socket, data, data.number);
    }
    lemma_socket_part(numbers.socket, data, data.number);
    if config.allow_user_namespaces {
        assert(after_blocked =~= ending);
    } else {
        let third = clone3_part(numbers, arch) + ending;
        let second = flag_part(numbers.clone) + third;
        assert(after_blocked =~= flag_part(numbers.unshare) + second);
        if arch.knows_clone3() {
            assert forall|w: u32| #[trigger]
                run_filter(third, data, 0, w) == run_filter(third, data, 0, data.number) by {
                lemma_clone3_part(numbers, arch, ending, data, w);
                lemma_clone3_part(numbers, arch, ending, data, data.number);
            }
            lemma_clone3_part(numbers, arch, ending, data, data.number);
        } else {
            assert(third =~= ending);
        }
        assert forall|w: u32| #[trigger]
            run_filter(second, data, 0, w) == run_filter(second, data, 0, data.number) by {
            lemma_flag_part(numbers.clone, third, data, w);
            lemma_flag_part(numbers.clone, third, data, data.number);
        }
        lemma_flag_part(numbers.clone, third, data, data.number);
        lemma_flag_part(numbers.unshare, second, data, data.number);
    }
}

/// With user namespaces not allowed, no call gets past the filter that asks
/// for one through `unshare` or `clone`, and none at all of `clone3` where the
/// machine has it: there a program is told that the kernel does not know it.
pub proof fn law_user_namespaces_are_denied(
    config: SecurityConfig,
    numbers: SyscallNumbers,
    arch: Architecture,
    data: SyscallData,
)
    requires
        seccomp_error(config, numbers, arch) is None,
        !config.allow_user_namespaces,
    ensures
        (data.number == numbers.unshare || data.number == numbers.clone) && data.argument
            & CLONE_NEWUSER != 0 ==> run_filter(filter(config, numbers, arch), data, 0, 0)
            != SECCOMP_ALLOW,
        arch.knows_clone3() && data.number == numbers.clone3 ==> run_filter(
            filter(config, numbers, arch),
            data,
            0,
            0,
        ) != SECCOMP_ALLOW,
        arch.knows_clone3() && data.number == numbers.clone3 && data.arch == arch.audit_number() && (
        arch == Architecture::X86_64 ==> data.number & X32_SYSCALL_BIT == 0) && !blocked(
            numbers,
        ).contains(numbers.clone3) && numbers.clone3 != numbers.unshare && numbers.clone3
            != numbers.clone ==> run_filter(filter(config, numbers, arch), data, 0, 0)
            == SECCOMP_ERRNO_NOT_IMPLEMENTED,
{
    law_filter_enforces_policy(config, numbers, arch, data);
}

/// A mount of an empty read-only file system over a path, through which nothing
/// is gained.
pub open spec fn covers_directory(path: Seq<char>) -> Action<Seq<char>> {
    Action::Mount(
        Mount {
            source: Some("tmpfs"@),
            target: path,
            filesystem: Some("tmpfs"@),
            flags: 0xf,
            data: Some("size=4k"@),
        },
    )
}

/// A mount of the null device over a path.
pub open spec fn covers_file(path: Seq<char>) -> Action<Seq<char>> {
    Action::Mount(
        Mount {
            source: Some("/dev/null"@),
            target: path,
            filesystem: None,
            flags: 0x1000,
            data: None,
        },
    )
}

/// A mount made read-only.
pub open spec fn makes_read_only(path: Seq<char>) -> Action<Seq<char>> {
    Action::Mount(
        Mount { source: None, target: path, filesystem: None, flags: 0x1021, data: None },
    )
}

proof fn lemma_cover_flags()
    ensures
        MS_RDONLY | MS_NOSUID | MS_NODEV | MS_NOEXEC == 0xf,
        READ_ONLY_BIND == 0x1021,
{
    assert(0x1u64 | 0x2u64 == 0x3) by (bit_vector);
    assert(0x3u64 | 0x4u64 == 0x7) by (bit_vector);
    assert(0x7u64 | 0x8u64 == 0xf) by (bit_vector);
    assert(0x1000u64 | 0x20u64 == 0x1020) by (bit_vector);
    assert(0x1020u64 | 0x1u64 == 0x1021) by (bit_vector);
}

/// Whether a path is covered by these steps as what stands there asks for.
pub open spec fn is_covered(steps: Steps, path: Seq<char>, presence: Presence) -> bool {
    match presence {
        Presence::Missing => true,
        Presence::Directory => steps.contains(covers_directory(path)),
        Presence::File => steps.contains(covers_file(path)) && steps.contains(
            makes_read_only(path),
        ),
    }
}

/// A container does not see the memory of the kernel, its keys, its timers and
/// its debugging interfaces, cannot trigger its emergency keys, and cannot
/// write its settings: those of `/proc/sys` never, and `/sys` unless that is
/// allowed.
pub proof fn law_kernel_controls_are_covered(config: SecurityConfig, presences: Seq<Presence>)
    requires
        presences.len() == 6,
    ensures
        ({
            let steps = hardening(config, presences);
            let at: int = if config.read_only_sys {
                1
            } else {
                0
            };
            &&& config.read_only_sys ==> steps[0] == makes_read_only("/sys"@)
            &&& steps[at] == Action::Mount(
                Mount {
                    source: Some("/proc/sys"@),
                    target: "/proc/sys"@,
                    filesystem: None,
                    flags: 0x1000,
                    data: None,
                },
            )
            &&& steps[at + 1] == makes_read_only("/proc/sys"@)
            &&& is_covered(steps, "/proc/kcore"@, presences[0])
            &&& is_covered(steps, "/proc/keys"@, presences[1])
            &&& is_covered(steps, "/proc/timer_list"@, presences[2])
            &&& is_covered(steps, "/proc/sysrq-trigger"@, presences[3])
            &&& is_covered(steps, "/sys/kernel/debug"@, presences[4])
            &&& is_covered(steps, "/sys/kernel/tracing"@, presences[5])
        }),
{
    lemma_cover_flags();
    law_existing_paths_are_masked(config, presences, 0);
    law_existing_paths_are_masked(config, presences, 1);
    law_existing_paths_are_masked(config, presences, 2);
    law_existing_paths_are_masked(config, presences, 3);
    law_existing_paths_are_masked(config, presences, 4);
    law_existing_paths_are_masked(config, presences, 5);
    let paths = masked_paths();
    assert(paths[0] == "/proc/kcore"@ && paths[1] == "/proc/keys"@ && paths[2]
        == "/proc/timer_list"@ && paths[3] == "/proc/sysrq-trigger"@ && paths[4]
        == "/sys/kernel/debug"@ && paths[5] == "/sys/kernel/tracing"@);
}

/// Whether a call is made on the machine that the filter is for, and with
/// pointers as wide as that machine has.
pub open spec fn native_call(arch: Architecture, data: SyscallData) -> bool {
    data.arch == (match arch {
        Architecture::X86_64 => 0xc000_003eu32,
        Architecture::Aarch64 => 0xc000_00b7,
        Architecture::Riscv64 => 0xc000_00f3,
        Architecture::X86 => 0x4000_0003,
        Architecture::Arm => 0x4000_0028,
        Architecture::Other => 0,
    }) && (arch == Architecture::X86_64 ==> data.number & 0x4000_0000 == 0)
}

/// Whether a number is that of a call that loads code into the kernel or sets
/// the clock.
pub open spec fn kernel_call(numbers: SyscallNumbers, number: i64) -> bool {
    ||| number == numbers.init_module
    ||| number == numbers.finit_module
    ||| number == numbers.delete_module
    ||| number == numbers.kexec_load
    ||| numbers.kexec_file_load == Some(number)
    ||| number == numbers.settimeofday
    ||| number == numbers.adjtimex
    ||| number == numbers.clock_settime
    ||| number == numbers.clock_adjtime
}

proof fn lemma_kernel_calls(numbers: SyscallNumbers, number: i64)
    ensures
        blocked(numbers).contains(number) <==> kernel_call(numbers, number),
{
    let list = blocked(numbers);
    assert(list[0] == numbers.init_module && list[1] == numbers.finit_module && list[2]
        == numbers.delete_module && list[3] == numbers.kexec_load && list[4]
        == numbers.settimeofday && list[5] == numbers.adjtimex && list[6] == numbers.clock_settime
        && list[7] == numbers.clock_adjtime);
    if numbers.kexec_file_load is Some {
        assert(list[8] == numbers.kexec_file_load->0);
    }
    if list.contains(number) {
        let i = choose|i: int| 0 <= i < list.len() && list[i] == number;
        assert(0 <= i < 9);
    }
}

/// The kernel kills a program that makes a foreign call. Of the others it denies
/// those that load code into the kernel or set the clock, sockets of the
/// kernel's cryptography, and, unless they are allowed, those that ask for a
/// user namespace; and it makes every other call.
pub proof fn law_filter_tells_calls_apart(
    config: SecurityConfig,
    numbers: SyscallNumbers,
    arch: Architecture,
    data: SyscallData,
)
    requires
        seccomp_error(config, numbers, arch) is None,
    ensures
        ({
            let answer = run_filter(filter(config, numbers, arch), data, 0, 0);
            let number = data.number as i64;
            let asks = !config.allow_user_namespaces && (number == numbers.unshare || number
                == numbers.clone) && data.argument & 0x1000_0000 != 0;
            let hidden = !config.allow_user_namespaces && number == numbers.clone3 && (arch
                == Architecture::X86_64 || arch == Architecture::Aarch64 || arch
                == Architecture::Riscv64);
            let crypto = number == numbers.socket && data.argument == 38;
            &&& !native_call(arch, data) <==> answer == 0x8000_0000
            &&& native_call(arch, data) && kernel_call(numbers, number) ==> answer == 0x5_0001
            &&& native_call(arch, data) && asks ==> answer == 0x5_0001
            &&& native_call(arch, data) && crypto && !hidden ==> answer == 0x5_0001
            &&& native_call(arch, data) && hidden && !asks && !kernel_call(numbers, number)
                ==> answer == 0x5_0026
            &&& native_call(arch, data) && !kernel_call(numbers, number) && !asks && !hidden
                && !crypto ==> answer == 0x7fff_0000
        }),
{
    law_filter_enforces_policy(config, numbers, arch, data);
    lemma_kernel_calls(numbers, data.number as i64);
}

/// The instructions and the offsets of a filter are those that the kernel
/// knows.
pub proof fn law_filter_speaks_the_kernels_language(data: SyscallData)
    ensures
        BPF_LD_W_ABS == 0x20,
        BPF_JMP_JEQ_K == 0x15,
        BPF_JMP_JSET_K == 0x45,
        BPF_RET_K == 0x06,
        load(data, 0) == data.number,
        load(data, 4) == data.arch,
        load(data, 16) == data.argument,
        SECCOMP_DATA_NR_OFFSET == 0,
        SECCOMP_DATA_ARCH_OFFSET == 4,
        SECCOMP_DATA_ARG0_OFFSET == 16,
{
}

proof fn lemma_every_number_fits(list: Seq<i64>, i: int)
    requires
        0 <= i <= list.len(),
    ensures
        blocked_error(list, i) is None <==> forall|k: int|
            i <= k < list.len() ==> fits(#[trigger] list[k]),
    decreases list.len() - i,
{
    if i < list.len() {
        lemma_every_number_fits(list, i + 1);
        if !fits(list[i]) {
            assert(!(forall|k: int| i <= k < list.len() ==> fits(#[trigger] list[k])));
        }
    }
}

/// A filter is made exactly where the number of every call that it has to know
/// can stand in it.
pub proof fn law_filters_need_numbers_that_fit(
    config: SecurityConfig,
    numbers: SyscallNumbers,
    arch: Architecture,
)
    ensures
        ({
            let plain = |number: i64| 0 <= number <= 0xffff_ffff;
            let knows = arch == Architecture::X86_64 || arch == Architecture::Aarch64 || arch
                == Architecture::Riscv64;
            seccomp_error(config, numbers, arch) is None <==> plain(numbers.init_module) && plain(
                numbers.finit_module,
            ) && plain(numbers.delete_module) && plain(numbers.kexec_load) && plain(
                numbers.settimeofday,
            ) && plain(numbers.adjtimex) && plain(numbers.clock_settime) && plain(
                numbers.clock_adjtime,
            ) && (numbers.kexec_file_load is Some ==> plain(numbers.kexec_file_load->0)) && plain(
                numbers.socket,
            ) && (config.allow_user_namespaces || plain(numbers.unshare) && plain(numbers.clone)
                && (knows ==> plain(numbers.clone3)))
        }),
{
    let list = blocked(numbers);
    lemma_every_number_fits(list, 0);
    assert(list[0] == numbers.init_module && list[1] == numbers.finit_module && list[2]
        == numbers.delete_module && list[3] == numbers.kexec_load && list[4]
        == numbers.settimeofday && list[5] == numbers.adjtimex && list[6] == numbers.clock_settime
        && list[7] == numbers.clock_adjtime);
    if numbers.kexec_file_load is Some {
        assert(list[8] == numbers.kexec_file_load->0);
    }
}

} // verus!
