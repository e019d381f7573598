//! System call filters: their instructions and what the kernel makes of them.
use vstd::prelude::*;

verus! {

/// One instruction of a filter, laid out as the kernel reads it.
#[derive(Clone, Copy, Debug, PartialEq, Eq, Structural)]
pub struct FilterInstruction {
    pub code: u16,
    pub jump_true: u8,
    pub jump_false: u8,
    pub value: u32,
}

/// Loads a word of the call's data.
pub const BPF_LD_W_ABS: u16 = 0x20;

/// Jumps on equality.
pub const BPF_JMP_JEQ_K: u16 = 0x15;

/// Jumps where a bit is set.
pub const BPF_JMP_JSET_K: u16 = 0x45;

/// Ends with a verdict.
pub const BPF_RET_K: u16 = 0x06;

/// Where the number of the call stands in its data.
pub const SECCOMP_DATA_NR_OFFSET: u32 = 0;

/// Where the architecture stands.
pub const SECCOMP_DATA_ARCH_OFFSET: u32 = 4;

/// Where the low word of the first argument stands.
pub const SECCOMP_DATA_ARG0_OFFSET: u32 = 16;

/// The call is made.
pub const SECCOMP_ALLOW: u32 = 0x7fff_0000;

/// The process is killed.
pub const SECCOMP_KILL_PROCESS: u32 = 0x8000_0000;

/// The call fails: the operation is not permitted.
pub const SECCOMP_ERRNO_PERMISSION: u32 = 0x0005_0001;

/// The call fails: it is not implemented.
pub const SECCOMP_ERRNO_NOT_IMPLEMENTED: u32 = 0x0005_0026;

/// The sockets of the kernel's cryptography.
pub const ADDRESS_FAMILY_ALG: u32 = 38;

/// The flag for a user namespace of one's own.
pub const CLONE_NEWUSER: u32 = 0x1000_0000;

/// The bit that marks calls with narrow pointers on x86-64.
pub const X32_SYSCALL_BIT: u32 = 0x4000_0000;

/// What a filter is shown of a system call.
#[derive(Clone, Copy, Debug, PartialEq, Eq, Structural)]
pub struct SyscallData {
    pub number: u32,
    pub arch: u32,
    /// The low word of the first argument.
    pub argument: u32,
}

/// The word at an offset of the call's data.
pub open spec fn load(data: SyscallData, offset: u32) -> u32 {
    if offset == SECCOMP_DATA_NR_OFFSET {
        data.number
    } else if offset == SECCOMP_DATA_ARCH_OFFSET {
        data.arch
    } else if offset == SECCOMP_DATA_ARG0_OFFSET {
        data.argument
    } else {
        0
    }
}

/// The verdict of a filter that runs from `at` with a word in its
/// accumulator, as the kernel interprets it. A filter that runs past its end
/// kills.
pub open spec fn run_filter(
    program: Seq<FilterInstruction>,
    data: SyscallData,
    at: int,
    word: u32,
) -> u32
    decreases
            if at < program.len() {
                program.len() - at
            } else {
                0
            },
{
    if at < 0 || at >= program.len() {
        SECCOMP_KILL_PROCESS
    } else {
        let step = program[at];
        if step.code == BPF_LD_W_ABS {
            run_filter(program, data, at + 1, load(data, step.value))
        } else if step.code == BPF_JMP_JEQ_K {
            if word == step.value {
                run_filter(program, data, at + 1 + step.jump_true, word)
            } else {
                run_filter(program, data, at + 1 + step.jump_false, word)
            }
        } else if step.code == BPF_JMP_JSET_K {
            if word & step.value != 0 {
                run_filter(program, data, at + 1 + step.jump_true, word)
            } else {
                run_filter(program, data, at + 1 + step.jump_false, word)
            }
        } else if step.code == BPF_RET_K {
            step.value
        } else {
            SECCOMP_KILL_PROCESS
        }
    }
}

/// Jumps lead forward only, so what stands before an instruction has no part
/// in what follows from it.
pub proof fn lemma_run_suffix(
    before: Seq<FilterInstruction>,
    rest: Seq<FilterInstruction>,
    data: SyscallData,
    at: int,
    word: u32,
)
    requires
        0 <= at,
    ensures
        run_filter(before + rest, data, before.len() + at, word) == run_filter(
            rest,
            data,
            at,
            word,
        ),
    decreases
            if at < rest.len() {
                rest.len() - at
            } else {
                0
            },
{
    let program = before + rest;
    if at < rest.len() {
        let step = rest[at];
        assert(program[before.len() + at] == step);
        lemma_run_suffix(before, rest, data, at + 1, load(data, step.value));
        lemma_run_suffix(before, rest, data, at + 1 + step.jump_true, word);
        lemma_run_suffix(before, rest, data, at + 1 + step.jump_false, word);
    }
}

/// An instruction that does not jump.
pub open spec fn plain_step(code: u16, value: u32) -> FilterInstruction {
    FilterInstruction { code, jump_true: 0, jump_false: 0, value }
}

/// An instruction that jumps.
pub open spec fn jump_step(code: u16, value: u32, jt: u8, jf: u8) -> FilterInstruction {
    FilterInstruction { code, jump_true: jt, jump_false: jf, value }
}

/// An instruction that does not jump.
pub fn statement(code: u16, value: u32) -> (instruction: FilterInstruction)
    ensures
        instruction == plain_step(code, value),
{
    FilterInstruction { code, jump_true: 0, jump_false: 0, value }
}

/// An instruction that jumps.
pub fn jump(code: u16, value: u32, jt: u8, jf: u8) -> (instruction: FilterInstruction)
    ensures
        instruction == jump_step(code, value, jt, jf),
{
    FilterInstruction { code, jump_true: jt, jump_false: jf, value }
}

/// The numbers of the system calls that the filter knows. They differ from
/// one machine to the next.
#[derive(Clone, Copy, Debug, PartialEq, Eq, Structural)]
pub struct SyscallNumbers {
    pub init_module: i64,
    pub finit_module: i64,
    pub delete_module: i64,
    pub kexec_load: i64,
    pub settimeofday: i64,
    pub adjtimex: i64,
    pub clock_settime: i64,
    pub clock_adjtime: i64,
    /// Missing where the C library has no name for it.
    pub kexec_file_load: Option<i64>,
    pub unshare: i64,
    pub clone: i64,
    pub clone3: i64,
    pub socket: i64,
}

/// Whether a number can stand in a filter.
pub open spec fn fits(number: i64) -> bool {
    0 <= number <= u32::MAX
}

/// Whether all numbers but that of `kexec_file_load` can stand in a filter.
pub open spec fn all_fit(numbers: SyscallNumbers) -> bool {
    &&& fits(numbers.init_module)
    &&& fits(numbers.finit_module)
    &&& fits(numbers.delete_module)
    &&& fits(numbers.kexec_load)
    &&& fits(numbers.settimeofday)
    &&& fits(numbers.adjtimex)
    &&& fits(numbers.clock_settime)
    &&& fits(numbers.clock_adjtime)
    &&& fits(numbers.unshare)
    &&& fits(numbers.clone)
    &&& fits(numbers.clone3)
    &&& fits(numbers.socket)
}

/// The `SYS_` constants of the crate `libc` for this machine. All of them can
/// stand in a filter; which they are is not stated, since it differs from one
/// machine to the next. `kexec_file_load` is passed on.
#[verifier::external_body]
pub(crate) fn host_syscalls(kexec_file_load: Option<i64>) -> (numbers: SyscallNumbers)
    ensures
        all_fit(numbers),
        numbers.kexec_file_load == kexec_file_load,
{
    SyscallNumbers {
        init_module: libc::SYS_init_module, finit_module: libc::SYS_finit_module,
        delete_module: libc::SYS_delete_module, kexec_load: libc::SYS_kexec_load,
        settimeofday: libc::SYS_settimeofday, adjtimex: libc::SYS_adjtimex,
        clock_settime: libc::SYS_clock_settime, clock_adjtime: libc::SYS_clock_adjtime,
        kexec_file_load, unshare: libc::SYS_unshare, clone: libc::SYS_clone,
        clone3: libc::SYS_clone3, socket: libc::SYS_socket,
    }
}

/// The system calls that no container may make: those that load code into the
/// kernel or set the clock.
pub open spec fn blocked(numbers: SyscallNumbers) -> Seq<i64> {
    seq![
        numbers.init_module,
        numbers.finit_module,
        numbers.delete_module,
        numbers.kexec_load,
        numbers.settimeofday,
        numbers.adjtimex,
        numbers.clock_settime,
        numbers.clock_adjtime,
    ] + (match numbers.kexec_file_load {
        Some(number) => seq![number],
        None => Seq::empty(),
    })
}

/// The system calls that no container may make.
pub fn blocked_syscalls(numbers: &SyscallNumbers) -> (list: Vec<i64>)
    ensures
        list@ == blocked(*numbers),
{
    let mut list: Vec<i64> = Vec::new();
    list.push(numbers.init_module);
    list.push(numbers.finit_module);
    list.push(numbers.delete_module);
    list.push(numbers.kexec_load);
    list.push(numbers.settimeofday);
    list.push(numbers.adjtimex);
    list.push(numbers.clock_settime);
    list.push(numbers.clock_adjtime);
    if let Some(number) = numbers.kexec_file_load {
        list.push(number);
    }
    assert(list@ =~= blocked(*numbers));
    list
}

} // verus!
