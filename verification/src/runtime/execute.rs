//! Commands and logins in a running container.
use vstd::prelude::*;

use crate::config::model::{Config, NetworkMode};
use crate::config::names::{all_name_chars, name_char, name_chars};
use crate::helper::process::WaitStatus;
use crate::helper::signal::SignalNumber;
use crate::host::network::child_commands;
use crate::path::{absolute, file_name, is_absolute, path_file_name};
use crate::runtime::lifecycle::has_own_network;
use crate::runtime::state::{
    init_is_recorded, validate_process_identity, ContainerState, ProcessFacts,
};
use crate::text::{
    chars_of, copy_texts, decimal, digit_value, find_char, has_prefix, joined, joined3,
    law_decimal_round_trip, lemma_decimal_digits, lemma_position, lemma_split_append,
    lemma_split_join, lemma_views_empty, lemma_views_push, lines, lines_of, parse_decimal,
    parse_number, position, same, split_on, split_text, starts_with, views,
};

verus! {

// ---------------------------------------------------------------------------
// What is asked for
// ---------------------------------------------------------------------------
/// The names that a user may log in under.
pub open spec fn login_name(user: Seq<char>) -> bool {
    1 <= user.len() <= 256 && name_chars(user)
}

/// Whether a user may log in under this name.
pub fn valid_login_name(user: &str) -> (result: bool)
    ensures
        result == login_name(user@),
{
    let chars = chars_of(user);
    1 <= chars.len() && chars.len() <= 256 && all_name_chars(&chars)
}

/// Why a request is refused before anything is done.
#[derive(Clone, Copy, Debug, PartialEq, Eq, Structural)]
pub enum RequestError {
    LoginName,
    NoCommand,
}

/// Whether an interactive session of this user may be opened.
pub fn enter(user: &str) -> (result: Result<(), RequestError>)
    ensures
        result == if login_name(user@) {
            Ok(())
        } else {
            Err(RequestError::LoginName)
        },
{
    if valid_login_name(user) {
        Ok(())
    } else {
        Err(RequestError::LoginName)
    }
}

/// Whether there is a command to run.
pub fn run(command: &Vec<String>) -> (result: Result<(), RequestError>)
    ensures
        result == if command@.len() > 0 {
            Ok(())
        } else {
            Err(RequestError::NoCommand)
        },
{
    if command.len() > 0 {
        Ok(())
    } else {
        Err(RequestError::NoCommand)
    }
}

// ---------------------------------------------------------------------------
// The processes between the user and the command
// ---------------------------------------------------------------------------
/// The namespaces of a container that a command joins, in order.
pub open spec fn joined_namespaces(mode: NetworkMode) -> Seq<Seq<char>> {
    let own = seq!["mnt"@, "uts"@, "ipc"@, "pid"@];
    if mode == NetworkMode::Host {
        own
    } else {
        own.push("net"@)
    }
}

/// The namespaces of a container that a command joins, in order.
pub fn namespaces(mode: NetworkMode) -> (names: Vec<String>)
    ensures
        views(names@) == joined_namespaces(mode),
{
    broadcast use {lemma_views_push, lemma_views_empty};

    let mut names: Vec<String> = Vec::new();
    names.push("mnt".to_owned());
    names.push("uts".to_owned());
    names.push("ipc".to_owned());
    names.push("pid".to_owned());
    if mode != NetworkMode::Host {
        names.push("net".to_owned());
    }
    assert(views(names@) =~= joined_namespaces(mode));
    names
}

/// A command sees what the container sees: it joins its mounts, its name, its
/// shared memory and its processes, and its network exactly where the
/// container was given one of its own at its start.
pub proof fn law_command_joins_the_network_of_the_container(
    config: &Config,
    mode: NetworkMode,
    peer: Seq<char>,
)
    requires
        config.container.network == mode,
    ensures
        joined_namespaces(mode).contains("net"@) <==> has_own_network(mode),
        joined_namespaces(mode).contains("net"@) <==> child_commands(config, peer).len() > 0,
        joined_namespaces(mode).contains("net"@) <==> mode != NetworkMode::Host,
        joined_namespaces(mode).contains("mnt"@),
        joined_namespaces(mode).contains("uts"@),
        joined_namespaces(mode).contains("ipc"@),
        joined_namespaces(mode).contains("pid"@),
        joined_namespaces(mode).no_duplicates(),
        joined_namespaces(mode).len() == if mode == NetworkMode::Host {
            4int
        } else {
            5
        },
{
    reveal_strlit("mnt");
    reveal_strlit("uts");
    reveal_strlit("ipc");
    reveal_strlit("pid");
    reveal_strlit("net");
    let names = joined_namespaces(mode);
    assert(names[0] == "mnt"@ && names[1] == "uts"@ && names[2] == "ipc"@ && names[3] == "pid"@);
    assert("mnt"@[0] == 'm' && "uts"@[0] == 'u' && "ipc"@[0] == 'i' && "pid"@[0] == 'p'
        && "net"@[0] == 'n');
    if mode != NetworkMode::Host {
        assert(names[4] == "net"@);
    }
}

/// A step of the worker that leads a command into a container.
#[derive(Clone, Copy, Debug, PartialEq, Eq, Structural)]
pub enum WorkerStep {
    /// Joins the namespaces of the container.
    JoinNamespaces,
    /// Joins its control group.
    AttachCgroup,
    /// Opens a terminal and sends its other side to the user.
    OpenConsole,
    InstallSeccomp,
    /// Forks: only a child is in the joined PID namespace.
    Fork,
    /// Becomes part of the root of the container.
    EnterRoot,
    /// Closes all files but the standard ones.
    CloseDescriptors,
    /// Becomes the login of the user.
    Login,
    /// Becomes the command.
    Command,
}

/// The steps of a worker, up to the fork and after it.
pub open spec fn worker_steps(login: bool) -> Seq<WorkerStep> {
    seq![WorkerStep::JoinNamespaces, WorkerStep::AttachCgroup] + (if login {
        seq![WorkerStep::OpenConsole]
    } else {
        Seq::empty()
    }) + seq![
        WorkerStep::InstallSeccomp,
        WorkerStep::Fork,
        WorkerStep::EnterRoot,
        WorkerStep::CloseDescriptors,
    ] + (if login {
        seq![WorkerStep::Login]
    } else {
        seq![WorkerStep::Command]
    })
}

/// The steps of a worker, up to the fork and after it.
pub fn worker_plan(login: bool) -> (steps: Vec<WorkerStep>)
    ensures
        steps@ == worker_steps(login),
{
    let mut steps: Vec<WorkerStep> = Vec::new();
    steps.push(WorkerStep::JoinNamespaces);
    steps.push(WorkerStep::AttachCgroup);
    if login {
        steps.push(WorkerStep::OpenConsole);
    }
    steps.push(WorkerStep::InstallSeccomp);
    steps.push(WorkerStep::Fork);
    steps.push(WorkerStep::EnterRoot);
    steps.push(WorkerStep::CloseDescriptors);
    if login {
        steps.push(WorkerStep::Login);
    } else {
        steps.push(WorkerStep::Command);
    }
    assert(steps@ =~= worker_steps(login));
    steps
}

/// No program runs in a container before the system call filter is in place.
pub proof fn law_filter_precedes_program(login: bool, i: int)
    requires
        0 <= i < worker_steps(login).len(),
        worker_steps(login)[i] == WorkerStep::Login || worker_steps(login)[i]
            == WorkerStep::Command,
    ensures
        exists|j: int| 0 <= j < i && worker_steps(login)[j] == WorkerStep::InstallSeccomp,
{
    let place = if login {
        3int
    } else {
        2int
    };
    assert(worker_steps(login)[place] == WorkerStep::InstallSeccomp);
}

/// Where the process that the user waits in stands.
#[derive(Clone, Copy, Debug, PartialEq, Eq, Structural)]
pub enum ExecutePhase {
    /// The worker runs; for a login its terminal has not come yet.
    Started { login: bool },
    /// The command runs.
    Running,
    Done,
}

/// Why nothing is executed: no process is forked then.
#[derive(Clone, Copy, Debug, PartialEq, Eq, Structural)]
pub enum ExecuteError {
    NotRoot,
    NotRunning,
    /// The process that is init now is not the recorded one.
    IdentityChanged,
}

/// Whether a worker is forked, where `facts` is what the host says of the
/// processes of the record.
pub open spec fn execute_start(
    root: bool,
    state: Option<ContainerState>,
    facts: &ProcessFacts,
    login: bool,
) -> Result<ExecutePhase, ExecuteError> {
    if !root {
        Err(ExecuteError::NotRoot)
    } else {
        match state {
            None => Err(ExecuteError::NotRunning),
            Some(state) => if init_is_recorded(&state, facts) {
                Ok(ExecutePhase::Started { login })
            } else {
                Err(ExecuteError::IdentityChanged)
            },
        }
    }
}

/// Whether a worker is forked: only root may, and only into the recorded init
/// of a container that runs.
pub fn begin_execute(
    root: bool,
    state: &Option<ContainerState>,
    facts: &ProcessFacts,
    login: bool,
) -> (result: Result<ExecutePhase, ExecuteError>)
    ensures
        result == execute_start(root, *state, facts, login),
{
    if !root {
        return Err(ExecuteError::NotRoot);
    }
    match state {
        None => Err(ExecuteError::NotRunning),
        Some(state) => if validate_process_identity(state, facts) {
            Ok(ExecutePhase::Started { login })
        } else {
            Err(ExecuteError::IdentityChanged)
        },
    }
}

/// What that process learns.
#[derive(Clone, Copy, Debug, PartialEq, Eq, Structural)]
pub enum ExecuteEvent {
    /// The worker sent its terminal.
    TerminalReceived,
    /// The worker ended without sending one.
    TerminalMissing,
    /// The worker ended.
    Ended(WaitStatus),
    /// Waiting for it, or carrying its terminal, failed.
    WaitFailed,
}

/// What that process does.
#[derive(Clone, Copy, Debug, PartialEq, Eq)]
pub enum ExecuteAction {
    /// Carries the terminal until the worker ends.
    Proxy,
    /// Kills the worker and waits for it, then reports the failure.
    TerminateAndReap,
    /// Kills all processes of the worker's group first.
    TerminateSessionAndReap,
    /// Reports how the command ended.
    Report(Result<(), CommandError>),
    /// Nothing: the event does not belong here.
    Ignore,
}

/// How a command failed.
#[derive(Clone, Copy, Debug, PartialEq, Eq, Structural)]
pub enum CommandError {
    Exited(i32),
    Terminated(SignalNumber),
    Unexpected(WaitStatus),
}

/// How a command ended: only an exit with zero is a success.
pub open spec fn command_result(status: WaitStatus) -> Result<(), CommandError> {
    match status {
        WaitStatus::Exited(pid, code) => if code == 0 {
            Ok(())
        } else {
            Err(CommandError::Exited(code))
        },
        WaitStatus::Signaled(pid, signal, core) => Err(CommandError::Terminated(signal)),
        other => Err(CommandError::Unexpected(other)),
    }
}

/// How a command ended.
pub fn command_status(status: WaitStatus) -> (result: Result<(), CommandError>)
    ensures
        result == command_result(status),
{
    match status {
        WaitStatus::Exited(_, code) => if code == 0 {
            Ok(())
        } else {
            Err(CommandError::Exited(code))
        },
        WaitStatus::Signaled(_, signal, _) => Err(CommandError::Terminated(signal)),
        other => Err(CommandError::Unexpected(other)),
    }
}

/// The step of the process that the user waits in.
pub open spec fn execute_step(phase: ExecutePhase, event: ExecuteEvent) -> (
    ExecutePhase,
    ExecuteAction,
) {
    match (phase, event) {
        (ExecutePhase::Started { login: true }, ExecuteEvent::TerminalReceived) => (
            ExecutePhase::Running,
            ExecuteAction::Proxy,
        ),
        (ExecutePhase::Started { login: true }, ExecuteEvent::TerminalMissing) => (
            ExecutePhase::Done,
            ExecuteAction::TerminateAndReap,
        ),
        (ExecutePhase::Started { login: false }, ExecuteEvent::Ended(status)) => (
            ExecutePhase::Done,
            ExecuteAction::Report(command_result(status)),
        ),
        (ExecutePhase::Started { login: false }, ExecuteEvent::WaitFailed) => (
            ExecutePhase::Done,
            ExecuteAction::TerminateSessionAndReap,
        ),
        (ExecutePhase::Running, ExecuteEvent::Ended(status)) => (
            ExecutePhase::Done,
            ExecuteAction::Report(command_result(status)),
        ),
        (ExecutePhase::Running, ExecuteEvent::WaitFailed) => (
            ExecutePhase::Done,
            ExecuteAction::TerminateSessionAndReap,
        ),
        _ => (phase, ExecuteAction::Ignore),
    }
}

/// The step of the process that the user waits in.
pub fn execute(phase: ExecutePhase, event: ExecuteEvent) -> (next: (ExecutePhase, ExecuteAction))
    ensures
        next == execute_step(phase, event),
{
    match (phase, event) {
        (ExecutePhase::Started { login: true }, ExecuteEvent::TerminalReceived) => (
            ExecutePhase::Running,
            ExecuteAction::Proxy,
        ),
        (ExecutePhase::Started { login: true }, ExecuteEvent::TerminalMissing) => (
            ExecutePhase::Done,
            ExecuteAction::TerminateAndReap,
        ),
        (ExecutePhase::Started { login: false }, ExecuteEvent::Ended(status)) => (
            ExecutePhase::Done,
            ExecuteAction::Report(command_status(status)),
        ),
        (ExecutePhase::Started { login: false }, ExecuteEvent::WaitFailed) => (
            ExecutePhase::Done,
            ExecuteAction::TerminateSessionAndReap,
        ),
        (ExecutePhase::Running, ExecuteEvent::Ended(status)) => (
            ExecutePhase::Done,
            ExecuteAction::Report(command_status(status)),
        ),
        (ExecutePhase::Running, ExecuteEvent::WaitFailed) => (
            ExecutePhase::Done,
            ExecuteAction::TerminateSessionAndReap,
        ),
        _ => (phase, ExecuteAction::Ignore),
    }
}

/// Whether an action leaves no worker behind: it has been waited for.
pub open spec fn reaps(action: ExecuteAction) -> bool {
    action is Report || action == ExecuteAction::TerminateAndReap || action
        == ExecuteAction::TerminateSessionAndReap
}

/// The request ends only with an action that leaves no worker behind, and
/// reports a success only where the command exited with zero.
pub proof fn law_execution_leaves_nothing_behind(phase: ExecutePhase, event: ExecuteEvent)
    requires
        phase != ExecutePhase::Done,
    ensures
        execute_step(phase, event).0 == ExecutePhase::Done ==> reaps(execute_step(phase, event).1),
        execute_step(phase, event).1 == ExecuteAction::Report(Ok(())) ==> (event
            matches ExecuteEvent::Ended(status) && (status matches WaitStatus::Exited(pid, code)
            && code == 0)),
{
}

/// A request that is done stays done.
pub proof fn law_done_is_final(event: ExecuteEvent)
    ensures
        execute_step(ExecutePhase::Done, event) == (ExecutePhase::Done, ExecuteAction::Ignore),
{
}

// ---------------------------------------------------------------------------
// Commands
// ---------------------------------------------------------------------------
/// The directories in which a command is looked for.
pub open spec fn command_directories() -> Seq<Seq<char>> {
    seq![
        "/usr/local/sbin"@,
        "/usr/local/bin"@,
        "/usr/sbin"@,
        "/usr/bin"@,
        "/sbin"@,
        "/bin"@,
    ]
}

/// The paths at which a command is looked for, in order.
pub fn command_candidates(command: &str) -> (paths: Vec<String>)
    ensures
        views(paths@) == command_directories().map_values(
            |directory: Seq<char>| directory + "/"@ + command@,
        ),
{
    broadcast use {lemma_views_push, lemma_views_empty};

    let mut paths: Vec<String> = Vec::new();
    paths.push(joined3("/usr/local/sbin", "/", command));
    paths.push(joined3("/usr/local/bin", "/", command));
    paths.push(joined3("/usr/sbin", "/", command));
    paths.push(joined3("/usr/bin", "/", command));
    paths.push(joined3("/sbin", "/", command));
    paths.push(joined3("/bin", "/", command));
    assert(views(paths@) =~= command_directories().map_values(
        |directory: Seq<char>| directory + "/"@ + command@,
    ));
    paths
}

/// The first of the flags from position `i` on that is set.
pub open spec fn first_set(flags: Seq<bool>, i: int) -> Option<int>
    decreases flags.len() - i,
{
    if i < 0 || i >= flags.len() {
        None
    } else if flags[i] {
        Some(i)
    } else {
        first_set(flags, i + 1)
    }
}

/// The path of a command: itself where it holds a slash, and otherwise the
/// first candidate that is a file; nothing where there is none.
pub open spec fn resolved_command(command: Seq<char>, present: Seq<bool>) -> Option<Seq<char>> {
    if position(command, '/') < command.len() {
        Some(command)
    } else {
        match first_set(present, 0) {
            Some(i) => Some(command_directories()[i] + "/"@ + command),
            None => None,
        }
    }
}

/// The path of a command, where `present` says of each candidate whether it
/// is a file.
pub fn resolve_container_command(command: &str, present: &Vec<bool>) -> (path: Option<String>)
    requires
        present@.len() == command_directories().len(),
    ensures
        (match path {
            Some(path) => Some(path@),
            None => None,
        }) == resolved_command(command@, present@),
{
    let chars = chars_of(command);
    if find_char(&chars, '/') < chars.len() {
        return Some(command.to_owned());
    }
    let paths = command_candidates(command);
    let ghost candidates = views(paths@);
    assert(candidates.len() == 6);
    let mut i: usize = 0;
    while i < present.len()
        invariant
            i <= present@.len(),
            present@.len() == 6,
            candidates == views(paths@),
            candidates.len() == 6,
            candidates == command_directories().map_values(
                |directory: Seq<char>| directory + "/"@ + command@,
            ),
            position(command@, '/') == command@.len(),
            first_set(present@, 0) == first_set(present@, i as int),
        decreases present.len() - i,
    {
        if present[i] {
            assert(candidates[i as int] == paths@[i as int]@);
            return Some(paths[i].clone());
        }
        i += 1;
    }
    None
}

/// The command as it is executed: with the path of its program, and its other
/// arguments as they are; nothing where there is no such program.
pub fn command_arguments(command: &Vec<String>, present: &Vec<bool>) -> (arguments: Option<
    Vec<String>,
>)
    requires
        command@.len() > 0,
        present@.len() == command_directories().len(),
    ensures
        match (arguments, resolved_command(command@[0]@, present@)) {
            (Some(arguments), Some(path)) => views(arguments@) == views(command@).update(0, path),
            (None, None) => true,
            _ => false,
        },
{
    match resolve_container_command(&command[0], present) {
        None => None,
        Some(path) => {
            let mut arguments = copy_texts(command);
            assert(arguments@.len() == views(arguments@).len());
            assert(command@.len() == views(command@).len());
            let ghost before = arguments@;
            arguments.set(0, path);
            assert(views(arguments@) =~= views(before).update(0, path@));
            Some(arguments)
        },
    }
}

// ---------------------------------------------------------------------------
// Logins
// ---------------------------------------------------------------------------
/// The account of a user.
#[derive(Debug, PartialEq, Eq)]
pub struct PasswdEntry {
    pub uid: u32,
    pub gid: u32,
    pub home: String,
    pub shell: String,
}

/// What a line of the account file says of a user; nothing where it is not
/// about the user or its numbers are none.
pub open spec fn account_line(line: Seq<char>, user: Seq<char>) -> Option<
    (nat, nat, Seq<char>, Seq<char>),
> {
    let fields = split_on(line, ':');
    if fields.len() != 7 || fields[0] != user {
        None
    } else {
        match (
            parse_decimal(fields[2], u32::MAX as nat),
            parse_decimal(fields[3], u32::MAX as nat),
        ) {
            (Some(uid), Some(gid)) => Some((uid, gid, fields[5], fields[6])),
            _ => None,
        }
    }
}

/// The account of a user in the lines from position `i` on: the first that
/// says something.
pub open spec fn account_from(all: Seq<Seq<char>>, user: Seq<char>, i: int) -> Option<
    (nat, nat, Seq<char>, Seq<char>),
>
    decreases all.len() - i,
{
    if i < 0 || i >= all.len() {
        None
    } else {
        match account_line(all[i], user) {
            Some(account) => Some(account),
            None => account_from(all, user, i + 1),
        }
    }
}

/// The view of an account.
pub open spec fn account_view(entry: Option<PasswdEntry>) -> Option<
    (nat, nat, Seq<char>, Seq<char>),
> {
    match entry {
        Some(entry) => Some((entry.uid as nat, entry.gid as nat, entry.home@, entry.shell@)),
        None => None,
    }
}

fn parse_account(line: &str, user: &str) -> (entry: Option<PasswdEntry>)
    ensures
        account_view(entry) == account_line(line@, user@),
{
    let fields = split_text(&chars_of(line), ':');
    let ghost model = split_on(line@, ':');
    assert(model.len() == fields@.len());
    assert forall|k: int| 0 <= k < fields@.len() implies (#[trigger] model[k]) == fields@[k]@ by {
        assert(views(fields@)[k] == fields@[k]@);
    }
    if fields.len() != 7 {
        return None;
    }
    assert(model[0] == fields@[0]@);
    if !same(&fields[0], user) {
        return None;
    }
    assert(model[2] == fields@[2]@ && model[3] == fields@[3]@ && model[5] == fields@[5]@
        && model[6] == fields@[6]@);
    match (parse_number(&fields[2], 0xffff_ffff), parse_number(&fields[3], 0xffff_ffff)) {
        (Some(uid), Some(gid)) => Some(
            PasswdEntry {
                uid: uid as u32,
                gid: gid as u32,
                home: fields[5].clone(),
                shell: fields[6].clone(),
            },
        ),
        _ => None,
    }
}

/// The account of a user in the account file of the container.
pub fn parse_passwd(source: &str, user: &str) -> (entry: Option<PasswdEntry>)
    ensures
        account_view(entry) == account_from(lines(source@), user@, 0),
{
    let all = lines_of(source);
    let ghost model = lines(source@);
    assert(model.len() == all@.len());
    let mut i: usize = 0;
    while i < all.len()
        invariant
            i <= all@.len(),
            model == views(all@),
            model == lines(source@),
            account_from(model, user@, 0) == account_from(model, user@, i as int),
        decreases all.len() - i,
    {
        assert(model[i as int] == all@[i as int]@);
        let entry = parse_account(&all[i], user);
        if entry.is_some() {
            return entry;
        }
        i += 1;
    }
    None
}

/// The programs that open a login, in the order in which they are tried.
pub fn login_programs() -> (paths: Vec<String>)
    ensures
        views(paths@) == seq!["/bin/su"@, "/usr/bin/su"@, "/run/wrappers/bin/su"@],
{
    broadcast use {lemma_views_push, lemma_views_empty};

    let mut paths: Vec<String> = Vec::new();
    paths.push("/bin/su".to_owned());
    paths.push("/usr/bin/su".to_owned());
    paths.push("/run/wrappers/bin/su".to_owned());
    assert(views(paths@) =~= seq!["/bin/su"@, "/usr/bin/su"@, "/run/wrappers/bin/su"@]);
    paths
}

/// The arguments of a program that opens a login.
pub fn login_arguments(user: &str) -> (arguments: Vec<String>)
    ensures
        views(arguments@) == seq!["su"@, "-l"@, user@],
{
    broadcast use {lemma_views_push, lemma_views_empty};

    let mut arguments: Vec<String> = Vec::new();
    arguments.push("su".to_owned());
    arguments.push("-l".to_owned());
    arguments.push(user.to_owned());
    assert(views(arguments@) =~= seq!["su"@, "-l"@, user@]);
    arguments
}

/// Whether the shell of an account can be used; `present` says that it is a
/// file.
pub fn usable_shell(entry: &PasswdEntry, present: bool) -> (result: bool)
    ensures
        result == (absolute(entry.shell@) && present),
{
    is_absolute(&entry.shell) && present
}

/// The arguments of a login shell: its name and the flag for a login.
pub fn shell_arguments(entry: &PasswdEntry) -> (arguments: Vec<String>)
    ensures
        views(arguments@) == seq![
            match file_name(entry.shell@) {
                Some(name) => name,
                None => "sh"@,
            },
            "-l"@,
        ],
{
    broadcast use {lemma_views_push, lemma_views_empty};

    let name = match path_file_name(&entry.shell) {
        Some(name) => name,
        None => "sh".to_owned(),
    };
    let mut arguments: Vec<String> = Vec::new();
    arguments.push(name);
    arguments.push("-l".to_owned());
    assert(views(arguments@) =~= seq![
        match file_name(entry.shell@) {
            Some(name) => name,
            None => "sh"@,
        },
        "-l"@,
    ]);
    arguments
}

/// An environment with one variable set anew: all entries for it are dropped,
/// and the new one stands at the end.
pub open spec fn replaced(list: Seq<Seq<char>>, key: Seq<char>, value: Seq<char>) -> Seq<
    Seq<char>,
> {
    list.filter(|entry: Seq<char>| !starts_with(entry, key + "="@)).push(key + "="@ + value)
}

/// Sets one variable of an environment anew.
pub fn replace_environment(environment: &Vec<String>, key: &str, value: &str) -> (result: Vec<
    String,
>)
    ensures
        views(result@) == replaced(views(environment@), key@, value@),
{
    broadcast use {lemma_views_push, lemma_views_empty};

    let prefix = chars_of(&joined(key, "="));
    let ghost kept = |entry: Seq<char>| !starts_with(entry, key@ + "="@);
    let ghost all = views(environment@);
    let mut result: Vec<String> = Vec::new();
    let mut i: usize = 0;
    proof {
        reveal(Seq::filter);
        assert(all.take(0).filter(kept) =~= Seq::<Seq<char>>::empty());
    }
    while i < environment.len()
        invariant
            i <= environment@.len(),
            prefix@ == key@ + "="@,
            kept == (|entry: Seq<char>| !starts_with(entry, key@ + "="@)),
            all == views(environment@),
            views(result@) == all.take(i as int).filter(kept),
        decreases environment.len() - i,
    {
        broadcast use {lemma_views_push, lemma_views_empty};

        let entry = &environment[i];
        proof {
            reveal(Seq::filter);
            assert(all.take(i + 1).drop_last() =~= all.take(i as int));
            assert(all.take(i + 1).last() == entry@);
        }
        if !has_prefix(&chars_of(entry), &prefix) {
            result.push(entry.clone());
        }
        i += 1;
    }
    assert(all.take(i as int) =~= all);
    result.push(joined3(key, "=", value));
    result
}

/// The environment of a login shell.
pub fn login_environment(base: &Vec<String>, entry: &PasswdEntry, user: &str) -> (result: Vec<
    String,
>)
    ensures
        views(result@) == login_variables(views(base@), entry.home@, user@, entry.shell@),
        views(result@) == replaced(
            replaced(
                replaced(
                    replaced(views(base@), "HOME"@, entry.home@),
                    "USER"@,
                    user@,
                ),
                "LOGNAME"@,
                user@,
            ),
            "SHELL"@,
            entry.shell@,
        ),
{
    let home = replace_environment(base, "HOME", &entry.home);
    let named = replace_environment(&home, "USER", user);
    let logged = replace_environment(&named, "LOGNAME", user);
    replace_environment(&logged, "SHELL", &entry.shell)
}

/// After a variable is set anew there is exactly one entry for it, the new
/// one.
pub proof fn law_replaced_once(
    list: Seq<Seq<char>>,
    key: Seq<char>,
    value: Seq<char>,
    i: int,
)
    requires
        0 <= i < replaced(list, key, value).len(),
        starts_with(replaced(list, key, value)[i], key + "="@),
    ensures
        i == replaced(list, key, value).len() - 1,
        replaced(list, key, value)[i] == key + "="@ + value,
{
    let kept = |entry: Seq<char>| !starts_with(entry, key + "="@);
    let rest = list.filter(kept);
    if i < rest.len() {
        list.lemma_filter_pred(kept, i);
    }
}

// ---------------------------------------------------------------------------
// What holds of every command
// ---------------------------------------------------------------------------
/// Whether one step of a worker comes before another.
pub open spec fn worker_order(login: bool, first: WorkerStep, second: WorkerStep) -> bool {
    exists|i: int, j: int|
        #![trigger worker_steps(login)[i], worker_steps(login)[j]]
        0 <= i < j < worker_steps(login).len() && worker_steps(login)[i] == first
            && worker_steps(login)[j] == second
}

/// A worker joins the container before anything else and its groups after
/// that; it forks before it enters the root, closes what it had open, and only
/// then becomes the login or the command that was asked for. Only a login gets
/// a terminal.
pub proof fn law_workers_enter_before_they_run(login: bool)
    ensures
        ({
            let steps = worker_steps(login);
            &&& steps[0] == WorkerStep::JoinNamespaces
            &&& steps[1] == WorkerStep::AttachCgroup
            &&& steps.contains(WorkerStep::OpenConsole) <==> login
            &&& worker_order(login, WorkerStep::AttachCgroup, WorkerStep::InstallSeccomp)
            &&& login ==> worker_order(
                login,
                WorkerStep::OpenConsole,
                WorkerStep::InstallSeccomp,
            )
            &&& worker_order(login, WorkerStep::InstallSeccomp, WorkerStep::Fork)
            &&& worker_order(login, WorkerStep::Fork, WorkerStep::EnterRoot)
            &&& worker_order(login, WorkerStep::EnterRoot, WorkerStep::CloseDescriptors)
            &&& steps[steps.len() - 2] == WorkerStep::CloseDescriptors
            &&& steps.last() == if login {
                WorkerStep::Login
            } else {
                WorkerStep::Command
            }
            &&& steps.len() == if login {
                8int
            } else {
                7
            }
        }),
{
    let steps = worker_steps(login);
    let at: int = if login {
        3
    } else {
        2
    };
    if login {
        assert(steps[2] == WorkerStep::OpenConsole);
    }
    assert(steps[1] == WorkerStep::AttachCgroup);
    assert(steps[at] == WorkerStep::InstallSeccomp);
    assert(steps[at + 1] == WorkerStep::Fork);
    assert(steps[at + 2] == WorkerStep::EnterRoot);
    assert(steps[at + 3] == WorkerStep::CloseDescriptors);
}

/// A worker is forked exactly for root, and exactly into a container that runs
/// and whose recorded init is the process that is there.
pub proof fn law_only_root_enters_running_containers(
    root: bool,
    state: Option<ContainerState>,
    facts: &ProcessFacts,
    login: bool,
)
    ensures
        execute_start(root, state, facts, login) is Ok <==> root && state is Some
            && init_is_recorded(&state->0, facts),
        execute_start(root, state, facts, login) is Ok ==> execute_start(
            root,
            state,
            facts,
            login,
        )->Ok_0 == (ExecutePhase::Started { login }),
        !root ==> execute_start(root, state, facts, login)->Err_0 == ExecuteError::NotRoot,
        root && state is None ==> execute_start(root, state, facts, login)->Err_0
            == ExecuteError::NotRunning,
{
}

/// A command's end is reported as it was, a terminal that came is carried, and
/// a worker whose terminal did not come, or that could not be waited for, is
/// killed: with all its processes once its program may run.
pub proof fn law_requests_are_carried_through(status: WaitStatus, login: bool)
    ensures
        execute_step(ExecutePhase::Started { login: true }, ExecuteEvent::TerminalReceived) == (
            ExecutePhase::Running,
            ExecuteAction::Proxy,
        ),
        execute_step(ExecutePhase::Started { login: true }, ExecuteEvent::TerminalMissing) == (
            ExecutePhase::Done,
            ExecuteAction::TerminateAndReap,
        ),
        execute_step(ExecutePhase::Started { login: false }, ExecuteEvent::Ended(status)) == (
            ExecutePhase::Done,
            ExecuteAction::Report(command_result(status)),
        ),
        execute_step(ExecutePhase::Running, ExecuteEvent::Ended(status)) == (
            ExecutePhase::Done,
            ExecuteAction::Report(command_result(status)),
        ),
        execute_step(ExecutePhase::Started { login: false }, ExecuteEvent::WaitFailed) == (
            ExecutePhase::Done,
            ExecuteAction::TerminateSessionAndReap,
        ),
        execute_step(ExecutePhase::Running, ExecuteEvent::WaitFailed) == (
            ExecutePhase::Done,
            ExecuteAction::TerminateSessionAndReap,
        ),
{
}

/// A command succeeds exactly where it exits with zero; otherwise its code, or
/// the signal that ended it, is told.
pub proof fn law_commands_fail_as_they_end(pid: i32, code: i32, signal: SignalNumber, core: bool)
    ensures
        command_result(WaitStatus::Exited(pid, code)) is Ok <==> code == 0,
        code != 0 ==> command_result(WaitStatus::Exited(pid, code)) == Err::<(), CommandError>(
            CommandError::Exited(code),
        ),
        command_result(WaitStatus::Signaled(pid, signal, core)) == Err::<(), CommandError>(
            CommandError::Terminated(signal),
        ),
        command_result(WaitStatus::StillAlive) is Err,
        command_result(WaitStatus::Continued(pid)) is Err,
        command_result(WaitStatus::Stopped(pid, signal)) is Err,
{
}

/// The first flag that is set is told, and none only where none is.
pub proof fn law_first_set_is_the_first(flags: Seq<bool>, i: int)
    requires
        0 <= i <= flags.len(),
    ensures
        match first_set(flags, i) {
            Some(at) => i <= at < flags.len() && flags[at] && forall|k: int|
                i <= k < at ==> !#[trigger] flags[k],
            None => forall|k: int| i <= k < flags.len() ==> !#[trigger] flags[k],
        },
    decreases flags.len() - i,
{
    if i < flags.len() && !flags[i] {
        law_first_set_is_the_first(flags, i + 1);
    }
}

/// A command with a slash is a path and stays as it is. Any other is the first
/// file of that name in the directories for programs: local ones first, and of
/// each kind those of the administrator first.
pub proof fn law_commands_are_found_in_order(command: Seq<char>, present: Seq<bool>)
    requires
        present.len() == 6,
    ensures
        command.contains('/') ==> resolved_command(command, present) == Some(command),
        !command.contains('/') ==> resolved_command(command, present) == if present[0] {
            Some("/usr/local/sbin/"@ + command)
        } else if present[1] {
            Some("/usr/local/bin/"@ + command)
        } else if present[2] {
            Some("/usr/sbin/"@ + command)
        } else if present[3] {
            Some("/usr/bin/"@ + command)
        } else if present[4] {
            Some("/sbin/"@ + command)
        } else if present[5] {
            Some("/bin/"@ + command)
        } else {
            None
        },
{
    lemma_position(command, '/');
    if command.contains('/') {
        let k = choose|k: int| 0 <= k < command.len() && command[k] == '/';
        assert(command[k] == '/');
    } else if position(command, '/') < command.len() {
        assert(command[position(command, '/') as int] == '/');
    }
    law_first_set_is_the_first(present, 0);
    reveal_strlit("/");
    reveal_strlit("/usr/local/sbin");
    reveal_strlit("/usr/local/bin");
    reveal_strlit("/usr/sbin");
    reveal_strlit("/usr/bin");
    reveal_strlit("/sbin");
    reveal_strlit("/bin");
    reveal_strlit("/usr/local/sbin/");
    reveal_strlit("/usr/local/bin/");
    reveal_strlit("/usr/sbin/");
    reveal_strlit("/usr/bin/");
    reveal_strlit("/sbin/");
    reveal_strlit("/bin/");
    assert("/usr/local/sbin"@ + "/"@ =~= "/usr/local/sbin/"@);
    assert("/usr/local/bin"@ + "/"@ =~= "/usr/local/bin/"@);
    assert("/usr/sbin"@ + "/"@ =~= "/usr/sbin/"@);
    assert("/usr/bin"@ + "/"@ =~= "/usr/bin/"@);
    assert("/sbin"@ + "/"@ =~= "/sbin/"@);
    assert("/bin"@ + "/"@ =~= "/bin/"@);
}

/// Whether a text is one field of an account: it holds no colon.
pub open spec fn account_field(text: Seq<char>) -> bool {
    forall|i: int| 0 <= i < text.len() ==> #[trigger] text[i] != ':'
}

proof fn lemma_field(text: Seq<char>)
    requires
        account_field(text),
    ensures
        split_on(text, ':') == seq![text],
{
    let nothing = Seq::<char>::empty();
    lemma_split_append(nothing, text, ':');
    assert(split_on(nothing, ':') == seq![nothing]);
    assert(nothing + text =~= text);
    assert(split_on(text, ':') =~= seq![text]);
}

/// The account that is written for a user is the one that is read: with the
/// numbers, the home and the shell of its line, and for no other user.
pub proof fn law_accounts_are_read_back(
    user: Seq<char>,
    other: Seq<char>,
    password: Seq<char>,
    uid: nat,
    gid: nat,
    comment: Seq<char>,
    home: Seq<char>,
    shell: Seq<char>,
)
    requires
        account_field(user),
        account_field(password),
        account_field(comment),
        account_field(home),
        account_field(shell),
        uid <= u32::MAX,
        gid <= u32::MAX,
        other != user,
    ensures
        ({
            let colon = seq![':'];
            let line = user + colon + (password + colon + (decimal(uid) + colon + (decimal(gid)
                + colon + (comment + colon + (home + colon + shell)))));
            &&& account_line(line, user) == Some((uid, gid, home, shell))
            &&& account_line(line, other) is None
        }),
{
    let colon = seq![':'];
    let a = home + colon + shell;
    let b = comment + colon + a;
    let c = decimal(gid) + colon + b;
    let d = decimal(uid) + colon + c;
    let e = password + colon + d;
    let line = user + colon + e;
    lemma_decimal_digits(uid);
    lemma_decimal_digits(gid);
    assert(account_field(decimal(uid))) by {
        assert forall|i: int| 0 <= i < decimal(uid).len() implies #[trigger] decimal(uid)[i]
            != ':' by {
            assert(digit_value(decimal(uid)[i]) < 10);
        }
    }
    assert(account_field(decimal(gid))) by {
        assert forall|i: int| 0 <= i < decimal(gid).len() implies #[trigger] decimal(gid)[i]
            != ':' by {
            assert(digit_value(decimal(gid)[i]) < 10);
        }
    }
    lemma_field(user);
    lemma_field(password);
    lemma_field(decimal(uid));
    lemma_field(decimal(gid));
    lemma_field(comment);
    lemma_field(home);
    lemma_field(shell);
    lemma_split_join(home, shell, ':');
    lemma_split_join(comment, a, ':');
    lemma_split_join(decimal(gid), b, ':');
    lemma_split_join(decimal(uid), c, ':');
    lemma_split_join(password, d, ':');
    lemma_split_join(user, e, ':');
    assert(split_on(line, ':') =~= seq![
        user,
        password,
        decimal(uid),
        decimal(gid),
        comment,
        home,
        shell,
    ]);
    law_decimal_round_trip(uid, u32::MAX as nat);
    law_decimal_round_trip(gid, u32::MAX as nat);
}

/// What a line says of a user.
#[verifier::opaque]
pub open spec fn told(all: Seq<Seq<char>>, user: Seq<char>, k: int) -> Option<
    (nat, nat, Seq<char>, Seq<char>),
> {
    account_line(all[k], user)
}

proof fn lemma_account_step(all: Seq<Seq<char>>, user: Seq<char>, i: int)
    requires
        0 <= i < all.len(),
    ensures
        told(all, user, i) is Some ==> account_from(all, user, i) == told(all, user, i),
        told(all, user, i) is None ==> account_from(all, user, i) == account_from(
            all,
            user,
            i + 1,
        ),
{
    reveal(told);
}

/// The account of a user is the first line that says something of the user.
pub proof fn law_first_account_counts(all: Seq<Seq<char>>, user: Seq<char>, i: int)
    requires
        0 <= i <= all.len(),
    ensures
        match account_from(all, user, i) {
            Some(account) => exists|k: int|
                i <= k < all.len() && #[trigger] told(all, user, k) == Some(account) && forall|n: int|
                    i <= n < k ==> (#[trigger] told(all, user, n)) is None,
            None => forall|k: int| i <= k < all.len() ==> (#[trigger] told(all, user, k)) is None,
        },
    decreases all.len() - i,
{
    if i < all.len() {
        lemma_account_step(all, user, i);
        if told(all, user, i) is None {
            law_first_account_counts(all, user, i + 1);
        }
    }
}

/// Setting a variable anew leaves the entries of all others.
pub proof fn law_other_variables_are_kept(
    list: Seq<Seq<char>>,
    key: Seq<char>,
    value: Seq<char>,
    entry: Seq<char>,
)
    requires
        list.contains(entry),
        !starts_with(entry, key + "="@),
    ensures
        replaced(list, key, value).contains(entry),
        replaced(list, key, value).contains(key + "="@ + value),
{
    let kept = |entry: Seq<char>| !starts_with(entry, key + "="@);
    let i = choose|i: int| 0 <= i < list.len() && list[i] == entry;
    list.lemma_filter_contains(kept, i);
    let rest = list.filter(kept);
    let k = choose|k: int| 0 <= k < rest.len() && rest[k] == entry;
    assert(replaced(list, key, value)[k] == entry);
    assert(replaced(list, key, value)[rest.len() as int] == key + "="@ + value);
}

/// The environment of a login shell.
pub open spec fn login_variables(
    base: Seq<Seq<char>>,
    home: Seq<char>,
    user: Seq<char>,
    shell: Seq<char>,
) -> Seq<Seq<char>> {
    replaced(
        replaced(replaced(replaced(base, "HOME"@, home), "USER"@, user), "LOGNAME"@, user),
        "SHELL"@,
        shell,
    )
}

/// A login shell knows the home, the user and the shell of the account, and
/// whatever else its environment held.
pub proof fn law_logins_know_their_account(
    base: Seq<Seq<char>>,
    home: Seq<char>,
    user: Seq<char>,
    shell: Seq<char>,
    entry: Seq<char>,
)
    ensures
        ({
            let list = login_variables(base, home, user, shell);
            &&& list.contains("HOME="@ + home)
            &&& list.contains("USER="@ + user)
            &&& list.contains("LOGNAME="@ + user)
            &&& list.contains("SHELL="@ + shell)
            &&& base.contains(entry) && !starts_with(entry, "HOME="@) && !starts_with(
                entry,
                "USER="@,
            ) && !starts_with(entry, "LOGNAME="@) && !starts_with(entry, "SHELL="@)
                ==> list.contains(entry)
        }),
{
    reveal_strlit("=");
    reveal_strlit("HOME");
    reveal_strlit("HOME=");
    reveal_strlit("USER");
    reveal_strlit("USER=");
    reveal_strlit("LOGNAME");
    reveal_strlit("LOGNAME=");
    reveal_strlit("SHELL");
    reveal_strlit("SHELL=");
    assert("HOME"@ + "="@ =~= "HOME="@);
    assert("USER"@ + "="@ =~= "USER="@);
    assert("LOGNAME"@ + "="@ =~= "LOGNAME="@);
    assert("SHELL"@ + "="@ =~= "SHELL="@);
    let one = replaced(base, "HOME"@, home);
    let two = replaced(one, "USER"@, user);
    let three = replaced(two, "LOGNAME"@, user);
    lemma_set_anew(base, "HOME"@, home);
    lemma_set_anew(one, "USER"@, user);
    lemma_set_anew(two, "LOGNAME"@, user);
    lemma_set_anew(three, "SHELL"@, shell);
    lemma_other_start("HOME="@, home, "USER="@);
    lemma_other_start("HOME="@, home, "LOGNAME="@);
    lemma_other_start("HOME="@, home, "SHELL="@);
    lemma_other_start("USER="@, user, "LOGNAME="@);
    lemma_other_start("USER="@, user, "SHELL="@);
    lemma_other_start("LOGNAME="@, user, "SHELL="@);
    law_other_variables_are_kept(one, "USER"@, user, "HOME="@ + home);
    law_other_variables_are_kept(two, "LOGNAME"@, user, "HOME="@ + home);
    law_other_variables_are_kept(three, "SHELL"@, shell, "HOME="@ + home);
    law_other_variables_are_kept(two, "LOGNAME"@, user, "USER="@ + user);
    law_other_variables_are_kept(three, "SHELL"@, shell, "USER="@ + user);
    law_other_variables_are_kept(three, "SHELL"@, shell, "LOGNAME="@ + user);
    if base.contains(entry) && !starts_with(entry, "HOME="@) && !starts_with(entry, "USER="@)
        && !starts_with(entry, "LOGNAME="@) && !starts_with(entry, "SHELL="@) {
        law_other_variables_are_kept(base, "HOME"@, home, entry);
        law_other_variables_are_kept(one, "USER"@, user, entry);
        law_other_variables_are_kept(two, "LOGNAME"@, user, entry);
        law_other_variables_are_kept(three, "SHELL"@, shell, entry);
    }
}

proof fn lemma_set_anew(list: Seq<Seq<char>>, key: Seq<char>, value: Seq<char>)
    ensures
        replaced(list, key, value).contains(key + "="@ + value),
{
    let last = replaced(list, key, value).len() - 1;
    assert(replaced(list, key, value)[last] == key + "="@ + value);
}

proof fn lemma_other_start(start: Seq<char>, value: Seq<char>, other: Seq<char>)
    requires
        start.len() > 0,
        other.len() > 0,
        start[0] != other[0],
    ensures
        !starts_with(start + value, other),
{
    if starts_with(start + value, other) {
        assert((start + value).take(other.len() as int)[0] == (start + value)[0]);
    }
}

/// A user may log in under a name of one to two hundred and fifty-six
/// characters that belong to names.
pub proof fn law_login_names(user: Seq<char>)
    ensures
        login_name(user) <==> 0 < user.len() && user.len() < 257 && name_chars(user),
        login_name(user) ==> !user.contains('/') && !user.contains(' ') && !user.contains(':'),
{
    if login_name(user) {
        assert forall|i: int| 0 <= i < user.len() implies user[i] != '/' && user[i] != ' '
            && user[i] != ':' by {
            assert(name_char(user[i]));
        }
    }
}

} // verus!
