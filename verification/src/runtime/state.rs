//! The recorded state of containers: whether a record is still true of the
//! processes that it names, and how records are found again.
use vstd::prelude::*;

use crate::config::identity::{hyphenated, uuid_text};
use crate::config::names::{all_name_chars, container_name, name_chars};
use crate::container::init::InitSystem;
use crate::edition::Edition;
use crate::helper::fs::optional_view;
use crate::order::{in_order, lists_all, stable_order, stably_sorted};
use crate::runtime::info::ContainerInfo;
use crate::runtime::layout::Runtime;
use crate::text::{chars_of, precedes, same, text_between, trim, trimmed};

verus! {

/// What is recorded of a running container.
#[derive(Debug, PartialEq, Eq)]
pub struct ContainerState {
    pub name: String,
    pub init_pid: i32,
    pub monitor_pid: i32,
    pub rootfs: String,
    pub uuid: u128,
    pub host_boot_id: String,
    pub init_start_time: u64,
    pub pid_namespace_inode: u64,
    pub started_at_unix: u64,
    pub monitor_start_time: u64,
    pub init_system: InitSystem,
    pub generation: u64,
}

/// What the host says of the processes that a record names; nothing where it
/// could not be read.
pub struct ProcessFacts {
    /// The identity of the running kernel.
    pub boot_id: Option<String>,
    /// When the init process started.
    pub init_start_time: Option<u64>,
    /// The PID namespace of the init process.
    pub init_namespace: Option<u64>,
    /// The name of the container in the root of the init process.
    pub init_name: Option<String>,
    /// When the monitor process started.
    pub monitor_start_time: Option<u64>,
}

/// Whether the init process is the recorded one, and no later process with
/// the same number.
pub open spec fn init_is_recorded(state: &ContainerState, facts: &ProcessFacts) -> bool {
    &&& optional_view(facts.boot_id) == Some(state.host_boot_id@)
    &&& facts.init_start_time == Some(state.init_start_time)
    &&& facts.init_namespace == Some(state.pid_namespace_inode)
    &&& optional_view(facts.init_name) == Some(state.name@)
}

/// Whether the monitor process is the recorded one.
pub open spec fn monitor_is_recorded(state: &ContainerState, facts: &ProcessFacts) -> bool {
    &&& optional_view(facts.boot_id) == Some(state.host_boot_id@)
    &&& facts.monitor_start_time == Some(state.monitor_start_time)
}

fn is_text(text: &Option<String>, wanted: &str) -> (result: bool)
    ensures
        result == (optional_view(*text) == Some(wanted@)),
{
    match text {
        Some(text) => same(text, wanted),
        None => false,
    }
}

fn is_number(number: Option<u64>, wanted: u64) -> (result: bool)
    ensures
        result == (number == Some(wanted)),
{
    match number {
        Some(number) => number == wanted,
        None => false,
    }
}

/// Whether the init process is the recorded one.
pub fn validate_process_identity(state: &ContainerState, facts: &ProcessFacts) -> (result: bool)
    ensures
        result == init_is_recorded(state, facts),
{
    is_text(&facts.boot_id, &state.host_boot_id) && is_number(
        facts.init_start_time,
        state.init_start_time,
    ) && is_number(facts.init_namespace, state.pid_namespace_inode) && is_text(
        &facts.init_name,
        &state.name,
    )
}

/// Whether the monitor process is the recorded one.
pub fn validate_monitor_identity(state: &ContainerState, facts: &ProcessFacts) -> (result: bool)
    ensures
        result == monitor_is_recorded(state, facts),
{
    is_text(&facts.boot_id, &state.host_boot_id) && is_number(
        facts.monitor_start_time,
        state.monitor_start_time,
    )
}

/// Whether a record is of a container that lives: of its init process or of
/// the monitor that is about to clean up after it.
pub open spec fn lives(state: &ContainerState, facts: &ProcessFacts) -> bool {
    init_is_recorded(state, facts) || monitor_is_recorded(state, facts)
}

/// Whether a record is of a container that lives.
pub fn is_live(state: &ContainerState, facts: &ProcessFacts) -> (result: bool)
    ensures
        result == lives(state, facts),
{
    validate_process_identity(state, facts) || validate_monitor_identity(state, facts)
}

/// A record of another boot of the host is of no process that lives, whatever
/// numbers were given out again.
pub proof fn law_reboot_invalidates_records(state: &ContainerState, facts: &ProcessFacts)
    requires
        optional_view(facts.boot_id) != Some(state.host_boot_id@),
    ensures
        !lives(state, facts),
{
}

/// A process that started at another time is not the recorded one, though it
/// has the same number.
pub proof fn law_reused_numbers_are_rejected(state: &ContainerState, facts: &ProcessFacts)
    requires
        facts.init_start_time != Some(state.init_start_time),
        facts.monitor_start_time != Some(state.monitor_start_time),
    ensures
        !lives(state, facts),
{
}

/// The recorded init is known by all that is recorded of it: the run of the
/// host, the time of its start, its PID namespace and the name in its root. A
/// process that differs in any of them is another one.
pub proof fn law_recorded_init_is_the_same_process(state: &ContainerState, facts: &ProcessFacts)
    ensures
        init_is_recorded(state, facts) <==> {
            &&& facts.boot_id matches Some(boot) && boot@ == state.host_boot_id@
            &&& facts.init_start_time matches Some(time) && time == state.init_start_time
            &&& facts.init_namespace matches Some(inode) && inode == state.pid_namespace_inode
            &&& facts.init_name matches Some(name) && name@ == state.name@
        },
        monitor_is_recorded(state, facts) <==> {
            &&& facts.boot_id matches Some(boot) && boot@ == state.host_boot_id@
            &&& facts.monitor_start_time matches Some(time) && time == state.monitor_start_time
        },
        lives(state, facts) <==> init_is_recorded(state, facts) || monitor_is_recorded(
            state,
            facts,
        ),
{
}

/// The state of a container: its record where it is of a container that
/// lives.
pub fn current_state(record: Option<ContainerState>, facts: &ProcessFacts) -> (state: Option<
    ContainerState,
>)
    ensures
        state == match record {
            Some(record) => if lives(&record, facts) {
                Some(record)
            } else {
                None
            },
            None => None,
        },
{
    match record {
        Some(record) => if is_live(&record, facts) {
            Some(record)
        } else {
            None
        },
        None => None,
    }
}

// ---------------------------------------------------------------------------
// Lists
// ---------------------------------------------------------------------------
/// The records of containers that live, in the order of their names; those
/// with one name stand in the order in which they were read.
pub fn list(names: &Vec<String>, live: &Vec<bool>) -> (order: Vec<usize>)
    requires
        names@.len() == live@.len(),
    ensures
        forall|i: int| 0 <= i < order@.len() ==> (#[trigger] order@[i]) < names@.len()
            && live@[order@[i] as int],
        order@.no_duplicates(),
        forall|k: int|
            0 <= k < names@.len() && #[trigger] live@[k] ==> order@.contains(k as usize),
        stably_sorted(names@, order@),
{
    let all = stable_order(names);
    let mut order: Vec<usize> = Vec::new();
    let ghost mut sources = Seq::<int>::empty();
    let mut i: usize = 0;
    proof {
        lemma_all_listed(all@, names@.len() as int);
    }
    while i < all.len()
        invariant
            i <= all.len(),
            names@.len() == live@.len(),
            lists_all(all@, names@.len() as int),
            stably_sorted(names@, all@),
            sources.len() == order@.len(),
            forall|k: int|
                #![trigger order@[k]]
                #![trigger sources[k]]
                0 <= k < order@.len() ==> 0 <= sources[k] < i && order@[k] == all@[sources[k]]
                    && live@[order@[k] as int],
            forall|a: int, b: int|
                #![trigger sources[a], sources[b]]
                0 <= a < b < sources.len() ==> sources[a] < sources[b],
            forall|n: int|
                0 <= n < i && live@[(#[trigger] all@[n]) as int] ==> order@.contains(all@[n]),
        decreases all.len() - i,
    {
        let position: usize = all[i];
        assert(all@[i as int] < names@.len());
        let ghost before = order@;
        if live[position] {
            order.push(position);
            proof {
                sources = sources.push(i as int);
                assert forall|n: int| 0 <= n < i + 1 && live@[(#[trigger] all@[n]) as int] implies
                    order@.contains(all@[n]) by {
                    if n < i {
                        assert(before.contains(all@[n]));
                        let k = choose|k: int| 0 <= k < before.len() && before[k] == all@[n];
                        assert(order@[k] == all@[n]);
                    } else {
                        assert(order@[before.len() as int] == all@[n]);
                    }
                }
            }
        }
        i += 1;
    }
    proof {
        assert forall|a: int, b: int| 0 <= a < order@.len() && 0 <= b < order@.len() && a != b
            implies order@[a] != order@[b] by {
            assert(order@[a] == all@[sources[a]] && order@[b] == all@[sources[b]]);
            if a < b {
                assert(sources[a] < sources[b]);
            } else {
                assert(sources[b] < sources[a]);
            }
        }
        assert forall|a: int, b: int|
            #![trigger order@[a], order@[b]]
            0 <= a < b < order@.len() implies in_order(names@, order@[a], order@[b]) by {
            assert(sources[a] < sources[b]);
            assert(order@[a] == all@[sources[a]] && order@[b] == all@[sources[b]]);
            assert(in_order(names@, all@[sources[a]], all@[sources[b]]));
        }
        assert forall|k: int| 0 <= k < names@.len() && #[trigger] live@[k] implies order@.contains(
            k as usize,
        ) by {
            assert(all@.contains(k as usize));
            let n = choose|n: int| 0 <= n < all@.len() && all@[n] == k as usize;
            assert(order@.contains(all@[n]));
        }
    }
    order
}

/// A list without repetitions of as many positions as there are holds every
/// one of them.
pub proof fn lemma_all_listed(order: Seq<usize>, count: int)
    requires
        lists_all(order, count),
    ensures
        forall|k: int| 0 <= k < count ==> order.contains(#[trigger] (k as usize)),
{
    let numbers = order.map_values(|position: usize| position as int);
    let range = Set::<int>::new(|k: int| 0 <= k < count);
    assert(numbers.no_duplicates()) by {
        assert forall|a: int, b: int|
            0 <= a < numbers.len() && 0 <= b < numbers.len() && a != b implies numbers[a]
            != numbers[b] by {
            assert(order[a] != order[b]);
        }
    }
    numbers.unique_seq_to_set();
    vstd::set_lib::lemma_int_range(0, count);
    assert(range =~= vstd::set_lib::set_int_range(0, count));
    assert(numbers.to_set().subset_of(range)) by {
        assert forall|k: int| numbers.to_set().contains(k) implies range.contains(k) by {
            let n = choose|n: int| 0 <= n < numbers.len() && numbers[n] == k;
            assert(order[n] < count);
        }
    }
    vstd::set_lib::lemma_subset_equality(numbers.to_set(), range);
    assert forall|k: int| 0 <= k < count implies order.contains(#[trigger] (k as usize)) by {
        assert(range.contains(k));
        assert(numbers.to_set().contains(k));
        let n = choose|n: int| 0 <= n < numbers.len() && numbers[n] == k;
        assert(order[n] as int == k);
        assert(order[n] == k as usize);
    }
}

// ---------------------------------------------------------------------------
// Recovery
// ---------------------------------------------------------------------------
/// The names that a record may hold.
pub open spec fn recorded_name(name: Seq<char>) -> bool {
    1 <= name.len() <= 255 && name_chars(name)
}

/// Whether a record may hold this name.
pub fn valid_state_name(name: &str) -> (result: bool)
    ensures
        result == recorded_name(name@),
{
    let chars = chars_of(name);
    1 <= chars.len() && chars.len() <= 255 && all_name_chars(&chars)
}

/// What to do with a recovery record.
#[derive(Clone, Copy, Debug, PartialEq, Eq, Structural)]
pub enum RecordDecision {
    /// Leave it.
    Skip,
    /// It is of a monitor that is gone: remove it.
    Remove,
    /// Look for its init process.
    Search,
}

/// Whether a file in a directory of records is one: by its extension.
pub open spec fn record_file(name: Seq<char>) -> bool {
    name.len() > 5 && name.subrange(name.len() - 5, name.len() as int) == ".json"@
}

/// Whether a file in a directory of records is one.
pub fn is_record_file(name: &str) -> (result: bool)
    ensures
        result == record_file(name@),
{
    let chars = chars_of(name);
    let length: usize = chars.len();
    if length <= 5 {
        return false;
    }
    let ending = text_between(&chars, length - 5, length);
    same(&ending, ".json")
}

/// What to do with a recovery record.
pub open spec fn record_decision(state: &ContainerState, facts: &ProcessFacts) -> RecordDecision {
    if !recorded_name(state.name@) {
        RecordDecision::Skip
    } else if !monitor_is_recorded(state, facts) {
        RecordDecision::Remove
    } else {
        RecordDecision::Search
    }
}

/// The record of a monitor that lives is never removed, and one whose name is
/// none is left alone.
pub proof fn law_records_of_live_monitors_stay(state: &ContainerState, facts: &ProcessFacts)
    ensures
        record_decision(state, facts) == RecordDecision::Search <==> recorded_name(state.name@)
            && optional_view(facts.boot_id) == Some(state.host_boot_id@)
            && facts.monitor_start_time == Some(state.monitor_start_time),
        record_decision(state, facts) == RecordDecision::Skip <==> !recorded_name(state.name@),
{
}

/// A file is a record exactly where something stands before its extension.
pub proof fn law_records_have_their_extension(stem: Seq<char>, other: Seq<char>)
    requires
        other.len() == 5,
        other != ".json"@,
    ensures
        record_file(stem + ".json"@) <==> stem.len() > 0,
        !record_file(stem + other),
{
    reveal_strlit(".json");
    let name = stem + ".json"@;
    assert(name.subrange(name.len() - 5, name.len() as int) =~= ".json"@);
    let wrong = stem + other;
    assert(wrong.subrange(wrong.len() - 5, wrong.len() as int) =~= other);
}

/// What to do with a recovery record.
pub fn judge_record(state: &ContainerState, facts: &ProcessFacts) -> (decision: RecordDecision)
    ensures
        decision == record_decision(state, facts),
        decision == if !recorded_name(state.name@) {
            RecordDecision::Skip
        } else if !monitor_is_recorded(state, facts) {
            RecordDecision::Remove
        } else {
            RecordDecision::Search
        },
{
    if !valid_state_name(&state.name) {
        RecordDecision::Skip
    } else if !validate_monitor_identity(state, facts) {
        RecordDecision::Remove
    } else {
        RecordDecision::Search
    }
}

/// What the host says of a process; nothing where it could not be read.
pub struct ProcessRecord {
    pub pid: i32,
    /// Its number in its own PID namespace.
    pub namespace_pid: Option<i32>,
    /// The name and the identity of the container in its root.
    pub name: Option<String>,
    pub uuid: Option<String>,
    pub parent: Option<i32>,
    /// The parent of its parent.
    pub grandparent: Option<i32>,
}

/// Whether a process is the init process of a container: the first process of
/// its namespace, with the container's name and identity in its root, and two
/// steps below the monitor.
pub open spec fn is_init_of(process: &ProcessRecord, expected: &ContainerState) -> bool {
    &&& process.namespace_pid == Some(1i32)
    &&& optional_view(process.name) == Some(expected.name@)
    &&& process.uuid is Some
    &&& trim(process.uuid->0@) == hyphenated(expected.uuid)
    &&& process.parent is Some
    &&& process.parent->0 > 0
    &&& process.grandparent == Some(expected.monitor_pid)
}

/// The first process from position `i` on that is the init process.
pub open spec fn init_from(
    processes: Seq<ProcessRecord>,
    expected: &ContainerState,
    i: int,
) -> Option<i32>
    decreases processes.len() - i,
{
    if i < 0 || i >= processes.len() {
        None
    } else if is_init_of(&processes[i], expected) {
        Some(processes[i].pid)
    } else {
        init_from(processes, expected, i + 1)
    }
}

/// The init of a recorded container is the first process of its namespace, has
/// the recorded name and identity in its root, and is a grandchild of the
/// recorded monitor.
pub proof fn law_init_belongs_to_its_monitor(process: &ProcessRecord, expected: &ContainerState)
    ensures
        is_init_of(process, expected) <==> {
            &&& process.namespace_pid matches Some(number) && number == 1
            &&& process.name matches Some(name) && name@ == expected.name@
            &&& process.uuid matches Some(uuid) && trim(uuid@) == hyphenated(expected.uuid)
            &&& process.parent matches Some(parent) && parent >= 1
            &&& process.grandparent matches Some(monitor) && monitor == expected.monitor_pid
        },
{
}

/// The init that is found is that of the first process that is one, and none is
/// found only where there is none.
pub proof fn law_first_init_is_found(
    processes: Seq<ProcessRecord>,
    expected: &ContainerState,
    i: int,
)
    requires
        0 <= i <= processes.len(),
    ensures
        match init_from(processes, expected, i) {
            Some(pid) => exists|k: int|
                i <= k < processes.len() && is_init_of(&#[trigger] processes[k], expected)
                    && processes[k].pid == pid && forall|n: int|
                    i <= n < k ==> !is_init_of(&#[trigger] processes[n], expected),
            None => forall|k: int|
                i <= k < processes.len() ==> !is_init_of(&#[trigger] processes[k], expected),
        },
    decreases processes.len() - i,
{
    if i < processes.len() {
        if is_init_of(&processes[i], expected) {
            assert(processes[i].pid == init_from(processes, expected, i)->0);
        } else {
            law_first_init_is_found(processes, expected, i + 1);
            if init_from(processes, expected, i) is Some {
                let pid = init_from(processes, expected, i)->0;
                let k = choose|k: int|
                    i + 1 <= k < processes.len() && is_init_of(&#[trigger] processes[k], expected)
                        && processes[k].pid == pid && forall|n: int|
                        i + 1 <= n < k ==> !is_init_of(&#[trigger] processes[n], expected);
                assert(processes[k].pid == pid);
            }
        }
    }
}

fn check_init(process: &ProcessRecord, expected: &ContainerState) -> (result: bool)
    ensures
        result == is_init_of(process, expected),
{
    match process.namespace_pid {
        Some(number) => if number != 1 {
            return false;
        },
        None => {
            return false;
        },
    }
    if !is_text(&process.name, &expected.name) {
        return false;
    }
    match &process.uuid {
        Some(uuid) => {
            let chars = trimmed(&chars_of(uuid));
            let text = text_between(&chars, 0, chars.len());
            assert(text@ =~= trim(uuid@));
            if !same(&text, &uuid_text(expected.uuid)) {
                return false;
            }
        },
        None => {
            return false;
        },
    }
    match process.parent {
        Some(parent) => if parent <= 0 {
            return false;
        },
        None => {
            return false;
        },
    }
    match process.grandparent {
        Some(monitor) => monitor == expected.monitor_pid,
        None => false,
    }
}

/// The init process of a recorded container among the processes of the host.
pub fn find_generation_init(
    expected: &ContainerState,
    processes: &Vec<ProcessRecord>,
) -> (pid: Option<i32>)
    ensures
        pid == init_from(processes@, expected, 0),
{
    let mut i: usize = 0;
    while i < processes.len()
        invariant
            i <= processes.len(),
            init_from(processes@, expected, 0) == init_from(processes@, expected, i as int),
        decreases processes.len() - i,
    {
        if check_init(&processes[i], expected) {
            return Some(processes[i].pid);
        }
        i += 1;
    }
    None
}

/// A record with the init process that was found for it.
pub fn adopt(state: ContainerState, pid: i32, start_time: u64, namespace: u64) -> (adopted:
    ContainerState)
    ensures
        adopted == (ContainerState {
            init_pid: pid,
            init_start_time: start_time,
            pid_namespace_inode: namespace,
            ..state
        }),
{
    ContainerState {
        name: state.name,
        init_pid: pid,
        monitor_pid: state.monitor_pid,
        rootfs: state.rootfs,
        uuid: state.uuid,
        host_boot_id: state.host_boot_id,
        init_start_time: start_time,
        pid_namespace_inode: namespace,
        started_at_unix: state.started_at_unix,
        monitor_start_time: state.monitor_start_time,
        init_system: state.init_system,
        generation: state.generation,
    }
}

/// Whether a record claims the name of an earlier one with another identity.
pub open spec fn contested(records: Seq<ContainerState>, i: int) -> bool {
    exists|j: int|
        0 <= j < i && (#[trigger] records[j]).name@ == records[i].name@ && records[j].uuid
            != records[i].uuid
}

/// Where no record is contested, all records with one name are of one
/// identity; and where they are, none is contested.
pub proof fn law_names_have_one_identity(records: Seq<ContainerState>)
    ensures
        (forall|i: int| 0 <= i < records.len() ==> !#[trigger] contested(records, i)) <==> (forall|
            i: int,
            j: int,
        |
            #![trigger records[i], records[j]]
            0 <= i < records.len() && 0 <= j < records.len() && records[i].name@
                == records[j].name@ ==> records[i].uuid == records[j].uuid),
{
    if forall|i: int| 0 <= i < records.len() ==> !#[trigger] contested(records, i) {
        assert forall|i: int, j: int|
            #![trigger records[i], records[j]]
            0 <= i < records.len() && 0 <= j < records.len() && records[i].name@
                == records[j].name@ implies records[i].uuid == records[j].uuid by {
            assert(!contested(records, i));
            assert(!contested(records, j));
        }
    }
}

/// Whether a record is the last with its name.
pub open spec fn last_of_name(records: Seq<ContainerState>, i: int) -> bool {
    forall|j: int| i < j < records.len() ==> (#[trigger] records[j]).name@ != records[i].name@
}

fn find_contested(records: &Vec<ContainerState>, i: usize) -> (result: bool)
    requires
        i < records@.len(),
    ensures
        result == contested(records@, i as int),
{
    let mut j: usize = 0;
    while j < i
        invariant
            j <= i < records@.len(),
            forall|k: int|
                0 <= k < j ==> !((#[trigger] records@[k]).name@ == records@[i as int].name@
                    && records@[k].uuid != records@[i as int].uuid),
        decreases i - j,
    {
        if same(&records[j].name, &records[i].name) && records[j].uuid != records[i].uuid {
            assert(records@[j as int].name@ == records@[i as int].name@);
            return true;
        }
        j += 1;
    }
    false
}

fn is_last_of_name(records: &Vec<ContainerState>, i: usize) -> (result: bool)
    requires
        i < records@.len(),
    ensures
        result == last_of_name(records@, i as int),
{
    let count: usize = records.len();
    let mut j: usize = i + 1;
    while j < count
        invariant
            i < j <= count == records@.len(),
            forall|k: int|
                i < k < j ==> (#[trigger] records@[k]).name@ != records@[i as int].name@,
        decreases count - j,
    {
        if same(&records[j].name, &records[i].name) {
            assert(records@[j as int].name@ == records@[i as int].name@);
            return false;
        }
        j += 1;
    }
    true
}

/// The recovered containers, in the order of their names: of several records
/// with one name and one identity the last. Two live identities under one
/// name are refused, with the position of the first record that claims a name
/// which is taken.
pub fn recover(records: &Vec<ContainerState>) -> (result: Result<Vec<usize>, usize>)
    ensures
        match result {
            Ok(order) => {
                &&& forall|i: int| 0 <= i < records@.len() ==> !#[trigger] contested(records@, i)
                &&& forall|i: int|
                    0 <= i < order@.len() ==> (#[trigger] order@[i]) < records@.len()
                        && last_of_name(records@, order@[i] as int)
                &&& forall|k: int|
                    0 <= k < records@.len() && #[trigger] last_of_name(records@, k)
                        ==> order@.contains(k as usize)
                &&& forall|i: int, j: int|
                    #![trigger order@[i], order@[j]]
                    0 <= i < j < order@.len() ==> precedes(
                        records@[order@[i] as int].name@,
                        records@[order@[j] as int].name@,
                    )
            },
            Err(position) => {
                &&& position < records@.len()
                &&& contested(records@, position as int)
                &&& forall|i: int| 0 <= i < position ==> !#[trigger] contested(records@, i)
            },
        },
{
    let mut i: usize = 0;
    while i < records.len()
        invariant
            i <= records@.len(),
            forall|k: int| 0 <= k < i ==> !#[trigger] contested(records@, k),
        decreases records.len() - i,
    {
        if find_contested(records, i) {
            return Err(i);
        }
        i += 1;
    }
    let mut names: Vec<String> = Vec::new();
    let mut last: Vec<bool> = Vec::new();
    let mut n: usize = 0;
    while n < records.len()
        invariant
            n <= records@.len(),
            names@.len() == n,
            last@.len() == n,
            forall|k: int| 0 <= k < n ==> (#[trigger] names@[k])@ == records@[k].name@,
            forall|k: int| 0 <= k < n ==> #[trigger] last@[k] == last_of_name(records@, k),
        decreases records.len() - n,
    {
        names.push(records[n].name.clone());
        last.push(is_last_of_name(records, n));
        n += 1;
    }
    let order = list(&names, &last);
    proof {
        assert forall|i: int, j: int|
            #![trigger order@[i], order@[j]]
            0 <= i < j < order@.len() implies precedes(
            records@[order@[i] as int].name@,
            records@[order@[j] as int].name@,
        ) by {
            let a = order@[i] as int;
            let b = order@[j] as int;
            assert(in_order(names@, order@[i], order@[j]));
            assert(a != b);
            assert(last_of_name(records@, a) && last_of_name(records@, b));
            assert(names@[a]@ == records@[a].name@ && names@[b]@ == records@[b].name@);
            crate::text::lemma_precedes_total(records@[a].name@, records@[b].name@);
            assert(records@[a].name@ != records@[b].name@) by {
                if a < b {
                    assert(records@[b].name@ != records@[a].name@);
                } else {
                    assert(records@[a].name@ != records@[b].name@);
                }
            }
        }
        assert forall|k: int|
            0 <= k < records@.len() && #[trigger] last_of_name(records@, k) implies order@.contains(
            k as usize,
        ) by {
            assert(last@[k]);
        }
        assert forall|i: int| 0 <= i < order@.len() implies (#[trigger] order@[i])
            < records@.len() && last_of_name(records@, order@[i] as int) by {
            assert(last@[order@[i] as int]);
        }
    }
    Ok(order)
}

// ---------------------------------------------------------------------------
// Directories
// ---------------------------------------------------------------------------
/// What the host says of a directory of the runtime, without following links.
#[derive(Clone, Copy, Debug, PartialEq, Eq, Structural)]
pub struct DirectoryFacts {
    pub directory: bool,
    pub symlink: bool,
    pub owner: u32,
    pub mode: u32,
}

/// Why a directory of the runtime is not trusted.
#[derive(Clone, Copy, Debug, PartialEq, Eq, Structural)]
pub enum TrustError {
    NotDirectory,
    Symlink,
    Owner,
    Writable,
}

/// Why a directory is not trusted.
pub open spec fn trust_error(facts: DirectoryFacts) -> Option<TrustError> {
    if !facts.directory {
        Some(TrustError::NotDirectory)
    } else if facts.symlink {
        Some(TrustError::Symlink)
    } else if facts.owner != 0 {
        Some(TrustError::Owner)
    } else if facts.mode & 0o022 != 0 {
        Some(TrustError::Writable)
    } else {
        None
    }
}

/// A directory is trusted exactly where it is a real directory of root, and
/// neither its group nor others may write to it.
pub proof fn law_only_root_writes_trusted_directories(facts: DirectoryFacts)
    ensures
        trust_error(facts) is None <==> facts.directory && !facts.symlink && facts.owner == 0 && (
        facts.mode >> 4) & 1 == 0 && (facts.mode >> 1) & 1 == 0,
        trust_error(facts) == Some(TrustError::NotDirectory) <==> !facts.directory,
        trust_error(facts) == Some(TrustError::Symlink) <==> facts.directory && facts.symlink,
        trust_error(facts) == Some(TrustError::Owner) <==> facts.directory && !facts.symlink
            && facts.owner > 0,
{
    let mode = facts.mode;
    assert(mode & 0o022 == 0 <==> (mode >> 4) & 1 == 0 && (mode >> 1) & 1 == 0) by (bit_vector);
}

/// Whether a directory is trusted: a real one that only root can write to.
pub fn ensure_trusted_directory(facts: DirectoryFacts) -> (result: Result<(), TrustError>)
    ensures
        match result {
            Ok(()) => trust_error(facts) is None,
            Err(error) => trust_error(facts) == Some(error),
        },
        result == if !facts.directory {
            Err(TrustError::NotDirectory)
        } else if facts.symlink {
            Err(TrustError::Symlink)
        } else if facts.owner != 0 {
            Err(TrustError::Owner)
        } else if facts.mode & 0o022 != 0 {
            Err(TrustError::Writable)
        } else {
            Ok(())
        },
{
    if !facts.directory {
        return Err(TrustError::NotDirectory);
    }
    if facts.symlink {
        return Err(TrustError::Symlink);
    }
    if facts.owner != 0 {
        return Err(TrustError::Owner);
    }
    if facts.mode & 0o022 != 0 {
        return Err(TrustError::Writable);
    }
    Ok(())
}

// ---------------------------------------------------------------------------
// The end of a monitor
// ---------------------------------------------------------------------------
/// How the wait for a monitor begins.
#[derive(Clone, Copy, Debug, PartialEq, Eq, Structural)]
pub enum MonitorWait {
    /// The monitor is gone: remove the record.
    RemoveState,
    /// Report that no handle could be opened.
    Report,
    /// Another process has its number.
    IdentityChanged,
    /// Wait for it to end.
    Wait,
}

/// How the wait for a monitor begins, where `opened` says that a handle on it
/// was opened and `recorded` that it is the recorded process.
pub fn wait_for_monitor_cleanup(opened: bool, recorded: bool) -> (decision: MonitorWait)
    ensures
        decision == match (opened, recorded) {
            (false, false) => MonitorWait::RemoveState,
            (false, true) => MonitorWait::Report,
            (true, false) => MonitorWait::IdentityChanged,
            (true, true) => MonitorWait::Wait,
        },
{
    match (opened, recorded) {
        (false, false) => MonitorWait::RemoveState,
        (false, true) => MonitorWait::Report,
        (true, false) => MonitorWait::IdentityChanged,
        (true, true) => MonitorWait::Wait,
    }
}

// ---------------------------------------------------------------------------
// Usage
// ---------------------------------------------------------------------------
/// What the host says of the namespace and the memory of a process; nothing
/// where it could not be read.
#[derive(Clone, Copy, Debug, PartialEq, Eq, Structural)]
pub struct ProcessUsage {
    pub namespace: Option<u64>,
    pub memory_kb: Option<u64>,
}

/// The memory of the processes in a namespace.
pub open spec fn memory_in(usages: Seq<ProcessUsage>, namespace: u64) -> nat
    decreases usages.len(),
{
    if usages.len() == 0 {
        0
    } else {
        let before = memory_in(usages.drop_last(), namespace);
        let last = usages.last();
        if last.namespace == Some(namespace) && last.memory_kb is Some {
            before + last.memory_kb->0 as nat
        } else {
            before
        }
    }
}

/// The number of the processes in a namespace.
pub open spec fn processes_in(usages: Seq<ProcessUsage>, namespace: u64) -> nat
    decreases usages.len(),
{
    if usages.len() == 0 {
        0
    } else {
        let before = processes_in(usages.drop_last(), namespace);
        if usages.last().namespace == Some(namespace) {
            before + 1
        } else {
            before
        }
    }
}

proof fn lemma_memory_grows(usages: Seq<ProcessUsage>, namespace: u64, i: int)
    requires
        0 <= i <= usages.len(),
    ensures
        memory_in(usages.take(i), namespace) <= memory_in(usages, namespace),
    decreases usages.len() - i,
{
    if i < usages.len() {
        lemma_memory_grows(usages, namespace, i + 1);
        assert(usages.take(i + 1).drop_last() =~= usages.take(i));
    } else {
        assert(usages.take(i) =~= usages);
    }
}

/// The memory and the number of the processes of a container.
pub fn collect_usage(usages: &Vec<ProcessUsage>, namespace: u64) -> (usage: (u64, usize))
    requires
        memory_in(usages@, namespace) <= u64::MAX,
    ensures
        usage.0 == memory_in(usages@, namespace),
        usage.1 == processes_in(usages@, namespace),
{
    let mut memory: u64 = 0;
    let mut processes: usize = 0;
    let mut i: usize = 0;
    while i < usages.len()
        invariant
            i <= usages@.len(),
            processes <= i,
            memory_in(usages@, namespace) <= u64::MAX,
            memory == memory_in(usages@.take(i as int), namespace),
            processes == processes_in(usages@.take(i as int), namespace),
        decreases usages.len() - i,
    {
        let usage = usages[i];
        proof {
            assert(usages@.take(i + 1).drop_last() =~= usages@.take(i as int));
            lemma_memory_grows(usages@, namespace, i + 1);
        }
        if is_number(usage.namespace, namespace) {
            processes += 1;
            if let Some(amount) = usage.memory_kb {
                memory += amount;
            }
        }
        i += 1;
    }
    assert(usages@.take(i as int) =~= usages@);
    (memory, processes)
}

/// What is used is the sum over all processes: the memory and the number of
/// the processes of two lists together are those of each added up, and one
/// process of the namespace counts as one with its own memory.
pub proof fn law_usage_adds_up(
    a: Seq<ProcessUsage>,
    b: Seq<ProcessUsage>,
    usage: ProcessUsage,
    namespace: u64,
)
    ensures
        memory_in(a + b, namespace) == memory_in(a, namespace) + memory_in(b, namespace),
        processes_in(a + b, namespace) == processes_in(a, namespace) + processes_in(b, namespace),
        memory_in(seq![usage], namespace) == if usage.namespace == Some(namespace) {
            match usage.memory_kb {
                Some(amount) => amount as nat,
                None => 0,
            }
        } else {
            0
        },
        processes_in(seq![usage], namespace) == if usage.namespace == Some(namespace) {
            1nat
        } else {
            0
        },
        memory_in(Seq::empty(), namespace) == 0,
        processes_in(Seq::empty(), namespace) == 0,
    decreases b.len(),
{
    reveal_with_fuel(memory_in, 2);
    reveal_with_fuel(processes_in, 2);
    assert(seq![usage].drop_last() =~= Seq::<ProcessUsage>::empty());
    if b.len() == 0 {
        assert(a + b =~= a);
    } else {
        law_usage_adds_up(a, b.drop_last(), usage, namespace);
        assert((a + b).drop_last() =~= a + b.drop_last());
        assert((a + b).last() == b.last());
    }
}

/// Why nothing is told about a container.
#[derive(Clone, Copy, Debug, PartialEq, Eq, Structural)]
pub enum InfoError {
    /// It does not run, and this edition tells only of those that do.
    NotRunning,
    /// It does not run, and no root is configured.
    NoRoot,
}

/// Whether what is told of a container is what is known of its run.
pub open spec fn tells_of(
    info: &ContainerInfo,
    state: &ContainerState,
    usage: (u64, usize),
    now: u64,
) -> bool {
    &&& info.active
    &&& info.name@ == state.name@
    &&& info.rootfs@ == state.rootfs@
    &&& info.init_pid == Some(state.init_pid)
    &&& info.monitor_pid == Some(state.monitor_pid)
    &&& info.uuid == Some(state.uuid)
    &&& info.init_system == Some(state.init_system)
    &&& info.generation == Some(state.generation)
    &&& info.memory_kb == Some(usage.0)
    &&& info.processes == Some(usage.1)
    &&& info.uptime_seconds is Some
    &&& info.uptime_seconds->0 == if state.started_at_unix <= now {
        now - state.started_at_unix
    } else {
        0
    }
}

/// What is told of a running container is what was measured: its usage, and as
/// its uptime the time since its start.
pub proof fn law_running_containers_are_told_of(
    info: &ContainerInfo,
    state: &ContainerState,
    usage: (u64, usize),
    now: u64,
)
    requires
        tells_of(info, state, usage, now),
    ensures
        info.active,
        info.init_pid matches Some(pid) && pid == state.init_pid,
        info.monitor_pid matches Some(pid) && pid == state.monitor_pid,
        info.memory_kb matches Some(amount) && amount == usage.0,
        info.processes matches Some(count) && count == usage.1,
        info.generation matches Some(number) && number == state.generation,
        info.uuid matches Some(uuid) && uuid == state.uuid,
        info.init_system matches Some(system) && system == state.init_system,
        info.name@ == state.name@,
        info.rootfs@ == state.rootfs@,
        now >= state.started_at_unix ==> (info.uptime_seconds matches Some(time) && state.started_at_unix
            + time == now),
        now < state.started_at_unix ==> info.uptime_seconds == Some(0u64),
{
}

impl Runtime {
    /// What is told about the container: of its state and its usage where it
    /// runs, and of its configuration where it does not. The older edition
    /// tells only of a container that runs.
    pub fn info(
        &self,
        edition: Edition,
        state: Option<ContainerState>,
        usage: (u64, usize),
        now: u64,
    ) -> (info: Result<ContainerInfo, InfoError>)
        ensures
            state matches Some(state) ==> info is Ok && tells_of(&info->Ok_0, &state, usage, now),
            match (state, info) {
                (Some(state), Ok(info)) => {
                    &&& info.active
                    &&& info.name@ == state.name@
                    &&& info.init_pid == Some(state.init_pid)
                    &&& info.monitor_pid == Some(state.monitor_pid)
                    &&& info.rootfs@ == state.rootfs@
                    &&& info.uuid == Some(state.uuid)
                    &&& info.init_system == Some(state.init_system)
                    &&& info.generation == Some(state.generation)
                    &&& info.uptime_seconds == Some(
                        (if now >= state.started_at_unix {
                            now - state.started_at_unix
                        } else {
                            0
                        }) as u64,
                    )
                    &&& info.memory_kb == Some(usage.0)
                    &&& info.processes == Some(usage.1)
                },
                (None, Ok(info)) => {
                    &&& edition == Edition::Kurumi
                    &&& !info.active
                    &&& info.name@ == self.config.container.name@
                    &&& Some(info.rootfs@) == (if self.config.container.rootfs is Some {
                        optional_view(self.config.container.rootfs)
                    } else {
                        optional_view(self.config.container.rootfs_image)
                    })
                    &&& info.uuid == self.config.container.uuid
                    &&& info.init_pid is None
                    &&& info.monitor_pid is None
                    &&& info.init_system is None
                    &&& info.generation is None
                    &&& info.uptime_seconds is None
                    &&& info.memory_kb is None
                    &&& info.processes is None
                },
                (Some(state), Err(error)) => false,
                (None, Err(InfoError::NotRunning)) => edition == Edition::Gnosis,
                (None, Err(InfoError::NoRoot)) => edition == Edition::Kurumi
                    && self.config.container.rootfs is None
                    && self.config.container.rootfs_image is None,
            },
    {
        match state {
            Some(state) => Ok(
                ContainerInfo {
                    name: state.name,
                    active: true,
                    init_pid: Some(state.init_pid),
                    monitor_pid: Some(state.monitor_pid),
                    rootfs: state.rootfs,
                    uuid: Some(state.uuid),
                    init_system: Some(state.init_system),
                    generation: Some(state.generation),
                    uptime_seconds: Some(now.saturating_sub(state.started_at_unix)),
                    memory_kb: Some(usage.0),
                    processes: Some(usage.1),
                },
            ),
            None => {
                if edition == Edition::Gnosis {
                    return Err(InfoError::NotRunning);
                }
                let container = &self.config.container;
                let rootfs = match &container.rootfs {
                    Some(path) => path.clone(),
                    None => match &container.rootfs_image {
                        Some(path) => path.clone(),
                        None => {
                            return Err(InfoError::NoRoot);
                        },
                    },
                };
                Ok(
                    ContainerInfo {
                        name: container.name.clone(),
                        active: false,
                        init_pid: None,
                        monitor_pid: None,
                        rootfs,
                        uuid: container.uuid,
                        init_system: None,
                        generation: None,
                        uptime_seconds: None,
                        memory_kb: None,
                        processes: None,
                    },
                )
            },
        }
    }
}

/// Of the records with one name exactly one is the last, and it stands no
/// earlier than any other.
pub proof fn law_every_name_has_a_last_record(records: Seq<ContainerState>, i: int) -> (last: int)
    requires
        0 <= i < records.len(),
    ensures
        i <= last < records.len(),
        records[last].name@ == records[i].name@,
        last_of_name(records, last),
        forall|j: int|
            0 <= j < records.len() && records[j].name@ == records[i].name@ && #[trigger] last_of_name(
                records,
                j,
            ) ==> j == last,
    decreases records.len() - i,
{
    if last_of_name(records, i) {
        assert forall|j: int|
            0 <= j < records.len() && records[j].name@ == records[i].name@
                && #[trigger] last_of_name(records, j) implies j == i by {
            if i < j {
                assert(records[j].name@ != records[i].name@);
            } else if j < i {
                assert(records[i].name@ != records[j].name@);
            }
        }
        i
    } else {
        let j = choose|j: int|
            i < j < records.len() && (#[trigger] records[j]).name@ == records[i].name@;
        law_every_name_has_a_last_record(records, j)
    }
}

/// Every container can be recovered: a record may hold every name that a
/// container may have, and longer ones, up to 255 characters.
pub proof fn law_every_container_can_be_recovered(name: Seq<char>)
    ensures
        container_name(name) ==> recorded_name(name),
        recorded_name(name) <==> 0 < name.len() < 0x100 && name_chars(name),
{
}

} // verus!
