//! Signals. Their numbers differ from one machine to the next, so the runtime
//! decides by their names and looks the numbers up in a table of the host.
use vstd::prelude::*;

verus! {

/// The signals that the runtime sends or handles.
#[derive(Clone, Copy, Debug, PartialEq, Eq, Structural)]
pub enum Signal {
    Hangup,
    Interrupt,
    Quit,
    Kill,
    User1,
    User2,
    Pipe,
    Continue,
    Power,
    Terminate,
}

impl Signal {
    /// The position of the signal in the tables.
    pub open spec fn place(self) -> int {
        match self {
            Signal::Hangup => 0,
            Signal::Interrupt => 1,
            Signal::Quit => 2,
            Signal::Kill => 8,
            Signal::User1 => 9,
            Signal::User2 => 11,
            Signal::Pipe => 12,
            Signal::Terminate => 14,
            Signal::Continue => 17,
            Signal::Power => 29,
        }
    }

    /// The number of the signal on the host whose table this is.
    pub fn raw(self, table: &SignalTable) -> (number: i32)
        ensures
            number == table.numbers()[self.place()],
    {
        proof {
            use_type_invariant(table);
        }
        let place: usize = match self {
            Signal::Hangup => 0,
            Signal::Interrupt => 1,
            Signal::Quit => 2,
            Signal::Kill => 8,
            Signal::User1 => 9,
            Signal::User2 => 11,
            Signal::Pipe => 12,
            Signal::Terminate => 14,
            Signal::Continue => 17,
            Signal::Power => 29,
        };
        table.list[place]
    }
}

/// The numbers that the host gives to the signals.
pub struct SignalTable {
    list: Vec<i32>,
}

/// The names of the signals, in the order of the tables.
pub open spec fn signal_names() -> Seq<Seq<char>> {
    seq![
        "SIGHUP"@,
        "SIGINT"@,
        "SIGQUIT"@,
        "SIGILL"@,
        "SIGTRAP"@,
        "SIGABRT"@,
        "SIGBUS"@,
        "SIGFPE"@,
        "SIGKILL"@,
        "SIGUSR1"@,
        "SIGSEGV"@,
        "SIGUSR2"@,
        "SIGPIPE"@,
        "SIGALRM"@,
        "SIGTERM"@,
        "SIGSTKFLT"@,
        "SIGCHLD"@,
        "SIGCONT"@,
        "SIGSTOP"@,
        "SIGTSTP"@,
        "SIGTTIN"@,
        "SIGTTOU"@,
        "SIGURG"@,
        "SIGXCPU"@,
        "SIGXFSZ"@,
        "SIGVTALRM"@,
        "SIGPROF"@,
        "SIGWINCH"@,
        "SIGIO"@,
        "SIGPWR"@,
        "SIGSYS"@,
    ]
}

/// The name at a position of the tables.
fn signal_name_at(place: usize) -> (name: &'static str)
    requires
        place < 31,
    ensures
        name@ == signal_names()[place as int],
{
    match place {
        0 => "SIGHUP",
        1 => "SIGINT",
        2 => "SIGQUIT",
        3 => "SIGILL",
        4 => "SIGTRAP",
        5 => "SIGABRT",
        6 => "SIGBUS",
        7 => "SIGFPE",
        8 => "SIGKILL",
        9 => "SIGUSR1",
        10 => "SIGSEGV",
        11 => "SIGUSR2",
        12 => "SIGPIPE",
        13 => "SIGALRM",
        14 => "SIGTERM",
        15 => "SIGSTKFLT",
        16 => "SIGCHLD",
        17 => "SIGCONT",
        18 => "SIGSTOP",
        19 => "SIGTSTP",
        20 => "SIGTTIN",
        21 => "SIGTTOU",
        22 => "SIGURG",
        23 => "SIGXCPU",
        24 => "SIGXFSZ",
        25 => "SIGVTALRM",
        26 => "SIGPROF",
        27 => "SIGWINCH",
        28 => "SIGIO",
        29 => "SIGPWR",
        _ => "SIGSYS",
    }
}

/// Whether the signals that have the same number on every machine have it.
pub open spec fn usual_numbers(numbers: Seq<i32>) -> bool {
    &&& numbers.len() == signal_names().len()
    &&& numbers[Signal::Hangup.place()] == 1
    &&& numbers[Signal::Interrupt.place()] == 2
    &&& numbers[Signal::Quit.place()] == 3
    &&& numbers[Signal::Kill.place()] == 9
    &&& numbers[Signal::Terminate.place()] == 15
}

/// The signal constants of the crate `libc` for this machine, in the order of
/// the tables. Those that are the same everywhere are stated; which numbers
/// the others are is not, since it differs from one machine to the next.
#[verifier::external_body]
fn host_signals() -> (list: Vec<i32>)
    ensures
        usual_numbers(list@),
{
    vec![
        libc::SIGHUP, libc::SIGINT, libc::SIGQUIT, libc::SIGILL, libc::SIGTRAP, libc::SIGABRT,
        libc::SIGBUS, libc::SIGFPE, libc::SIGKILL, libc::SIGUSR1, libc::SIGSEGV, libc::SIGUSR2,
        libc::SIGPIPE, libc::SIGALRM, libc::SIGTERM, libc::SIGSTKFLT, libc::SIGCHLD,
        libc::SIGCONT, libc::SIGSTOP, libc::SIGTSTP, libc::SIGTTIN, libc::SIGTTOU,
        libc::SIGURG, libc::SIGXCPU, libc::SIGXFSZ, libc::SIGVTALRM, libc::SIGPROF,
        libc::SIGWINCH, libc::SIGIO, libc::SIGPWR, libc::SIGSYS,
    ]
}

/// `libc::SIGRTMIN`: the first signal that programs may use as they like.
/// Which it is depends on the C library.
#[verifier::external_body]
fn first_realtime() -> (number: i32)
{
    libc::SIGRTMIN()
}

/// `libc::SIGRTMAX`: the last signal. Which it is depends on the C library.
#[verifier::external_body]
fn last_realtime() -> (number: i32)
{
    libc::SIGRTMAX()
}

impl SignalTable {
    /// The numbers, in the order of the names.
    pub closed spec fn numbers(&self) -> Seq<i32> {
        self.list@
    }

    #[verifier::type_invariant]
    spec fn complete(&self) -> bool {
        self.list@.len() == 31
    }

    /// The table of this host.
    pub fn host() -> (table: SignalTable)
        ensures
            usual_numbers(table.numbers()),
    {
        SignalTable { list: host_signals() }
    }

    /// The table with these numbers.
    pub fn of(list: Vec<i32>) -> (table: SignalTable)
        requires
            list@.len() == signal_names().len(),
        ensures
            table.numbers() == list@,
    {
        SignalTable { list }
    }
}

/// The number of a signal.
#[derive(Clone, Copy, Debug, PartialEq, Eq, Structural)]
pub struct SignalNumber {
    pub number: i32,
}

/// The name that the table gives to a number, from position `i` on.
pub open spec fn name_from(numbers: Seq<i32>, number: i32, i: int) -> Seq<char>
    decreases numbers.len() - i,
{
    if i < 0 || i >= numbers.len() {
        "unknown signal"@
    } else if numbers[i] == number {
        signal_names()[i]
    } else {
        name_from(numbers, number, i + 1)
    }
}

/// The signal at an offset from the first that programs may use as they like,
/// where `first` and `last` bound those.
pub open spec fn realtime_number(offset: i32, first: i32, last: i32) -> Option<SignalNumber> {
    if first <= first + offset <= last && 0 <= first + offset <= i32::MAX {
        Some(SignalNumber { number: (first + offset) as i32 })
    } else {
        None
    }
}

impl SignalNumber {
    /// No signal: the number that only asks whether a process is there.
    pub fn none() -> (signal: SignalNumber)
        ensures
            signal.number == 0,
    {
        SignalNumber { number: 0 }
    }

    /// The signal with this number, where the last signal is `last`.
    pub fn within(raw: i32, last: i32) -> (signal: Option<SignalNumber>)
        ensures
            signal == if 0 <= raw <= last {
                Some(SignalNumber { number: raw })
            } else {
                None
            },
    {
        if raw >= 0 && raw <= last {
            Some(SignalNumber { number: raw })
        } else {
            None
        }
    }

    /// The signal with this number.
    pub fn new(raw: i32) -> (signal: Option<SignalNumber>)
        ensures
            match signal {
                Some(signal) => raw >= 0 && signal.number == raw,
                None => true,
            },
    {
        SignalNumber::within(raw, last_realtime())
    }

    /// The signal at an offset from the first that programs may use as they
    /// like, where `first` and `last` bound those.
    pub fn realtime_within(offset: i32, first: i32, last: i32) -> (signal: Option<SignalNumber>)
        ensures
            signal == realtime_number(offset, first, last),
    {
        match first.checked_add(offset) {
            None => None,
            Some(raw) => match SignalNumber::within(raw, last) {
                Some(signal) => if signal.number >= first {
                    Some(signal)
                } else {
                    None
                },
                None => None,
            },
        }
    }

    /// The signal at an offset from the first that programs may use as they
    /// like. The C library of the host says which those are.
    pub fn realtime(offset: i32) -> (signal: Option<SignalNumber>)
        ensures
            offset < 0 ==> signal is None,
            exists|first: i32, last: i32| signal == #[trigger] realtime_number(offset, first, last),
    {
        let first: i32 = first_realtime();
        let last: i32 = last_realtime();
        let signal = SignalNumber::realtime_within(offset, first, last);
        assert(signal == realtime_number(offset, first, last));
        signal
    }

    /// The number of the signal.
    pub fn raw(self) -> (raw: i32)
        ensures
            raw == self.number,
    {
        self.number
    }

    /// A number that the kernel reported.
    pub fn from_kernel(raw: i32) -> (signal: SignalNumber)
        ensures
            signal.number == raw,
    {
        SignalNumber { number: raw }
    }

    /// The number of a signal on the host whose table this is.
    pub fn from_signal(signal: Signal, table: &SignalTable) -> (number: SignalNumber)
        ensures
            number.number == table.numbers()[signal.place()],
    {
        SignalNumber { number: signal.raw(table) }
    }

    /// The name of the signal on the host whose table this is.
    pub fn name(self, table: &SignalTable) -> (name: &'static str)
        ensures
            name@ == name_from(table.numbers(), self.number, 0),
    {
        proof {
            use_type_invariant(table);
        }
        let mut i: usize = 0;
        while i < table.list.len()
            invariant
                i <= table.list.len(),
                table.list@.len() == 31,
                table.numbers() == table.list@,
                name_from(table.numbers(), self.number, 0) == name_from(
                    table.numbers(),
                    self.number,
                    i as int,
                ),
            decreases table.list.len() - i,
        {
            if table.list[i] == self.number {
                return signal_name_at(i);
            }
            i += 1;
        }
        "unknown signal"
    }
}

/// Each signal stands at the place of its name, and no two at one.
pub proof fn law_signals_have_their_names(a: Signal, b: Signal)
    ensures
        signal_names().len() == 31,
        0 <= a.place() < 31,
        a.place() == b.place() ==> a == b,
        signal_names()[a.place()] == (match a {
            Signal::Hangup => "SIGHUP"@,
            Signal::Interrupt => "SIGINT"@,
            Signal::Quit => "SIGQUIT"@,
            Signal::Kill => "SIGKILL"@,
            Signal::User1 => "SIGUSR1"@,
            Signal::User2 => "SIGUSR2"@,
            Signal::Pipe => "SIGPIPE"@,
            Signal::Continue => "SIGCONT"@,
            Signal::Power => "SIGPWR"@,
            Signal::Terminate => "SIGTERM"@,
        }),
{
}

/// The name of a number is that of the first signal with it, and unknown only
/// where no signal has it.
pub proof fn law_names_follow_the_table(numbers: Seq<i32>, number: i32, i: int)
    requires
        0 <= i <= numbers.len(),
        numbers.len() == 31,
    ensures
        (forall|k: int| i <= k < numbers.len() ==> #[trigger] numbers[k] != number) ==> name_from(
            numbers,
            number,
            i,
        ) == "unknown signal"@,
        forall|k: int|
            i <= k < numbers.len() && #[trigger] numbers[k] == number && (forall|n: int|
                i <= n < k ==> #[trigger] numbers[n] != number) ==> name_from(numbers, number, i)
                == signal_names()[k],
    decreases numbers.len() - i,
{
    if i < numbers.len() && numbers[i] != number {
        law_names_follow_the_table(numbers, number, i + 1);
    }
}

/// Where signals have the numbers that most machines give them, each number has
/// its usual name.
pub proof fn law_usual_signals_have_their_usual_names(numbers: Seq<i32>)
    requires
        numbers.len() == 31,
        forall|i: int| 0 <= i < 31 ==> #[trigger] numbers[i] == i + 1,
    ensures
        name_from(numbers, 1, 0) == "SIGHUP"@,
        name_from(numbers, 2, 0) == "SIGINT"@,
        name_from(numbers, 3, 0) == "SIGQUIT"@,
        name_from(numbers, 4, 0) == "SIGILL"@,
        name_from(numbers, 5, 0) == "SIGTRAP"@,
        name_from(numbers, 6, 0) == "SIGABRT"@,
        name_from(numbers, 7, 0) == "SIGBUS"@,
        name_from(numbers, 8, 0) == "SIGFPE"@,
        name_from(numbers, 9, 0) == "SIGKILL"@,
        name_from(numbers, 10, 0) == "SIGUSR1"@,
        name_from(numbers, 11, 0) == "SIGSEGV"@,
        name_from(numbers, 12, 0) == "SIGUSR2"@,
        name_from(numbers, 13, 0) == "SIGPIPE"@,
        name_from(numbers, 14, 0) == "SIGALRM"@,
        name_from(numbers, 15, 0) == "SIGTERM"@,
        name_from(numbers, 16, 0) == "SIGSTKFLT"@,
        name_from(numbers, 17, 0) == "SIGCHLD"@,
        name_from(numbers, 18, 0) == "SIGCONT"@,
        name_from(numbers, 19, 0) == "SIGSTOP"@,
        name_from(numbers, 20, 0) == "SIGTSTP"@,
        name_from(numbers, 21, 0) == "SIGTTIN"@,
        name_from(numbers, 22, 0) == "SIGTTOU"@,
        name_from(numbers, 23, 0) == "SIGURG"@,
        name_from(numbers, 24, 0) == "SIGXCPU"@,
        name_from(numbers, 25, 0) == "SIGXFSZ"@,
        name_from(numbers, 26, 0) == "SIGVTALRM"@,
        name_from(numbers, 27, 0) == "SIGPROF"@,
        name_from(numbers, 28, 0) == "SIGWINCH"@,
        name_from(numbers, 29, 0) == "SIGIO"@,
        name_from(numbers, 30, 0) == "SIGPWR"@,
        name_from(numbers, 31, 0) == "SIGSYS"@,
{
    assert forall|n: i32| 1 <= n <= 31 implies #[trigger] name_from(numbers, n, 0)
        == signal_names()[n - 1] by {
        law_names_follow_the_table(numbers, n, 0);
        assert(numbers[n - 1] == n);
    }
}

/// A realtime signal is at its offset from the first, and there is none beyond
/// the last.
pub proof fn law_realtime_signals_are_counted(offset: i32, first: i32, last: i32)
    ensures
        realtime_number(offset, first, last) matches Some(signal) ==> signal.number - first
            == offset && offset >= 0 && signal.number <= last && signal.number >= 0,
        offset >= 0 && first >= 0 && first + offset <= last ==> realtime_number(
            offset,
            first,
            last,
        ) is Some,
{
}

} // verus!
