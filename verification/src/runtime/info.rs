//! What the runtime tells about a container.
use vstd::prelude::*;

use crate::config::identity::{hyphenated, uuid_text};
use crate::container::init::InitSystem;
use crate::text::{
    decimal, decimal_text, digit, digit_value, digits_value, joined, lemma_decimal_digits,
    lemma_position_is, position, two_digit_text, two_digits,
};

verus! {

/// What is told about a container. An inactive one has no processes.
#[derive(Debug, PartialEq, Eq)]
pub struct ContainerInfo {
    pub name: String,
    pub active: bool,
    pub init_pid: Option<i32>,
    pub monitor_pid: Option<i32>,
    pub rootfs: String,
    pub uuid: Option<u128>,
    pub init_system: Option<InitSystem>,
    pub generation: Option<u64>,
    pub uptime_seconds: Option<u64>,
    pub memory_kb: Option<u64>,
    pub processes: Option<usize>,
}

/// Days, hours, minutes and seconds, from the largest of them that is not zero
/// on.
pub open spec fn time_text(days: nat, hours: nat, minutes: nat, rest: nat) -> Seq<char> {
    if days > 0 {
        decimal(days) + "d "@ + two_digits(hours) + "h "@ + two_digits(minutes) + "m "@
            + two_digits(rest) + "s"@
    } else if hours > 0 {
        decimal(hours) + "h "@ + two_digits(minutes) + "m "@ + two_digits(rest) + "s"@
    } else if minutes > 0 {
        decimal(minutes) + "m "@ + two_digits(rest) + "s"@
    } else {
        decimal(rest) + "s"@
    }
}

/// A time in seconds as days, hours, minutes and seconds.
pub open spec fn duration_text(seconds: nat) -> Seq<char> {
    time_text(
        seconds / 86_400,
        seconds % 86_400 / 3_600,
        seconds % 3_600 / 60,
        seconds % 60,
    )
}

/// A time in seconds as days, hours, minutes and seconds.
pub fn format_duration(seconds: u64) -> (text: String)
    ensures
        text@ == duration_text(seconds as nat),
{
    let days: u64 = seconds / 86_400;
    let hours: u64 = seconds % 86_400 / 3_600;
    let minutes: u64 = seconds % 3_600 / 60;
    let rest: u64 = seconds % 60;
    if days > 0 {
        let mut text = decimal_text(days);
        text.append("d ");
        text.append(&two_digit_text(hours));
        text.append("h ");
        text.append(&two_digit_text(minutes));
        text.append("m ");
        text.append(&two_digit_text(rest));
        text.append("s");
        text
    } else if hours > 0 {
        let mut text = decimal_text(hours);
        text.append("h ");
        text.append(&two_digit_text(minutes));
        text.append("m ");
        text.append(&two_digit_text(rest));
        text.append("s");
        text
    } else if minutes > 0 {
        let mut text = decimal_text(minutes);
        text.append("m ");
        text.append(&two_digit_text(rest));
        text.append("s");
        text
    } else {
        joined(&decimal_text(rest), "s")
    }
}

/// The parts into which a time is taken apart make it up, and each of them
/// stays below the next larger unit.
pub proof fn law_duration_parts(seconds: nat)
    ensures
        seconds / 86_400 * 86_400 + seconds % 86_400 / 3_600 * 3_600 + seconds % 3_600 / 60 * 60
            + seconds % 60 == seconds,
        seconds % 86_400 / 3_600 < 24,
        seconds % 3_600 / 60 < 60,
        seconds % 60 < 60,
{
}

/// The decimal digits that a text ends with.
pub open spec fn last_digits(text: Seq<char>) -> Seq<char>
    decreases text.len(),
{
    if text.len() > 0 && digit_value(text.last()) < 10 {
        last_digits(text.drop_last()).push(text.last())
    } else {
        Seq::empty()
    }
}

/// The number that is shown before a letter, or zero where the letter is not
/// shown.
pub open spec fn shown_before(text: Seq<char>, letter: char) -> nat {
    if position(text, letter) < text.len() {
        digits_value(last_digits(text.take(position(text, letter) as int)))
    } else {
        0
    }
}

/// The seconds that the numbers of a text make up.
pub open spec fn shown_seconds(text: Seq<char>) -> nat {
    shown_before(text, 'd') * 86_400 + shown_before(text, 'h') * 3_600 + shown_before(text, 'm')
        * 60 + shown_before(text, 's')
}

/// Whether a text does not hold a letter.
pub open spec fn free_of(text: Seq<char>, letter: char) -> bool {
    forall|i: int| 0 <= i < text.len() ==> #[trigger] text[i] != letter
}

/// Whether a text is made of decimal digits.
pub open spec fn all_digits(text: Seq<char>) -> bool {
    text.len() > 0 && forall|i: int| 0 <= i < text.len() ==> digit_value(#[trigger] text[i]) < 10
}

proof fn lemma_last_digits(front: Seq<char>, number: Seq<char>)
    requires
        front.len() > 0 ==> digit_value(front.last()) == 10,
        forall|i: int| 0 <= i < number.len() ==> digit_value(#[trigger] number[i]) < 10,
    ensures
        last_digits(front + number) == number,
    decreases number.len(),
{
    let text = front + number;
    if number.len() == 0 {
        assert(text =~= front);
        assert(number =~= Seq::<char>::empty());
    } else {
        let shorter = number.drop_last();
        assert forall|i: int| 0 <= i < shorter.len() implies digit_value(#[trigger] shorter[i])
            < 10 by {
            assert(shorter[i] == number[i]);
        }
        lemma_last_digits(front, shorter);
        assert(text.drop_last() =~= front + shorter);
        assert(text.last() == number[number.len() - 1]);
        assert(shorter.push(number.last()) =~= number);
    }
}

proof fn lemma_shown(front: Seq<char>, number: Seq<char>, letter: char, rest: Seq<char>)
    requires
        free_of(front, letter),
        front.len() > 0 ==> digit_value(front.last()) == 10,
        all_digits(number),
        digit_value(letter) == 10,
    ensures
        shown_before(front + number + seq![letter] + rest, letter) == digits_value(number),
{
    let text = front + number + seq![letter] + rest;
    let at = front.len() + number.len();
    assert forall|k: int| 0 <= k < at implies #[trigger] text[k] != letter by {
        if k < front.len() {
            assert(text[k] == front[k]);
        } else {
            assert(text[k] == number[k - front.len()]);
        }
    }
    assert(text[at as int] == letter);
    lemma_position_is(text, letter, at as int);
    assert(text.take(at as int) =~= front + number);
    lemma_last_digits(front, number);
}

proof fn lemma_not_shown(text: Seq<char>, letter: char)
    requires
        free_of(text, letter),
    ensures
        shown_before(text, letter) == 0,
{
    lemma_position_is(text, letter, text.len() as int);
}

proof fn lemma_two_digits(n: nat)
    requires
        n < 100,
    ensures
        two_digits(n).len() == 2,
        all_digits(two_digits(n)),
        digits_value(two_digits(n)) == n,
{
    lemma_decimal_digits(n);
    reveal_with_fuel(decimal, 3);
    if n < 10 {
        let text = two_digits(n);
        lemma_decimal_digits(0);
        reveal_with_fuel(digits_value, 3);
        assert(decimal(n) =~= seq![digit(n)]);
        assert(decimal(n)[0] == digit(n));
        assert(decimal(n).drop_last() =~= Seq::<char>::empty());
        assert(text.drop_last() =~= seq!['0']);
        assert(seq!['0'].drop_last() =~= Seq::<char>::empty());
        assert(digit_value('0') == 0);
    } else {
        assert(decimal(n).drop_last() =~= decimal(n / 10));
    }
}

/// A part of a text of a time: a number, the letter of its unit, and a space;
/// nothing where the unit is left out.
pub open spec fn part(shown: bool, number: Seq<char>, letter: char) -> Seq<char> {
    if shown {
        number + seq![letter, ' ']
    } else {
        Seq::empty()
    }
}

/// Whether a text is empty or ends with a space.
pub open spec fn spaced_end(text: Seq<char>) -> bool {
    text.len() > 0 ==> text.last() == ' '
}

proof fn lemma_part(front: Seq<char>, shown: bool, number: Seq<char>, letter: char, other: char)
    requires
        shown ==> all_digits(number) && other != letter,
        digit_value(other) == 10,
        other != ' ',
        free_of(front, other),
        spaced_end(front),
    ensures
        free_of(front + part(shown, number, letter), other),
        spaced_end(front + part(shown, number, letter)),
{
    let text = front + part(shown, number, letter);
    assert forall|i: int| 0 <= i < text.len() implies #[trigger] text[i] != other by {
        if i < front.len() {
            assert(text[i] == front[i]);
        } else if i < front.len() + number.len() {
            assert(text[i] == number[i - front.len()]);
        }
    }
    if !shown {
        assert(text =~= front);
    }
}

proof fn lemma_part_shown(front: Seq<char>, number: Seq<char>, letter: char, rest: Seq<char>)
    requires
        all_digits(number),
        digit_value(letter) == 10,
        free_of(front, letter),
        spaced_end(front),
    ensures
        shown_before(front + part(true, number, letter) + rest, letter) == digits_value(number),
{
    lemma_shown(front, number, letter, seq![' '] + rest);
    assert(front + part(true, number, letter) + rest =~= front + number + seq![letter] + (seq![' ']
        + rest));
}

proof fn lemma_tail(front: Seq<char>, number: Seq<char>, letter: char)
    requires
        free_of(front, letter),
        spaced_end(front),
        all_digits(number),
        digit_value(letter) == 10,
    ensures
        letter == 's' ==> shown_before(front + number + seq!['s'], letter) == digits_value(number),
        letter != 's' ==> shown_before(front + number + seq!['s'], letter) == 0,
{
    let text = front + number + seq!['s'];
    if letter == 's' {
        lemma_shown(front, number, 's', Seq::empty());
        assert(text =~= front + number + seq!['s'] + Seq::<char>::empty());
    } else {
        assert forall|i: int| 0 <= i < text.len() implies #[trigger] text[i] != letter by {
            if i < front.len() {
                assert(text[i] == front[i]);
            } else if i < front.len() + number.len() {
                assert(text[i] == number[i - front.len()]);
            }
        }
        lemma_not_shown(text, letter);
    }
}

/// The text of a time with these numbers, where some units are left out.
pub open spec fn parts_text(
    days: bool,
    d: Seq<char>,
    hours: bool,
    h: Seq<char>,
    minutes: bool,
    m: Seq<char>,
    s: Seq<char>,
) -> Seq<char> {
    part(days, d, 'd') + part(hours, h, 'h') + part(minutes, m, 'm') + s + seq!['s']
}

proof fn lemma_shown_time(
    days: bool,
    d: Seq<char>,
    hours: bool,
    h: Seq<char>,
    minutes: bool,
    m: Seq<char>,
    s: Seq<char>,
)
    requires
        days ==> all_digits(d),
        hours ==> all_digits(h),
        minutes ==> all_digits(m),
        all_digits(s),
    ensures
        ({
            let text = parts_text(days, d, hours, h, minutes, m, s);
            &&& shown_before(text, 'd') == if days {
                digits_value(d)
            } else {
                0
            }
            &&& shown_before(text, 'h') == if hours {
                digits_value(h)
            } else {
                0
            }
            &&& shown_before(text, 'm') == if minutes {
                digits_value(m)
            } else {
                0
            }
            &&& shown_before(text, 's') == digits_value(s)
        }),
{
    let text = parts_text(days, d, hours, h, minutes, m, s);
    let none = Seq::<char>::empty();
    let one = none + part(days, d, 'd');
    let two = one + part(hours, h, 'h');
    let three = two + part(minutes, m, 'm');
    assert(one =~= part(days, d, 'd'));
    assert(shown_before(text, 'd') == if days {
        digits_value(d)
    } else {
        0
    }) by {
        let rest = part(hours, h, 'h') + part(minutes, m, 'm') + s + seq!['s'];
        if days {
            lemma_part_shown(none, d, 'd', rest);
            assert(text =~= one + rest);
        } else {
            lemma_part(none, days, d, 'd', 'd');
            lemma_part(one, hours, h, 'h', 'd');
            lemma_part(two, minutes, m, 'm', 'd');
            lemma_tail(three, s, 'd');
        }
    }
    assert(shown_before(text, 'h') == if hours {
        digits_value(h)
    } else {
        0
    }) by {
        lemma_part(none, days, d, 'd', 'h');
        let rest = part(minutes, m, 'm') + s + seq!['s'];
        if hours {
            lemma_part_shown(one, h, 'h', rest);
            assert(text =~= two + rest);
        } else {
            lemma_part(one, hours, h, 'h', 'h');
            lemma_part(two, minutes, m, 'm', 'h');
            lemma_tail(three, s, 'h');
        }
    }
    assert(shown_before(text, 'm') == if minutes {
        digits_value(m)
    } else {
        0
    }) by {
        lemma_part(none, days, d, 'd', 'm');
        lemma_part(one, hours, h, 'h', 'm');
        let rest = s + seq!['s'];
        if minutes {
            lemma_part_shown(two, m, 'm', rest);
            assert(text =~= three + rest);
        } else {
            lemma_part(two, minutes, m, 'm', 'm');
            lemma_tail(three, s, 'm');
        }
    }
    assert(shown_before(text, 's') == digits_value(s)) by {
        lemma_part(none, days, d, 'd', 's');
        lemma_part(one, hours, h, 'h', 's');
        lemma_part(two, minutes, m, 'm', 's');
        lemma_tail(three, s, 's');
    }
}

proof fn lemma_time_text(days: nat, hours: nat, minutes: nat, rest: nat)
    requires
        hours < 24,
        minutes < 60,
        rest < 60,
    ensures
        shown_before(time_text(days, hours, minutes, rest), 'd') == days,
        shown_before(time_text(days, hours, minutes, rest), 'h') == hours,
        shown_before(time_text(days, hours, minutes, rest), 'm') == minutes,
        shown_before(time_text(days, hours, minutes, rest), 's') == rest,
{
    reveal_strlit("d ");
    reveal_strlit("h ");
    reveal_strlit("m ");
    reveal_strlit("s");
    assert("d "@ =~= seq!['d', ' ']);
    assert("h "@ =~= seq!['h', ' ']);
    assert("m "@ =~= seq!['m', ' ']);
    assert("s"@ =~= seq!['s']);
    lemma_two_digits(hours);
    lemma_two_digits(minutes);
    lemma_two_digits(rest);
    lemma_decimal_digits(days);
    lemma_decimal_digits(hours);
    lemma_decimal_digits(minutes);
    lemma_decimal_digits(rest);
    let text = time_text(days, hours, minutes, rest);
    let none = Seq::<char>::empty();
    let hh = two_digits(hours);
    let mm = two_digits(minutes);
    let ss = two_digits(rest);
    if days > 0 {
        assert(text =~= parts_text(true, decimal(days), true, hh, true, mm, ss));
        lemma_shown_time(true, decimal(days), true, hh, true, mm, ss);
    } else if hours > 0 {
        assert(text =~= parts_text(false, none, true, decimal(hours), true, mm, ss));
        lemma_shown_time(false, none, true, decimal(hours), true, mm, ss);
    } else if minutes > 0 {
        assert(text =~= parts_text(false, none, false, none, true, decimal(minutes), ss));
        lemma_shown_time(false, none, false, none, true, decimal(minutes), ss);
    } else {
        assert(text =~= parts_text(false, none, false, none, false, none, decimal(rest)));
        lemma_shown_time(false, none, false, none, false, none, decimal(rest));
    }
}

/// The numbers in the text of a time are its parts: the seconds can be read
/// back from it. Numbers after the first have two digits.
pub proof fn law_duration_is_read_back(seconds: nat)
    ensures
        shown_before(duration_text(seconds), 'd') == seconds / 86_400,
        shown_before(duration_text(seconds), 'h') == seconds % 86_400 / 3_600,
        shown_before(duration_text(seconds), 'm') == seconds % 3_600 / 60,
        shown_before(duration_text(seconds), 's') == seconds % 60,
        shown_seconds(duration_text(seconds)) == seconds,
        two_digits(seconds % 86_400 / 3_600).len() == 2,
        two_digits(seconds % 3_600 / 60).len() == 2,
        two_digits(seconds % 60).len() == 2,
{
    law_duration_parts(seconds);
    lemma_two_digits(seconds % 86_400 / 3_600);
    lemma_two_digits(seconds % 3_600 / 60);
    lemma_two_digits(seconds % 60);
    lemma_time_text(
        seconds / 86_400,
        seconds % 86_400 / 3_600,
        seconds % 3_600 / 60,
        seconds % 60,
    );
}

/// Two different times never show alike.
pub proof fn law_durations_differ(a: nat, b: nat)
    requires
        duration_text(a) == duration_text(b),
    ensures
        a == b,
{
    law_duration_is_read_back(a);
    law_duration_is_read_back(b);
}

/// A value in a larger unit, with one decimal, rounded down.
pub open spec fn unit_text(value: nat, unit: nat, suffix: Seq<char>) -> Seq<char> {
    decimal(value / unit) + "."@ + decimal(value % unit * 10 / unit) + " "@ + suffix
}

/// An amount of memory in the largest fitting unit.
pub open spec fn memory_text(kibibytes: nat) -> Seq<char> {
    if kibibytes >= 1_048_576 {
        unit_text(kibibytes, 1_048_576, "GiB"@)
    } else if kibibytes >= 1_024 {
        unit_text(kibibytes, 1_024, "MiB"@)
    } else {
        decimal(kibibytes) + " KiB"@
    }
}

/// A value in a larger unit, with one decimal, rounded down.
pub fn format_unit(value: u64, unit: u64, suffix: &str) -> (text: String)
    requires
        0 < unit,
        unit * 10 <= u64::MAX,
    ensures
        text@ == unit_text(value as nat, unit as nat, suffix@),
{
    let whole: u64 = value / unit;
    let rest: u64 = value % unit;
    let tenths: u64 = rest * 10 / unit;
    let mut text = decimal_text(whole);
    text.append(".");
    text.append(&decimal_text(tenths));
    text.append(" ");
    text.append(suffix);
    text
}

/// An amount of memory in the largest fitting unit.
pub fn format_memory(kibibytes: u64) -> (text: String)
    ensures
        text@ == memory_text(kibibytes as nat),
{
    if kibibytes >= 1_048_576 {
        format_unit(kibibytes, 1_048_576, "GiB")
    } else if kibibytes >= 1_024 {
        format_unit(kibibytes, 1_024, "MiB")
    } else {
        joined(&decimal_text(kibibytes), " KiB")
    }
}

/// The decimal of a unit is one digit.
pub proof fn law_one_decimal(value: nat, unit: nat)
    requires
        0 < unit,
    ensures
        value % unit * 10 / unit < 10,
{
    let rest = value % unit;
    assert(rest * 10 / unit < 10) by (nonlinear_arith)
        requires
            rest < unit,
            0 < unit,
    ;
}

/// A signed number in decimal.
pub open spec fn signed_decimal(number: int) -> Seq<char> {
    if number < 0 {
        "-"@ + decimal((-number) as nat)
    } else {
        decimal(number as nat)
    }
}

/// A signed number in decimal.
pub fn signed_text(number: i32) -> (text: String)
    ensures
        text@ == signed_decimal(number as int),
{
    if number < 0 {
        let wide: i64 = number as i64;
        joined("-", &decimal_text((-wide) as u64))
    } else {
        decimal_text(number as u64)
    }
}

/// The lines about the processes of an active container.
pub open spec fn activity_text(info: &ContainerInfo) -> Seq<char> {
    "      Active: active (running) for "@ + duration_text(
        (match info.uptime_seconds {
            Some(seconds) => seconds as nat,
            None => 0,
        }),
    ) + "\n"@ + "    Main PID: "@ + signed_decimal(
        (match info.init_pid {
            Some(pid) => pid as int,
            None => 0,
        }),
    ) + " ("@ + (match info.init_system {
        Some(system) => system.text(),
        None => InitSystem::Unknown.text(),
    }) + ")\n"@ + " Monitor PID: "@ + signed_decimal(
        (match info.monitor_pid {
            Some(pid) => pid as int,
            None => 0,
        }),
    ) + "\n"@ + "       Tasks: "@ + decimal(
        (match info.processes {
            Some(count) => count as nat,
            None => 0,
        }),
    ) + "\n"@ + "      Memory: "@ + memory_text(
        (match info.memory_kb {
            Some(amount) => amount as nat,
            None => 0,
        }),
    ) + "\n"@ + "  Generation: "@ + decimal(
        (match info.generation {
            Some(number) => number as nat,
            None => 0,
        }),
    ) + "\n"@
}

/// The whole description of a container.
pub open spec fn description(info: &ContainerInfo) -> Seq<char> {
    info.name@ + "\n"@ + (if info.active {
        activity_text(info)
    } else {
        "      Active: inactive (dead)\n"@
    }) + "      Rootfs: "@ + info.rootfs@ + "\n"@ + "        UUID: "@ + (match info.uuid {
        Some(uuid) => hyphenated(uuid),
        None => "unassigned"@,
    })
}

impl ContainerInfo {
    /// The lines about the processes of an active container.
    fn activity(&self) -> (text: String)
        ensures
            text@ == activity_text(self),
    {
        let mut text = "      Active: active (running) for ".to_owned();
        text.append(&format_duration(self.uptime_seconds.unwrap_or(0)));
        text.append("\n");
        text.append("    Main PID: ");
        text.append(&signed_text(self.init_pid.unwrap_or(0)));
        text.append(" (");
        text.append(self.init_system.unwrap_or(InitSystem::Unknown).name());
        text.append(")\n");
        text.append(" Monitor PID: ");
        text.append(&signed_text(self.monitor_pid.unwrap_or(0)));
        text.append("\n");
        text.append("       Tasks: ");
        text.append(&decimal_text(self.processes.unwrap_or(0) as u64));
        text.append("\n");
        text.append("      Memory: ");
        text.append(&format_memory(self.memory_kb.unwrap_or(0)));
        text.append("\n");
        text.append("  Generation: ");
        text.append(&decimal_text(self.generation.unwrap_or(0)));
        text.append("\n");
        text
    }

    /// The description of a container, as it is shown to the user.
    pub fn describe(&self) -> (text: String)
        ensures
            text@ == description(self),
    {
        let mut text = self.name.clone();
        text.append("\n");
        if self.active {
            text.append(&self.activity());
        } else {
            text.append("      Active: inactive (dead)\n");
        }
        text.append("      Rootfs: ");
        text.append(&self.rootfs);
        text.append("\n");
        text.append("        UUID: ");
        match self.uuid {
            Some(uuid) => {
                text.append(&uuid_text(uuid));
            },
            None => {
                text.append("unassigned");
            },
        }
        text
    }
}

/// A large amount of memory is shown in its unit with one decimal, rounded
/// down: the shown number is at most a tenth of the unit below the amount.
pub proof fn law_memory_is_rounded_down(kibibytes: nat)
    ensures
        kibibytes < 1_024 ==> memory_text(kibibytes) == decimal(kibibytes) + " KiB"@,
        kibibytes >= 1_024 ==> exists|whole: nat, tenths: nat|
            #![trigger decimal(whole), decimal(tenths)]
            {
                let unit: nat = if kibibytes < 1_048_576 {
                    1_024
                } else {
                    1_048_576
                };
                &&& tenths < 10
                &&& (10 * whole + tenths) * unit <= 10 * kibibytes
                &&& 10 * kibibytes < (10 * whole + tenths + 1) * unit
                &&& memory_text(kibibytes) == decimal(whole) + "."@ + decimal(tenths) + (
                if kibibytes < 1_048_576 {
                    " MiB"@
                } else {
                    " GiB"@
                })
            },
{
    if kibibytes >= 1_024 {
        let unit: nat = if kibibytes < 1_048_576 {
            1_024
        } else {
            1_048_576
        };
        let whole = kibibytes / unit;
        let tenths = kibibytes % unit * 10 / unit;
        law_one_decimal(kibibytes, unit);
        reveal_strlit(" ");
        reveal_strlit("MiB");
        reveal_strlit("GiB");
        reveal_strlit(" MiB");
        reveal_strlit(" GiB");
        assert(" "@ + "MiB"@ =~= " MiB"@);
        assert(" "@ + "GiB"@ =~= " GiB"@);
        let text = decimal(whole) + "."@ + decimal(tenths);
        assert(text + " "@ + "MiB"@ =~= text + (" "@ + "MiB"@));
        assert(text + " "@ + "GiB"@ =~= text + (" "@ + "GiB"@));
        if kibibytes < 1_048_576 {
            assert((10 * whole + tenths) * 1_024 <= 10 * kibibytes);
            assert(10 * kibibytes < (10 * whole + tenths + 1) * 1_024);
        } else {
            assert((10 * whole + tenths) * 1_048_576 <= 10 * kibibytes);
            assert(10 * kibibytes < (10 * whole + tenths + 1) * 1_048_576);
        }
    }
}

/// Whether a text holds another one.
pub open spec fn shows(text: Seq<char>, line: Seq<char>) -> bool {
    exists|front: Seq<char>, back: Seq<char>| text == #[trigger] (front + line + back)
}

/// Numbers are shown with their sign.
pub proof fn law_signed_numbers(number: int)
    ensures
        number >= 0 ==> signed_decimal(number) == decimal(number as nat),
        number < 0 ==> signed_decimal(number) == "-"@ + decimal((-number) as nat),
{
}

/// The description of a container that runs shows, each in its line, how long
/// it has run, its processes and its memory, and of any container where its
/// root is and its identity.
pub proof fn law_description_shows_the_container(info: &ContainerInfo)
    ensures
        ({
            let text = description(info);
            &&& shows(text, info.name@ + "\n"@)
            &&& shows(text, "      Rootfs: "@ + info.rootfs@ + "\n"@)
            &&& info.uuid matches Some(uuid) ==> shows(text, "        UUID: "@ + hyphenated(uuid))
            &&& info.uuid is None ==> shows(text, "        UUID: unassigned"@)
            &&& !info.active ==> shows(text, "      Active: inactive (dead)\n"@)
            &&& info.active && info.uptime_seconds is Some ==> shows(
                text,
                "      Active: active (running) for "@ + duration_text(
                    info.uptime_seconds->0 as nat,
                ) + "\n"@,
            )
            &&& info.active && info.init_pid is Some && info.init_system is Some ==> shows(
                text,
                "    Main PID: "@ + signed_decimal(info.init_pid->0 as int) + " ("@
                    + info.init_system->0.text() + ")\n"@,
            )
            &&& info.active && info.monitor_pid is Some ==> shows(
                text,
                " Monitor PID: "@ + signed_decimal(info.monitor_pid->0 as int) + "\n"@,
            )
            &&& info.active && info.processes is Some ==> shows(
                text,
                "       Tasks: "@ + decimal(info.processes->0 as nat) + "\n"@,
            )
            &&& info.active && info.memory_kb is Some ==> shows(
                text,
                "      Memory: "@ + memory_text(info.memory_kb->0 as nat) + "\n"@,
            )
            &&& info.active && info.generation is Some ==> shows(
                text,
                "  Generation: "@ + decimal(info.generation->0 as nat) + "\n"@,
            )
        }),
{
    let text = description(info);
    let none = Seq::<char>::empty();
    let activity = if info.active {
        activity_text(info)
    } else {
        "      Active: inactive (dead)\n"@
    };
    let root = "      Rootfs: "@ + info.rootfs@ + "\n"@;
    let identity = "        UUID: "@ + (match info.uuid {
        Some(uuid) => hyphenated(uuid),
        None => "unassigned"@,
    });
    let head = info.name@ + "\n"@;
    assert(text =~= none + head + (activity + root + identity));
    assert(text =~= (head + activity) + root + identity);
    assert(text =~= (head + activity + root) + identity + none);
    assert(text =~= head + activity + (root + identity));
    if info.uuid is None {
        reveal_strlit("        UUID: ");
        reveal_strlit("unassigned");
        reveal_strlit("        UUID: unassigned");
        assert(identity =~= "        UUID: unassigned"@);
    }
    if info.active {
        lemma_activity_shown(info);
        lemma_shown_inside(head, activity, root + identity, active_line(info));
        lemma_shown_inside(head, activity, root + identity, main_line(info));
        lemma_shown_inside(head, activity, root + identity, monitor_line(info));
        lemma_shown_inside(head, activity, root + identity, tasks_line(info));
        lemma_shown_inside(head, activity, root + identity, memory_line(info));
        lemma_shown_inside(head, activity, root + identity, generation_line(info));
    }
}

spec fn active_line(info: &ContainerInfo) -> Seq<char> {
    "      Active: active (running) for "@ + duration_text(
        (match info.uptime_seconds {
            Some(seconds) => seconds as nat,
            None => 0,
        }),
    ) + "\n"@
}

spec fn main_line(info: &ContainerInfo) -> Seq<char> {
    "    Main PID: "@ + signed_decimal(
        (match info.init_pid {
            Some(pid) => pid as int,
            None => 0,
        }),
    ) + " ("@ + (match info.init_system {
        Some(system) => system.text(),
        None => InitSystem::Unknown.text(),
    }) + ")\n"@
}

spec fn monitor_line(info: &ContainerInfo) -> Seq<char> {
    " Monitor PID: "@ + signed_decimal(
        (match info.monitor_pid {
            Some(pid) => pid as int,
            None => 0,
        }),
    ) + "\n"@
}

spec fn tasks_line(info: &ContainerInfo) -> Seq<char> {
    "       Tasks: "@ + decimal(
        (match info.processes {
            Some(count) => count as nat,
            None => 0,
        }),
    ) + "\n"@
}

spec fn memory_line(info: &ContainerInfo) -> Seq<char> {
    "      Memory: "@ + memory_text(
        (match info.memory_kb {
            Some(amount) => amount as nat,
            None => 0,
        }),
    ) + "\n"@
}

spec fn generation_line(info: &ContainerInfo) -> Seq<char> {
    "  Generation: "@ + decimal(
        (match info.generation {
            Some(number) => number as nat,
            None => 0,
        }),
    ) + "\n"@
}

proof fn lemma_three(t: Seq<char>, x: Seq<char>, y: Seq<char>, z: Seq<char>)
    ensures
        t + x + y + z == t + (x + y + z),
{
    assert(t + x + y + z =~= t + (x + y + z));
}

proof fn lemma_five(
    t: Seq<char>,
    u: Seq<char>,
    v: Seq<char>,
    x: Seq<char>,
    y: Seq<char>,
    z: Seq<char>,
)
    ensures
        t + u + v + x + y + z == t + (u + v + x + y + z),
{
    assert(t + u + v + x + y + z =~= t + (u + v + x + y + z));
}

proof fn lemma_six_shown(
    a: Seq<char>,
    b: Seq<char>,
    c: Seq<char>,
    d: Seq<char>,
    e: Seq<char>,
    f: Seq<char>,
)
    ensures
        ({
            let text = a + b + c + d + e + f;
            &&& shows(text, a)
            &&& shows(text, b)
            &&& shows(text, c)
            &&& shows(text, d)
            &&& shows(text, e)
            &&& shows(text, f)
        }),
{
    let text = a + b + c + d + e + f;
    let none = Seq::<char>::empty();
    assert(text =~= none + a + (b + c + d + e + f));
    assert(text =~= a + b + (c + d + e + f));
    assert(text =~= (a + b) + c + (d + e + f));
    assert(text =~= (a + b + c) + d + (e + f));
    assert(text =~= (a + b + c + d) + e + f);
    assert(text =~= (a + b + c + d + e) + f + none);
}

proof fn lemma_activity_shown(info: &ContainerInfo)
    ensures
        shows(activity_text(info), active_line(info)),
        shows(activity_text(info), main_line(info)),
        shows(activity_text(info), monitor_line(info)),
        shows(activity_text(info), tasks_line(info)),
        shows(activity_text(info), memory_line(info)),
        shows(activity_text(info), generation_line(info)),
{
    let pid = signed_decimal(
        (match info.init_pid {
            Some(pid) => pid as int,
            None => 0,
        }),
    );
    let system = match info.init_system {
        Some(system) => system.text(),
        None => InitSystem::Unknown.text(),
    };
    let monitor = signed_decimal(
        (match info.monitor_pid {
            Some(pid) => pid as int,
            None => 0,
        }),
    );
    let tasks = decimal(
        (match info.processes {
            Some(count) => count as nat,
            None => 0,
        }),
    );
    let memory = memory_text(
        (match info.memory_kb {
            Some(amount) => amount as nat,
            None => 0,
        }),
    );
    let generation = decimal(
        (match info.generation {
            Some(number) => number as nat,
            None => 0,
        }),
    );
    let a = active_line(info);
    let b = main_line(info);
    let c = monitor_line(info);
    let d = tasks_line(info);
    let e = memory_line(info);
    let f = generation_line(info);
    lemma_five(a, "    Main PID: "@, pid, " ("@, system, ")\n"@);
    lemma_three(a + b, " Monitor PID: "@, monitor, "\n"@);
    lemma_three(a + b + c, "       Tasks: "@, tasks, "\n"@);
    lemma_three(a + b + c + d, "      Memory: "@, memory, "\n"@);
    lemma_three(a + b + c + d + e, "  Generation: "@, generation, "\n"@);
    assert(activity_text(info) == a + b + c + d + e + f);
    lemma_six_shown(a, b, c, d, e, f);
}

proof fn lemma_shown_inside(front: Seq<char>, inner: Seq<char>, back: Seq<char>, line: Seq<char>)
    requires
        shows(inner, line),
    ensures
        shows(front + inner + back, line),
{
    let (a, b) = choose|a: Seq<char>, b: Seq<char>| inner == #[trigger] (a + line + b);
    assert(front + inner + back =~= (front + a) + line + (b + back));
}

} // verus!
