//! Environment files: lines of the form `KEY=VALUE`.
use vstd::prelude::*;

use crate::config::names::{law_variable_names_are_plain, valid_env_key, variable_name};
use crate::env::Environment;
use crate::text::{
    chars_between, chars_of, find_char, has_prefix, lemma_position_is, lemma_split_join, lemma_split_nonempty,
    lemma_trim_push, lines, lines_of, position, split_on, starts_with, strip_return, text_between,
    trim, trim_start, trimmed, trimmed_start, views, whitespace,
};

verus! {

/// Why a line of an environment file is refused.
#[derive(Clone, Copy, Debug, PartialEq, Eq, Structural)]
pub enum LineFault {
    /// There is no `=` in it.
    NoEquals,
    /// What stands before the `=` is no name of a variable.
    Key,
    /// The value holds a NUL.
    Nul,
}

/// The first line of an environment file that is refused, counted from one.
#[derive(Clone, Copy, Debug, PartialEq, Eq, Structural)]
pub struct EnvironmentError {
    pub line: usize,
    pub fault: LineFault,
}

/// What a line of an environment file says.
pub enum LineMeaning {
    /// Nothing: the line is blank or a comment.
    Silent,
    /// The variable and its value.
    Sets(Seq<char>, Seq<char>),
    /// The line is refused.
    Faulty(LineFault),
}

/// A value without the pair of quotes around it.
pub open spec fn unquoted(value: Seq<char>) -> Seq<char> {
    if value.len() >= 2 && (value[0] == '"' && value.last() == '"' || value[0] == '\''
        && value.last() == '\'') {
        value.subrange(1, value.len() - 1)
    } else {
        value
    }
}

/// What follows an `export ` in front of a line.
pub open spec fn without_export(line: Seq<char>) -> Seq<char> {
    if starts_with(line, "export "@) {
        trim_start(line.skip("export "@.len() as int))
    } else {
        line
    }
}

/// Whether a value holds a NUL.
pub open spec fn holds_nul(value: Seq<char>) -> bool {
    exists|i: int| 0 <= i < value.len() && #[trigger] value[i] == '\0'
}

/// What a line of an environment file says.
pub open spec fn line_meaning(raw: Seq<char>) -> LineMeaning {
    let line = trim(raw);
    if line.len() == 0 || line[0] == '#' {
        LineMeaning::Silent
    } else {
        let body = without_export(line);
        let at = position(body, '=') as int;
        let value = unquoted(body.skip(at + 1));
        if at == body.len() {
            LineMeaning::Faulty(LineFault::NoEquals)
        } else if !variable_name(body.take(at)) {
            LineMeaning::Faulty(LineFault::Key)
        } else if holds_nul(value) {
            LineMeaning::Faulty(LineFault::Nul)
        } else {
            LineMeaning::Sets(body.take(at), value)
        }
    }
}

/// The variables that the lines set, where a later line wins over an earlier
/// one; or the first line that is refused.
pub open spec fn lines_meaning(all: Seq<Seq<char>>) -> Result<
    Map<Seq<char>, Seq<char>>,
    EnvironmentError,
>
    decreases all.len(),
{
    if all.len() == 0 {
        Ok(Map::empty())
    } else {
        match lines_meaning(all.drop_last()) {
            Err(error) => Err(error),
            Ok(before) => match line_meaning(all.last()) {
                LineMeaning::Silent => Ok(before),
                LineMeaning::Sets(key, value) => Ok(before.insert(key, value)),
                LineMeaning::Faulty(fault) => Err(
                    EnvironmentError { line: all.len() as usize, fault },
                ),
            },
        }
    }
}

/// What an environment file says.
pub open spec fn file_meaning(source: Seq<char>) -> Result<
    Map<Seq<char>, Seq<char>>,
    EnvironmentError,
> {
    lines_meaning(lines(source))
}

/// Whether a value holds a NUL.
pub fn contains_nul(value: &[char]) -> (result: bool)
    ensures
        result == holds_nul(value@),
{
    let at = find_char(value, '\0');
    if at < value.len() {
        assert(value@[at as int] == '\0');
        true
    } else {
        false
    }
}

/// A line that sets a variable: its name and its value.
struct Setting {
    key: String,
    value: String,
}

/// Reads one line.
fn parse_line(raw: &str) -> (result: Result<Option<Setting>, LineFault>)
    ensures
        match result {
            Ok(None) => line_meaning(raw@) is Silent,
            Ok(Some(setting)) => line_meaning(raw@) == LineMeaning::Sets(
                setting.key@,
                setting.value@,
            ),
            Err(fault) => line_meaning(raw@) == LineMeaning::Faulty(fault),
        },
{
    let line = trimmed(&chars_of(raw));
    if line.len() == 0 || line[0] == '#' {
        return Ok(None);
    }
    let export = chars_of("export ");
    let body = if has_prefix(&line, &export) {
        let rest = chars_between(&line, export.len(), line.len());
        assert(rest@ =~= line@.skip("export "@.len() as int));
        trimmed_start(&rest)
    } else {
        line
    };
    assert(body@ == without_export(trim(raw@)));
    let at = find_char(&body, '=');
    if at == body.len() {
        return Err(LineFault::NoEquals);
    }
    let key = text_between(&body, 0, at);
    assert(key@ =~= body@.take(at as int));
    if !valid_env_key(&key) {
        return Err(LineFault::Key);
    }
    let written = chars_between(&body, at + 1, body.len());
    assert(written@ =~= body@.skip(at + 1));
    let length: usize = written.len();
    let quoted = length >= 2 && ((written[0] == '"' && written[length - 1] == '"') || (written[0]
        == '\'' && written[length - 1] == '\''));
    let value = if quoted {
        chars_between(&written, 1, length - 1)
    } else {
        written
    };
    assert(value@ == unquoted(body@.skip(at + 1)));
    if contains_nul(&value) {
        return Err(LineFault::Nul);
    }
    let text = text_between(&value, 0, value.len());
    assert(text@ =~= value@);
    Ok(Some(Setting { key, value: text }))
}

/// Parses newline-separated `KEY=VALUE` environment entries.
///
/// Blank lines and lines that begin with `#` say nothing. A line may begin
/// with `export `. One pair of quotes around a value is taken off.
pub fn parse_environment(source: &str) -> (result: Result<Environment, EnvironmentError>)
    ensures
        match result {
            Ok(environment) => file_meaning(source@) == Ok::<
                Map<Seq<char>, Seq<char>>,
                EnvironmentError,
            >(environment@),
            Err(error) => file_meaning(source@) == Err::<
                Map<Seq<char>, Seq<char>>,
                EnvironmentError,
            >(error),
        },
{
    let all = lines_of(source);
    let ghost model = lines(source@);
    assert(model.len() == all@.len());
    let mut environment = Environment::new();
    let mut i: usize = 0;
    assert(model.take(0) =~= Seq::<Seq<char>>::empty());
    while i < all.len()
        invariant
            i <= all.len(),
            model == views(all@),
            model == lines(source@),
            lines_meaning(model.take(i as int)) == Ok::<
                Map<Seq<char>, Seq<char>>,
                EnvironmentError,
            >(environment@),
        decreases all.len() - i,
    {
        assert(model.take(i + 1).drop_last() =~= model.take(i as int));
        assert(model.take(i + 1).last() == all@[i as int]@);
        match parse_line(&all[i]) {
            Ok(None) => {},
            Ok(Some(setting)) => {
                environment.insert(setting.key, setting.value);
            },
            Err(fault) => {
                let error = EnvironmentError { line: i + 1, fault };
                proof {
                    lemma_error_stays(model, i + 1, error);
                }
                return Err(error);
            },
        }
        i += 1;
    }
    assert(model.take(i as int) =~= model);
    Ok(environment)
}

proof fn lemma_error_stays(all: Seq<Seq<char>>, i: int, error: EnvironmentError)
    requires
        0 <= i <= all.len(),
        lines_meaning(all.take(i)) == Err::<Map<Seq<char>, Seq<char>>, EnvironmentError>(error),
    ensures
        lines_meaning(all) == Err::<Map<Seq<char>, Seq<char>>, EnvironmentError>(error),
    decreases all.len() - i,
{
    if i < all.len() {
        assert(all.take(i + 1).drop_last() =~= all.take(i));
        lemma_error_stays(all, i + 1, error);
    } else {
        assert(all.take(i) =~= all);
    }
}

/// Whether all names of a map are names of variables and none of its values
/// holds a NUL.
pub open spec fn clean(variables: Map<Seq<char>, Seq<char>>) -> bool {
    forall|key: Seq<char>| #[trigger]
        variables.contains_key(key) ==> variable_name(key) && !holds_nul(variables[key])
}

/// An environment file that is accepted sets only variables with valid names
/// and with values that can be passed to a program.
pub proof fn law_environment_file_is_clean(source: Seq<char>)
    ensures
        match file_meaning(source) {
            Ok(variables) => clean(variables),
            Err(error) => true,
        },
{
    lemma_lines_are_clean(lines(source));
}

proof fn lemma_lines_are_clean(all: Seq<Seq<char>>)
    ensures
        match lines_meaning(all) {
            Ok(variables) => clean(variables),
            Err(error) => true,
        },
    decreases all.len(),
{
    if all.len() > 0 {
        lemma_lines_are_clean(all.drop_last());
    }
}

proof fn lemma_same_meanings(a: Seq<Seq<char>>, b: Seq<Seq<char>>)
    requires
        a.len() == b.len(),
        forall|i: int| 0 <= i < a.len() ==> #[trigger] line_meaning(a[i]) == line_meaning(b[i]),
    ensures
        lines_meaning(a) == lines_meaning(b),
    decreases a.len(),
{
    if a.len() > 0 {
        let x = a.drop_last();
        let y = b.drop_last();
        assert forall|i: int| 0 <= i < x.len() implies #[trigger] line_meaning(x[i])
            == line_meaning(y[i]) by {
            assert(x[i] == a[i] && y[i] == b[i]);
            assert(line_meaning(a[i]) == line_meaning(b[i]));
        }
        lemma_same_meanings(x, y);
        assert(line_meaning(a[a.len() - 1]) == line_meaning(b[a.len() - 1]));
    }
}

/// An environment file says what the pieces between its line feeds say.
pub proof fn lemma_file_by_pieces(source: Seq<char>)
    ensures
        file_meaning(source) == lines_meaning(split_on(source, '\n')),
{
    let pieces = split_on(source, '\n');
    lemma_split_nonempty(source, |c: char| c == '\n');
    let front = pieces.drop_last();
    let ended = front.map_values(|line: Seq<char>| strip_return(line));
    assert forall|i: int| 0 <= i < front.len() implies #[trigger] line_meaning(front[i])
        == line_meaning(ended[i]) by {
        let line = front[i];
        assert(ended[i] == strip_return(line));
        if line.len() > 0 && line.last() == '\r' {
            lemma_trim_push(line.drop_last(), '\r');
            assert(line.drop_last().push('\r') =~= line);
        }
    }
    lemma_same_meanings(front, ended);
    if pieces.last().len() == 0 {
        assert(trim(pieces.last()).len() == 0);
    } else {
        assert(lines(source).drop_last() =~= ended);
    }
}

proof fn lemma_lines_join(a: Seq<Seq<char>>, b: Seq<Seq<char>>)
    ensures
        match (lines_meaning(a), lines_meaning(b)) {
            (Ok(first), Ok(second)) => lines_meaning(a + b) == Ok::<
                Map<Seq<char>, Seq<char>>,
                EnvironmentError,
            >(first.union_prefer_right(second)),
            _ => lines_meaning(a + b) is Err,
        },
    decreases b.len(),
{
    if b.len() == 0 {
        assert(a + b =~= a);
        if let Ok(first) = lines_meaning(a) {
            assert(first.union_prefer_right(Map::empty()) =~= first);
        }
    } else {
        lemma_lines_join(a, b.drop_last());
        assert((a + b).drop_last() =~= a + b.drop_last());
        assert((a + b).last() == b.last());
        match (lines_meaning(a), lines_meaning(b.drop_last()), line_meaning(b.last())) {
            (Ok(first), Ok(second), LineMeaning::Sets(key, value)) => {
                assert(first.union_prefer_right(second).insert(key, value)
                    =~= first.union_prefer_right(second.insert(key, value)));
            },
            _ => {},
        }
    }
}

/// Two environment files with a line feed between them are accepted exactly
/// where each of them is, and say what the first says with the second over it.
pub proof fn law_joined_files_merge(a: Seq<char>, b: Seq<char>)
    ensures
        match (file_meaning(a), file_meaning(b)) {
            (Ok(first), Ok(second)) => file_meaning(a + seq!['\n'] + b) == Ok::<
                Map<Seq<char>, Seq<char>>,
                EnvironmentError,
            >(first.union_prefer_right(second)),
            _ => file_meaning(a + seq!['\n'] + b) is Err,
        },
{
    lemma_file_by_pieces(a);
    lemma_file_by_pieces(b);
    lemma_file_by_pieces(a + seq!['\n'] + b);
    lemma_split_join(a, b, '\n');
    lemma_lines_join(split_on(a, '\n'), split_on(b, '\n'));
}

/// Whether a value is written as it is: no white space at its end would be
/// taken off, and no quotes stand around it.
pub open spec fn bare_value(value: Seq<char>) -> bool {
    &&& value.len() > 0 ==> !whitespace(value.last())
    &&& !holds_nul(value)
    &&& !(value.len() >= 2 && value[0] == value.last() && (value[0] == '"' || value[0] == '\''))
}

proof fn lemma_plain_line(key: Seq<char>, value: Seq<char>)
    requires
        variable_name(key),
        value.len() > 0 ==> !whitespace(value.last()),
    ensures
        trim(key + seq!['='] + value) == key + seq!['='] + value,
        without_export(key + seq!['='] + value) == key + seq!['='] + value,
        position(key + seq!['='] + value, '=') == key.len(),
        key[0] != '#',
        forall|i: int| 0 <= i < key.len() ==> #[trigger] key[i] != '=' && key[i] != ' ',
{
    let line = key + seq!['='] + value;
    law_variable_names_are_plain(key, 0);
    assert(line[0] == key[0]);
    assert(line.last() == if value.len() > 0 {
        value.last()
    } else {
        '='
    });
    assert forall|i: int| 0 <= i < key.len() implies #[trigger] key[i] != '=' && key[i]
        != ' ' by {
        law_variable_names_are_plain(key, i);
    }
    assert forall|k: int| 0 <= k < key.len() implies #[trigger] line[k] != '=' by {
        assert(line[k] == key[k]);
    }
    assert(line[key.len() as int] == '=');
    lemma_position_is(line, '=', key.len() as int);
    reveal_strlit("export ");
    let export = "export "@;
    assert(export.len() == 7);
    assert(export[0] == 'e' && export[1] == 'x' && export[2] == 'p' && export[3] == 'o'
        && export[4] == 'r' && export[5] == 't' && export[6] == ' ');
    if starts_with(line, export) {
        assert forall|k: int| 0 <= k < 7 implies line[k] == #[trigger] export[k] by {
            assert(line.take(7)[k] == line[k]);
        }
        if key.len() >= 7 {
            assert(line[6] == key[6]);
        } else {
            assert(line[key.len() as int] == export[key.len() as int]);
        }
    }
}

/// A line with a name, an equals sign and a value sets that variable to that
/// value; a pair of quotes around the value is not part of it.
pub proof fn law_lines_set_variables(key: Seq<char>, value: Seq<char>, quote: char)
    requires
        variable_name(key),
        !holds_nul(value),
        quote == '"' || quote == '\'',
    ensures
        bare_value(value) ==> line_meaning(key + seq!['='] + value) == LineMeaning::Sets(
            key,
            value,
        ),
        line_meaning(key + seq!['='] + (seq![quote] + value + seq![quote])) == LineMeaning::Sets(
            key,
            value,
        ),
{
    if bare_value(value) {
        lemma_plain_line(key, value);
        let line = key + seq!['='] + value;
        assert(line.take(key.len() as int) =~= key);
        assert(line.skip(key.len() as int + 1) =~= value);
        assert(unquoted(value) == value);
    }
    let written = seq![quote] + value + seq![quote];
    assert(written.last() == quote);
    lemma_plain_line(key, written);
    let line = key + seq!['='] + written;
    assert(line.take(key.len() as int) =~= key);
    assert(line.skip(key.len() as int + 1) =~= written);
    assert(written.subrange(1, written.len() - 1) =~= value);
    assert(unquoted(written) == value);
}

/// A comment, whatever it holds, and a line of white space say nothing.
pub proof fn law_comments_say_nothing(line: Seq<char>)
    requires
        trim(line).len() == 0 || trim(line)[0] == '#',
    ensures
        line_meaning(line) is Silent,
{
}

/// A line that is neither blank nor a comment says something: it sets a
/// variable, or it is refused.
pub proof fn law_other_lines_say_something(line: Seq<char>)
    requires
        trim(line).len() > 0,
        trim(line)[0] != '#',
    ensures
        !(line_meaning(line) is Silent),
        line_meaning(line) matches LineMeaning::Sets(key, value) ==> variable_name(key)
            && !holds_nul(value),
{
}

/// A later line wins over an earlier one that sets the same variable, and
/// leaves all others as they are.
pub proof fn law_later_lines_win(
    before: Seq<Seq<char>>,
    line: Seq<char>,
    key: Seq<char>,
    value: Seq<char>,
    other: Seq<char>,
)
    requires
        lines_meaning(before) is Ok,
        line_meaning(line) == LineMeaning::Sets(key, value),
        other != key,
    ensures
        ({
            let earlier = lines_meaning(before)->Ok_0;
            let all = lines_meaning(before.push(line));
            &&& all is Ok
            &&& all->Ok_0.contains_key(key) && all->Ok_0[key] == value
            &&& all->Ok_0.contains_key(other) <==> earlier.contains_key(other)
            &&& earlier.contains_key(other) ==> all->Ok_0[other] == earlier[other]
        }),
{
    assert(before.push(line).drop_last() =~= before);
}

/// The first line that is refused is told by its number, counted from one, and
/// with its fault.
pub proof fn law_first_faulty_line_is_told(before: Seq<Seq<char>>, line: Seq<char>)
    requires
        lines_meaning(before) is Ok,
        line_meaning(line) is Faulty,
        before.len() < usize::MAX,
    ensures
        lines_meaning(before.push(line)) == Err::<Map<Seq<char>, Seq<char>>, EnvironmentError>(
            EnvironmentError {
                line: (before.len() + 1) as usize,
                fault: line_meaning(line)->Faulty_0,
            },
        ),
{
    assert(before.push(line).drop_last() =~= before);
}

} // verus!
