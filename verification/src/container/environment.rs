//! The environment of the programs in a container.
use vstd::prelude::*;

use crate::config::environment_file::{
    file_meaning, holds_nul, lemma_file_by_pieces, line_meaning, lines_meaning, parse_environment,
    without_export, EnvironmentError, LineMeaning,
};
use crate::config::model::AndroidConfig;
use crate::config::names::variable_name;
use crate::edition::Edition;
use crate::env::{
    increasing, key_index, lemma_key_index, lemma_sorted_pairs, map_of, sorted_pairs, Environment,
    Pair,
};
use crate::plan::{symlink, write_file, Action, Steps};
use crate::text::{
    chars_of, find_char, has_prefix, joined3, lemma_position_is, lemma_precedes_total,
    lemma_split_append, lemma_views_empty, lemma_views_push, precedes, split_on, starts_with, trim,
    views, whitespace,
};

verus! {

/// Variables by their names.
pub type Variables = Map<Seq<char>, Seq<char>>;

/// Whether a terminal type can be handed on to the container.
pub open spec fn usable_terminal(value: Seq<char>) -> bool {
    &&& value.len() > 0
    &&& forall|i: int| 0 <= i < value.len() ==> #[trigger] value[i] != '.'
    &&& !starts_with(value, "bg"@)
}

/// The terminal type of the container, where `value` is that of the user.
pub open spec fn terminal_of(value: Option<Seq<char>>) -> Seq<char> {
    match value {
        Some(value) => if usable_terminal(value) {
            value
        } else {
            "xterm-256color"@
        },
        None => "xterm-256color"@,
    }
}

/// The terminal type of the container, where `value` is that of the user.
pub fn terminal_type(value: Option<&str>) -> (result: String)
    ensures
        result@ == terminal_of(
            match value {
                Some(value) => Some(value@),
                None => None,
            },
        ),
{
    if let Some(value) = value {
        let chars = chars_of(value);
        let dot = find_char(&chars, '.');
        if dot < chars.len() {
            assert(value@[dot as int] == '.');
        } else if chars.len() > 0 && !has_prefix(&chars, &chars_of("bg")) {
            return value.to_owned();
        }
    }
    "xterm-256color".to_owned()
}

/// The variables that an Android host adds.
pub open spec fn android_variables(base: Variables, android: AndroidConfig) -> Variables {
    let display = if android.termux_x11 {
        base.insert("DISPLAY"@, ":5"@)
    } else {
        base
    };
    let driver = if android.virgl {
        display.insert("GALLIUM_DRIVER"@, "virpipe"@)
    } else {
        display
    };
    if android.pulse_audio {
        driver.insert("PULSE_SERVER"@, "unix:/tmp/.pulse-socket"@)
    } else {
        driver
    }
}

/// The variables that every program in a container has.
pub open spec fn default_variables(edition: Edition, terminal: Seq<char>) -> Variables {
    Map::<Seq<char>, Seq<char>>::empty().insert(
        "PATH"@,
        "/usr/local/sbin:/usr/local/bin:/usr/sbin:/usr/bin:/sbin:/bin"@,
    ).insert("TERM"@, terminal).insert("HOME"@, "/root"@).insert(
        "container"@,
        edition.product_name(),
    ).insert("LANG"@, "en_US.UTF-8"@)
}

/// The variables of a program in a container: the defaults, those of an
/// Android host over them, and the configured ones over both.
pub open spec fn program_variables(
    edition: Edition,
    configured: Variables,
    android: AndroidConfig,
    terminal: Seq<char>,
) -> Variables {
    android_variables(default_variables(edition, terminal), android).union_prefer_right(configured)
}

/// A variable as a program gets it.
pub open spec fn assignment(pair: Pair) -> Seq<char> {
    pair.0 + "="@ + pair.1
}

/// Variables as a program gets them.
pub open spec fn assignments(pairs: Seq<Pair>) -> Seq<Seq<char>> {
    pairs.map_values(|pair: Pair| assignment(pair))
}

/// The first variable from position `i` on that holds a NUL, which no program
/// can be given.
pub open spec fn nul_from(pairs: Seq<Pair>, i: int) -> Option<usize>
    decreases pairs.len() - i,
{
    if i < 0 || i >= pairs.len() {
        None
    } else if holds_nul(assignment(pairs[i])) {
        Some(i as usize)
    } else {
        nul_from(pairs, i + 1)
    }
}

/// The environment of a program, or the first variable that holds a NUL, by
/// its position.
pub open spec fn program_environment(variables: Variables) -> Result<Seq<Seq<char>>, usize> {
    let pairs = sorted_pairs(variables);
    match nul_from(pairs, 0) {
        Some(position) => Err(position),
        None => Ok(assignments(pairs)),
    }
}

fn add_android(environment: &mut Environment, android: &AndroidConfig)
    ensures
        final(environment)@ == android_variables(old(environment)@, *android),
{
    if android.termux_x11 {
        environment.insert("DISPLAY".to_owned(), ":5".to_owned());
    }
    if android.virgl {
        environment.insert("GALLIUM_DRIVER".to_owned(), "virpipe".to_owned());
    }
    if android.pulse_audio {
        environment.insert("PULSE_SERVER".to_owned(), "unix:/tmp/.pulse-socket".to_owned());
    }
}

/// The environment of a program from its variables.
fn environment_list(environment: &Environment) -> (result: Result<Vec<String>, usize>)
    ensures
        match result {
            Ok(list) => program_environment(environment@) == Ok::<Seq<Seq<char>>, usize>(
                views(list@),
            ),
            Err(position) => program_environment(environment@) == Err::<Seq<Seq<char>>, usize>(
                position,
            ),
        },
{
    broadcast use {lemma_views_push, lemma_views_empty};

    let ghost pairs = environment.pairs();
    let mut list: Vec<String> = Vec::new();
    let mut i: usize = 0;
    let count: usize = environment.len();
    assert(assignments(pairs.take(0)) =~= Seq::<Seq<char>>::empty());
    while i < count
        invariant
            i <= count,
            count == pairs.len(),
            pairs == environment.pairs(),
            i > 0 ==> increasing(pairs),
            views(list@) == assignments(pairs.take(i as int)),
            nul_from(pairs, 0) == nul_from(pairs, i as int),
        decreases count - i,
    {
        broadcast use {lemma_views_push, lemma_views_empty};

        let entry = environment.entry(i);
        let text = joined3(&entry.key, "=", &entry.value);
        assert(text@ == assignment(pairs[i as int]));
        let chars = chars_of(&text);
        let at = find_char(&chars, '\0');
        if at < chars.len() {
            proof {
                assert(text@[at as int] == '\0');
                lemma_sorted_pairs(pairs);
            }
            return Err(i);
        }
        list.push(text);
        assert(assignments(pairs.take(i + 1)) =~= assignments(pairs.take(i as int)).push(text@));
        i += 1;
    }
    proof {
        assert(pairs.take(i as int) =~= pairs);
        if count == 0 {
            assert(increasing(pairs));
        }
        lemma_sorted_pairs(pairs);
    }
    Ok(list)
}

/// The environment of init, where `terminal` is the terminal type of the user.
pub fn container_environment(
    edition: Edition,
    configured: &Environment,
    android: &AndroidConfig,
    terminal: Option<&str>,
) -> (result: Result<Vec<String>, usize>)
    ensures
        ({
            let given = match terminal {
                Some(value) => Some(value@),
                None => None,
            };
            let wanted = program_environment(
                program_variables(edition, configured@, *android, terminal_of(given)),
            );
            match result {
                Ok(list) => wanted == Ok::<Seq<Seq<char>>, usize>(views(list@)),
                Err(position) => wanted == Err::<Seq<Seq<char>>, usize>(position),
            }
        }),
{
    let mut environment = Environment::new();
    environment.insert(
        "PATH".to_owned(),
        "/usr/local/sbin:/usr/local/bin:/usr/sbin:/usr/bin:/sbin:/bin".to_owned(),
    );
    environment.insert("TERM".to_owned(), terminal_type(terminal));
    environment.insert("HOME".to_owned(), "/root".to_owned());
    environment.insert("container".to_owned(), edition.product().to_owned());
    environment.insert("LANG".to_owned(), "en_US.UTF-8".to_owned());
    add_android(&mut environment, android);
    environment.extend(configured);
    environment_list(&environment)
}

/// Why a session has no environment.
#[derive(Clone, Copy, Debug, PartialEq, Eq, Structural)]
pub enum SessionError {
    /// The environment file of the image is refused.
    File(EnvironmentError),
    /// A variable holds a NUL.
    Nul(usize),
}

/// The variables of a command in the container: those of the environment file
/// of the image stand under the configured ones.
pub open spec fn session_variables(
    edition: Edition,
    from_file: Variables,
    configured: Variables,
    android: AndroidConfig,
    terminal: Seq<char>,
) -> Variables {
    program_variables(edition, from_file.union_prefer_right(configured), android, terminal)
}

/// The environment of a command in the container: `source` is the environment
/// file of the image, whose variables stand under the configured ones.
pub fn session_environment_from(
    edition: Edition,
    source: &str,
    configured: &Environment,
    android: &AndroidConfig,
    terminal: Option<&str>,
) -> (result: Result<Vec<String>, SessionError>)
    ensures
        ({
            let given = match terminal {
                Some(value) => Some(value@),
                None => None,
            };
            match file_meaning(source@) {
                Err(error) => result == Err::<Vec<String>, SessionError>(SessionError::File(error)),
                Ok(variables) => {
                    let wanted = program_environment(
                        program_variables(
                            edition,
                            variables.union_prefer_right(configured@),
                            *android,
                            terminal_of(given),
                        ),
                    );
                    match result {
                        Ok(list) => wanted == Ok::<Seq<Seq<char>>, usize>(views(list@)),
                        Err(error) => wanted is Err && error == SessionError::Nul(wanted->Err_0),
                    }
                },
            }
        }),
        file_meaning(source@) matches Ok(variables) ==> (result is Ok <==> program_environment(
            session_variables(
                edition,
                variables,
                configured@,
                *android,
                terminal_of(
                    match terminal {
                        Some(value) => Some(value@),
                        None => None,
                    },
                ),
            ),
        ) is Ok),
        file_meaning(source@) matches Ok(variables) ==> result matches Ok(list) ==> Ok::<
            Seq<Seq<char>>,
            usize,
        >(views(list@)) == program_environment(
            session_variables(
                edition,
                variables,
                configured@,
                *android,
                terminal_of(
                    match terminal {
                        Some(value) => Some(value@),
                        None => None,
                    },
                ),
            ),
        ),
{
    match parse_environment(source) {
        Err(error) => Err(SessionError::File(error)),
        Ok(from_file) => {
            let mut environment = from_file;
            environment.extend(configured);
            match container_environment(edition, &environment, android, terminal) {
                Ok(list) => Ok(list),
                Err(position) => Err(SessionError::Nul(position)),
            }
        },
    }
}

// ---------------------------------------------------------------------------
// Login shells
// ---------------------------------------------------------------------------
/// A value between single quotes: a quote in it ends the quotes, stands for
/// itself, and begins them anew.
pub open spec fn escaped(value: Seq<char>) -> Seq<char>
    decreases value.len(),
{
    if value.len() == 0 {
        Seq::empty()
    } else if value[0] == '\'' {
        seq!['\'', '\\', '\'', '\''] + escaped(value.skip(1))
    } else {
        seq![value[0]] + escaped(value.skip(1))
    }
}

/// A line that exports a variable.
pub open spec fn export_line(pair: Pair) -> Seq<char> {
    "export "@ + pair.0 + "='"@ + escaped(pair.1) + "'\n"@
}

/// Lines that export variables.
pub open spec fn export_lines(pairs: Seq<Pair>) -> Seq<char>
    decreases pairs.len(),
{
    if pairs.len() == 0 {
        Seq::empty()
    } else {
        export_lines(pairs.drop_last()) + export_line(pairs.last())
    }
}

/// A value between single quotes.
fn escape(value: &str) -> (result: String)
    ensures
        result@ == escaped(value@),
{
    let chars = chars_of(value);
    let mut result = String::new();
    let mut i: usize = 0;
    assert(chars@.skip(0) =~= chars@);
    assert(result@ + escaped(chars@) =~= escaped(chars@));
    while i < chars.len()
        invariant
            i <= chars.len(),
            chars@ == value@,
            result@ + escaped(chars@.skip(i as int)) == escaped(value@),
        decreases chars.len() - i,
    {
        let ghost before = result@;
        let ghost rest = escaped(chars@.skip(i + 1));
        let c: char = chars[i];
        assert(chars@.skip(i as int).skip(1) =~= chars@.skip(i + 1));
        assert(chars@.skip(i as int)[0] == c);
        if c == '\'' {
            result.push('\'');
            result.push('\\');
            result.push('\'');
            result.push('\'');
            assert(result@ + rest =~= before + (seq!['\'', '\\', '\'', '\''] + rest));
        } else {
            result.push(c);
            assert(result@ + rest =~= before + (seq![c] + rest));
        }
        i += 1;
    }
    assert(chars@.skip(i as int) =~= Seq::<char>::empty());
    assert(result@ + Seq::<char>::empty() =~= result@);
    result
}

/// The text that exports the variables to a shell, in the order of their
/// names.
pub fn render_profile_environment(environment: &Environment) -> (text: String)
    ensures
        text@ == export_lines(sorted_pairs(environment@)),
{
    let ghost pairs = environment.pairs();
    let mut text = String::new();
    let mut i: usize = 0;
    let count: usize = environment.len();
    assert(pairs.take(0) =~= Seq::<Pair>::empty());
    while i < count
        invariant
            i <= count,
            count == pairs.len(),
            pairs == environment.pairs(),
            i > 0 ==> increasing(pairs),
            text@ == export_lines(pairs.take(i as int)),
        decreases count - i,
    {
        let entry = environment.entry(i);
        let ghost before = text@;
        text.append("export ");
        text.append(&entry.key);
        text.append("='");
        text.append(&escape(&entry.value));
        text.append("'\n");
        assert(text@ =~= before + export_line(pairs[i as int]));
        assert(pairs.take(i + 1).drop_last() =~= pairs.take(i as int));
        i += 1;
    }
    proof {
        assert(pairs.take(i as int) =~= pairs);
        if count == 0 {
            assert(increasing(pairs));
        }
        lemma_sorted_pairs(pairs);
    }
    text
}

/// The variables of login shells: those of an Android host, with the
/// configured ones over them.
pub open spec fn profile_variables(configured: Variables, android: AndroidConfig) -> Variables {
    android_variables(Map::empty(), android).union_prefer_right(configured)
}

/// The steps that write the environment for login shells; `profiles` says
/// that the image has a directory for profiles.
pub open spec fn profile_steps(
    configured: Variables,
    android: AndroidConfig,
    profiles: bool,
) -> Steps {
    seq![
        Action::WriteFile {
            path: "/run/kurumi-containerd.env"@,
            contents: export_lines(sorted_pairs(profile_variables(configured, android))),
        },
    ] + (if profiles {
        seq![
            Action::RemoveFile("/etc/profile.d/kurumi_containerd_env.sh"@),
            Action::Symlink {
                target: "/run/kurumi-containerd.env"@,
                link: "/etc/profile.d/kurumi_containerd_env.sh"@,
            },
        ]
    } else {
        Seq::empty()
    })
}

/// The steps that write the environment for login shells.
pub fn write_profile_environment(
    configured: &Environment,
    android: &AndroidConfig,
    profiles: bool,
) -> (plan: Vec<Action<String>>)
    ensures
        views(plan@) == profile_steps(configured@, *android, profiles),
{
    broadcast use {lemma_views_push, lemma_views_empty};

    let mut environment = Environment::new();
    add_android(&mut environment, android);
    environment.extend(configured);
    let contents = render_profile_environment(&environment);
    let mut plan: Vec<Action<String>> = Vec::new();
    plan.push(write_file("/run/kurumi-containerd.env", &contents));
    if profiles {
        plan.push(Action::RemoveFile("/etc/profile.d/kurumi_containerd_env.sh".to_owned()));
        plan.push(
            symlink("/run/kurumi-containerd.env", "/etc/profile.d/kurumi_containerd_env.sh"),
        );
    }
    assert(views(plan@) =~= profile_steps(configured@, *android, profiles));
    plan
}

/// What a shell makes of a word of quoted and unquoted characters, where
/// `quoted` says that it stands between single quotes.
pub open spec fn shell_value(word: Seq<char>, quoted: bool) -> Seq<char>
    decreases word.len(),
{
    if word.len() == 0 {
        Seq::empty()
    } else if word[0] == '\'' {
        shell_value(word.skip(1), !quoted)
    } else if !quoted && word[0] == '\\' && word.len() >= 2 {
        seq![word[1]] + shell_value(word.skip(2), false)
    } else {
        seq![word[0]] + shell_value(word.skip(1), quoted)
    }
}

/// A shell that reads the exported text gets every value back as it was,
/// whatever characters it holds.
pub proof fn law_exported_value_is_read_back(value: Seq<char>)
    ensures
        shell_value(seq!['\''] + escaped(value) + seq!['\''], false) == value,
{
    let word = seq!['\''] + escaped(value) + seq!['\''];
    let inside = escaped(value) + seq!['\''];
    assert(word.skip(1) =~= inside);
    lemma_quoted_value(value);
}

proof fn lemma_quoted_value(value: Seq<char>)
    ensures
        shell_value(escaped(value) + seq!['\''], true) == value,
    decreases value.len(),
{
    let ending = seq!['\''];
    if value.len() == 0 {
        assert(escaped(value) + ending =~= ending);
        assert(ending.skip(1) =~= Seq::<char>::empty());
        assert(value =~= Seq::<char>::empty());
        reveal_with_fuel(shell_value, 3);
    } else {
        let rest = escaped(value.skip(1)) + ending;
        lemma_quoted_value(value.skip(1));
        let word = escaped(value) + ending;
        assert(value =~= seq![value[0]] + value.skip(1));
        if value[0] == '\'' {
            let head = seq!['\'', '\\', '\'', '\''];
            assert(word =~= head + rest);
            let second = word.skip(1);
            let third = second.skip(2);
            assert(word[0] == '\'');
            assert(second[0] == '\\' && second[1] == '\'');
            assert(third[0] == '\'');
            assert(third.skip(1) =~= rest);
            assert(shell_value(word, true) == shell_value(second, false));
            assert(shell_value(second, false) == seq!['\''] + shell_value(third, false));
            assert(shell_value(third, false) == shell_value(rest, true));
        } else {
            assert(word =~= seq![value[0]] + rest);
            assert(word.skip(1) =~= rest);
        }
    }
}

/// The configured variables win over the defaults and over those of the host.
pub proof fn law_configured_variables_win(
    edition: Edition,
    configured: Variables,
    android: AndroidConfig,
    terminal: Seq<char>,
    key: Seq<char>,
)
    requires
        configured.contains_key(key),
    ensures
        program_variables(edition, configured, android, terminal).contains_key(key),
        program_variables(edition, configured, android, terminal)[key] == configured[key],
        profile_variables(configured, android).contains_key(key),
        profile_variables(configured, android)[key] == configured[key],
{
}

/// Whether a value can stand between single quotes on a line as it is.
pub open spec fn plain_value(value: Seq<char>) -> bool {
    forall|i: int|
        0 <= i < value.len() ==> (#[trigger] value[i]) != '\'' && value[i] != '\n' && value[i]
            != '\0'
}

/// A line that exports a plain value, without its end.
pub open spec fn plain_line(pair: Pair) -> Seq<char> {
    "export "@ + pair.0 + "='"@ + pair.1 + "'"@
}

proof fn lemma_plain_escape(value: Seq<char>)
    requires
        plain_value(value),
    ensures
        escaped(value) == value,
    decreases value.len(),
{
    if value.len() > 0 {
        let rest = value.skip(1);
        assert forall|i: int| 0 <= i < rest.len() implies (#[trigger] rest[i]) != '\'' && rest[i]
            != '\n' && rest[i] != '\0' by {
            assert(rest[i] == value[i + 1]);
        }
        lemma_plain_escape(rest);
        assert(value[0] != '\'');
        assert(seq![value[0]] + rest =~= value);
    }
}

proof fn lemma_plain_line(pair: Pair)
    requires
        variable_name(pair.0),
        plain_value(pair.1),
    ensures
        line_meaning(plain_line(pair)) == LineMeaning::Sets(pair.0, pair.1),
        forall|i: int| 0 <= i < plain_line(pair).len() ==> #[trigger] plain_line(pair)[i] != '\n',
{
    reveal_strlit("export ");
    reveal_strlit("='");
    reveal_strlit("'");
    let line = plain_line(pair);
    let key = pair.0;
    let value = pair.1;
    let rest = key + "='"@ + value + "'"@;
    assert(line =~= "export "@ + rest);
    assert forall|i: int| 0 <= i < line.len() implies #[trigger] line[i] != '\n' by {
        if i < 7 {
            assert(line[i] == "export "@[i]);
        } else if i < 7 + key.len() {
            assert(line[i] == key[i - 7]);
        } else if i >= 9 + key.len() && i < 9 + key.len() + value.len() {
            assert(line[i] == value[i - 9 - key.len()]);
        }
    }
    assert(line[0] == 'e' && !whitespace('e'));
    assert(line.last() == '\'' && !whitespace('\''));
    assert(trim(line) == line);
    assert(line.take(7) =~= "export "@);
    assert(line.skip(7) =~= rest);
    assert(rest[0] == key[0]);
    assert(!whitespace(key[0]));
    assert(without_export(line) == rest);
    let at = key.len() as int;
    assert forall|k: int| 0 <= k < at implies #[trigger] rest[k] != '=' by {
        assert(rest[k] == key[k]);
    }
    assert(rest[at] == '=');
    lemma_position_is(rest, '=', at);
    assert(rest.take(at) =~= key);
    let written = rest.skip(at + 1);
    assert(written =~= seq!['\''] + value + seq!['\'']);
    assert(written.subrange(1, written.len() - 1) =~= value);
    assert(!holds_nul(value));
}

/// Whether all pairs have names of variables and plain values.
pub open spec fn plain_pairs(pairs: Seq<Pair>) -> bool {
    forall|i: int|
        0 <= i < pairs.len() ==> variable_name((#[trigger] pairs[i]).0) && plain_value(pairs[i].1)
}

proof fn lemma_export_pieces(pairs: Seq<Pair>)
    requires
        plain_pairs(pairs),
    ensures
        split_on(export_lines(pairs), '\n') == pairs.map_values(
            |pair: Pair| plain_line(pair),
        ).push(Seq::<char>::empty()),
    decreases pairs.len(),
{
    let lined = |pair: Pair| plain_line(pair);
    let none = Seq::<char>::empty();
    if pairs.len() == 0 {
        assert(split_on(export_lines(pairs), '\n') =~= pairs.map_values(lined).push(none));
    } else {
        let before = pairs.drop_last();
        let pair = pairs.last();
        assert(plain_pairs(before)) by {
            assert forall|i: int| 0 <= i < before.len() implies variable_name(
                (#[trigger] before[i]).0,
            ) && plain_value(before[i].1) by {
                assert(before[i] == pairs[i]);
            }
        }
        assert(pairs[pairs.len() - 1] == pair);
        lemma_export_pieces(before);
        lemma_plain_line(pair);
        lemma_plain_escape(pair.1);
        reveal_strlit("'\n");
        reveal_strlit("'");
        let line = plain_line(pair);
        let text = export_lines(before);
        assert("'\n"@ =~= "'"@ + seq!['\n']);
        assert(export_line(pair) =~= line + seq!['\n']);
        lemma_split_append(text, line, '\n');
        let grown = text + line;
        assert(export_lines(pairs) =~= grown.push('\n'));
        assert(grown.push('\n').drop_last() =~= grown);
        assert(none + line =~= line);
        assert(split_on(export_lines(pairs), '\n') =~= pairs.map_values(lined).push(none));
    }
}

proof fn lemma_plain_lines(pairs: Seq<Pair>)
    requires
        increasing(pairs),
        plain_pairs(pairs),
    ensures
        lines_meaning(pairs.map_values(|pair: Pair| plain_line(pair))) == Ok::<
            Variables,
            EnvironmentError,
        >(map_of(pairs)),
    decreases pairs.len(),
{
    let lined = |pair: Pair| plain_line(pair);
    let all = pairs.map_values(lined);
    if pairs.len() == 0 {
        assert(map_of(pairs) =~= Map::<Seq<char>, Seq<char>>::empty());
    } else {
        let before = pairs.drop_last();
        let last = pairs.len() - 1;
        let pair = pairs[last];
        assert(increasing(before)) by {
            assert forall|i: int, j: int| 0 <= i < j < before.len() implies #[trigger] precedes(
                before[i].0,
                before[j].0,
            ) by {
                assert(precedes(pairs[i].0, pairs[j].0));
            }
        }
        assert(plain_pairs(before)) by {
            assert forall|i: int| 0 <= i < before.len() implies variable_name(
                (#[trigger] before[i]).0,
            ) && plain_value(before[i].1) by {
                assert(before[i] == pairs[i]);
            }
        }
        lemma_plain_lines(before);
        lemma_plain_line(pair);
        assert(all.drop_last() =~= before.map_values(lined));
        assert(all.last() == plain_line(pair));
        let whole = map_of(pairs);
        let grown = map_of(before).insert(pair.0, pair.1);
        assert forall|key: Seq<char>| whole.contains_key(key) <==> grown.contains_key(key) by {
            if whole.contains_key(key) {
                let i = key_index(pairs, key);
                assert(0 <= i < pairs.len() && pairs[i].0 == key);
                if i < last {
                    assert(before[i].0 == key);
                }
            }
            if grown.contains_key(key) {
                if key == pair.0 {
                    assert(pairs[last].0 == key);
                } else {
                    let i = key_index(before, key);
                    assert(0 <= i < before.len() && before[i].0 == key);
                    assert(pairs[i].0 == key);
                }
            }
        }
        assert forall|key: Seq<char>| whole.contains_key(key) implies whole[key]
            == grown[key] by {
            let i = key_index(pairs, key);
            assert(0 <= i < pairs.len() && pairs[i].0 == key);
            lemma_key_index(pairs, i);
            if i < last {
                assert(before[i].0 == key);
                lemma_key_index(before, i);
                assert(precedes(pairs[i].0, pairs[last].0));
                lemma_precedes_total(key, key);
            }
        }
        assert(whole =~= grown);
    }
}

/// An environment whose values hold no quote, no line feed and no NUL is read
/// back from the text that exports it to a shell.
pub proof fn law_profile_is_read_back(environment: &Environment)
    requires
        increasing(environment.pairs()),
        plain_pairs(environment.pairs()),
    ensures
        file_meaning(export_lines(sorted_pairs(environment@))) == Ok::<
            Variables,
            EnvironmentError,
        >(environment@),
{
    let pairs = environment.pairs();
    lemma_sorted_pairs(pairs);
    lemma_export_pieces(pairs);
    lemma_plain_lines(pairs);
    lemma_file_by_pieces(export_lines(pairs));
    let all = pairs.map_values(|pair: Pair| plain_line(pair));
    let none = Seq::<char>::empty();
    assert(all.push(none).drop_last() =~= all);
    assert(trim(none).len() == 0);
}

// ---------------------------------------------------------------------------
// What holds of every environment
// ---------------------------------------------------------------------------
proof fn lemma_variable_names()
    ensures
        "PATH"@ != "TERM"@ && "PATH"@ != "HOME"@ && "PATH"@ != "LANG"@ && "TERM"@ != "HOME"@,
        "TERM"@ != "LANG"@ && "HOME"@ != "LANG"@,
        "PATH"@.len() == 4 && "TERM"@.len() == 4 && "HOME"@.len() == 4 && "LANG"@.len() == 4,
        "container"@.len() == 9 && "DISPLAY"@.len() == 7 && "GALLIUM_DRIVER"@.len() == 14
            && "PULSE_SERVER"@.len() == 12,
{
    reveal_strlit("PATH");
    reveal_strlit("TERM");
    reveal_strlit("HOME");
    reveal_strlit("LANG");
    reveal_strlit("container");
    reveal_strlit("DISPLAY");
    reveal_strlit("GALLIUM_DRIVER");
    reveal_strlit("PULSE_SERVER");
    assert("PATH"@[0] == 'P' && "TERM"@[0] == 'T' && "HOME"@[0] == 'H' && "LANG"@[0] == 'L');
}

/// Whether variables have a value under a name.
pub open spec fn holds(variables: Variables, name: Seq<char>, value: Seq<char>) -> bool {
    variables.contains_key(name) && variables[name] == value
}

/// A program finds its way, its terminal, its home, its language and the name
/// of what runs its container, as far as nothing else is configured; and of an
/// Android host the display, the driver and the sound server that are shared.
/// It has no other variables.
pub proof fn law_programs_have_their_variables(
    edition: Edition,
    configured: Variables,
    android: AndroidConfig,
    terminal: Seq<char>,
    name: Seq<char>,
)
    requires
        !configured.contains_key(name),
    ensures
        ({
            let variables = program_variables(edition, configured, android, terminal);
            let shared = profile_variables(configured, android);
            &&& name == "PATH"@ ==> holds(
                variables,
                name,
                "/usr/local/sbin:/usr/local/bin:/usr/sbin:/usr/bin:/sbin:/bin"@,
            )
            &&& name == "TERM"@ ==> holds(variables, name, terminal)
            &&& name == "HOME"@ ==> holds(variables, name, "/root"@)
            &&& name == "LANG"@ ==> holds(variables, name, "en_US.UTF-8"@)
            &&& name == "container"@ ==> holds(
                variables,
                name,
                if edition == Edition::Gnosis {
                    "gnosis"@
                } else {
                    "kurumi-containerd"@
                },
            )
            &&& name == "DISPLAY"@ && android.termux_x11 ==> holds(variables, name, ":5"@) && holds(
                shared,
                name,
                ":5"@,
            )
            &&& name == "GALLIUM_DRIVER"@ && android.virgl ==> holds(variables, name, "virpipe"@)
                && holds(shared, name, "virpipe"@)
            &&& name == "PULSE_SERVER"@ && android.pulse_audio ==> holds(
                variables,
                name,
                "unix:/tmp/.pulse-socket"@,
            ) && holds(shared, name, "unix:/tmp/.pulse-socket"@)
            &&& shared.contains_key(name) ==> (name == "DISPLAY"@ && android.termux_x11) || (name
                == "GALLIUM_DRIVER"@ && android.virgl) || (name == "PULSE_SERVER"@
                && android.pulse_audio)
            &&& variables.contains_key(name) ==> shared.contains_key(name) || name == "PATH"@ || name
                == "TERM"@ || name == "HOME"@ || name == "LANG"@ || name == "container"@
        }),
{
    lemma_variable_names();
}

/// A terminal type is handed on unless it is empty, holds a dot or begins with
/// `bg`; then, and where there is none, a common one takes its place.
pub proof fn law_terminal_types_are_handed_on(value: Seq<char>)
    ensures
        terminal_of(Some(value)) == value || terminal_of(Some(value)) == "xterm-256color"@,
        value != "xterm-256color"@ ==> (terminal_of(Some(value)) == value <==> value.len() > 0
            && !value.contains('.') && !(value.len() >= 2 && value[0] == 'b' && value[1] == 'g')),
        terminal_of(None) == "xterm-256color"@,
{
    reveal_strlit("bg");
    let two = value.take(2);
    if value.len() >= 2 {
        assert(two[0] == value[0] && two[1] == value[1]);
        assert("bg"@[0] == 'b' && "bg"@[1] == 'g');
        if value[0] == 'b' && value[1] == 'g' {
            assert(two =~= "bg"@);
        }
    }
    if !value.contains('.') {
        assert forall|i: int| 0 <= i < value.len() implies #[trigger] value[i] != '.' by {
            assert(value.contains(value[i]));
        }
    }
    if usable_terminal(value) && value.contains('.') {
        let i = choose|i: int| 0 <= i < value.len() && value[i] == '.';
        assert(value[i] != '.');
    }
}

proof fn lemma_nul(pairs: Seq<Pair>, i: int)
    requires
        0 <= i <= pairs.len() <= usize::MAX,
    ensures
        nul_from(pairs, i) is None <==> forall|k: int|
            i <= k < pairs.len() ==> !holds_nul(assignment(#[trigger] pairs[k])),
        nul_from(pairs, i) matches Some(at) ==> i <= at < pairs.len() && holds_nul(
            assignment(pairs[at as int]),
        ) && forall|k: int| i <= k < at ==> !holds_nul(assignment(#[trigger] pairs[k])),
    decreases pairs.len() - i,
{
    if i < pairs.len() {
        lemma_nul(pairs, i + 1);
        if holds_nul(assignment(pairs[i])) {
            assert(!(forall|k: int|
                i <= k < pairs.len() ==> !holds_nul(assignment(#[trigger] pairs[k]))));
        }
    }
}

/// A program gets each of its variables once, as its name, an equals sign and
/// its value, in the order of the names. Only where one of them holds a NUL it
/// gets none, and the first such is told.
pub proof fn law_programs_get_every_variable(environment: &Environment, k: int)
    requires
        increasing(environment.pairs()),
        environment.pairs().len() <= usize::MAX,
        0 <= k < environment.pairs().len(),
    ensures
        ({
            let pairs = environment.pairs();
            let result = program_environment(environment@);
            &&& result matches Ok(list) ==> list.len() == pairs.len() && list[k] == pairs[k].0
                + seq!['='] + pairs[k].1 && !list[k].contains('\0')
            &&& result matches Err(at) ==> at < pairs.len() && (pairs[at as int].0.contains('\0')
                || pairs[at as int].1.contains('\0')) && (k < at ==> !pairs[k].0.contains('\0')
                && !pairs[k].1.contains('\0'))
        }),
{
    reveal_strlit("=");
    assert("="@ =~= seq!['=']);
    let pairs = environment.pairs();
    lemma_sorted_pairs(pairs);
    lemma_nul(pairs, 0);
    lemma_parts_of_assignment(pairs[k]);
    if let Some(at) = nul_from(pairs, 0) {
        lemma_parts_of_assignment(pairs[at as int]);
    }
}

proof fn lemma_parts_of_assignment(pair: Pair)
    ensures
        assignment(pair) == pair.0 + seq!['='] + pair.1,
        holds_nul(assignment(pair)) <==> pair.0.contains('\0') || pair.1.contains('\0'),
        holds_nul(assignment(pair)) <==> assignment(pair).contains('\0'),
{
    reveal_strlit("=");
    assert("="@ =~= seq!['=']);
    let whole = assignment(pair);
    if holds_nul(whole) {
        let i = choose|i: int| 0 <= i < whole.len() && whole[i] == '\0';
        assert(whole.contains(whole[i]));
        if i < pair.0.len() {
            assert(pair.0[i] == '\0');
        } else {
            assert(i > pair.0.len());
            assert(pair.1[i - pair.0.len() - 1] == '\0');
        }
    }
    if pair.0.contains('\0') {
        let i = choose|i: int| 0 <= i < pair.0.len() && pair.0[i] == '\0';
        assert(whole[i] == '\0');
    }
    if pair.1.contains('\0') {
        let i = choose|i: int| 0 <= i < pair.1.len() && pair.1[i] == '\0';
        assert(whole[pair.0.len() + 1 + i] == '\0');
    }
    if whole.contains('\0') {
        let i = choose|i: int| 0 <= i < whole.len() && whole[i] == '\0';
        assert(whole[i] == '\0');
    }
}

/// In a session the configured variables win over those of the image's file,
/// and these over the defaults.
pub proof fn law_files_stand_between_defaults_and_configuration(
    edition: Edition,
    from_file: Variables,
    configured: Variables,
    android: AndroidConfig,
    terminal: Seq<char>,
    name: Seq<char>,
)
    ensures
        ({
            let variables = session_variables(edition, from_file, configured, android, terminal);
            &&& configured.contains_key(name) ==> holds(variables, name, configured[name])
            &&& !configured.contains_key(name) && from_file.contains_key(name) ==> holds(
                variables,
                name,
                from_file[name],
            )
            &&& !configured.contains_key(name) && !from_file.contains_key(name) ==> (
            variables.contains_key(name) <==> program_variables(
                edition,
                Map::empty(),
                android,
                terminal,
            ).contains_key(name))
            &&& !configured.contains_key(name) && !from_file.contains_key(name)
                && variables.contains_key(name) ==> variables[name] == program_variables(
                edition,
                Map::empty(),
                android,
                terminal,
            )[name]
        }),
{
}

/// Login shells find their variables in a file that is written for them, and a
/// link leads to it where the image looks for profiles; what stood in its place
/// is removed before.
pub proof fn law_login_shells_are_served(
    configured: Variables,
    android: AndroidConfig,
    profiles: bool,
)
    ensures
        ({
            let steps = profile_steps(configured, android, profiles);
            &&& steps[0] == (Action::WriteFile {
                path: "/run/kurumi-containerd.env"@,
                contents: export_lines(sorted_pairs(profile_variables(configured, android))),
            })
            &&& steps.len() == if profiles {
                3int
            } else {
                1
            }
            &&& profiles ==> steps[1] == Action::RemoveFile(
                "/etc/profile.d/kurumi_containerd_env.sh"@,
            ) && steps[2] == (Action::Symlink {
                target: "/run/kurumi-containerd.env"@,
                link: "/etc/profile.d/kurumi_containerd_env.sh"@,
            })
        }),
{
}

} // verus!
