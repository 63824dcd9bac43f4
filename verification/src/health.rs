//! Health-check commands and duration fields: the `HealthCmd=` value written for a command, and
//! its exact reading.

use vstd::prelude::*;
use crate::encode::{encode_json_array, json_array};
use crate::grammar::safe_health_shell_command;
use crate::issue::ValueIssue;
use crate::text::{chars_of, contains_char, has_char, same_chars};

verus! {

broadcast use vstd::string::group_string_axioms;

/// A health-check test: an exec argument vector, or one shell command string.
#[derive(Clone, Debug, PartialEq, Eq)]
pub enum HealthcheckCommand {
    Exec(Vec<String>),
    Shell(String),
}

/// Mathematical model of a [`HealthcheckCommand`].
pub enum HealthCommandModel {
    Exec(Seq<Seq<char>>),
    Shell(Seq<char>),
}

/// The views of a list of strings.
pub open spec fn strings_view(values: Seq<String>) -> Seq<Seq<char>> {
    values.map_values(|v: String| v@)
}

impl View for HealthcheckCommand {
    type V = HealthCommandModel;

    open spec fn view(&self) -> HealthCommandModel {
        match self {
            HealthcheckCommand::Exec(arguments) => HealthCommandModel::Exec(strings_view(arguments@)),
            HealthcheckCommand::Shell(command) => HealthCommandModel::Shell(command@),
        }
    }
}

/// The exec mode word `CMD`.
pub open spec fn exec_mode() -> Seq<char> {
    seq!['C', 'M', 'D']
}

/// The shell mode word `CMD-SHELL`.
pub open spec fn shell_mode() -> Seq<char> {
    seq!['C', 'M', 'D', '-', 'S', 'H', 'E', 'L', 'L']
}

/// The list of strings that `serde_json::from_str` reads from `text` as a JSON array of strings;
/// `None` when `text` is not one.
pub uninterp spec fn json_string_list(text: Seq<char>) -> Option<Seq<Seq<char>>>;

/// The view of an optional list of strings.
pub open spec fn list_view(list: Option<Vec<String>>) -> Option<Seq<Seq<char>>> {
    match list {
        Some(v) => Some(strings_view(v@)),
        None => None,
    }
}

/// Reads `text` as a JSON array of strings with `serde_json::from_str::<Vec<String>>`.
///
/// The contract claims only that the result is a function of `text` alone, named
/// [`json_string_list`]; what that function is, is left to `serde_json`.
#[verifier::external_body]
fn parse_json_string_list(text: &str) -> (list: Option<Vec<String>>)
    ensures
        list_view(list) == json_string_list(text@),
{
    serde_json::from_str::<Vec<String>>(text).ok()
}

/// Whether any value holds `NUL`, `%`, or a line break.
pub open spec fn has_unsafe_health_char(values: Seq<Seq<char>>) -> bool {
    exists|k: int|
        0 <= k < values.len() && (has_char(#[trigger] values[k], '\0') || has_char(values[k], '%') || has_char(
            values[k],
            '\n',
        ) || has_char(values[k], '\r'))
}

/// The command a decoded `HealthCmd=` JSON list denotes: `CMD` with at least one argument, or
/// `CMD-SHELL` with exactly one non-empty string.
pub open spec fn health_list_reading(values: Seq<Seq<char>>) -> Result<HealthCommandModel, ValueIssue> {
    if has_unsafe_health_char(values) {
        Err(ValueIssue::Unsupported("HealthCmd contains a control byte or unresolved systemd percent specifier"))
    } else if values.len() >= 2 && values[0] =~= exec_mode() {
        Ok(HealthCommandModel::Exec(values.skip(1)))
    } else if values.len() == 2 && values[0] =~= shell_mode() && values[1].len() > 0 {
        Ok(HealthCommandModel::Shell(values[1]))
    } else if values.len() >= 1 && values[0] =~= exec_mode() {
        Err(ValueIssue::Invalid("CMD health check requires at least one command argument"))
    } else if values.len() >= 1 && values[0] =~= shell_mode() {
        Err(ValueIssue::Unsupported("CMD-SHELL health check must contain exactly one non-empty shell string"))
    } else {
        Err(ValueIssue::Unsupported("HealthCmd JSON array uses an unknown health-check command mode"))
    }
}

/// The reading of a `HealthCmd=` value given what JSON decoding made of it: a value that does not
/// start with `[` is a plain shell command of the conservative subset; otherwise it must decode
/// as a list of strings.
pub open spec fn health_command_reading(value: Seq<char>, decoded: Option<Seq<Seq<char>>>) -> Result<
    HealthCommandModel,
    ValueIssue,
> {
    if !(value.len() > 0 && value[0] == '[') {
        if safe_health_shell_command(value) {
            Ok(HealthCommandModel::Shell(value))
        } else {
            Err(
                ValueIssue::Unsupported(
                    "HealthCmd requires JSON-array decoding or shell syntax outside the conservative plain-command subset",
                ),
            )
        }
    } else {
        match decoded {
            None => Err(ValueIssue::Unsupported("HealthCmd JSON array requires native command decoding")),
            Some(values) => health_list_reading(values),
        }
    }
}

fn unsafe_health_text(value: &str) -> (b: bool)
    ensures
        b == (has_char(value@, '\0') || has_char(value@, '%') || has_char(value@, '\n') || has_char(value@, '\r')),
{
    let s = chars_of(value);
    contains_char(s.as_slice(), '\0') || contains_char(s.as_slice(), '%') || contains_char(s.as_slice(), '\n')
        || contains_char(s.as_slice(), '\r')
}

fn copy_strings(values: &[String]) -> (copy: Vec<String>)
    ensures
        strings_view(copy@) == strings_view(values@),
{
    let mut copy: Vec<String> = Vec::new();
    let mut k: usize = 0;
    while k < values.len()
        invariant
            k <= values@.len(),
            copy@.len() == k,
            forall|j: int| 0 <= j < k ==> #[trigger] copy@[j]@ == values@[j]@,
        decreases values@.len() - k,
    {
        copy.push(crate::text::string_from(chars_of(values[k].as_str()).as_slice()));
        k += 1;
    }
    assert(strings_view(copy@) =~= strings_view(values@));
    copy
}

/// Builds the command a `HealthCmd=` value denotes from what JSON decoding made of it.
pub fn decode_health_command_with(value: &str, decoded: Option<Vec<String>>) -> (command: Result<
    HealthcheckCommand,
    ValueIssue,
>)
    ensures
        match command {
            Ok(c) => health_command_reading(value@, list_view(decoded)) == Ok::<HealthCommandModel, ValueIssue>(c@),
            Err(e) => health_command_reading(value@, list_view(decoded)) == Err::<HealthCommandModel, ValueIssue>(e),
        },
{
    let s = chars_of(value);
    if !(s.len() > 0 && s[0] == '[') {
        if crate::grammar::is_safe_health_shell_command(value) {
            return Ok(HealthcheckCommand::Shell(crate::text::string_from(s.as_slice())));
        }
        return Err(
            ValueIssue::Unsupported(
                "HealthCmd requires JSON-array decoding or shell syntax outside the conservative plain-command subset",
            ),
        );
    }
    let ghost decoded_view = list_view(decoded);
    let values = match decoded {
        Some(values) => values,
        None => {
            return Err(ValueIssue::Unsupported("HealthCmd JSON array requires native command decoding"));
        },
    };
    let ghost views = strings_view(values@);
    let mut k: usize = 0;
    while k < values.len()
        invariant
            k <= values@.len(),
            views == strings_view(values@),
            decoded_view == Some(views),
            decoded_view == list_view(decoded),
            s@ == value@ && s@.len() > 0 && s@[0] == '[',
            forall|j: int|
                0 <= j < k ==> !(has_char(#[trigger] views[j], '\0') || has_char(views[j], '%') || has_char(
                    views[j],
                    '\n',
                ) || has_char(views[j], '\r')),
        decreases values@.len() - k,
    {
        if unsafe_health_text(values[k].as_str()) {
            assert(views[k as int] == values@[k as int]@);
            assert(has_unsafe_health_char(views));
            return Err(
                ValueIssue::Unsupported("HealthCmd contains a control byte or unresolved systemd percent specifier"),
            );
        }
        assert(views[k as int] == values@[k as int]@);
        k += 1;
    }
    assert(!has_unsafe_health_char(views));
    let cmd = vec!['C', 'M', 'D'];
    let shell = vec!['C', 'M', 'D', '-', 'S', 'H', 'E', 'L', 'L'];
    assert(cmd@ =~= exec_mode() && shell@ =~= shell_mode());
    if values.len() == 0 {
        return Err(ValueIssue::Unsupported("HealthCmd JSON array uses an unknown health-check command mode"));
    }
    let kind = chars_of(values[0].as_str());
    assert(kind@ == views[0]);
    let is_exec = same_chars(kind.as_slice(), cmd.as_slice());
    let is_shell = same_chars(kind.as_slice(), shell.as_slice());
    if values.len() >= 2 && is_exec {
        let arguments = copy_strings(&values.as_slice()[1..values.len()]);
        assert(strings_view(values@.subrange(1, values@.len() as int)) =~= views.skip(1));
        return Ok(HealthcheckCommand::Exec(arguments));
    }
    if values.len() == 2 && is_shell && chars_of(values[1].as_str()).len() > 0 {
        assert(views[1] == values@[1]@);
        return Ok(HealthcheckCommand::Shell(crate::text::string_from(chars_of(values[1].as_str()).as_slice())));
    }
    if is_exec {
        return Err(ValueIssue::Invalid("CMD health check requires at least one command argument"));
    }
    if is_shell {
        assert(values.len() != 2 || views[1].len() == 0);
        return Err(ValueIssue::Unsupported("CMD-SHELL health check must contain exactly one non-empty shell string"));
    }
    Err(ValueIssue::Unsupported("HealthCmd JSON array uses an unknown health-check command mode"))
}

/// Reads a `HealthCmd=` value: a plain shell command of the conservative subset, or a JSON
/// exec-form list decoded with `serde_json`.
pub fn decode_health_command(value: &str) -> (command: Result<HealthcheckCommand, ValueIssue>)
    ensures
        match command {
            Ok(c) => health_command_reading(value@, json_string_list(value@)) == Ok::<HealthCommandModel, ValueIssue>(
                c@,
            ),
            Err(e) => health_command_reading(value@, json_string_list(value@)) == Err::<HealthCommandModel, ValueIssue>(
                e,
            ),
        },
{
    let s = chars_of(value);
    if s.len() > 0 && s[0] == '[' {
        let decoded = parse_json_string_list(value);
        decode_health_command_with(value, decoded)
    } else {
        decode_health_command_with(value, None)
    }
}

// ---------------------------------------------------------------------------------------------
// Writing a command
// ---------------------------------------------------------------------------------------------

/// The JSON list of a command: `CMD` and its arguments, or `CMD-SHELL` and the shell string;
/// empty commands are invalid.
pub open spec fn health_argument_list(command: HealthCommandModel) -> Result<Seq<Seq<char>>, ValueIssue> {
    match command {
        HealthCommandModel::Exec(a) => if a.len() > 0 {
            Ok(seq![exec_mode()] + a)
        } else {
            Err(ValueIssue::Invalid("health-check exec command requires at least one argument"))
        },
        HealthCommandModel::Shell(v) => if v.len() > 0 {
            Ok(seq![shell_mode(), v])
        } else {
            Err(ValueIssue::Invalid("health-check shell command must not be empty"))
        },
    }
}

/// The JSON list written for a command; `NUL` or `%` in it cannot be written.
pub open spec fn health_arguments(command: HealthCommandModel) -> Result<Seq<Seq<char>>, ValueIssue> {
    match health_argument_list(command) {
        Err(e) => Err(e),
        Ok(a) => if exists|k: int| 0 <= k < a.len() && (has_char(#[trigger] a[k], '\0') || has_char(a[k], '%')) {
            Err(ValueIssue::Unsupported("health command contains a NUL byte or unresolved systemd percent specifier"))
        } else {
            Ok(a)
        },
    }
}

/// The `HealthCmd=` value written for a command: its argument list as a compact JSON array.
pub fn encode_health_command(command: &HealthcheckCommand) -> (encoded: Result<String, ValueIssue>)
    ensures
        match encoded {
            Ok(e) => health_arguments(command@) is Ok && e@ == json_array(health_arguments(command@)->Ok_0),
            Err(issue) => health_arguments(command@) == Err::<Seq<Seq<char>>, ValueIssue>(issue),
        },
{
    let mut values: Vec<&str> = Vec::new();
    proof {
        reveal_strlit("CMD");
        reveal_strlit("CMD-SHELL");
    }
    match command {
        HealthcheckCommand::Exec(arguments) => {
            if arguments.len() == 0 {
                return Err(ValueIssue::Invalid("health-check exec command requires at least one argument"));
            }
            values.push("CMD");
            assert("CMD"@ =~= exec_mode());
            let mut k: usize = 0;
            while k < arguments.len()
                invariant
                    k <= arguments@.len(),
                    values@.len() == k + 1,
                    values@[0]@ == exec_mode(),
                    forall|j: int| 0 <= j < k ==> #[trigger] values@[j + 1]@ == arguments@[j]@,
                decreases arguments@.len() - k,
            {
                values.push(arguments[k].as_str());
                k += 1;
            }
            let ghost expected = seq![exec_mode()] + strings_view(arguments@);
            let ghost got = values@.map_values(|v: &str| v@);
            assert forall|j: int| 0 <= j < values@.len() implies #[trigger] got[j] == expected[j] by {
                if j > 0 {
                    assert(values@[(j - 1) + 1]@ == arguments@[j - 1]@);
                }
            }
            assert(got =~= expected);
        },
        HealthcheckCommand::Shell(shell) => {
            if chars_of(shell.as_str()).len() == 0 {
                return Err(ValueIssue::Invalid("health-check shell command must not be empty"));
            }
            values.push("CMD-SHELL");
            values.push(shell.as_str());
            assert("CMD-SHELL"@ =~= shell_mode());
            assert(values@[0]@ == shell_mode() && values@[1]@ == shell@);
            assert(values@.map_values(|v: &str| v@) =~= seq![shell_mode(), shell@]);
        },
    }
    let ghost views = values@.map_values(|v: &str| v@);
    assert(health_argument_list(command@) == Ok::<Seq<Seq<char>>, ValueIssue>(views));
    let mut k: usize = 0;
    while k < values.len()
        invariant
            k <= values@.len(),
            views == values@.map_values(|v: &str| v@),
            health_argument_list(command@) == Ok::<Seq<Seq<char>>, ValueIssue>(views),
            forall|j: int| 0 <= j < k ==> !(has_char(#[trigger] views[j], '\0') || has_char(views[j], '%')),
        decreases values@.len() - k,
    {
        let text = chars_of(values[k]);
        assert(views[k as int] == values@[k as int]@);
        if contains_char(text.as_slice(), '\0') || contains_char(text.as_slice(), '%') {
            assert(has_char(views[k as int], '\0') || has_char(views[k as int], '%'));
            return Err(
                ValueIssue::Unsupported("health command contains a NUL byte or unresolved systemd percent specifier"),
            );
        }
        k += 1;
    }
    Ok(encode_json_array(values.as_slice()))
}

/// A command written into a generated unit reads back as itself once its JSON list is decoded,
/// provided no argument holds a line break.
pub proof fn lemma_health_command_reads_back(command: HealthCommandModel)
    requires
        health_arguments(command) is Ok,
        forall|k: int|
            0 <= k < health_arguments(command)->Ok_0.len() ==> !has_char(
                #[trigger] health_arguments(command)->Ok_0[k],
                '\n',
            ) && !has_char(health_arguments(command)->Ok_0[k], '\r'),
    ensures
        health_list_reading(health_arguments(command)->Ok_0) == Ok::<HealthCommandModel, ValueIssue>(command),
        health_command_reading(
            json_array(health_arguments(command)->Ok_0),
            Some(health_arguments(command)->Ok_0),
        ) == Ok::<HealthCommandModel, ValueIssue>(command),
{
    let a = health_arguments(command)->Ok_0;
    assert(health_argument_list(command) == Ok::<Seq<Seq<char>>, ValueIssue>(a));
    assert forall|k: int| 0 <= k < a.len() implies !(has_char(#[trigger] a[k], '\0') || has_char(a[k], '%')
        || has_char(a[k], '\n') || has_char(a[k], '\r')) by {
        assert(!(has_char(a[k], '\0') || has_char(a[k], '%')));
    }
    assert(!has_unsafe_health_char(a));
    assert(exec_mode().len() == 3 && shell_mode().len() == 9);
    match command {
        HealthCommandModel::Exec(args) => {
            assert(a[0] == exec_mode());
            assert(a.skip(1) =~= args);
        },
        HealthCommandModel::Shell(v) => {
            assert(a[0] == shell_mode());
            assert(!(a[0] =~= exec_mode()));
        },
    }
    assert(json_array(a)[0] == '[');
}

// ---------------------------------------------------------------------------------------------
// Duration fields
// ---------------------------------------------------------------------------------------------

/// The health-check duration a `HealthInterval=`, `HealthTimeout=`, or `HealthStartPeriod=`
/// entry sets.
#[derive(Clone, Copy, Debug, PartialEq, Eq, Structural)]
pub enum HealthDurationField {
    Interval,
    Timeout,
    StartPeriod,
}

impl HealthDurationField {
    /// The neutral field name: `interval`, `timeout`, or `start_period`.
    pub fn name(self) -> (name: &'static str)
        ensures
            name@ == match self {
                HealthDurationField::Interval => seq!['i', 'n', 't', 'e', 'r', 'v', 'a', 'l'],
                HealthDurationField::Timeout => seq!['t', 'i', 'm', 'e', 'o', 'u', 't'],
                HealthDurationField::StartPeriod => seq![
                    's',
                    't',
                    'a',
                    'r',
                    't',
                    '_',
                    'p',
                    'e',
                    'r',
                    'i',
                    'o',
                    'd',
                ],
            },
    {
        proof {
            reveal_strlit("interval");
            reveal_strlit("timeout");
            reveal_strlit("start_period");
        }
        match self {
            HealthDurationField::Interval => "interval",
            HealthDurationField::Timeout => "timeout",
            HealthDurationField::StartPeriod => "start_period",
        }
    }
}

/// A health-check argument that can be written: no `NUL`, no `%`.
pub open spec fn renderable_health_text(s: Seq<char>) -> bool {
    !has_char(s, '\0') && !has_char(s, '%')
}

/// Whether a health check, disabled or not and with its command, can be written so that a
/// healthy-condition dependency can wait for it: it is enabled, and its command is a non-empty
/// exec vector or a non-empty shell command, with no `NUL` or `%` anywhere.
pub open spec fn renderable_healthcheck(disabled: bool, command: Option<HealthCommandModel>) -> bool {
    !disabled && match command {
        Some(HealthCommandModel::Exec(arguments)) => arguments.len() > 0 && forall|i: int|
            0 <= i < arguments.len() ==> renderable_health_text(#[trigger] arguments[i]),
        Some(HealthCommandModel::Shell(command)) => command.len() > 0 && renderable_health_text(command),
        None => false,
    }
}

fn renderable_health_chars(value: &str) -> (b: bool)
    ensures
        b == renderable_health_text(value@),
{
    let s = chars_of(value);
    !contains_char(s.as_slice(), '\0') && !contains_char(s.as_slice(), '%')
}

/// Whether a health check can be written for a healthy-condition dependency to wait on.
pub fn healthcheck_renderable(disabled: bool, command: Option<&HealthcheckCommand>) -> (renderable: bool)
    ensures
        renderable == renderable_healthcheck(
            disabled,
            match command {
                Some(c) => Some(c@),
                None => None,
            },
        ),
{
    if disabled {
        return false;
    }
    match command {
        Some(HealthcheckCommand::Exec(arguments)) => {
            if arguments.len() == 0 {
                return false;
            }
            let mut i: usize = 0;
            let mut fine = true;
            while i < arguments.len() && fine
                invariant
                    i <= arguments.len(),
                    fine ==> forall|j: int| 0 <= j < i ==> renderable_health_text(#[trigger] arguments@[j]@),
                    !fine ==> exists|j: int| 0 <= j < i && !renderable_health_text(#[trigger] arguments@[j]@),
                decreases arguments.len() - i,
            {
                fine = renderable_health_chars(arguments[i].as_str());
                i = i + 1;
            }
            if !fine {
                let ghost j = choose|j: int| 0 <= j < i && !renderable_health_text(#[trigger] arguments@[j]@);
                assert(strings_view(arguments@)[j] == arguments@[j]@);
                return false;
            }
            assert forall|j: int| 0 <= j < strings_view(arguments@).len() implies renderable_health_text(
                #[trigger] strings_view(arguments@)[j],
            ) by {
                assert(strings_view(arguments@)[j] == arguments@[j]@);
            }
            true
        },
        Some(HealthcheckCommand::Shell(value)) => {
            let s = chars_of(value.as_str());
            s.len() > 0 && renderable_health_chars(value.as_str())
        },
        None => false,
    }
}

} // verus!
