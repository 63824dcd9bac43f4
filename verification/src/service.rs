//! Service settings written as single `[Container]` or `[Service]` values, and their exact
//! readings: commands, entrypoints, reload actions, restart policies, capability lists, kernel
//! parameters, and resource limits.

use vstd::prelude::*;
use crate::encode::{json_array, json_exec_items, json_string, lemma_exec_array_round_trip, plain_exec_char, plain_exec_item};
use crate::grammar::{
    safe_capability, safe_signal, safe_sysctl, safe_ulimit, safe_word, safe_word_chars,
};
use crate::mount::push_chars;
use crate::text::{chars_of, has_char, is_ascii_space, join, split, split_chars, split_once, split_once_chars, string_from};

verus! {

broadcast use vstd::string::group_string_axioms;

// ---------------------------------------------------------------------------------------------
// Words separated by ASCII whitespace
// ---------------------------------------------------------------------------------------------

/// `s` with every ASCII whitespace character replaced by a space.
pub open spec fn blank_to_space(s: Seq<char>) -> Seq<char> {
    s.map_values(|c: char| if is_ascii_space(c) { ' ' } else { c })
}

/// The words of `s`: its maximal runs of characters other than ASCII whitespace.
pub open spec fn ascii_words(s: Seq<char>) -> Seq<Seq<char>> {
    split(blank_to_space(s), ' ').filter(|w: Seq<char>| w.len() > 0)
}

pub(crate) fn ascii_words_of(value: &str) -> (words: Vec<Vec<char>>)
    ensures
        words@.map_values(|w: Vec<char>| w@) == ascii_words(value@),
{
    let s = chars_of(value);
    let mut mapped: Vec<char> = Vec::new();
    let mut i: usize = 0;
    while i < s.len()
        invariant
            i <= s@.len(),
            mapped@ == blank_to_space(s@.take(i as int)),
        decreases s@.len() - i,
    {
        let c = s[i];
        let blank = c == ' ' || c == '\t' || c == '\n' || c == '\u{0c}' || c == '\r';
        mapped.push(if blank { ' ' } else { c });
        assert(s@.take(i + 1) =~= s@.take(i as int).push(c));
        assert(mapped@ =~= blank_to_space(s@.take(i + 1)));
        i += 1;
    }
    assert(s@.take(s@.len() as int) =~= s@);
    let parts = split_chars(mapped.as_slice(), ' ');
    let ghost all = split(mapped@, ' ');
    assert(parts@.map_values(|c: Vec<char>| c@) =~= all);
    let mut words: Vec<Vec<char>> = Vec::new();
    let mut k: usize = 0;
    while k < parts.len()
        invariant
            k <= parts@.len(),
            parts@.map_values(|c: Vec<char>| c@) == all,
            words@.map_values(|w: Vec<char>| w@) == all.take(k as int).filter(|w: Seq<char>| w.len() > 0),
        decreases parts@.len() - k,
    {
        let ghost before = words@.map_values(|w: Vec<char>| w@);
        assert(all.take(k + 1).drop_last() =~= all.take(k as int));
        reveal_with_fuel(Seq::filter, 1);
        assert(parts@[k as int]@ == all[k as int]);
        if parts[k].len() > 0 {
            let word = parts[k].clone();
            words.push(word);
            assert(words@.map_values(|w: Vec<char>| w@) =~= before.push(all[k as int]));
        }
        k += 1;
    }
    assert(all.take(parts@.len() as int) =~= all);
    words
}

pub(crate) fn strings_of(words: &Vec<Vec<char>>) -> (strings: Vec<String>)
    ensures
        strings@.map_values(|s: String| s@) == words@.map_values(|w: Vec<char>| w@),
{
    let mut strings: Vec<String> = Vec::new();
    let mut k: usize = 0;
    while k < words.len()
        invariant
            k <= words@.len(),
            strings@.len() == k,
            forall|j: int| 0 <= j < k ==> #[trigger] strings@[j]@ == words@[j]@,
        decreases words@.len() - k,
    {
        strings.push(string_from(words[k].as_slice()));
        k += 1;
    }
    assert(strings@.map_values(|s: String| s@) =~= words@.map_values(|w: Vec<char>| w@));
    strings
}

/// Every word is a non-empty safe word.
pub open spec fn all_safe_words(words: Seq<Seq<char>>) -> bool {
    forall|k: int| 0 <= k < words.len() ==> safe_word(#[trigger] words[k], false)
}

fn all_safe_words_of(words: &Vec<Vec<char>>) -> (b: bool)
    ensures
        b == all_safe_words(words@.map_values(|w: Vec<char>| w@)),
{
    let ghost views = words@.map_values(|w: Vec<char>| w@);
    let mut k: usize = 0;
    while k < words.len()
        invariant
            k <= words@.len(),
            views == words@.map_values(|w: Vec<char>| w@),
            forall|j: int| 0 <= j < k ==> safe_word(#[trigger] views[j], false),
        decreases words@.len() - k,
    {
        assert(views[k as int] == words@[k as int]@);
        if !safe_word_chars(words[k].as_slice(), false) {
            return false;
        }
        k += 1;
    }
    true
}

fn all_safe_strings(values: &[String]) -> (b: bool)
    ensures
        b == all_safe_words(values@.map_values(|v: String| v@)),
{
    let ghost views = values@.map_values(|v: String| v@);
    let mut k: usize = 0;
    while k < values.len()
        invariant
            k <= values@.len(),
            views == values@.map_values(|v: String| v@),
            forall|j: int| 0 <= j < k ==> safe_word(#[trigger] views[j], false),
        decreases values@.len() - k,
    {
        assert(views[k as int] == values@[k as int]@);
        if !safe_word_chars(chars_of(values[k].as_str()).as_slice(), false) {
            return false;
        }
        k += 1;
    }
    true
}

fn join_with_spaces(values: &[String]) -> (text: String)
    ensures
        text@ == join(values@.map_values(|v: String| v@), ' '),
{
    let ghost views = values@.map_values(|v: String| v@);
    let mut out: Vec<char> = Vec::new();
    let mut k: usize = 0;
    assert(views.take(0) =~= Seq::<Seq<char>>::empty());
    while k < values.len()
        invariant
            k <= values@.len(),
            views == values@.map_values(|v: String| v@),
            out@ == join(views.take(k as int), ' '),
        decreases values@.len() - k,
    {
        let ghost before = out@;
        if k > 0 {
            out.push(' ');
        }
        push_chars(&mut out, chars_of(values[k].as_str()).as_slice());
        proof {
            let next = views.take(k + 1);
            assert(next.drop_last() =~= views.take(k as int));
            assert(next.last() == views[k as int]);
            if k == 0 {
                assert(next =~= seq![views[0]]);
            }
        }
        k += 1;
    }
    assert(views.take(values@.len() as int) =~= views);
    string_from(out.as_slice())
}

proof fn lemma_safe_word_has_no_blank(w: Seq<char>)
    requires
        safe_word(w, false),
    ensures
        blank_to_space(w) == w,
        !has_char(w, ' '),
{
    assert forall|i: int| 0 <= i < w.len() implies !is_ascii_space(#[trigger] w[i]) by {
        assert(crate::charset::in_set(crate::charset::Charset::Word, w[i]));
    }
    assert(blank_to_space(w) =~= w);
    if has_char(w, ' ') {
        let i = choose|i: int| 0 <= i < w.len() && w[i] == ' ';
        assert(!is_ascii_space(w[i]));
    }
}

proof fn lemma_blank_join(words: Seq<Seq<char>>)
    requires
        all_safe_words(words),
    ensures
        blank_to_space(join(words, ' ')) == join(words, ' '),
    decreases words.len(),
{
    if words.len() == 1 {
        lemma_safe_word_has_no_blank(words[0]);
    } else if words.len() > 1 {
        let init = words.drop_last();
        assert forall|k: int| 0 <= k < init.len() implies safe_word(#[trigger] init[k], false) by {
            assert(init[k] == words[k]);
        }
        lemma_blank_join(init);
        assert(safe_word(words[words.len() - 1], false));
        lemma_safe_word_has_no_blank(words.last());
        let j = join(words, ' ');
        assert(j =~= join(init, ' ').push(' ') + words.last());
        assert(blank_to_space(j) =~= j);
    }
}

proof fn lemma_filter_all_nonempty(parts: Seq<Seq<char>>)
    requires
        forall|k: int| 0 <= k < parts.len() ==> (#[trigger] parts[k]).len() > 0,
    ensures
        parts.filter(|w: Seq<char>| w.len() > 0) == parts,
    decreases parts.len(),
{
    reveal_with_fuel(Seq::filter, 1);
    if parts.len() > 0 {
        let init = parts.drop_last();
        assert forall|k: int| 0 <= k < init.len() implies (#[trigger] init[k]).len() > 0 by {
            assert(init[k] == parts[k]);
        }
        lemma_filter_all_nonempty(init);
        assert(parts[parts.len() - 1].len() > 0);
        assert(init.push(parts.last()) =~= parts);
    }
}

/// Safe words joined with spaces split back into the same words.
pub proof fn lemma_words_of_joined(words: Seq<Seq<char>>)
    requires
        words.len() > 0,
        all_safe_words(words),
    ensures
        ascii_words(join(words, ' ')) == words,
{
    lemma_blank_join(words);
    assert forall|k: int| 0 <= k < words.len() implies !has_char(#[trigger] words[k], ' ') by {
        lemma_safe_word_has_no_blank(words[k]);
    }
    crate::text::lemma_split_join(words, ' ');
    assert forall|k: int| 0 <= k < words.len() implies (#[trigger] words[k]).len() > 0 by {
        assert(safe_word(words[k], false));
    }
    lemma_filter_all_nonempty(words);
}

// ---------------------------------------------------------------------------------------------
// Commands
// ---------------------------------------------------------------------------------------------

/// A neutral container command.
#[derive(Clone, Debug, PartialEq, Eq)]
pub enum Command {
    /// An argument vector run directly.
    Exec(Vec<String>),
    /// A shell command line.
    Shell(String),
    /// An explicit instruction to clear the image command.
    Empty,
}

/// Mathematical model of a [`Command`].
pub enum CommandModel {
    Exec(Seq<Seq<char>>),
    Shell(Seq<char>),
    Empty,
}

impl View for Command {
    type V = CommandModel;

    open spec fn view(&self) -> CommandModel {
        match self {
            Command::Exec(arguments) => CommandModel::Exec(arguments@.map_values(|a: String| a@)),
            Command::Shell(line) => CommandModel::Shell(line@),
            Command::Empty => CommandModel::Empty,
        }
    }
}

/// The `Exec=` value of a command: its safe-word arguments joined with spaces.
pub open spec fn command_text(command: CommandModel) -> Result<Seq<char>, &'static str> {
    match command {
        CommandModel::Exec(arguments) => if arguments.len() > 0 && all_safe_words(arguments) {
            Ok(join(arguments, ' '))
        } else {
            Err("command arguments requiring systemd quoting are not yet encoded")
        },
        CommandModel::Shell(_) => Err("shell-form command semantics are not yet encoded for Quadlet Exec"),
        CommandModel::Empty => Err("explicit command clearing is not yet represented by the Quadlet adapter"),
    }
}

/// Writes the `Exec=` value of a command.
pub fn command_value(command: &Command) -> (value: Result<String, &'static str>)
    ensures
        match value {
            Ok(v) => command_text(command@) == Ok::<Seq<char>, &'static str>(v@),
            Err(reason) => command_text(command@) == Err::<Seq<char>, &'static str>(reason),
        },
{
    match command {
        Command::Exec(arguments) => {
            if arguments.len() > 0 && all_safe_strings(arguments.as_slice()) {
                Ok(join_with_spaces(arguments.as_slice()))
            } else {
                Err("command arguments requiring systemd quoting are not yet encoded")
            }
        },
        Command::Shell(_) => Err("shell-form command semantics are not yet encoded for Quadlet Exec"),
        Command::Empty => Err("explicit command clearing is not yet represented by the Quadlet adapter"),
    }
}

/// The arguments an `Exec=` value denotes: its whitespace-separated words, when there is at
/// least one and every word is safe.
pub open spec fn command_reading(value: Seq<char>) -> Result<Seq<Seq<char>>, &'static str> {
    let words = ascii_words(value);
    if words.len() > 0 && all_safe_words(words) {
        Ok(words)
    } else {
        Err("Exec requires systemd command-line decoding outside the exact unquoted-word subset")
    }
}

/// Reads the arguments of an `Exec=` value.
pub fn command_arguments(value: &str) -> (arguments: Result<Vec<String>, &'static str>)
    ensures
        match arguments {
            Ok(a) => command_reading(value@) == Ok::<Seq<Seq<char>>, &'static str>(a@.map_values(|s: String| s@)),
            Err(reason) => command_reading(value@) == Err::<Seq<Seq<char>>, &'static str>(reason),
        },
{
    let words = ascii_words_of(value);
    if words.len() > 0 && all_safe_words_of(&words) {
        Ok(strings_of(&words))
    } else {
        Err("Exec requires systemd command-line decoding outside the exact unquoted-word subset")
    }
}

/// An exec command written into a generated unit reads back as the same arguments.
pub proof fn lemma_command_reads_back(command: CommandModel)
    requires
        command_text(command) is Ok,
    ensures
        command matches CommandModel::Exec(arguments) && command_reading(command_text(command)->Ok_0)
            == Ok::<Seq<Seq<char>>, &'static str>(arguments),
{
    if let CommandModel::Exec(arguments) = command {
        lemma_words_of_joined(arguments);
    }
}

// ---------------------------------------------------------------------------------------------
// Entrypoints
// ---------------------------------------------------------------------------------------------

/// `"w"`: a word in double quotes.
pub open spec fn quoted_word(w: Seq<char>) -> Seq<char> {
    seq!['"'] + w + seq!['"']
}

/// The `Entrypoint=` value of an exec entrypoint: its safe-word arguments as a JSON array.
pub open spec fn entrypoint_text(arguments: Seq<Seq<char>>) -> Result<Seq<char>, &'static str> {
    if arguments.len() > 0 && all_safe_words(arguments) {
        Ok(seq!['['] + join(arguments.map_values(|a: Seq<char>| quoted_word(a)), ',') + seq![']'])
    } else {
        Err("Entrypoint is exact only for a reviewed JSON exec array")
    }
}

/// Writes the `Entrypoint=` value of an exec entrypoint.
pub fn entrypoint_value(arguments: &[String]) -> (value: Result<String, &'static str>)
    ensures
        match value {
            Ok(v) => entrypoint_text(arguments@.map_values(|a: String| a@)) == Ok::<Seq<char>, &'static str>(v@),
            Err(reason) => entrypoint_text(arguments@.map_values(|a: String| a@)) == Err::<Seq<char>, &'static str>(
                reason,
            ),
        },
{
    if arguments.len() == 0 || !all_safe_strings(arguments) {
        return Err("Entrypoint is exact only for a reviewed JSON exec array");
    }
    let ghost views = arguments@.map_values(|a: String| a@);
    let ghost quoted = views.map_values(|a: Seq<char>| quoted_word(a));
    let mut out: Vec<char> = Vec::new();
    out.push('[');
    let mut k: usize = 0;
    assert(quoted.take(0) =~= Seq::<Seq<char>>::empty());
    while k < arguments.len()
        invariant
            k <= arguments@.len(),
            views == arguments@.map_values(|a: String| a@),
            quoted == views.map_values(|a: Seq<char>| quoted_word(a)),
            views.len() > 0 && all_safe_words(views),
            out@ == seq!['['] + join(quoted.take(k as int), ','),
        decreases arguments@.len() - k,
    {
        if k > 0 {
            out.push(',');
        }
        out.push('"');
        push_chars(&mut out, chars_of(arguments[k].as_str()).as_slice());
        out.push('"');
        proof {
            let next = quoted.take(k + 1);
            assert(next.drop_last() =~= quoted.take(k as int));
            assert(next.last() == quoted_word(views[k as int]));
            if k == 0 {
                assert(next =~= seq![quoted[0]]);
            }
            assert(out@ =~= seq!['['] + join(next, ','));
        }
        k += 1;
    }
    assert(quoted.take(arguments@.len() as int) =~= quoted);
    let ghost body = out@;
    out.push(']');
    assert(out@ =~= body + seq![']']);
    Ok(string_from(out.as_slice()))
}

proof fn lemma_quoted_join(arguments: Seq<Seq<char>>)
    requires
        arguments.len() > 0,
        forall|k: int| 0 <= k < arguments.len() ==> plain_exec_item(#[trigger] arguments[k]),
    ensures
        seq!['['] + join(arguments.map_values(|a: Seq<char>| quoted_word(a)), ',') + seq![']'] == json_array(
            arguments,
        ),
    decreases arguments.len(),
{
    lemma_items_join(arguments);
}

proof fn lemma_items_join(arguments: Seq<Seq<char>>)
    requires
        arguments.len() > 0,
        forall|k: int| 0 <= k < arguments.len() ==> plain_exec_item(#[trigger] arguments[k]),
    ensures
        join(arguments.map_values(|a: Seq<char>| quoted_word(a)), ',') == crate::encode::json_items(arguments),
    decreases arguments.len(),
{
    let last = arguments.last();
    assert(plain_exec_item(arguments[arguments.len() - 1]));
    crate::encode::lemma_quoted_item(last);
    if arguments.len() == 1 {
        assert(arguments.map_values(|a: Seq<char>| quoted_word(a)) =~= seq![quoted_word(arguments[0])]);
    } else {
        let init = arguments.drop_last();
        assert forall|k: int| 0 <= k < init.len() implies plain_exec_item(#[trigger] init[k]) by {
            assert(init[k] == arguments[k]);
        }
        lemma_items_join(init);
        let q = arguments.map_values(|a: Seq<char>| quoted_word(a));
        assert(q.drop_last() =~= init.map_values(|a: Seq<char>| quoted_word(a)));
        assert(q.last() == quoted_word(last));
        assert(join(q, ',') =~= join(q.drop_last(), ',').push(',') + q.last());
        assert(crate::encode::json_items(arguments) =~= crate::encode::json_items(init) + seq![','] + json_string(
            last,
        ));
    }
}

/// An entrypoint written into a generated unit reads back as the same arguments, when no
/// argument holds a comma.
pub proof fn lemma_entrypoint_reads_back(arguments: Seq<Seq<char>>)
    requires
        entrypoint_text(arguments) is Ok,
        forall|k: int| 0 <= k < arguments.len() ==> !has_char(#[trigger] arguments[k], ','),
    ensures
        json_exec_items(entrypoint_text(arguments)->Ok_0) == Some(arguments),
{
    assert forall|k: int| 0 <= k < arguments.len() implies plain_exec_item(#[trigger] arguments[k]) by {
        let w = arguments[k];
        assert(safe_word(w, false));
        assert forall|i: int| 0 <= i < w.len() implies plain_exec_char(#[trigger] w[i]) by {
            assert(crate::charset::in_set(crate::charset::Charset::Word, w[i]));
            if w[i] == ',' {
                assert(has_char(w, ','));
            }
        }
    }
    lemma_quoted_join(arguments);
    lemma_exec_array_round_trip(arguments);
}


// ---------------------------------------------------------------------------------------------
// Reload actions
// ---------------------------------------------------------------------------------------------

/// What a service runs when asked to reload: a signal, or a command.
#[derive(Clone, Debug, PartialEq, Eq)]
pub enum ReloadAction {
    Signal(String),
    Command(Command),
}

/// Mathematical model of a [`ReloadAction`].
pub enum ReloadModel {
    Signal(Seq<char>),
    Command(CommandModel),
}

impl View for ReloadAction {
    type V = ReloadModel;

    open spec fn view(&self) -> ReloadModel {
        match self {
            ReloadAction::Signal(signal) => ReloadModel::Signal(signal@),
            ReloadAction::Command(command) => ReloadModel::Command(command@),
        }
    }
}

/// The `[Container]` key a reload action is written under.
#[derive(Clone, Copy, Debug, PartialEq, Eq, Structural)]
pub enum ReloadKey {
    /// `ReloadSignal=`.
    Signal,
    /// `ReloadCmd=`.
    Command,
}

/// The key and value written for a reload action: a safe signal as `ReloadSignal=`, or an exec
/// command of safe words as `ReloadCmd=`.
pub open spec fn reload_text(action: ReloadModel) -> Result<(ReloadKey, Seq<char>), &'static str> {
    match action {
        ReloadModel::Signal(signal) => if safe_signal(signal) {
            Ok((ReloadKey::Signal, signal))
        } else {
            Err("reload signal is not safely encodable")
        },
        ReloadModel::Command(CommandModel::Exec(arguments)) => if arguments.len() > 0 && all_safe_words(arguments) {
            Ok((ReloadKey::Command, join(arguments, ' ')))
        } else {
            Err("reload command requires unsupported systemd command-line encoding")
        },
        ReloadModel::Command(_) => Err("reload command requires unsupported systemd command-line encoding"),
    }
}

/// Writes a reload action.
pub fn reload_entry(action: &ReloadAction) -> (entry: Result<(ReloadKey, String), &'static str>)
    ensures
        match entry {
            Ok((key, value)) => reload_text(action@) == Ok::<(ReloadKey, Seq<char>), &'static str>((key, value@)),
            Err(reason) => reload_text(action@) == Err::<(ReloadKey, Seq<char>), &'static str>(reason),
        },
{
    match action {
        ReloadAction::Signal(signal) => {
            if crate::grammar::is_safe_stop_signal(signal.as_str()) {
                Ok((ReloadKey::Signal, string_from(chars_of(signal.as_str()).as_slice())))
            } else {
                Err("reload signal is not safely encodable")
            }
        },
        ReloadAction::Command(Command::Exec(arguments)) => {
            if arguments.len() > 0 && all_safe_strings(arguments.as_slice()) {
                Ok((ReloadKey::Command, join_with_spaces(arguments.as_slice())))
            } else {
                Err("reload command requires unsupported systemd command-line encoding")
            }
        },
        ReloadAction::Command(_) => Err("reload command requires unsupported systemd command-line encoding"),
    }
}

/// The reload action a `ReloadCmd=` (`key` is `Command`) or `ReloadSignal=` value denotes, given
/// whether the service already has one: a second reload action is refused; a command must be
/// non-empty safe words; a signal is kept as written.
pub open spec fn reload_reading(value: Seq<char>, key: ReloadKey, already_set: bool) -> Result<ReloadModel, &'static str> {
    if already_set {
        Err("ReloadCmd and ReloadSignal are mutually exclusive")
    } else if key == ReloadKey::Command {
        match command_reading(value) {
            Ok(arguments) => Ok(ReloadModel::Command(CommandModel::Exec(arguments))),
            Err(_) => Err("ReloadCmd requires unsupported systemd command-line decoding"),
        }
    } else {
        Ok(ReloadModel::Signal(value))
    }
}

/// Reads a `ReloadCmd=` or `ReloadSignal=` value.
pub fn reload_action_reading(value: &str, key: ReloadKey, already_set: bool) -> (action: Result<
    ReloadAction,
    &'static str,
>)
    ensures
        match action {
            Ok(a) => reload_reading(value@, key, already_set) == Ok::<ReloadModel, &'static str>(a@),
            Err(reason) => reload_reading(value@, key, already_set) == Err::<ReloadModel, &'static str>(reason),
        },
{
    if already_set {
        return Err("ReloadCmd and ReloadSignal are mutually exclusive");
    }
    match key {
        ReloadKey::Command => match command_arguments(value) {
            Ok(arguments) => Ok(ReloadAction::Command(Command::Exec(arguments))),
            Err(_) => Err("ReloadCmd requires unsupported systemd command-line decoding"),
        },
        ReloadKey::Signal => Ok(ReloadAction::Signal(string_from(chars_of(value).as_slice()))),
    }
}

/// A reload action written into a generated unit reads back as itself under the key it was
/// written with, when the service has no other reload action.
pub proof fn lemma_reload_reads_back(action: ReloadModel)
    requires
        reload_text(action) is Ok,
    ensures
        reload_reading(reload_text(action)->Ok_0.1, reload_text(action)->Ok_0.0, false) == Ok::<
            ReloadModel,
            &'static str,
        >(action),
{
    if let ReloadModel::Command(CommandModel::Exec(arguments)) = action {
        lemma_words_of_joined(arguments);
    }
}

// ---------------------------------------------------------------------------------------------
// Restart policies
// ---------------------------------------------------------------------------------------------

/// A neutral container restart policy.
#[derive(Clone, Copy, Debug, PartialEq, Eq, Structural)]
pub enum RestartPolicy {
    Never,
    Always,
    OnFailure { maximum_retries: Option<u32> },
    UnlessStopped,
}

/// The `Restart=` value written for a policy and the approximation it carries, or why it cannot
/// be written.
pub open spec fn restart_text(policy: RestartPolicy) -> Result<(Seq<char>, Option<&'static str>), &'static str> {
    match policy {
        RestartPolicy::Never => Ok(("no"@, None)),
        RestartPolicy::Always => Ok(
            ("always"@, Some("systemd does not reproduce every runtime-specific activation gate and daemon-restart rule")),
        ),
        RestartPolicy::OnFailure { maximum_retries: Some(_) } => Err(
            "a finite container restart count has no equivalent in Restart=; systemd start-rate limits use different time-window semantics",
        ),
        RestartPolicy::OnFailure { maximum_retries: None } => Ok(
            (
                "on-failure"@,
                Some("systemd on-failure also covers selected signals, timeouts, watchdog failures, and OOM termination"),
            ),
        ),
        RestartPolicy::UnlessStopped => Ok(
            (
                "always"@,
                Some(
                    "systemd manual-stop handling cannot retain source-runtime unless-stopped state across runtime or host restarts",
                ),
            ),
        ),
    }
}

/// Writes the `Restart=` value of a policy with its approximation.
pub fn restart_value(policy: RestartPolicy) -> (value: Result<(&'static str, Option<&'static str>), &'static str>)
    ensures
        match value {
            Ok((v, approximation)) => restart_text(policy) == Ok::<(Seq<char>, Option<&'static str>), &'static str>(
                (v@, approximation),
            ),
            Err(reason) => restart_text(policy) == Err::<(Seq<char>, Option<&'static str>), &'static str>(reason),
        },
{
    match policy {
        RestartPolicy::Never => Ok(("no", None)),
        RestartPolicy::Always => Ok(
            ("always", Some("systemd does not reproduce every runtime-specific activation gate and daemon-restart rule")),
        ),
        RestartPolicy::OnFailure { maximum_retries: Some(_) } => Err(
            "a finite container restart count has no equivalent in Restart=; systemd start-rate limits use different time-window semantics",
        ),
        RestartPolicy::OnFailure { maximum_retries: None } => Ok(
            (
                "on-failure",
                Some("systemd on-failure also covers selected signals, timeouts, watchdog failures, and OOM termination"),
            ),
        ),
        RestartPolicy::UnlessStopped => Ok(
            (
                "always",
                Some(
                    "systemd manual-stop handling cannot retain source-runtime unless-stopped state across runtime or host restarts",
                ),
            ),
        ),
    }
}

/// The policy a `Restart=` value denotes and the approximation it carries: `no`, `always`, and
/// `on-failure` are read; any other value has no faithful neutral form.
pub open spec fn restart_reading(value: Seq<char>) -> Result<(RestartPolicy, Option<&'static str>), &'static str> {
    if value == "no"@ {
        Ok((RestartPolicy::Never, None))
    } else if value == "always"@ {
        Ok(
            (
                RestartPolicy::Always,
                Some(
                    "systemd restarts the complete generated service and has different activation and manual-stop behavior",
                ),
            ),
        )
    } else if value == "on-failure"@ {
        Ok(
            (
                RestartPolicy::OnFailure { maximum_retries: None },
                Some("systemd on-failure also covers selected signals, timeouts, watchdog failures, and OOM termination"),
            ),
        )
    } else {
        Err("Restart value has no faithful neutral container restart-policy representation")
    }
}

/// Reads a `Restart=` value.
pub fn restart_policy_reading(value: &str) -> (policy: Result<(RestartPolicy, Option<&'static str>), &'static str>)
    ensures
        policy == restart_reading(value@),
{
    let s = chars_of(value);
    let no = chars_of("no");
    let always = chars_of("always");
    let on_failure = chars_of("on-failure");
    if crate::text::same_chars(s.as_slice(), no.as_slice()) {
        Ok((RestartPolicy::Never, None))
    } else if crate::text::same_chars(s.as_slice(), always.as_slice()) {
        Ok(
            (
                RestartPolicy::Always,
                Some(
                    "systemd restarts the complete generated service and has different activation and manual-stop behavior",
                ),
            ),
        )
    } else if crate::text::same_chars(s.as_slice(), on_failure.as_slice()) {
        Ok(
            (
                RestartPolicy::OnFailure { maximum_retries: None },
                Some("systemd on-failure also covers selected signals, timeouts, watchdog failures, and OOM termination"),
            ),
        )
    } else {
        Err("Restart value has no faithful neutral container restart-policy representation")
    }
}

/// A restart policy written into a generated unit reads back as itself, except that
/// `unless-stopped` reads back as `always`.
pub proof fn lemma_restart_reads_back(policy: RestartPolicy)
    requires
        restart_text(policy) is Ok,
    ensures
        restart_reading(restart_text(policy)->Ok_0.0) is Ok,
        restart_reading(restart_text(policy)->Ok_0.0)->Ok_0.0 == if policy == RestartPolicy::UnlessStopped {
            RestartPolicy::Always
        } else {
            policy
        },
{
    reveal_strlit("no");
    reveal_strlit("always");
    reveal_strlit("on-failure");
    assert("no"@.len() == 2 && "always"@.len() == 6 && "on-failure"@.len() == 10);
    match policy {
        RestartPolicy::Never => {
            assert(restart_text(policy)->Ok_0.0 == "no"@);
        },
        RestartPolicy::Always | RestartPolicy::UnlessStopped => {
            assert(restart_text(policy)->Ok_0.0 == "always"@);
            assert("always"@ != "no"@);
        },
        RestartPolicy::OnFailure { .. } => {
            assert(restart_text(policy)->Ok_0.0 == "on-failure"@);
            assert("on-failure"@ != "no"@ && "on-failure"@ != "always"@);
        },
    }
}

// ---------------------------------------------------------------------------------------------
// Capability lists, kernel parameters, resource limits
// ---------------------------------------------------------------------------------------------

/// How an `AddCapability=` or `DropCapability=` value is read.
#[derive(Clone, Debug, PartialEq, Eq)]
pub enum CapabilityReading {
    /// An empty value resets the effective list.
    Reset,
    /// A whitespace-separated list of safe capability names, read exactly.
    Names(Vec<String>),
    /// Any other value, retained as written.
    Retained(String),
}

/// Mathematical model of a [`CapabilityReading`].
pub enum CapabilityModel {
    Reset,
    Names(Seq<Seq<char>>),
    Retained(Seq<char>),
}

impl View for CapabilityReading {
    type V = CapabilityModel;

    open spec fn view(&self) -> CapabilityModel {
        match self {
            CapabilityReading::Reset => CapabilityModel::Reset,
            CapabilityReading::Names(names) => CapabilityModel::Names(names@.map_values(|n: String| n@)),
            CapabilityReading::Retained(value) => CapabilityModel::Retained(value@),
        }
    }
}

/// Every word is a safe capability name.
pub open spec fn all_capabilities(words: Seq<Seq<char>>) -> bool {
    forall|k: int| 0 <= k < words.len() ==> safe_capability(#[trigger] words[k])
}

/// The reading of a capability value.
pub open spec fn capability_list(value: Seq<char>) -> CapabilityModel {
    if value.len() == 0 {
        CapabilityModel::Reset
    } else if all_capabilities(ascii_words(value)) {
        CapabilityModel::Names(ascii_words(value))
    } else {
        CapabilityModel::Retained(value)
    }
}

/// Reads an `AddCapability=` or `DropCapability=` value.
pub fn capability_list_reading(value: &str) -> (reading: CapabilityReading)
    ensures
        reading@ == capability_list(value@),
{
    let s = chars_of(value);
    if s.len() == 0 {
        return CapabilityReading::Reset;
    }
    let words = ascii_words_of(value);
    let ghost views = words@.map_values(|w: Vec<char>| w@);
    let mut k: usize = 0;
    while k < words.len()
        invariant
            k <= words@.len(),
            views == words@.map_values(|w: Vec<char>| w@),
            views == ascii_words(value@),
            s@ == value@ && s@.len() > 0,
            forall|j: int| 0 <= j < k ==> safe_capability(#[trigger] views[j]),
        decreases words@.len() - k,
    {
        assert(views[k as int] == words@[k as int]@);
        if !crate::grammar::is_safe_capability(string_from(words[k].as_slice()).as_str()) {
            return CapabilityReading::Retained(string_from(s.as_slice()));
        }
        k += 1;
    }
    CapabilityReading::Names(strings_of(&words))
}

/// The `Sysctl=` value `name=value`, when the assignment is safe.
pub open spec fn sysctl_text(name: Seq<char>, value: Seq<char>) -> Option<Seq<char>> {
    if safe_sysctl(name, value) {
        Some(crate::secret::assignment(name, value))
    } else {
        None
    }
}

/// Writes a kernel parameter as `name=value`, when the assignment is safe.
pub fn sysctl_value(name: &str, value: &str) -> (text: Option<String>)
    ensures
        match text {
            Some(t) => sysctl_text(name@, value@) == Some(t@),
            None => sysctl_text(name@, value@) is None,
        },
{
    if !crate::grammar::is_safe_sysctl(name, value) {
        return None;
    }
    let mut out: Vec<char> = Vec::new();
    push_chars(&mut out, chars_of(name).as_slice());
    out.push('=');
    push_chars(&mut out, chars_of(value).as_slice());
    Some(string_from(out.as_slice()))
}

/// The name and value of a `Sysctl=` assignment, split at the first `=`.
pub fn sysctl_parts(value: &str) -> (parts: Result<(String, String), &'static str>)
    ensures
        match parts {
            Ok((n, v)) => split_once(value@, '=') == Some((n@, v@)),
            Err(reason) => split_once(value@, '=') is None && reason == "Sysctl must contain one NAME=VALUE assignment",
        },
{
    match split_once_chars(chars_of(value).as_slice(), '=') {
        Some((name, rest)) => Ok((string_from(name.as_slice()), string_from(rest.as_slice()))),
        None => Err("Sysctl must contain one NAME=VALUE assignment"),
    }
}

/// The `Ulimit=` value `name=soft:hard`, when the limit is safe.
pub open spec fn ulimit_text(name: Seq<char>, soft: Seq<char>, hard: Seq<char>) -> Option<Seq<char>> {
    if safe_ulimit(name, soft, hard) {
        Some(name + seq!['='] + soft + seq![':'] + hard)
    } else {
        None
    }
}

/// Writes a resource limit as `name=soft:hard`, when the limit is safe.
pub fn ulimit_value(name: &str, soft: &str, hard: &str) -> (text: Option<String>)
    ensures
        match text {
            Some(t) => ulimit_text(name@, soft@, hard@) == Some(t@),
            None => ulimit_text(name@, soft@, hard@) is None,
        },
{
    if !crate::grammar::is_safe_ulimit(name, soft, hard) {
        return None;
    }
    let mut out: Vec<char> = Vec::new();
    push_chars(&mut out, chars_of(name).as_slice());
    out.push('=');
    push_chars(&mut out, chars_of(soft).as_slice());
    out.push(':');
    push_chars(&mut out, chars_of(hard).as_slice());
    Some(string_from(out.as_slice()))
}

/// The name, soft, and hard limit of a `Ulimit=` value: split at the first `=`, then the rest at
/// its first `:`.
pub open spec fn ulimit_reading(value: Seq<char>) -> Result<(Seq<char>, Seq<char>, Seq<char>), &'static str> {
    match split_once(value, '=') {
        None => Err("Ulimit must contain NAME=SOFT:HARD"),
        Some((name, limits)) => match split_once(limits, ':') {
            None => Err("Ulimit must contain NAME=SOFT:HARD"),
            Some((soft, hard)) => Ok((name, soft, hard)),
        },
    }
}

/// Reads the parts of a `Ulimit=` value.
pub fn ulimit_parts(value: &str) -> (parts: Result<(String, String, String), &'static str>)
    ensures
        match parts {
            Ok((n, s, h)) => ulimit_reading(value@) == Ok::<(Seq<char>, Seq<char>, Seq<char>), &'static str>(
                (n@, s@, h@),
            ),
            Err(reason) => ulimit_reading(value@) == Err::<(Seq<char>, Seq<char>, Seq<char>), &'static str>(reason),
        },
{
    let (name, limits) = match split_once_chars(chars_of(value).as_slice(), '=') {
        Some(parts) => parts,
        None => {
            return Err("Ulimit must contain NAME=SOFT:HARD");
        },
    };
    match split_once_chars(limits.as_slice(), ':') {
        Some((soft, hard)) => Ok(
            (string_from(name.as_slice()), string_from(soft.as_slice()), string_from(hard.as_slice())),
        ),
        None => Err("Ulimit must contain NAME=SOFT:HARD"),
    }
}

proof fn lemma_split_once_at(a: Seq<char>, b: Seq<char>, sep: char)
    requires
        !has_char(a, sep),
    ensures
        split_once(a + seq![sep] + b, sep) == Some((a, b)),
{
    crate::text::lemma_split_concat(a, b, sep);
    crate::text::lemma_split_single(a, sep);
    crate::text::lemma_split_nonempty(b, sep);
    assert((a + seq![sep] + b).skip(a.len() as int + 1) =~= b);
}

proof fn lemma_no_char_in_limit(s: Seq<char>, c: char)
    requires
        crate::grammar::safe_limit_value(s),
        c == ':' || c == '=',
    ensures
        !has_char(s, c),
{
    if has_char(s, c) {
        let i = choose|i: int| 0 <= i < s.len() && s[i] == c;
        if s =~= seq!['-', '1'] {
            assert(s[0] == '-' && s[1] == '1');
        } else if s =~= seq!['0'] {
            assert(s[0] == '0');
        } else {
            let digits = if s.len() > 0 && s[0] == '+' { s.drop_first() } else { s };
            if s.len() > 0 && s[0] == '+' {
                if i > 0 {
                    assert(digits[i - 1] == s[i]);
                    assert(crate::text::is_digit(digits[i - 1]));
                }
            } else {
                assert(crate::text::is_digit(digits[i]));
            }
        }
    }
}

/// A resource limit written into a generated unit reads back as the same name and limits.
pub proof fn lemma_ulimit_reads_back(name: Seq<char>, soft: Seq<char>, hard: Seq<char>)
    requires
        ulimit_text(name, soft, hard) is Some,
    ensures
        ulimit_reading(ulimit_text(name, soft, hard)->Some_0) == Ok::<
            (Seq<char>, Seq<char>, Seq<char>),
            &'static str,
        >((name, soft, hard)),
{
    assert(!has_char(name, '=')) by {
        if has_char(name, '=') {
            let i = choose|i: int| 0 <= i < name.len() && name[i] == '=';
            assert(crate::charset::in_set(crate::charset::Charset::Lowercase, name[i]));
        }
    }
    lemma_no_char_in_limit(soft, ':');
    let text = name + seq!['='] + soft + seq![':'] + hard;
    assert(text =~= name + seq!['='] + (soft + seq![':'] + hard));
    lemma_split_once_at(name, soft + seq![':'] + hard, '=');
    lemma_split_once_at(soft, hard, ':');
}

/// A kernel parameter written into a generated unit splits back into the same name and value.
pub proof fn lemma_sysctl_reads_back(name: Seq<char>, value: Seq<char>)
    requires
        sysctl_text(name, value) is Some,
    ensures
        split_once(sysctl_text(name, value)->Some_0, '=') == Some((name, value)),
{
    lemma_split_once_at(name, value, '=');
}

} // verus!
