//! A container's health check as a whole: the `HealthCmd=`, `HealthInterval=`, `HealthTimeout=`,
//! `HealthRetries=` and `HealthStartPeriod=` entries written for it, and how those entries are
//! read back.

use vstd::prelude::*;
use crate::encode::json_array;
use crate::grammar::{decimal, is_decimal, is_safe_health_scalar, safe_health_scalar};
use crate::health::{
    encode_health_command, decode_health_command, health_arguments, health_command_reading, json_string_list,
    lemma_health_command_reads_back, HealthCommandModel, HealthcheckCommand,
};
use crate::issue::ValueIssue;
use crate::scalar::{is_podman_health_duration, number_run_len, podman_health_duration};
use crate::text::{chars_of, has_char, same_chars};

verus! {

broadcast use vstd::string::group_string_axioms;

/// The health-check entries of a container unit.
#[derive(Clone, Copy, Debug, PartialEq, Eq, Structural)]
pub enum HealthKey {
    /// `HealthCmd=`.
    Command,
    /// `HealthInterval=`.
    Interval,
    /// `HealthTimeout=`.
    Timeout,
    /// `HealthRetries=`.
    Retries,
    /// `HealthStartPeriod=`.
    StartPeriod,
}

impl HealthKey {
    /// The entry's key as written in a unit file.
    pub fn key(self) -> (key: &'static str)
        ensures
            key@ == match self {
                HealthKey::Command => "HealthCmd"@,
                HealthKey::Interval => "HealthInterval"@,
                HealthKey::Timeout => "HealthTimeout"@,
                HealthKey::Retries => "HealthRetries"@,
                HealthKey::StartPeriod => "HealthStartPeriod"@,
            },
    {
        match self {
            HealthKey::Command => "HealthCmd",
            HealthKey::Interval => "HealthInterval",
            HealthKey::Timeout => "HealthTimeout",
            HealthKey::Retries => "HealthRetries",
            HealthKey::StartPeriod => "HealthStartPeriod",
        }
    }
}

/// The part of a health check that an outcome is about.
#[derive(Clone, Copy, Debug, PartialEq, Eq, Structural)]
pub enum HealthSubject {
    /// The health check as a whole.
    Healthcheck,
    /// Its test command.
    Test,
    Interval,
    Timeout,
    Retries,
    StartPeriod,
    StartInterval,
}

impl HealthSubject {
    /// The subject's path below a service: `healthcheck` or `healthcheck.` and the field.
    pub fn path(self) -> (path: &'static str)
        ensures
            path@ == match self {
                HealthSubject::Healthcheck => "healthcheck"@,
                HealthSubject::Test => "healthcheck.test"@,
                HealthSubject::Interval => "healthcheck.interval"@,
                HealthSubject::Timeout => "healthcheck.timeout"@,
                HealthSubject::Retries => "healthcheck.retries"@,
                HealthSubject::StartPeriod => "healthcheck.start_period"@,
                HealthSubject::StartInterval => "healthcheck.start_interval"@,
            },
    {
        match self {
            HealthSubject::Healthcheck => "healthcheck",
            HealthSubject::Test => "healthcheck.test",
            HealthSubject::Interval => "healthcheck.interval",
            HealthSubject::Timeout => "healthcheck.timeout",
            HealthSubject::Retries => "healthcheck.retries",
            HealthSubject::StartPeriod => "healthcheck.start_period",
            HealthSubject::StartInterval => "healthcheck.start_interval",
        }
    }
}

/// A service's health check.
#[derive(Clone, Debug, PartialEq, Eq)]
pub struct HealthSettings {
    /// Whether the health check is explicitly disabled (`true`) or enabled (`false`).
    pub disabled: Option<bool>,
    pub command: Option<HealthcheckCommand>,
    pub interval: Option<String>,
    pub timeout: Option<String>,
    pub retries: Option<String>,
    pub start_period: Option<String>,
    pub start_interval: Option<String>,
}

/// Mathematical model of [`HealthSettings`].
#[verifier::ext_equal]
pub struct HealthModel {
    pub disabled: Option<bool>,
    pub command: Option<HealthCommandModel>,
    pub interval: Option<Seq<char>>,
    pub timeout: Option<Seq<char>>,
    pub retries: Option<Seq<char>>,
    pub start_period: Option<Seq<char>>,
    pub start_interval: Option<Seq<char>>,
}

/// The view of an optional string.
pub open spec fn opt_view(value: Option<String>) -> Option<Seq<char>> {
    match value {
        Some(v) => Some(v@),
        None => None,
    }
}

impl View for HealthSettings {
    type V = HealthModel;

    open spec fn view(&self) -> HealthModel {
        HealthModel {
            disabled: self.disabled,
            command: match self.command {
                Some(c) => Some(c@),
                None => None,
            },
            interval: opt_view(self.interval),
            timeout: opt_view(self.timeout),
            retries: opt_view(self.retries),
            start_period: opt_view(self.start_period),
            start_interval: opt_view(self.start_interval),
        }
    }
}

/// No setting made.
pub open spec fn unset_health() -> HealthModel {
    HealthModel {
        disabled: None,
        command: None,
        interval: None,
        timeout: None,
        retries: None,
        start_period: None,
        start_interval: None,
    }
}

impl HealthSettings {
    /// No setting made.
    pub fn new() -> (settings: Self)
        ensures
            settings@ == unset_health(),
    {
        HealthSettings {
            disabled: None,
            command: None,
            interval: None,
            timeout: None,
            retries: None,
            start_period: None,
            start_interval: None,
        }
    }
}

/// The `HealthCmd=` value that disables the health check: `none`.
pub open spec fn health_none() -> Seq<char> {
    seq!['n', 'o', 'n', 'e']
}

/// The `HealthInterval=` value that disables the automatic health timer: `disable`.
pub open spec fn timer_disable() -> Seq<char> {
    seq!['d', 'i', 's', 'a', 'b', 'l', 'e']
}

/// The subject an entry's value is about.
pub open spec fn key_subject(key: HealthKey) -> HealthSubject {
    match key {
        HealthKey::Command => HealthSubject::Test,
        HealthKey::Interval => HealthSubject::Interval,
        HealthKey::Timeout => HealthSubject::Timeout,
        HealthKey::Retries => HealthSubject::Retries,
        HealthKey::StartPeriod => HealthSubject::StartPeriod,
    }
}

/// One step of writing a health check.
#[derive(Clone, Debug, PartialEq, Eq)]
pub enum HealthEntryPlan {
    /// The entry is written.
    Write(HealthKey, String),
    /// The setting is not carried, for this reason.
    Unsupported(HealthSubject, &'static str),
    /// The setting is invalid, for this reason.
    Invalid(HealthSubject, &'static str),
}

/// Mathematical model of a [`HealthEntryPlan`].
pub enum HealthPlanModel {
    Write(HealthKey, Seq<char>),
    Unsupported(HealthSubject, Seq<char>),
    Invalid(HealthSubject, Seq<char>),
}

impl View for HealthEntryPlan {
    type V = HealthPlanModel;

    open spec fn view(&self) -> HealthPlanModel {
        match self {
            HealthEntryPlan::Write(key, value) => HealthPlanModel::Write(*key, value@),
            HealthEntryPlan::Unsupported(subject, reason) => HealthPlanModel::Unsupported(*subject, reason@),
            HealthEntryPlan::Invalid(subject, reason) => HealthPlanModel::Invalid(*subject, reason@),
        }
    }
}

/// The views of a plan.
pub open spec fn plan_view(plan: Seq<HealthEntryPlan>) -> Seq<HealthPlanModel> {
    plan.map_values(|p: HealthEntryPlan| p@)
}

/// A scalar that can be written: a safe health scalar that is a Podman duration (`duration`) or
/// a decimal retry count.
pub open spec fn health_scalar_ok(value: Seq<char>, duration: bool) -> bool {
    safe_health_scalar(value) && if duration {
        podman_health_duration(value)
    } else {
        decimal(value)
    }
}

/// Writing `HealthCmd=none` for an explicitly disabled health check.
pub open spec fn disable_step(m: HealthModel) -> Seq<HealthPlanModel> {
    if m.disabled == Some(true) {
        seq![HealthPlanModel::Write(HealthKey::Command, health_none())]
    } else {
        Seq::empty()
    }
}

/// Writing the test command as its JSON list, or reporting why it cannot be.
pub open spec fn command_step(m: HealthModel) -> Seq<HealthPlanModel> {
    match m.command {
        None => Seq::empty(),
        Some(c) => match health_arguments(c) {
            Ok(a) => seq![HealthPlanModel::Write(HealthKey::Command, json_array(a))],
            Err(ValueIssue::Invalid(r)) => seq![HealthPlanModel::Invalid(HealthSubject::Test, r@)],
            Err(ValueIssue::Unsupported(r)) => seq![HealthPlanModel::Unsupported(HealthSubject::Test, r@)],
        },
    }
}

/// Writing one scalar entry, or reporting it as not valid for the target.
pub open spec fn scalar_step(key: HealthKey, value: Option<Seq<char>>, duration: bool) -> Seq<HealthPlanModel> {
    match value {
        None => Seq::empty(),
        Some(v) => if health_scalar_ok(v, duration) {
            seq![HealthPlanModel::Write(key, v)]
        } else {
            seq![
                HealthPlanModel::Unsupported(
                    key_subject(key),
                    "health-check scalar is not valid for the selected Podman target"@,
                ),
            ]
        },
    }
}

/// The start interval has no entry.
pub open spec fn start_interval_step(m: HealthModel) -> Seq<HealthPlanModel> {
    match m.start_interval {
        None => Seq::empty(),
        Some(_) => seq![
            HealthPlanModel::Unsupported(
                HealthSubject::StartInterval,
                "Quadlet has no native HealthStartInterval key and no verified fallback is enabled"@,
            ),
        ],
    }
}

/// The steps of writing health check `m`. A health check both disabled and given a command is
/// invalid as a whole. Otherwise, in order: `HealthCmd=none` when disabled; the command's JSON
/// list; the interval, timeout, retry count and start period when valid; and a report for the
/// start interval, which has no entry.
pub open spec fn health_plan(m: HealthModel) -> Seq<HealthPlanModel> {
    if m.disabled == Some(true) && m.command is Some {
        seq![
            HealthPlanModel::Invalid(
                HealthSubject::Healthcheck,
                "health check cannot be both disabled and assigned a command"@,
            ),
        ]
    } else {
        disable_step(m) + command_step(m) + scalar_step(HealthKey::Interval, m.interval, true) + scalar_step(
            HealthKey::Timeout,
            m.timeout,
            true,
        ) + scalar_step(HealthKey::Retries, m.retries, false) + scalar_step(
            HealthKey::StartPeriod,
            m.start_period,
            true,
        ) + start_interval_step(m)
    }
}

fn plan_command(plan: &mut Vec<HealthEntryPlan>, settings: &HealthSettings)
    ensures
        plan_view(final(plan)@) == plan_view(old(plan)@) + command_step(settings@),
{
    let ghost before = plan_view(plan@);
    match &settings.command {
        Some(command) => match encode_health_command(command) {
            Ok(encoded) => plan.push(HealthEntryPlan::Write(HealthKey::Command, encoded)),
            Err(ValueIssue::Invalid(reason)) => plan.push(HealthEntryPlan::Invalid(HealthSubject::Test, reason)),
            Err(ValueIssue::Unsupported(reason)) => plan.push(
                HealthEntryPlan::Unsupported(HealthSubject::Test, reason),
            ),
        },
        None => {},
    }
    assert(plan_view(plan@) =~= before + command_step(settings@));
}

fn scalar_valid(value: &str, duration: bool) -> (ok: bool)
    ensures
        ok == health_scalar_ok(value@, duration),
{
    is_safe_health_scalar(value) && if duration {
        is_podman_health_duration(value)
    } else {
        is_decimal(value)
    }
}

fn plan_scalar(plan: &mut Vec<HealthEntryPlan>, key: HealthKey, value: &Option<String>, duration: bool)
    requires
        key != HealthKey::Command,
    ensures
        plan_view(final(plan)@) == plan_view(old(plan)@) + scalar_step(key, opt_view(*value), duration),
{
    let ghost before = plan_view(plan@);
    match value {
        Some(v) => {
            if scalar_valid(v.as_str(), duration) {
                plan.push(HealthEntryPlan::Write(key, v.clone()));
            } else {
                let subject = match key {
                    HealthKey::Interval => HealthSubject::Interval,
                    HealthKey::Timeout => HealthSubject::Timeout,
                    HealthKey::Retries => HealthSubject::Retries,
                    _ => HealthSubject::StartPeriod,
                };
                plan.push(
                    HealthEntryPlan::Unsupported(subject, "health-check scalar is not valid for the selected Podman target"),
                );
            }
        },
        None => {},
    }
    assert(plan_view(plan@) =~= before + scalar_step(key, opt_view(*value), duration));
}

/// Plans the entries of health check `settings`.
pub fn plan_health_entries(settings: &HealthSettings) -> (plan: Vec<HealthEntryPlan>)
    ensures
        plan_view(plan@) == health_plan(settings@),
{
    let mut plan: Vec<HealthEntryPlan> = Vec::new();
    let disabled = match settings.disabled {
        Some(d) => d,
        None => false,
    };
    if disabled && settings.command.is_some() {
        plan.push(
            HealthEntryPlan::Invalid(HealthSubject::Healthcheck, "health check cannot be both disabled and assigned a command"),
        );
        assert(plan_view(plan@) =~= health_plan(settings@));
        return plan;
    }
    if disabled {
        proof {
            reveal_strlit("none");
        }
        let none = "none".to_string();
        assert(none@ =~= health_none());
        plan.push(HealthEntryPlan::Write(HealthKey::Command, none));
    }
    assert(plan_view(plan@) =~= disable_step(settings@));
    plan_command(&mut plan, settings);
    plan_scalar(&mut plan, HealthKey::Interval, &settings.interval, true);
    plan_scalar(&mut plan, HealthKey::Timeout, &settings.timeout, true);
    plan_scalar(&mut plan, HealthKey::Retries, &settings.retries, false);
    plan_scalar(&mut plan, HealthKey::StartPeriod, &settings.start_period, true);
    let ghost before = plan_view(plan@);
    match &settings.start_interval {
        Some(_) => plan.push(
            HealthEntryPlan::Unsupported(
                HealthSubject::StartInterval,
                "Quadlet has no native HealthStartInterval key and no verified fallback is enabled",
            ),
        ),
        None => {},
    }
    assert(plan_view(plan@) =~= before + start_interval_step(settings@));
    plan
}

/// What reading one health-check entry did.
#[derive(Clone, Copy, Debug, PartialEq, Eq)]
pub enum HealthReading {
    /// The setting was read exactly.
    Exact,
    /// The entry came again; nothing was read.
    Duplicate,
    /// The value is well formed but has no exact reading, for this reason; nothing was read.
    Unsupported(&'static str),
    /// The value is malformed, for this reason; nothing was read.
    Invalid(&'static str),
}

impl HealthReading {
    /// Why the entry does not read exactly; `None` when it does.
    pub fn reason(&self) -> (reason: Option<&'static str>)
        ensures
            match *self {
                HealthReading::Exact => reason is None,
                HealthReading::Duplicate => reason matches Some(r) && r@
                    == "Quadlet singleton key is declared more than once"@,
                HealthReading::Unsupported(r) => reason == Some(r),
                HealthReading::Invalid(r) => reason == Some(r),
            },
    {
        match self {
            HealthReading::Exact => None,
            HealthReading::Duplicate => Some("Quadlet singleton key is declared more than once"),
            HealthReading::Unsupported(r) => Some(*r),
            HealthReading::Invalid(r) => Some(*r),
        }
    }
}

/// A decoder of `HealthCmd=` JSON lists: what it makes of a value, `None` when it is no list of
/// strings.
pub type ListDecoder = spec_fn(Seq<char>) -> Option<Seq<Seq<char>>>;

/// The decoder that reading uses: `serde_json`'s.
pub open spec fn serde_decoder() -> ListDecoder {
    |text: Seq<char>| json_string_list(text)
}

/// What a duration entry's value reads as: the duration itself, or why not.
pub open spec fn duration_reading(value: Seq<char>) -> Result<Seq<char>, HealthReading> {
    if value == timer_disable() {
        Err(
            HealthReading::Unsupported(
                "a disabled automatic health timer is distinct from disabling the health check and has no neutral field",
            ),
        )
    } else if !podman_health_duration(value) {
        Err(HealthReading::Invalid("health duration is not a supported Podman duration spelling"))
    } else {
        Ok(value)
    }
}

/// `m` with the duration of entry `key` set to `value`.
pub open spec fn with_duration(m: HealthModel, key: HealthKey, value: Seq<char>) -> HealthModel {
    match key {
        HealthKey::Interval => HealthModel { interval: Some(value), ..m },
        HealthKey::Timeout => HealthModel { timeout: Some(value), ..m },
        _ => HealthModel { start_period: Some(value), ..m },
    }
}

/// What reading entry `key` with value `value` makes of `m` and the entries `seen`, and how it
/// reads, when `decode` decodes JSON lists. Every health entry is single: one that came before
/// is a duplicate. `HealthCmd=none` disables the health check; any other command value is read
/// as a command. A duration must be a Podman duration, and `disable` is not carried. A retry
/// count must be a non-negative decimal.
pub open spec fn health_after_entry(
    m: HealthModel,
    seen: Seq<HealthKey>,
    key: HealthKey,
    value: Seq<char>,
    decode: ListDecoder,
) -> (HealthModel, Seq<HealthKey>, HealthReading) {
    if seen.contains(key) {
        (m, seen, HealthReading::Duplicate)
    } else {
        let seen1 = seen.push(key);
        match key {
            HealthKey::Command => if value == health_none() {
                (HealthModel { disabled: Some(true), ..m }, seen1, HealthReading::Exact)
            } else {
                match health_command_reading(value, decode(value)) {
                    Ok(c) => (HealthModel { command: Some(c), ..m }, seen1, HealthReading::Exact),
                    Err(ValueIssue::Unsupported(r)) => (m, seen1, HealthReading::Unsupported(r)),
                    Err(ValueIssue::Invalid(r)) => (m, seen1, HealthReading::Invalid(r)),
                }
            },
            HealthKey::Retries => if decimal(value) {
                (HealthModel { retries: Some(value), ..m }, seen1, HealthReading::Exact)
            } else {
                (m, seen1, HealthReading::Invalid("HealthRetries must be a non-negative decimal integer"))
            },
            _ => match duration_reading(value) {
                Ok(d) => (with_duration(m, key, d), seen1, HealthReading::Exact),
                Err(r) => (m, seen1, r),
            },
        }
    }
}

fn read_duration(settings: &mut HealthSettings, key: HealthKey, value: &str) -> (reading: HealthReading)
    requires
        key != HealthKey::Command && key != HealthKey::Retries,
    ensures
        match duration_reading(value@) {
            Ok(d) => final(settings)@ == with_duration(old(settings)@, key, d) && reading == HealthReading::Exact,
            Err(r) => *final(settings) == *old(settings) && reading == r,
        },
{
    proof {
        reveal_strlit("disable");
    }
    let s = chars_of(value);
    let disable = vec!['d', 'i', 's', 'a', 'b', 'l', 'e'];
    assert(disable@ =~= timer_disable());
    if same_chars(s.as_slice(), disable.as_slice()) {
        return HealthReading::Unsupported(
            "a disabled automatic health timer is distinct from disabling the health check and has no neutral field",
        );
    }
    if !is_podman_health_duration(value) {
        return HealthReading::Invalid("health duration is not a supported Podman duration spelling");
    }
    match key {
        HealthKey::Interval => settings.interval = Some(value.to_string()),
        HealthKey::Timeout => settings.timeout = Some(value.to_string()),
        _ => settings.start_period = Some(value.to_string()),
    }
    HealthReading::Exact
}

/// Reads entry `key` of a health check, with value `value`, into `settings`; `seen` holds the
/// entries read so far.
pub fn read_health_entry(settings: &mut HealthSettings, seen: &mut Vec<HealthKey>, key: HealthKey, value: &str) -> (reading:
    HealthReading)
    ensures
        (final(settings)@, final(seen)@, reading) == health_after_entry(
            old(settings)@,
            old(seen)@,
            key,
            value@,
            serde_decoder(),
        ),
{
    let mut i: usize = 0;
    while i < seen.len()
        invariant
            i <= seen@.len(),
            *seen == *old(seen),
            *settings == *old(settings),
            forall|j: int| 0 <= j < i ==> seen@[j] != key,
        decreases seen@.len() - i,
    {
        if seen[i] == key {
            assert(seen@[i as int] == key);
            return HealthReading::Duplicate;
        }
        i = i + 1;
    }
    seen.push(key);
    match key {
        HealthKey::Command => {
            let s = chars_of(value);
            let none = vec!['n', 'o', 'n', 'e'];
            assert(none@ =~= health_none());
            if same_chars(s.as_slice(), none.as_slice()) {
                settings.disabled = Some(true);
                return HealthReading::Exact;
            }
            match decode_health_command(value) {
                Ok(command) => {
                    settings.command = Some(command);
                    HealthReading::Exact
                },
                Err(ValueIssue::Unsupported(r)) => HealthReading::Unsupported(r),
                Err(ValueIssue::Invalid(r)) => HealthReading::Invalid(r),
            }
        },
        HealthKey::Retries => {
            if is_decimal(value) {
                settings.retries = Some(value.to_string());
                HealthReading::Exact
            } else {
                HealthReading::Invalid("HealthRetries must be a non-negative decimal integer")
            }
        },
        _ => read_duration(settings, key, value),
    }
}

/// The entries a plan writes, in order.
pub open spec fn written_entries(plan: Seq<HealthPlanModel>) -> Seq<(HealthKey, Seq<char>)>
    decreases plan.len(),
{
    if plan.len() == 0 {
        Seq::empty()
    } else {
        written_entries(plan.drop_last()) + match plan.last() {
            HealthPlanModel::Write(key, value) => seq![(key, value)],
            _ => Seq::empty(),
        }
    }
}

/// The settings and entries seen after reading `entries` in order from `m` and `seen`.
pub open spec fn read_health_entries(
    m: HealthModel,
    seen: Seq<HealthKey>,
    entries: Seq<(HealthKey, Seq<char>)>,
    decode: ListDecoder,
) -> (HealthModel, Seq<HealthKey>)
    decreases entries.len(),
{
    if entries.len() == 0 {
        (m, seen)
    } else {
        let (m1, seen1) = read_health_entries(m, seen, entries.drop_last(), decode);
        let after = health_after_entry(m1, seen1, entries.last().0, entries.last().1, decode);
        (after.0, after.1)
    }
}

/// A health check that its entries carry exactly: not both disabled and given a command; a
/// command that can be written and holds no line break; a valid interval, timeout, retry count
/// and start period; and no start interval, which has no entry.
pub open spec fn carried_exactly(m: HealthModel) -> bool {
    &&& !(m.disabled == Some(true) && m.command is Some)
    &&& (m.command matches Some(c) ==> {
        &&& health_arguments(c) is Ok
        &&& forall|k: int|
            0 <= k < health_arguments(c)->Ok_0.len() ==> !has_char(#[trigger] health_arguments(c)->Ok_0[k], '\n')
                && !has_char(health_arguments(c)->Ok_0[k], '\r')
    })
    &&& (m.interval matches Some(v) ==> health_scalar_ok(v, true))
    &&& (m.timeout matches Some(v) ==> health_scalar_ok(v, true))
    &&& (m.retries matches Some(v) ==> health_scalar_ok(v, false))
    &&& (m.start_period matches Some(v) ==> health_scalar_ok(v, true))
    &&& m.start_interval is None
}

/// A decoder that reads back the JSON list written for `m`'s command.
pub open spec fn decodes_command(m: HealthModel, decode: ListDecoder) -> bool {
    m.command matches Some(c) ==> health_arguments(c) is Ok ==> decode(json_array(health_arguments(c)->Ok_0))
        == Some(health_arguments(c)->Ok_0)
}

/// What reading a health check's entries gives back of it: an explicit `false` for `disabled`
/// writes nothing and so reads back as unset.
pub open spec fn as_read(m: HealthModel) -> HealthModel {
    HealthModel {
        disabled: if m.disabled == Some(true) {
            Some(true)
        } else {
            None
        },
        ..m
    }
}

proof fn lemma_written_concat(a: Seq<HealthPlanModel>, b: Seq<HealthPlanModel>)
    ensures
        written_entries(a + b) == written_entries(a) + written_entries(b),
    decreases b.len(),
{
    if b.len() == 0 {
        assert(a + b =~= a);
    } else {
        lemma_written_concat(a, b.drop_last());
        assert((a + b).drop_last() =~= a + b.drop_last());
        assert((a + b).last() == b.last());
    }
}

proof fn lemma_read_concat(
    m: HealthModel,
    seen: Seq<HealthKey>,
    a: Seq<(HealthKey, Seq<char>)>,
    b: Seq<(HealthKey, Seq<char>)>,
    decode: ListDecoder,
)
    ensures
        read_health_entries(m, seen, a + b, decode) == read_health_entries(
            read_health_entries(m, seen, a, decode).0,
            read_health_entries(m, seen, a, decode).1,
            b,
            decode,
        ),
    decreases b.len(),
{
    if b.len() == 0 {
        assert(a + b =~= a);
    } else {
        lemma_read_concat(m, seen, a, b.drop_last(), decode);
        assert((a + b).drop_last() =~= a + b.drop_last());
        assert((a + b).last() == b.last());
    }
}

/// The order in which the plan writes entries.
spec fn rank(key: HealthKey) -> int {
    match key {
        HealthKey::Command => 0,
        HealthKey::Interval => 1,
        HealthKey::Timeout => 2,
        HealthKey::Retries => 3,
        HealthKey::StartPeriod => 4,
    }
}

/// Every entry seen comes before `bound`.
spec fn seen_before(seen: Seq<HealthKey>, bound: int) -> bool {
    forall|i: int| 0 <= i < seen.len() ==> rank(#[trigger] seen[i]) < bound
}

/// The entries written by a part that writes at most `key` with `value`.
spec fn at_most(key: HealthKey, value: Option<Seq<char>>) -> Seq<(HealthKey, Seq<char>)> {
    match value {
        Some(v) => seq![(key, v)],
        None => Seq::empty(),
    }
}

/// Reading prefix `a` then part `p` from no settings.
proof fn lemma_read_after(
    a: Seq<HealthPlanModel>,
    p: Seq<HealthPlanModel>,
    key: HealthKey,
    value: Option<Seq<char>>,
    decode: ListDecoder,
)
    requires
        seen_before(read_health_entries(unset_health(), Seq::empty(), written_entries(a), decode).1, rank(key)),
        written_entries(p) == at_most(key, value),
    ensures
        ({
            let before = read_health_entries(unset_health(), Seq::empty(), written_entries(a), decode);
            let after = read_health_entries(unset_health(), Seq::empty(), written_entries(a + p), decode);
            &&& seen_before(after.1, rank(key) + 1)
            &&& after.0 == match value {
                Some(v) => health_after_entry(before.0, before.1, key, v, decode).0,
                None => before.0,
            }
            &&& value is Some ==> !before.1.contains(key)
        }),
{
    let u = unset_health();
    let e = Seq::<HealthKey>::empty();
    lemma_written_concat(a, p);
    lemma_read_concat(u, e, written_entries(a), written_entries(p), decode);
    let before = read_health_entries(u, e, written_entries(a), decode);
    reveal_with_fuel(read_health_entries, 2);
    match value {
        Some(v) => {
            assert(seq![(key, v)].drop_last() =~= Seq::<(HealthKey, Seq<char>)>::empty());
            assert(!before.1.contains(key)) by {
                if before.1.contains(key) {
                    let i = choose|i: int| 0 <= i < before.1.len() && before.1[i] == key;
                    assert(rank(before.1[i]) < rank(key));
                }
            }
        },
        None => {},
    }
}

proof fn lemma_single_written(p: Seq<HealthPlanModel>)
    requires
        p.len() <= 1,
    ensures
        written_entries(p) == if p.len() == 1 && p[0] is Write {
            seq![(p[0]->Write_0, p[0]->Write_1)]
        } else {
            Seq::<(HealthKey, Seq<char>)>::empty()
        },
{
    reveal_with_fuel(written_entries, 2);
    if p.len() == 1 {
        assert(p.drop_last() =~= Seq::<HealthPlanModel>::empty());
    }
}

/// A Podman duration is never `disable`.
proof fn lemma_duration_not_disable(v: Seq<char>)
    requires
        podman_health_duration(v),
    ensures
        v != timer_disable(),
{
    if v == timer_disable() {
        assert(number_run_len(v) == 0);
        assert(!(v =~= seq!['0']));
    }
}

/// Reading a duration entry written with a valid value sets that duration exactly.
proof fn lemma_duration_step(key: HealthKey, value: Option<Seq<char>>)
    requires
        key != HealthKey::Command && key != HealthKey::Retries,
        value matches Some(v) ==> health_scalar_ok(v, true),
    ensures
        written_entries(scalar_step(key, value, true)) == at_most(key, value),
        value matches Some(v) ==> duration_reading(v) == Ok::<Seq<char>, HealthReading>(v),
{
    lemma_single_written(scalar_step(key, value, true));
    if let Some(v) = value {
        lemma_duration_not_disable(v);
    }
}

/// A health check's entries read back as the health check written: when it is carried exactly,
/// and JSON decoding reads back the list written for its command, reading the entries that
/// [`plan_health_entries`] writes, in order, into no settings gives back every setting (an
/// explicit `disabled: false` reads back as unset).
pub proof fn lemma_healthcheck_reads_back(m: HealthModel, decode: ListDecoder)
    requires
        carried_exactly(m),
        decodes_command(m, decode),
    ensures
        read_health_entries(unset_health(), Seq::empty(), written_entries(health_plan(m)), decode).0 == as_read(m),
{
    let u = unset_health();
    let e = Seq::<HealthKey>::empty();
    let empty_plan = Seq::<HealthPlanModel>::empty();
    assert(written_entries(empty_plan) =~= Seq::<(HealthKey, Seq<char>)>::empty());

    let p0 = disable_step(m);
    lemma_single_written(p0);
    let v0 = if m.disabled == Some(true) {
        Some(health_none())
    } else {
        None::<Seq<char>>
    };
    assert(written_entries(p0) == at_most(HealthKey::Command, v0));
    lemma_read_after(empty_plan, p0, HealthKey::Command, v0, decode);
    assert(empty_plan + p0 =~= p0);

    let p1 = command_step(m);
    lemma_single_written(p1);
    let v1 = match m.command {
        Some(c) => Some(json_array(health_arguments(c)->Ok_0)),
        None => None::<Seq<char>>,
    };
    assert(written_entries(p1) == at_most(HealthKey::Command, v1));
    let a1 = p0 + p1;
    if m.command is Some {
        assert(p0 =~= empty_plan);
        assert(a1 =~= p1);
        lemma_read_after(empty_plan, p1, HealthKey::Command, v1, decode);
        assert(empty_plan + p1 =~= p1);
        let c = m.command->Some_0;
        let a = health_arguments(c)->Ok_0;
        lemma_health_command_reads_back(c);
        assert(json_array(a)[0] == '[');
        assert(json_array(a) != health_none()) by {
            assert(health_none()[0] == 'n');
        }
    } else {
        assert(p1 =~= empty_plan);
        assert(a1 =~= p0);
    }
    let s1 = read_health_entries(u, e, written_entries(a1), decode);
    assert(s1.0 == HealthModel {
        disabled: as_read(m).disabled,
        command: m.command,
        ..u
    });
    assert(seen_before(s1.1, 1));

    let p2 = scalar_step(HealthKey::Interval, m.interval, true);
    lemma_duration_step(HealthKey::Interval, m.interval);
    lemma_read_after(a1, p2, HealthKey::Interval, m.interval, decode);
    let a2 = a1 + p2;

    let p3 = scalar_step(HealthKey::Timeout, m.timeout, true);
    lemma_duration_step(HealthKey::Timeout, m.timeout);
    lemma_read_after(a2, p3, HealthKey::Timeout, m.timeout, decode);
    let a3 = a2 + p3;

    let p4 = scalar_step(HealthKey::Retries, m.retries, false);
    lemma_single_written(p4);
    lemma_read_after(a3, p4, HealthKey::Retries, m.retries, decode);
    let a4 = a3 + p4;

    let p5 = scalar_step(HealthKey::StartPeriod, m.start_period, true);
    lemma_duration_step(HealthKey::StartPeriod, m.start_period);
    lemma_read_after(a4, p5, HealthKey::StartPeriod, m.start_period, decode);
    let a5 = a4 + p5;

    let p6 = start_interval_step(m);
    assert(p6 =~= empty_plan);
    assert(a5 + p6 =~= a5);
    assert(a5 + p6 == health_plan(m));
    let s5 = read_health_entries(u, e, written_entries(a5), decode);
    assert(s5.0 =~= as_read(m));
}

/// The views of a unit's entries.
pub open spec fn entry_views(entries: Seq<(HealthKey, String)>) -> Seq<(HealthKey, Seq<char>)> {
    entries.map_values(|e: (HealthKey, String)| (e.0, e.1@))
}

/// Reads a container unit's health-check entries in order into fresh settings: the settings read, and how each entry read.
pub fn read_health_unit(entries: &[(HealthKey, String)]) -> (read: (HealthSettings, Vec<HealthReading>))
    ensures
        read.0@ == read_health_entries(unset_health(), Seq::empty(), entry_views(entries@), serde_decoder()).0,
        read.1@.len() == entries@.len(),
        forall|i: int|
            0 <= i < entries@.len() ==> #[trigger] read.1@[i] == health_after_entry(
                read_health_entries(unset_health(), Seq::empty(), entry_views(entries@).take(i), serde_decoder()).0,
                read_health_entries(unset_health(), Seq::empty(), entry_views(entries@).take(i), serde_decoder()).1,
                entries@[i].0,
                entries@[i].1@, serde_decoder(),
            ).2,
{
    let ghost views = entry_views(entries@);
    let mut settings = HealthSettings::new();
    let mut seen: Vec<HealthKey> = Vec::new();
    let mut readings: Vec<HealthReading> = Vec::new();
    let mut i: usize = 0;
    assert(views.take(0) =~= Seq::<(HealthKey, Seq<char>)>::empty());
    while i < entries.len()
        invariant
            i <= entries@.len(),
            views == entry_views(entries@),
            (settings@, seen@) == read_health_entries(unset_health(), Seq::empty(), views.take(i as int), serde_decoder()),
            readings@.len() == i,
            forall|j: int|
                0 <= j < i ==> #[trigger] readings@[j] == health_after_entry(
                    read_health_entries(unset_health(), Seq::empty(), views.take(j), serde_decoder()).0,
                    read_health_entries(unset_health(), Seq::empty(), views.take(j), serde_decoder()).1,
                    entries@[j].0,
                    entries@[j].1@, serde_decoder(),
                ).2,
        decreases entries@.len() - i,
    {
        let reading = read_health_entry(&mut settings, &mut seen, entries[i].0, entries[i].1.as_str());
        readings.push(reading);
        proof {
            let t = views.take(i + 1);
            assert(t.drop_last() =~= views.take(i as int));
            assert(t.last() == (entries@[i as int].0, entries@[i as int].1@));
        }
        i += 1;
    }
    assert(views.take(entries@.len() as int) =~= views);
    (settings, readings)
}

} // verus!
