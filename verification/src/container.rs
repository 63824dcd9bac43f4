//! Single-valued container settings: the entrypoint, init process, stop timeout, pull policy and
//! memory limit, the `Entrypoint=`, `RunInit=`, `StopTimeout=`, `Pull=` and `Memory=` entries
//! written for them, and how those entries are read back.

use vstd::prelude::*;
use crate::encode::{decode_json_exec_array, json_exec_items};
use crate::grammar::{is_positive_memory, positive_canonical_size};
use crate::number::{parse_unsigned, parse_unsigned_spec};
use crate::scalar::{bool_spelling, bool_text, lemma_bool_spelling_reads_back, parse_quadlet_bool, quadlet_bool};
use crate::service::{entrypoint_text, entrypoint_value, lemma_entrypoint_reads_back};
use crate::text::{chars_of, has_char, same_chars};

verus! {

broadcast use vstd::string::group_string_axioms;

/// The single-valued container entries this module writes and reads.
#[derive(Clone, Copy, Debug, PartialEq, Eq, Structural)]
pub enum ContainerSetting {
    /// `Entrypoint=`.
    Entrypoint,
    /// `RunInit=`.
    RunInit,
    /// `StopTimeout=`.
    StopTimeout,
    /// `Pull=`.
    Pull,
    /// `Memory=`.
    Memory,
}

impl ContainerSetting {
    /// The entry's key as written in a unit file.
    pub fn key(self) -> (key: &'static str)
        ensures
            key@ == match self {
                ContainerSetting::Entrypoint => "Entrypoint"@,
                ContainerSetting::RunInit => "RunInit"@,
                ContainerSetting::StopTimeout => "StopTimeout"@,
                ContainerSetting::Pull => "Pull"@,
                ContainerSetting::Memory => "Memory"@,
            },
    {
        match self {
            ContainerSetting::Entrypoint => "Entrypoint",
            ContainerSetting::RunInit => "RunInit",
            ContainerSetting::StopTimeout => "StopTimeout",
            ContainerSetting::Pull => "Pull",
            ContainerSetting::Memory => "Memory",
        }
    }

    /// The neutral field the entry sets.
    pub fn field(self) -> (field: &'static str)
        ensures
            field@ == match self {
                ContainerSetting::Entrypoint => "entrypoint"@,
                ContainerSetting::RunInit => "run_init"@,
                ContainerSetting::StopTimeout => "stop_timeout"@,
                ContainerSetting::Pull => "pull_policy"@,
                ContainerSetting::Memory => "memory_limit"@,
            },
    {
        match self {
            ContainerSetting::Entrypoint => "entrypoint",
            ContainerSetting::RunInit => "run_init",
            ContainerSetting::StopTimeout => "stop_timeout",
            ContainerSetting::Pull => "pull_policy",
            ContainerSetting::Memory => "memory_limit",
        }
    }
}

/// When an image is pulled before the container starts.
#[derive(Clone, Debug, PartialEq, Eq)]
pub enum PullPolicy {
    /// `always`.
    Always,
    /// `missing`.
    Missing,
    /// `never`.
    Never,
    /// Any other native value, kept as authored.
    Raw(String),
}

/// Mathematical model of a [`PullPolicy`].
pub enum PullModel {
    Always,
    Missing,
    Never,
    Raw(Seq<char>),
}

impl View for PullPolicy {
    type V = PullModel;

    open spec fn view(&self) -> PullModel {
        match self {
            PullPolicy::Always => PullModel::Always,
            PullPolicy::Missing => PullModel::Missing,
            PullPolicy::Never => PullModel::Never,
            PullPolicy::Raw(v) => PullModel::Raw(v@),
        }
    }
}

/// A service's single-valued container settings.
#[derive(Clone, Debug, PartialEq, Eq)]
pub struct ContainerScalars {
    /// The arguments of an exec-form entrypoint.
    pub entrypoint: Option<Vec<String>>,
    pub run_init: Option<bool>,
    pub stop_timeout: Option<String>,
    pub pull_policy: Option<PullPolicy>,
    pub memory_limit: Option<String>,
}

/// Mathematical model of [`ContainerScalars`].
#[verifier::ext_equal]
pub struct ContainerModel {
    pub entrypoint: Option<Seq<Seq<char>>>,
    pub run_init: Option<bool>,
    pub stop_timeout: Option<Seq<char>>,
    pub pull_policy: Option<PullModel>,
    pub memory_limit: Option<Seq<char>>,
}

/// The view of an optional string.
pub open spec fn opt_view(value: Option<String>) -> Option<Seq<char>> {
    match value {
        Some(v) => Some(v@),
        None => None,
    }
}

/// The views of a list of strings.
pub open spec fn strings_view(values: Seq<String>) -> Seq<Seq<char>> {
    values.map_values(|v: String| v@)
}

impl View for ContainerScalars {
    type V = ContainerModel;

    open spec fn view(&self) -> ContainerModel {
        ContainerModel {
            entrypoint: match self.entrypoint {
                Some(a) => Some(strings_view(a@)),
                None => None,
            },
            run_init: self.run_init,
            stop_timeout: opt_view(self.stop_timeout),
            pull_policy: match self.pull_policy {
                Some(p) => Some(p@),
                None => None,
            },
            memory_limit: opt_view(self.memory_limit),
        }
    }
}

/// No setting made.
pub open spec fn unset_container() -> ContainerModel {
    ContainerModel { entrypoint: None, run_init: None, stop_timeout: None, pull_policy: None, memory_limit: None }
}

impl ContainerScalars {
    /// No setting made.
    pub fn new() -> (scalars: Self)
        ensures
            scalars@ == unset_container(),
    {
        ContainerScalars { entrypoint: None, run_init: None, stop_timeout: None, pull_policy: None, memory_limit: None }
    }
}

/// The stop timeout as Rust's `u64` parsing reads it.
pub open spec fn timeout_seconds(value: Seq<char>) -> Option<int> {
    parse_unsigned_spec(value, 0xffff_ffff_ffff_ffff)
}

/// The `newer` pull policy, which has no variant of its own.
pub open spec fn newer() -> Seq<char> {
    seq!['n', 'e', 'w', 'e', 'r']
}

/// The `Pull=` spelling of a policy that is written: the three named policies, and a raw
/// `newer`.
pub open spec fn pull_text(policy: PullModel) -> Option<Seq<char>> {
    match policy {
        PullModel::Always => Some(seq!['a', 'l', 'w', 'a', 'y', 's']),
        PullModel::Missing => Some(seq!['m', 'i', 's', 's', 'i', 'n', 'g']),
        PullModel::Never => Some(seq!['n', 'e', 'v', 'e', 'r']),
        PullModel::Raw(v) => if v == newer() {
            Some(newer())
        } else {
            None
        },
    }
}

/// One step of writing the single-valued container settings.
#[derive(Clone, Debug, PartialEq, Eq)]
pub enum ContainerEntryPlan {
    /// The entry is written and carries the setting exactly.
    Write(ContainerSetting, String),
    /// The entry is written; the runtime can still differ, for this reason.
    Approximate(ContainerSetting, String, &'static str),
    /// The setting is not carried, for this reason.
    Unsupported(ContainerSetting, &'static str),
}

/// Mathematical model of a [`ContainerEntryPlan`].
pub enum ContainerPlanModel {
    Write(ContainerSetting, Seq<char>),
    Approximate(ContainerSetting, Seq<char>, Seq<char>),
    Unsupported(ContainerSetting, Seq<char>),
}

impl View for ContainerEntryPlan {
    type V = ContainerPlanModel;

    open spec fn view(&self) -> ContainerPlanModel {
        match self {
            ContainerEntryPlan::Write(s, v) => ContainerPlanModel::Write(*s, v@),
            ContainerEntryPlan::Approximate(s, v, r) => ContainerPlanModel::Approximate(*s, v@, r@),
            ContainerEntryPlan::Unsupported(s, r) => ContainerPlanModel::Unsupported(*s, r@),
        }
    }
}

/// The views of a plan.
pub open spec fn plan_view(plan: Seq<ContainerEntryPlan>) -> Seq<ContainerPlanModel> {
    plan.map_values(|p: ContainerEntryPlan| p@)
}

/// Writing the entrypoint: a JSON array of safe words.
pub open spec fn entrypoint_step(m: ContainerModel) -> Seq<ContainerPlanModel> {
    match m.entrypoint {
        None => Seq::empty(),
        Some(a) => match entrypoint_text(a) {
            Ok(v) => seq![ContainerPlanModel::Write(ContainerSetting::Entrypoint, v)],
            Err(r) => seq![ContainerPlanModel::Unsupported(ContainerSetting::Entrypoint, r@)],
        },
    }
}

/// Writing the init flag, whose runtime equivalence is approximate.
pub open spec fn run_init_step(m: ContainerModel) -> Seq<ContainerPlanModel> {
    match m.run_init {
        None => Seq::empty(),
        Some(b) => seq![
            ContainerPlanModel::Approximate(
                ContainerSetting::RunInit,
                bool_spelling(b),
                "RunInit runtime equivalence remains reviewable"@,
            ),
        ],
    }
}

/// Writing the stop timeout: whole seconds only; zero is approximate.
pub open spec fn stop_timeout_step(m: ContainerModel) -> Seq<ContainerPlanModel> {
    match m.stop_timeout {
        None => Seq::empty(),
        Some(v) => match timeout_seconds(v) {
            Some(n) => if n == 0 {
                seq![
                    ContainerPlanModel::Approximate(
                        ContainerSetting::StopTimeout,
                        v,
                        "a zero stop timeout can differ from an omitted/default timeout and remains reviewable"@,
                    ),
                ]
            } else {
                seq![ContainerPlanModel::Write(ContainerSetting::StopTimeout, v)]
            },
            None => seq![
                ContainerPlanModel::Unsupported(
                    ContainerSetting::StopTimeout,
                    "only nonnegative integral stop-timeout seconds are encodable; fractional native durations remain source-aware but require review"@,
                ),
            ],
        },
    }
}

/// Writing the pull policy.
pub open spec fn pull_step(m: ContainerModel) -> Seq<ContainerPlanModel> {
    match m.pull_policy {
        None => Seq::empty(),
        Some(p) => match pull_text(p) {
            Some(t) => seq![ContainerPlanModel::Write(ContainerSetting::Pull, t)],
            None => seq![
                ContainerPlanModel::Unsupported(
                    ContainerSetting::Pull,
                    "only reviewed native Pull values can be emitted; arbitrary raw policies remain unsupported"@,
                ),
            ],
        },
    }
}

/// Writing the memory limit: a positive canonical byte quantity.
pub open spec fn memory_step(m: ContainerModel) -> Seq<ContainerPlanModel> {
    match m.memory_limit {
        None => Seq::empty(),
        Some(v) => if positive_canonical_size(v) {
            seq![ContainerPlanModel::Write(ContainerSetting::Memory, v)]
        } else {
            seq![
                ContainerPlanModel::Unsupported(
                    ContainerSetting::Memory,
                    "memory must be a positive canonical byte quantity"@,
                ),
            ]
        },
    }
}

/// The steps of writing `m`, in order: entrypoint, init flag, stop timeout, pull policy and
/// memory limit.
pub open spec fn container_plan(m: ContainerModel) -> Seq<ContainerPlanModel> {
    entrypoint_step(m) + run_init_step(m) + stop_timeout_step(m) + pull_step(m) + memory_step(m)
}

fn plan_entrypoint(plan: &mut Vec<ContainerEntryPlan>, scalars: &ContainerScalars)
    ensures
        plan_view(final(plan)@) == plan_view(old(plan)@) + entrypoint_step(scalars@),
{
    let ghost before = plan_view(plan@);
    match &scalars.entrypoint {
        Some(arguments) => {
            assert(arguments@.map_values(|a: String| a@) =~= strings_view(arguments@));
            match entrypoint_value(arguments.as_slice()) {
                Ok(v) => plan.push(ContainerEntryPlan::Write(ContainerSetting::Entrypoint, v)),
                Err(r) => plan.push(ContainerEntryPlan::Unsupported(ContainerSetting::Entrypoint, r)),
            }
        },
        None => {},
    }
    assert(plan_view(plan@) =~= before + entrypoint_step(scalars@));
}

fn plan_stop_timeout(plan: &mut Vec<ContainerEntryPlan>, scalars: &ContainerScalars)
    ensures
        plan_view(final(plan)@) == plan_view(old(plan)@) + stop_timeout_step(scalars@),
{
    let ghost before = plan_view(plan@);
    match &scalars.stop_timeout {
        Some(v) => match parse_unsigned(chars_of(v.as_str()).as_slice(), 0xffff_ffff_ffff_ffff) {
            Some(n) => {
                if n == 0 {
                    plan.push(
                        ContainerEntryPlan::Approximate(
                            ContainerSetting::StopTimeout,
                            v.clone(),
                            "a zero stop timeout can differ from an omitted/default timeout and remains reviewable",
                        ),
                    );
                } else {
                    plan.push(ContainerEntryPlan::Write(ContainerSetting::StopTimeout, v.clone()));
                }
            },
            None => plan.push(
                ContainerEntryPlan::Unsupported(
                    ContainerSetting::StopTimeout,
                    "only nonnegative integral stop-timeout seconds are encodable; fractional native durations remain source-aware but require review",
                ),
            ),
        },
        None => {},
    }
    assert(plan_view(plan@) =~= before + stop_timeout_step(scalars@));
}

fn plan_pull(plan: &mut Vec<ContainerEntryPlan>, scalars: &ContainerScalars)
    ensures
        plan_view(final(plan)@) == plan_view(old(plan)@) + pull_step(scalars@),
{
    let ghost before = plan_view(plan@);
    proof {
        reveal_strlit("always");
        reveal_strlit("missing");
        reveal_strlit("never");
        reveal_strlit("newer");
    }
    let unsupported = ContainerEntryPlan::Unsupported(
        ContainerSetting::Pull,
        "only reviewed native Pull values can be emitted; arbitrary raw policies remain unsupported",
    );
    match &scalars.pull_policy {
        Some(PullPolicy::Always) => {
            let t = "always".to_string();
            assert(t@ =~= seq!['a', 'l', 'w', 'a', 'y', 's']);
            plan.push(ContainerEntryPlan::Write(ContainerSetting::Pull, t));
        },
        Some(PullPolicy::Missing) => {
            let t = "missing".to_string();
            assert(t@ =~= seq!['m', 'i', 's', 's', 'i', 'n', 'g']);
            plan.push(ContainerEntryPlan::Write(ContainerSetting::Pull, t));
        },
        Some(PullPolicy::Never) => {
            let t = "never".to_string();
            assert(t@ =~= seq!['n', 'e', 'v', 'e', 'r']);
            plan.push(ContainerEntryPlan::Write(ContainerSetting::Pull, t));
        },
        Some(PullPolicy::Raw(raw)) => {
            let n = vec!['n', 'e', 'w', 'e', 'r'];
            assert(n@ =~= newer());
            if same_chars(chars_of(raw.as_str()).as_slice(), n.as_slice()) {
                let t = "newer".to_string();
                assert(t@ =~= newer());
                plan.push(ContainerEntryPlan::Write(ContainerSetting::Pull, t));
            } else {
                plan.push(unsupported);
            }
        },
        None => {},
    }
    assert(plan_view(plan@) =~= before + pull_step(scalars@));
}

/// Plans the single-valued container entries for `scalars`.
pub fn plan_container_entries(scalars: &ContainerScalars) -> (plan: Vec<ContainerEntryPlan>)
    ensures
        plan_view(plan@) == container_plan(scalars@),
{
    let mut plan: Vec<ContainerEntryPlan> = Vec::new();
    assert(plan_view(plan@) =~= Seq::<ContainerPlanModel>::empty());
    plan_entrypoint(&mut plan, scalars);
    let ghost a0 = plan_view(plan@);
    match scalars.run_init {
        Some(b) => plan.push(
            ContainerEntryPlan::Approximate(
                ContainerSetting::RunInit,
                bool_text(b).to_string(),
                "RunInit runtime equivalence remains reviewable",
            ),
        ),
        None => {},
    }
    assert(plan_view(plan@) =~= a0 + run_init_step(scalars@));
    plan_stop_timeout(&mut plan, scalars);
    plan_pull(&mut plan, scalars);
    let ghost a3 = plan_view(plan@);
    match &scalars.memory_limit {
        Some(v) => {
            if is_positive_memory(v.as_str()) {
                plan.push(ContainerEntryPlan::Write(ContainerSetting::Memory, v.clone()));
            } else {
                plan.push(
                    ContainerEntryPlan::Unsupported(ContainerSetting::Memory, "memory must be a positive canonical byte quantity"),
                );
            }
        },
        None => {},
    }
    assert(plan_view(plan@) =~= a3 + memory_step(scalars@));
    plan
}

/// What reading one container entry did.
#[derive(Clone, Copy, Debug, PartialEq, Eq)]
pub enum ContainerReading {
    /// The setting was read exactly.
    Exact,
    /// The setting was read; the runtime can still differ, for this reason.
    Approximate(&'static str),
    /// The value was kept as authored but has no exact reading, for this reason.
    Retained(&'static str),
    /// The value has no reading, for this reason; nothing was read.
    Unsupported(&'static str),
    /// The value is malformed, for this reason; nothing was read.
    Invalid(&'static str),
    /// The entry came again; nothing was read.
    Duplicate,
}

impl ContainerReading {
    /// Why the entry does not read exactly; `None` when it does.
    pub fn reason(&self) -> (reason: Option<&'static str>)
        ensures
            match *self {
                ContainerReading::Exact => reason is None,
                ContainerReading::Approximate(r) => reason == Some(r),
                ContainerReading::Retained(r) => reason == Some(r),
                ContainerReading::Unsupported(r) => reason == Some(r),
                ContainerReading::Invalid(r) => reason == Some(r),
                ContainerReading::Duplicate => reason matches Some(r) && r@
                    == "Quadlet singleton key is declared more than once"@,
            },
    {
        match self {
            ContainerReading::Exact => None,
            ContainerReading::Approximate(r) => Some(*r),
            ContainerReading::Retained(r) => Some(*r),
            ContainerReading::Unsupported(r) => Some(*r),
            ContainerReading::Invalid(r) => Some(*r),
            ContainerReading::Duplicate => Some("Quadlet singleton key is declared more than once"),
        }
    }
}

/// The pull policy an entry's value names: one of the three named policies, otherwise the raw
/// value.
pub open spec fn pull_reading(value: Seq<char>) -> PullModel {
    if value == seq!['a', 'l', 'w', 'a', 'y', 's'] {
        PullModel::Always
    } else if value == seq!['m', 'i', 's', 's', 'i', 'n', 'g'] {
        PullModel::Missing
    } else if value == seq!['n', 'e', 'v', 'e', 'r'] {
        PullModel::Never
    } else {
        PullModel::Raw(value)
    }
}

/// What reading entry `setting` with value `value` makes of `m` and the entries `seen`, and how
/// it reads. Every entry here is single: one that came before is a duplicate. The entrypoint
/// must be a plain JSON exec array; the init flag a Quadlet boolean. A stop timeout, pull policy
/// or memory limit is always kept; it reads exactly when it is a positive whole number of
/// seconds, a named pull policy, or a positive canonical byte quantity.
pub open spec fn container_after_entry(m: ContainerModel, seen: Seq<ContainerSetting>, setting: ContainerSetting, value: Seq<
    char,
>) -> (ContainerModel, Seq<ContainerSetting>, ContainerReading) {
    if seen.contains(setting) {
        (m, seen, ContainerReading::Duplicate)
    } else {
        let seen1 = seen.push(setting);
        match setting {
            ContainerSetting::Entrypoint => match json_exec_items(value) {
                Some(a) => (ContainerModel { entrypoint: Some(a), ..m }, seen1, ContainerReading::Exact),
                None => (
                    m,
                    seen1,
                    ContainerReading::Unsupported("Entrypoint is exact only for reviewed JSON exec arrays"),
                ),
            },
            ContainerSetting::RunInit => match quadlet_bool(value) {
                Some(b) => (
                    ContainerModel { run_init: Some(b), ..m },
                    seen1,
                    ContainerReading::Approximate("RunInit runtime equivalence remains reviewable"),
                ),
                None => (m, seen1, ContainerReading::Invalid("RunInit must be a Quadlet boolean")),
            },
            ContainerSetting::StopTimeout => (
                ContainerModel { stop_timeout: Some(value), ..m },
                seen1,
                if timeout_seconds(value) matches Some(n) && n > 0 {
                    ContainerReading::Exact
                } else {
                    ContainerReading::Approximate(
                        "fractional, zero, and default stop-timeout semantics remain reviewable",
                    )
                },
            ),
            ContainerSetting::Pull => (
                ContainerModel { pull_policy: Some(pull_reading(value)), ..m },
                seen1,
                if pull_reading(value) is Raw {
                    ContainerReading::Retained("native pull policy is retained as a raw target-specific value")
                } else {
                    ContainerReading::Exact
                },
            ),
            ContainerSetting::Memory => (
                ContainerModel { memory_limit: Some(value), ..m },
                seen1,
                if positive_canonical_size(value) {
                    ContainerReading::Exact
                } else {
                    ContainerReading::Retained("Memory must be a positive canonical byte quantity")
                },
            ),
        }
    }
}

fn read_pull(scalars: &mut ContainerScalars, value: &str) -> (reading: ContainerReading)
    ensures
        final(scalars)@ == (ContainerModel { pull_policy: Some(pull_reading(value@)), ..old(scalars)@ }),
        reading == if pull_reading(value@) is Raw {
            ContainerReading::Retained("native pull policy is retained as a raw target-specific value")
        } else {
            ContainerReading::Exact
        },
{
    let s = chars_of(value);
    let always = vec!['a', 'l', 'w', 'a', 'y', 's'];
    let missing = vec!['m', 'i', 's', 's', 'i', 'n', 'g'];
    let never = vec!['n', 'e', 'v', 'e', 'r'];
    assert(always@ =~= seq!['a', 'l', 'w', 'a', 'y', 's']);
    assert(missing@ =~= seq!['m', 'i', 's', 's', 'i', 'n', 'g']);
    assert(never@ =~= seq!['n', 'e', 'v', 'e', 'r']);
    if same_chars(s.as_slice(), always.as_slice()) {
        scalars.pull_policy = Some(PullPolicy::Always);
        ContainerReading::Exact
    } else if same_chars(s.as_slice(), missing.as_slice()) {
        scalars.pull_policy = Some(PullPolicy::Missing);
        ContainerReading::Exact
    } else if same_chars(s.as_slice(), never.as_slice()) {
        scalars.pull_policy = Some(PullPolicy::Never);
        ContainerReading::Exact
    } else {
        scalars.pull_policy = Some(PullPolicy::Raw(value.to_string()));
        ContainerReading::Retained("native pull policy is retained as a raw target-specific value")
    }
}

/// Reads entry `setting` of a container unit, with value `value`, into `scalars`; `seen` holds
/// the entries read so far.
pub fn read_container_entry(
    scalars: &mut ContainerScalars,
    seen: &mut Vec<ContainerSetting>,
    setting: ContainerSetting,
    value: &str,
) -> (reading: ContainerReading)
    ensures
        (final(scalars)@, final(seen)@, reading) == container_after_entry(old(scalars)@, old(seen)@, setting, value@),
{
    let mut i: usize = 0;
    while i < seen.len()
        invariant
            i <= seen@.len(),
            *seen == *old(seen),
            *scalars == *old(scalars),
            forall|j: int| 0 <= j < i ==> seen@[j] != setting,
        decreases seen@.len() - i,
    {
        if seen[i] == setting {
            assert(seen@[i as int] == setting);
            return ContainerReading::Duplicate;
        }
        i = i + 1;
    }
    seen.push(setting);
    match setting {
        ContainerSetting::Entrypoint => match decode_json_exec_array(value) {
            Some(arguments) => {
                assert(arguments@.map_values(|s: String| s@) =~= strings_view(arguments@));
                scalars.entrypoint = Some(arguments);
                ContainerReading::Exact
            },
            None => ContainerReading::Unsupported("Entrypoint is exact only for reviewed JSON exec arrays"),
        },
        ContainerSetting::RunInit => match parse_quadlet_bool(value) {
            Some(b) => {
                scalars.run_init = Some(b);
                ContainerReading::Approximate("RunInit runtime equivalence remains reviewable")
            },
            None => ContainerReading::Invalid("RunInit must be a Quadlet boolean"),
        },
        ContainerSetting::StopTimeout => {
            scalars.stop_timeout = Some(value.to_string());
            match parse_unsigned(chars_of(value).as_slice(), 0xffff_ffff_ffff_ffff) {
                Some(n) => if n > 0 {
                    ContainerReading::Exact
                } else {
                    ContainerReading::Approximate("fractional, zero, and default stop-timeout semantics remain reviewable")
                },
                None => ContainerReading::Approximate(
                    "fractional, zero, and default stop-timeout semantics remain reviewable",
                ),
            }
        },
        ContainerSetting::Pull => read_pull(scalars, value),
        ContainerSetting::Memory => {
            scalars.memory_limit = Some(value.to_string());
            if is_positive_memory(value) {
                ContainerReading::Exact
            } else {
                ContainerReading::Retained("Memory must be a positive canonical byte quantity")
            }
        },
    }
}

/// The entries a plan writes, approximately or not, in order.
pub open spec fn written_entries(plan: Seq<ContainerPlanModel>) -> Seq<(ContainerSetting, Seq<char>)>
    decreases plan.len(),
{
    if plan.len() == 0 {
        Seq::empty()
    } else {
        written_entries(plan.drop_last()) + match plan.last() {
            ContainerPlanModel::Write(setting, value) => seq![(setting, value)],
            ContainerPlanModel::Approximate(setting, value, _) => seq![(setting, value)],
            _ => Seq::empty(),
        }
    }
}

/// The settings and entries seen after reading `entries` in order from `m` and `seen`.
pub open spec fn read_container_entries(
    m: ContainerModel,
    seen: Seq<ContainerSetting>,
    entries: Seq<(ContainerSetting, Seq<char>)>,
) -> (ContainerModel, Seq<ContainerSetting>)
    decreases entries.len(),
{
    if entries.len() == 0 {
        (m, seen)
    } else {
        let (m1, seen1) = read_container_entries(m, seen, entries.drop_last());
        let after = container_after_entry(m1, seen1, entries.last().0, entries.last().1);
        (after.0, after.1)
    }
}

/// Settings that the entries carry: an entrypoint that can be written and has no comma in an
/// argument, a whole number of stop-timeout seconds, a pull policy that can be written, and a
/// positive canonical memory limit.
pub open spec fn carried_exactly(m: ContainerModel) -> bool {
    &&& (m.entrypoint matches Some(a) ==> entrypoint_text(a) is Ok && forall|k: int|
        0 <= k < a.len() ==> !has_char(#[trigger] a[k], ','))
    &&& (m.stop_timeout matches Some(v) ==> timeout_seconds(v) is Some)
    &&& (m.pull_policy matches Some(p) ==> pull_text(p) is Some)
    &&& (m.memory_limit matches Some(v) ==> positive_canonical_size(v))
}

proof fn lemma_written_concat(a: Seq<ContainerPlanModel>, b: Seq<ContainerPlanModel>)
    ensures
        written_entries(a + b) == written_entries(a) + written_entries(b),
    decreases b.len(),
{
    if b.len() == 0 {
        assert(a + b =~= a);
    } else {
        lemma_written_concat(a, b.drop_last());
        assert((a + b).drop_last() =~= a + b.drop_last());
        assert((a + b).last() == b.last());
    }
}

proof fn lemma_read_concat(
    m: ContainerModel,
    seen: Seq<ContainerSetting>,
    a: Seq<(ContainerSetting, Seq<char>)>,
    b: Seq<(ContainerSetting, Seq<char>)>,
)
    ensures
        read_container_entries(m, seen, a + b) == read_container_entries(
            read_container_entries(m, seen, a).0,
            read_container_entries(m, seen, a).1,
            b,
        ),
    decreases b.len(),
{
    if b.len() == 0 {
        assert(a + b =~= a);
    } else {
        lemma_read_concat(m, seen, a, b.drop_last());
        assert((a + b).drop_last() =~= a + b.drop_last());
        assert((a + b).last() == b.last());
    }
}

/// The order in which the plan writes entries.
spec fn rank(setting: ContainerSetting) -> int {
    match setting {
        ContainerSetting::Entrypoint => 0,
        ContainerSetting::RunInit => 1,
        ContainerSetting::StopTimeout => 2,
        ContainerSetting::Pull => 3,
        ContainerSetting::Memory => 4,
    }
}

/// Every entry seen comes before `bound`.
spec fn seen_before(seen: Seq<ContainerSetting>, bound: int) -> bool {
    forall|i: int| 0 <= i < seen.len() ==> rank(#[trigger] seen[i]) < bound
}

/// The entries written by a part that writes at most `setting` with `value`.
spec fn at_most(setting: ContainerSetting, value: Option<Seq<char>>) -> Seq<(ContainerSetting, Seq<char>)> {
    match value {
        Some(v) => seq![(setting, v)],
        None => Seq::empty(),
    }
}

/// The entry, if any, that a part of at most one step writes.
spec fn single_written(p: Seq<ContainerPlanModel>) -> Option<Seq<char>> {
    if p.len() == 1 {
        match p[0] {
            ContainerPlanModel::Write(_, v) => Some(v),
            ContainerPlanModel::Approximate(_, v, _) => Some(v),
            _ => None,
        }
    } else {
        None
    }
}

proof fn lemma_single_written(p: Seq<ContainerPlanModel>, setting: ContainerSetting)
    requires
        p.len() <= 1,
        p.len() == 1 ==> match p[0] {
            ContainerPlanModel::Write(s, _) => s == setting,
            ContainerPlanModel::Approximate(s, _, _) => s == setting,
            _ => true,
        },
    ensures
        written_entries(p) == at_most(setting, single_written(p)),
{
    reveal_with_fuel(written_entries, 2);
    if p.len() == 1 {
        assert(p.drop_last() =~= Seq::<ContainerPlanModel>::empty());
    }
}

/// Reading prefix `a` then part `p` from no settings.
proof fn lemma_read_after(a: Seq<ContainerPlanModel>, p: Seq<ContainerPlanModel>, setting: ContainerSetting, value: Option<
    Seq<char>,
>)
    requires
        seen_before(read_container_entries(unset_container(), Seq::empty(), written_entries(a)).1, rank(setting)),
        written_entries(p) == at_most(setting, value),
    ensures
        ({
            let before = read_container_entries(unset_container(), Seq::empty(), written_entries(a));
            let after = read_container_entries(unset_container(), Seq::empty(), written_entries(a + p));
            &&& seen_before(after.1, rank(setting) + 1)
            &&& after.0 == match value {
                Some(v) => container_after_entry(before.0, before.1, setting, v).0,
                None => before.0,
            }
            &&& value is Some ==> !before.1.contains(setting)
        }),
{
    let u = unset_container();
    let e = Seq::<ContainerSetting>::empty();
    lemma_written_concat(a, p);
    lemma_read_concat(u, e, written_entries(a), written_entries(p));
    let before = read_container_entries(u, e, written_entries(a));
    reveal_with_fuel(read_container_entries, 2);
    match value {
        Some(v) => {
            assert(seq![(setting, v)].drop_last() =~= Seq::<(ContainerSetting, Seq<char>)>::empty());
            assert(!before.1.contains(setting)) by {
                if before.1.contains(setting) {
                    let i = choose|i: int| 0 <= i < before.1.len() && before.1[i] == setting;
                    assert(rank(before.1[i]) < rank(setting));
                }
            }
        },
        None => {},
    }
}

/// A written pull policy reads back as itself.
proof fn lemma_pull_reads_back(p: PullModel)
    requires
        pull_text(p) is Some,
    ensures
        pull_reading(pull_text(p)->Some_0) == p,
{
    let always = seq!['a', 'l', 'w', 'a', 'y', 's'];
    let missing = seq!['m', 'i', 's', 's', 'i', 'n', 'g'];
    let never = seq!['n', 'e', 'v', 'e', 'r'];
    assert(always.len() == 6 && missing.len() == 7 && never.len() == 5 && newer().len() == 5);
    assert(never[2] != newer()[2]);
    assert(!(missing =~= always));
    assert(!(never =~= always) && !(never =~= missing));
    assert(!(newer() =~= always) && !(newer() =~= missing) && !(newer() =~= never));
}

/// A container's single-valued settings read back as the settings written: when they are
/// carried, reading the entries that [`plan_container_entries`] writes, in order, into no
/// settings gives back every setting.
pub proof fn lemma_container_reads_back(m: ContainerModel)
    requires
        carried_exactly(m),
    ensures
        read_container_entries(unset_container(), Seq::empty(), written_entries(container_plan(m))).0 == m,
{
    let u = unset_container();
    let e = Seq::<ContainerSetting>::empty();
    let empty_plan = Seq::<ContainerPlanModel>::empty();
    assert(written_entries(empty_plan) =~= Seq::<(ContainerSetting, Seq<char>)>::empty());

    let p0 = entrypoint_step(m);
    lemma_single_written(p0, ContainerSetting::Entrypoint);
    lemma_read_after(empty_plan, p0, ContainerSetting::Entrypoint, single_written(p0));
    assert(empty_plan + p0 =~= p0);
    if let Some(a) = m.entrypoint {
        lemma_entrypoint_reads_back(a);
    }

    let p1 = run_init_step(m);
    lemma_single_written(p1, ContainerSetting::RunInit);
    lemma_read_after(p0, p1, ContainerSetting::RunInit, single_written(p1));
    if let Some(b) = m.run_init {
        lemma_bool_spelling_reads_back(b);
    }
    let a1 = p0 + p1;

    let p2 = stop_timeout_step(m);
    lemma_single_written(p2, ContainerSetting::StopTimeout);
    lemma_read_after(a1, p2, ContainerSetting::StopTimeout, single_written(p2));
    let a2 = a1 + p2;

    let p3 = pull_step(m);
    lemma_single_written(p3, ContainerSetting::Pull);
    lemma_read_after(a2, p3, ContainerSetting::Pull, single_written(p3));
    if let Some(p) = m.pull_policy {
        lemma_pull_reads_back(p);
    }
    let a3 = a2 + p3;

    let p4 = memory_step(m);
    lemma_single_written(p4, ContainerSetting::Memory);
    lemma_read_after(a3, p4, ContainerSetting::Memory, single_written(p4));
    let a4 = a3 + p4;
    assert(a4 == container_plan(m));
    let s4 = read_container_entries(u, e, written_entries(a4));
    assert(s4.0 =~= m);
}

/// The views of a unit's entries.
pub open spec fn entry_views(entries: Seq<(ContainerSetting, String)>) -> Seq<(ContainerSetting, Seq<char>)> {
    entries.map_values(|e: (ContainerSetting, String)| (e.0, e.1@))
}

/// Reads a container unit's single-valued entries in order into fresh settings: the settings read, and how each entry read.
pub fn read_container_unit(entries: &[(ContainerSetting, String)]) -> (read: (ContainerScalars, Vec<ContainerReading>))
    ensures
        read.0@ == read_container_entries(unset_container(), Seq::empty(), entry_views(entries@)).0,
        read.1@.len() == entries@.len(),
        forall|i: int|
            0 <= i < entries@.len() ==> #[trigger] read.1@[i] == container_after_entry(
                read_container_entries(unset_container(), Seq::empty(), entry_views(entries@).take(i)).0,
                read_container_entries(unset_container(), Seq::empty(), entry_views(entries@).take(i)).1,
                entries@[i].0,
                entries@[i].1@,
            ).2,
{
    let ghost views = entry_views(entries@);
    let mut settings = ContainerScalars::new();
    let mut seen: Vec<ContainerSetting> = Vec::new();
    let mut readings: Vec<ContainerReading> = Vec::new();
    let mut i: usize = 0;
    assert(views.take(0) =~= Seq::<(ContainerSetting, Seq<char>)>::empty());
    while i < entries.len()
        invariant
            i <= entries@.len(),
            views == entry_views(entries@),
            (settings@, seen@) == read_container_entries(unset_container(), Seq::empty(), views.take(i as int)),
            readings@.len() == i,
            forall|j: int|
                0 <= j < i ==> #[trigger] readings@[j] == container_after_entry(
                    read_container_entries(unset_container(), Seq::empty(), views.take(j)).0,
                    read_container_entries(unset_container(), Seq::empty(), views.take(j)).1,
                    entries@[j].0,
                    entries@[j].1@,
                ).2,
        decreases entries@.len() - i,
    {
        let reading = read_container_entry(&mut settings, &mut seen, entries[i].0, entries[i].1.as_str());
        readings.push(reading);
        proof {
            let t = views.take(i + 1);
            assert(t.drop_last() =~= views.take(i as int));
            assert(t.last() == (entries@[i as int].0, entries@[i as int].1@));
        }
        i += 1;
    }
    assert(views.take(entries@.len() as int) =~= views);
    (settings, readings)
}

} // verus!
