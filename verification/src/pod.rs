//! Pod units: the runtime settings of a service group that a pod unit carries as single
//! entries, the entries written for them, and how those entries are read back.

use vstd::prelude::*;
use crate::grammar::{
    canonical_nonnegative_seconds, is_canonical_nonnegative_seconds, is_positive_memory, native_atom,
    native_atom_chars, positive_canonical_size, safe_word, safe_word_chars,
};
use crate::scalar::{ends_with, ends_with_chars};
use crate::text::{chars_of, is_digit, same_chars};

verus! {

broadcast use vstd::string::group_string_axioms;

/// The single-valued entries of a pod unit.
#[derive(Clone, Copy, Debug, PartialEq, Eq, Structural)]
pub enum PodSetting {
    PodName,
    ServiceName,
    UserNs,
    ShmSize,
    ExitPolicy,
    StopTimeout,
}

/// What a pod does when one of its containers exits.
#[derive(Clone, Debug, PartialEq, Eq)]
pub enum PodExitPolicy {
    /// `stop`.
    Stop,
    /// `continue`.
    Continue,
    /// Any other native value, kept as authored.
    Raw(String),
}

/// Mathematical model of a [`PodExitPolicy`].
pub enum ExitPolicyModel {
    Stop,
    Continue,
    Raw(Seq<char>),
}

impl View for PodExitPolicy {
    type V = ExitPolicyModel;

    open spec fn view(&self) -> ExitPolicyModel {
        match self {
            PodExitPolicy::Stop => ExitPolicyModel::Stop,
            PodExitPolicy::Continue => ExitPolicyModel::Continue,
            PodExitPolicy::Raw(v) => ExitPolicyModel::Raw(v@),
        }
    }
}

/// The runtime settings of a service group that a pod unit carries as single entries.
#[derive(Clone, Debug, PartialEq, Eq)]
pub struct PodScalars {
    pub runtime_name: Option<String>,
    pub service_name: Option<String>,
    pub user_namespace: Option<String>,
    pub shm_size: Option<String>,
    pub exit_policy: Option<PodExitPolicy>,
    pub stop_timeout: Option<String>,
}

/// Mathematical model of [`PodScalars`].
#[verifier::ext_equal]
pub struct PodModel {
    pub runtime_name: Option<Seq<char>>,
    pub service_name: Option<Seq<char>>,
    pub user_namespace: Option<Seq<char>>,
    pub shm_size: Option<Seq<char>>,
    pub exit_policy: Option<ExitPolicyModel>,
    pub stop_timeout: Option<Seq<char>>,
}

/// The view of an optional string.
pub open spec fn text_view(value: Option<String>) -> Option<Seq<char>> {
    match value {
        Some(v) => Some(v@),
        None => None,
    }
}

impl View for PodScalars {
    type V = PodModel;

    open spec fn view(&self) -> PodModel {
        PodModel {
            runtime_name: text_view(self.runtime_name),
            service_name: text_view(self.service_name),
            user_namespace: text_view(self.user_namespace),
            shm_size: text_view(self.shm_size),
            exit_policy: match self.exit_policy {
                Some(p) => Some(p@),
                None => None,
            },
            stop_timeout: text_view(self.stop_timeout),
        }
    }
}

/// No setting made.
pub open spec fn unset_pod() -> PodModel {
    PodModel {
        runtime_name: None,
        service_name: None,
        user_namespace: None,
        shm_size: None,
        exit_policy: None,
        stop_timeout: None,
    }
}

impl PodScalars {
    /// No setting made.
    pub fn new() -> (scalars: Self)
        ensures
            scalars@ == unset_pod(),
    {
        PodScalars {
            runtime_name: None,
            service_name: None,
            user_namespace: None,
            shm_size: None,
            exit_policy: None,
            stop_timeout: None,
        }
    }
}

/// A shared-memory size unit.
pub open spec fn is_size_unit(c: char) -> bool {
    c == 'b' || c == 'k' || c == 'm' || c == 'g'
}

/// A shared-memory size as the native library accepts it: an ASCII-decimal amount, leading
/// zeros allowed, with an optional lowercase `b`, `k`, `m` or `g` unit.
pub open spec fn shm_size_spelling(s: Seq<char>) -> bool {
    let amount = if s.len() > 0 && is_size_unit(s.last()) {
        s.take(s.len() - 1)
    } else {
        s
    };
    s.len() > 0 && amount.len() > 0 && forall|i: int| 0 <= i < amount.len() ==> is_digit(#[trigger] amount[i])
}

/// `quadlet_lens::render::ShmSize::new` accepts `value`: its documentation and source accept
/// exactly a non-empty ASCII-decimal amount with an optional lowercase `b`, `k`, `m` or `g` unit.
#[verifier::external_body]
fn shm_size_accepted(value: &str) -> (accepted: bool)
    ensures
        accepted == shm_size_spelling(value@),
{
    quadlet_lens::render::ShmSize::new(value).is_ok()
}

/// The suffix `.service`.
pub open spec fn service_suffix() -> Seq<char> {
    seq!['.', 's', 'e', 'r', 'v', 'i', 'c', 'e']
}

/// The spelling of an exit policy that is written.
pub open spec fn exit_policy_text(policy: ExitPolicyModel) -> Option<Seq<char>> {
    match policy {
        ExitPolicyModel::Stop => Some(seq!['s', 't', 'o', 'p']),
        ExitPolicyModel::Continue => Some(seq!['c', 'o', 'n', 't', 'i', 'n', 'u', 'e']),
        ExitPolicyModel::Raw(_) => None,
    }
}

/// One step of writing a pod unit's single entries.
#[derive(Clone, Debug, PartialEq, Eq)]
pub enum PodEntryPlan {
    /// The entry is written.
    Write(PodSetting, String),
    /// The setting is not carried, for this reason.
    Unsupported(PodSetting, &'static str),
}

/// Mathematical model of a [`PodEntryPlan`].
pub enum PodPlanModel {
    Write(PodSetting, Seq<char>),
    Unsupported(PodSetting, Seq<char>),
}

impl View for PodEntryPlan {
    type V = PodPlanModel;

    open spec fn view(&self) -> PodPlanModel {
        match self {
            PodEntryPlan::Write(setting, value) => PodPlanModel::Write(*setting, value@),
            PodEntryPlan::Unsupported(setting, reason) => PodPlanModel::Unsupported(*setting, reason@),
        }
    }
}

/// The views of a plan.
pub open spec fn plan_view(plan: Seq<PodEntryPlan>) -> Seq<PodPlanModel> {
    plan.map_values(|p: PodEntryPlan| p@)
}

/// One setting: written when `ok`, otherwise reported with `reason`; nothing when unset.
pub open spec fn step(setting: PodSetting, value: Option<Seq<char>>, ok: bool, reason: Seq<char>) -> Seq<PodPlanModel> {
    match value {
        None => Seq::empty(),
        Some(v) => if ok {
            seq![PodPlanModel::Write(setting, v)]
        } else {
            seq![PodPlanModel::Unsupported(setting, reason)]
        },
    }
}

/// The service-name step.
pub open spec fn service_name_step(m: PodModel) -> Seq<PodPlanModel> {
    step(
        PodSetting::ServiceName,
        m.service_name,
        match m.service_name {
            Some(v) => !ends_with(v, service_suffix()) && native_atom(v),
            None => false,
        },
        "pod ServiceName must be a safe unsuffixed service-name stem"@,
    )
}

/// The user-namespace step.
pub open spec fn user_namespace_step(m: PodModel) -> Seq<PodPlanModel> {
    step(
        PodSetting::UserNs,
        m.user_namespace,
        match m.user_namespace {
            Some(v) => safe_word(v, false),
            None => false,
        },
        "pod UserNS requires a safe one-line native token"@,
    )
}

/// The shared-memory step.
pub open spec fn shm_size_step(m: PodModel) -> Seq<PodPlanModel> {
    step(
        PodSetting::ShmSize,
        m.shm_size,
        match m.shm_size {
            Some(v) => shm_size_spelling(v),
            None => false,
        },
        "pod ShmSize must use the reviewed native grammar"@,
    )
}

/// The exit-policy step.
pub open spec fn exit_policy_step(m: PodModel) -> Seq<PodPlanModel> {
    match m.exit_policy {
        None => Seq::empty(),
        Some(p) => match exit_policy_text(p) {
            Some(t) => seq![PodPlanModel::Write(PodSetting::ExitPolicy, t)],
            None => seq![
                PodPlanModel::Unsupported(
                    PodSetting::ExitPolicy,
                    "raw pod ExitPolicy is retained as native evidence and is not synthesized"@,
                ),
            ],
        },
    }
}

/// The stop-timeout step.
pub open spec fn stop_timeout_step(m: PodModel) -> Seq<PodPlanModel> {
    step(
        PodSetting::StopTimeout,
        m.stop_timeout,
        match m.stop_timeout {
            Some(v) => canonical_nonnegative_seconds(v),
            None => false,
        },
        "pod StopTimeout requires canonical integral seconds"@,
    )
}

/// The steps of writing a pod unit's single entries for `m`: its pod name as set, then its
/// service name (a native atom without the `.service` suffix), user namespace (a safe word),
/// shared-memory size (as the native library accepts it), exit policy (`stop` or `continue`)
/// and stop timeout (canonical whole seconds).
pub open spec fn pod_plan(m: PodModel) -> Seq<PodPlanModel> {
    step(PodSetting::PodName, m.runtime_name, true, Seq::empty()) + service_name_step(m) + user_namespace_step(m)
        + shm_size_step(m) + exit_policy_step(m) + stop_timeout_step(m)
}

fn plan_service_name(plan: &mut Vec<PodEntryPlan>, scalars: &PodScalars)
    ensures
        plan_view(final(plan)@) == plan_view(old(plan)@) + service_name_step(scalars@),
{
    let ghost before = plan_view(plan@);
    match &scalars.service_name {
        Some(name) => {
            let s = chars_of(name.as_str());
            let suffix = vec!['.', 's', 'e', 'r', 'v', 'i', 'c', 'e'];
            assert(suffix@ =~= service_suffix());
            if !ends_with_chars(s.as_slice(), suffix.as_slice()) && native_atom_chars(s.as_slice()) {
                plan.push(PodEntryPlan::Write(PodSetting::ServiceName, name.clone()));
            } else {
                plan.push(
                    PodEntryPlan::Unsupported(PodSetting::ServiceName, "pod ServiceName must be a safe unsuffixed service-name stem"),
                );
            }
        },
        None => {},
    }
    assert(plan_view(plan@) =~= before + service_name_step(scalars@));
}

fn plan_user_namespace(plan: &mut Vec<PodEntryPlan>, scalars: &PodScalars)
    ensures
        plan_view(final(plan)@) == plan_view(old(plan)@) + user_namespace_step(scalars@),
{
    let ghost before = plan_view(plan@);
    match &scalars.user_namespace {
        Some(v) => {
            if safe_word_chars(chars_of(v.as_str()).as_slice(), false) {
                plan.push(PodEntryPlan::Write(PodSetting::UserNs, v.clone()));
            } else {
                plan.push(PodEntryPlan::Unsupported(PodSetting::UserNs, "pod UserNS requires a safe one-line native token"));
            }
        },
        None => {},
    }
    assert(plan_view(plan@) =~= before + user_namespace_step(scalars@));
}

fn plan_shm_size(plan: &mut Vec<PodEntryPlan>, scalars: &PodScalars)
    ensures
        plan_view(final(plan)@) == plan_view(old(plan)@) + shm_size_step(scalars@),
{
    let ghost before = plan_view(plan@);
    match &scalars.shm_size {
        Some(v) => {
            if shm_size_accepted(v.as_str()) {
                plan.push(PodEntryPlan::Write(PodSetting::ShmSize, v.clone()));
            } else {
                plan.push(PodEntryPlan::Unsupported(PodSetting::ShmSize, "pod ShmSize must use the reviewed native grammar"));
            }
        },
        None => {},
    }
    assert(plan_view(plan@) =~= before + shm_size_step(scalars@));
}

fn plan_exit_policy(plan: &mut Vec<PodEntryPlan>, scalars: &PodScalars)
    ensures
        plan_view(final(plan)@) == plan_view(old(plan)@) + exit_policy_step(scalars@),
{
    let ghost before = plan_view(plan@);
    proof {
        reveal_strlit("stop");
        reveal_strlit("continue");
    }
    match &scalars.exit_policy {
        Some(PodExitPolicy::Stop) => {
            let text = "stop".to_string();
            assert(text@ == seq!['s', 't', 'o', 'p']);
            plan.push(PodEntryPlan::Write(PodSetting::ExitPolicy, text));
        },
        Some(PodExitPolicy::Continue) => {
            let text = "continue".to_string();
            assert(text@ == seq!['c', 'o', 'n', 't', 'i', 'n', 'u', 'e']);
            plan.push(PodEntryPlan::Write(PodSetting::ExitPolicy, text));
        },
        Some(PodExitPolicy::Raw(_)) => {
            plan.push(
                PodEntryPlan::Unsupported(
                    PodSetting::ExitPolicy,
                    "raw pod ExitPolicy is retained as native evidence and is not synthesized",
                ),
            );
        },
        None => {},
    }
    assert(plan_view(plan@) =~= before + exit_policy_step(scalars@));
}

fn plan_stop_timeout(plan: &mut Vec<PodEntryPlan>, scalars: &PodScalars)
    ensures
        plan_view(final(plan)@) == plan_view(old(plan)@) + stop_timeout_step(scalars@),
{
    let ghost before = plan_view(plan@);
    match &scalars.stop_timeout {
        Some(v) => {
            if is_canonical_nonnegative_seconds(v.as_str()) {
                plan.push(PodEntryPlan::Write(PodSetting::StopTimeout, v.clone()));
            } else {
                plan.push(PodEntryPlan::Unsupported(PodSetting::StopTimeout, "pod StopTimeout requires canonical integral seconds"));
            }
        },
        None => {},
    }
    assert(plan_view(plan@) =~= before + stop_timeout_step(scalars@));
}

/// Plans the single entries of a pod unit for `scalars`.
pub fn plan_pod_entries(scalars: &PodScalars) -> (plan: Vec<PodEntryPlan>)
    ensures
        plan_view(plan@) == pod_plan(scalars@),
{
    let mut plan: Vec<PodEntryPlan> = Vec::new();
    match &scalars.runtime_name {
        Some(name) => plan.push(PodEntryPlan::Write(PodSetting::PodName, name.clone())),
        None => {},
    }
    assert(plan_view(plan@) =~= step(PodSetting::PodName, scalars@.runtime_name, true, Seq::empty()));
    plan_service_name(&mut plan, scalars);
    plan_user_namespace(&mut plan, scalars);
    plan_shm_size(&mut plan, scalars);
    plan_exit_policy(&mut plan, scalars);
    plan_stop_timeout(&mut plan, scalars);
    plan
}

/// What reading one pod entry did.
#[derive(Clone, Copy, Debug, PartialEq, Eq, Structural)]
pub enum PodReading {
    /// The setting was read exactly.
    Exact,
    /// The entry came again; nothing was read.
    Duplicate,
    /// The service name is empty or carries the `.service` suffix; nothing was read.
    InvalidServiceName,
    /// The value was kept as authored but is outside the accepted grammar.
    Retained,
}

impl PodReading {
    /// Why entry `setting` does not read exactly; `None` when it does.
    pub fn reason(&self, setting: PodSetting) -> (reason: Option<&'static str>)
        ensures
            match self {
                PodReading::Exact => reason is None,
                PodReading::Duplicate => reason matches Some(r) && r@ == if setting == PodSetting::PodName {
                    "Quadlet PodName is declared more than once"@
                } else {
                    "Quadlet singleton pod key is declared more than once"@
                },
                PodReading::InvalidServiceName => reason matches Some(r) && r@
                    == "Pod ServiceName must be an unsuffixed service-name stem"@,
                PodReading::Retained => reason matches Some(r) && r@ == match setting {
                    PodSetting::ShmSize => "pod shared-memory size is retained but outside the reviewed grammar"@,
                    PodSetting::ExitPolicy => "native exit policy is retained as a raw target-specific value"@,
                    _ => "pod StopTimeout is retained but must be canonical integral seconds"@,
                },
            },
    {
        match self {
            PodReading::Exact => None,
            PodReading::Duplicate => {
                if setting == PodSetting::PodName {
                    Some("Quadlet PodName is declared more than once")
                } else {
                    Some("Quadlet singleton pod key is declared more than once")
                }
            },
            PodReading::InvalidServiceName => Some("Pod ServiceName must be an unsuffixed service-name stem"),
            PodReading::Retained => match setting {
                PodSetting::ShmSize => Some("pod shared-memory size is retained but outside the reviewed grammar"),
                PodSetting::ExitPolicy => Some("native exit policy is retained as a raw target-specific value"),
                _ => Some("pod StopTimeout is retained but must be canonical integral seconds"),
            },
        }
    }
}

/// What reading entry `setting` with value `value` makes of `m` and the entries `seen`, and how
/// it reads. Every entry here is single: one that came before is a duplicate.
pub open spec fn pod_after_entry(m: PodModel, seen: Seq<PodSetting>, setting: PodSetting, value: Seq<char>) -> (
    PodModel,
    Seq<PodSetting>,
    PodReading,
) {
    if seen.contains(setting) {
        (m, seen, PodReading::Duplicate)
    } else {
        let seen1 = seen.push(setting);
        match setting {
            PodSetting::PodName => (PodModel { runtime_name: Some(value), ..m }, seen1, PodReading::Exact),
            PodSetting::ServiceName => if value.len() == 0 || ends_with(value, service_suffix()) {
                (m, seen1, PodReading::InvalidServiceName)
            } else {
                (PodModel { service_name: Some(value), ..m }, seen1, PodReading::Exact)
            },
            PodSetting::UserNs => (PodModel { user_namespace: Some(value), ..m }, seen1, PodReading::Exact),
            PodSetting::ShmSize => (
                PodModel { shm_size: Some(value), ..m },
                seen1,
                if positive_canonical_size(value) || value == seq!['0'] {
                    PodReading::Exact
                } else {
                    PodReading::Retained
                },
            ),
            PodSetting::ExitPolicy => if value == seq!['s', 't', 'o', 'p'] {
                (PodModel { exit_policy: Some(ExitPolicyModel::Stop), ..m }, seen1, PodReading::Exact)
            } else if value == seq!['c', 'o', 'n', 't', 'i', 'n', 'u', 'e'] {
                (PodModel { exit_policy: Some(ExitPolicyModel::Continue), ..m }, seen1, PodReading::Exact)
            } else {
                (PodModel { exit_policy: Some(ExitPolicyModel::Raw(value)), ..m }, seen1, PodReading::Retained)
            },
            PodSetting::StopTimeout => (
                PodModel { stop_timeout: Some(value), ..m },
                seen1,
                if canonical_nonnegative_seconds(value) {
                    PodReading::Exact
                } else {
                    PodReading::Retained
                },
            ),
        }
    }
}

/// Reads entry `setting` of a pod unit, with value `value`, into `scalars`; `seen` holds the
/// entries read so far.
pub fn read_pod_entry(scalars: &mut PodScalars, seen: &mut Vec<PodSetting>, setting: PodSetting, value: &str) -> (reading:
    PodReading)
    ensures
        (final(scalars)@, final(seen)@, reading) == pod_after_entry(old(scalars)@, old(seen)@, setting, value@),
{
    let mut i: usize = 0;
    while i < seen.len()
        invariant
            i <= seen@.len(),
            *seen == *old(seen),
            *scalars == *old(scalars),
            forall|j: int| 0 <= j < i ==> seen@[j] != setting,
        decreases seen@.len() - i,
    {
        if seen[i] == setting {
            assert(seen@[i as int] == setting);
            return PodReading::Duplicate;
        }
        i = i + 1;
    }
    seen.push(setting);
    let s = chars_of(value);
    match setting {
        PodSetting::PodName => {
            scalars.runtime_name = Some(value.to_string());
            PodReading::Exact
        },
        PodSetting::ServiceName => {
            let suffix = vec!['.', 's', 'e', 'r', 'v', 'i', 'c', 'e'];
            assert(suffix@ =~= service_suffix());
            if s.len() == 0 || ends_with_chars(s.as_slice(), suffix.as_slice()) {
                return PodReading::InvalidServiceName;
            }
            scalars.service_name = Some(value.to_string());
            PodReading::Exact
        },
        PodSetting::UserNs => {
            scalars.user_namespace = Some(value.to_string());
            PodReading::Exact
        },
        PodSetting::ShmSize => {
            scalars.shm_size = Some(value.to_string());
            let zero = vec!['0'];
            assert(zero@ =~= seq!['0']);
            if is_positive_memory(value) || same_chars(s.as_slice(), zero.as_slice()) {
                PodReading::Exact
            } else {
                PodReading::Retained
            }
        },
        PodSetting::ExitPolicy => {
            let stop = vec!['s', 't', 'o', 'p'];
            let go_on = vec!['c', 'o', 'n', 't', 'i', 'n', 'u', 'e'];
            assert(stop@ =~= seq!['s', 't', 'o', 'p']);
            assert(go_on@ =~= seq!['c', 'o', 'n', 't', 'i', 'n', 'u', 'e']);
            if same_chars(s.as_slice(), stop.as_slice()) {
                scalars.exit_policy = Some(PodExitPolicy::Stop);
                PodReading::Exact
            } else if same_chars(s.as_slice(), go_on.as_slice()) {
                scalars.exit_policy = Some(PodExitPolicy::Continue);
                PodReading::Exact
            } else {
                scalars.exit_policy = Some(PodExitPolicy::Raw(value.to_string()));
                PodReading::Retained
            }
        },
        PodSetting::StopTimeout => {
            scalars.stop_timeout = Some(value.to_string());
            if is_canonical_nonnegative_seconds(value) {
                PodReading::Exact
            } else {
                PodReading::Retained
            }
        },
    }
}

/// The entries a plan writes, in order.
pub open spec fn written_entries(plan: Seq<PodPlanModel>) -> Seq<(PodSetting, Seq<char>)>
    decreases plan.len(),
{
    if plan.len() == 0 {
        Seq::empty()
    } else {
        written_entries(plan.drop_last()) + match plan.last() {
            PodPlanModel::Write(setting, value) => seq![(setting, value)],
            _ => Seq::empty(),
        }
    }
}

/// The settings and entries seen after reading `entries` in order from `m` and `seen`.
pub open spec fn read_pod_entries(m: PodModel, seen: Seq<PodSetting>, entries: Seq<(PodSetting, Seq<char>)>) -> (
    PodModel,
    Seq<PodSetting>,
)
    decreases entries.len(),
{
    if entries.len() == 0 {
        (m, seen)
    } else {
        let (m1, seen1) = read_pod_entries(m, seen, entries.drop_last());
        let after = pod_after_entry(m1, seen1, entries.last().0, entries.last().1);
        (after.0, after.1)
    }
}

/// Settings that the unit carries exactly: a service name that is a native atom without the
/// `.service` suffix, a safe-word user namespace, a shared-memory size the native library
/// accepts, a `stop` or `continue` exit policy, and a stop timeout in canonical seconds.
pub open spec fn carried_exactly(m: PodModel) -> bool {
    &&& (m.service_name matches Some(v) ==> native_atom(v) && !ends_with(v, service_suffix()))
    &&& (m.user_namespace matches Some(v) ==> safe_word(v, false))
    &&& (m.shm_size matches Some(v) ==> shm_size_spelling(v))
    &&& (m.exit_policy matches Some(p) ==> !(p is Raw))
    &&& (m.stop_timeout matches Some(v) ==> canonical_nonnegative_seconds(v))
}

proof fn lemma_written_concat(a: Seq<PodPlanModel>, b: Seq<PodPlanModel>)
    ensures
        written_entries(a + b) == written_entries(a) + written_entries(b),
    decreases b.len(),
{
    if b.len() == 0 {
        assert(a + b =~= a);
    } else {
        lemma_written_concat(a, b.drop_last());
        assert((a + b).drop_last() =~= a + b.drop_last());
        assert((a + b).last() == b.last());
    }
}

proof fn lemma_read_concat(m: PodModel, seen: Seq<PodSetting>, a: Seq<(PodSetting, Seq<char>)>, b: Seq<(PodSetting, Seq<char>)>)
    ensures
        read_pod_entries(m, seen, a + b) == read_pod_entries(read_pod_entries(m, seen, a).0, read_pod_entries(m, seen, a).1, b),
    decreases b.len(),
{
    if b.len() == 0 {
        assert(a + b =~= a);
    } else {
        lemma_read_concat(m, seen, a, b.drop_last());
        assert((a + b).drop_last() =~= a + b.drop_last());
        assert((a + b).last() == b.last());
    }
}

/// The order in which the plan writes entries.
spec fn rank(setting: PodSetting) -> int {
    match setting {
        PodSetting::PodName => 0,
        PodSetting::ServiceName => 1,
        PodSetting::UserNs => 2,
        PodSetting::ShmSize => 3,
        PodSetting::ExitPolicy => 4,
        PodSetting::StopTimeout => 5,
    }
}

/// Every entry seen comes before `bound`.
spec fn seen_before(seen: Seq<PodSetting>, bound: int) -> bool {
    forall|i: int| 0 <= i < seen.len() ==> rank(#[trigger] seen[i]) < bound
}

/// Reading the written entries of plan part `part`, which writes at most entry `setting` with
/// `value`.
proof fn lemma_read_part(m: PodModel, seen: Seq<PodSetting>, part: Seq<PodPlanModel>, setting: PodSetting, value: Option<Seq<char>>)
    requires
        seen_before(seen, rank(setting)),
        written_entries(part) == match value {
            Some(v) => seq![(setting, v)],
            None => Seq::<(PodSetting, Seq<char>)>::empty(),
        },
    ensures
        seen_before(read_pod_entries(m, seen, written_entries(part)).1, rank(setting) + 1),
        read_pod_entries(m, seen, written_entries(part)).0 == match value {
            Some(v) => pod_after_entry(m, seen, setting, v).0,
            None => m,
        },
        value is Some ==> !seen.contains(setting),
{
    reveal_with_fuel(read_pod_entries, 2);
    match value {
        Some(v) => {
            assert(seq![(setting, v)].drop_last() =~= Seq::<(PodSetting, Seq<char>)>::empty());
            assert(!seen.contains(setting)) by {
                if seen.contains(setting) {
                    let i = choose|i: int| 0 <= i < seen.len() && seen[i] == setting;
                    assert(rank(seen[i]) < rank(setting));
                }
            }
        },
        None => {},
    }
}

proof fn lemma_step_written(setting: PodSetting, value: Option<Seq<char>>, ok: bool, reason: Seq<char>)
    ensures
        written_entries(step(setting, value, ok, reason)) == match value {
            Some(v) => if ok {
                seq![(setting, v)]
            } else {
                Seq::<(PodSetting, Seq<char>)>::empty()
            },
            None => Seq::<(PodSetting, Seq<char>)>::empty(),
        },
{
    reveal_with_fuel(written_entries, 2);
    let p = step(setting, value, ok, reason);
    assert(p.len() > 0 ==> p.drop_last() =~= Seq::<PodPlanModel>::empty());
}

proof fn lemma_exit_written(m: PodModel)
    ensures
        written_entries(exit_policy_step(m)) == match m.exit_policy {
            Some(p) => match exit_policy_text(p) {
                Some(t) => seq![(PodSetting::ExitPolicy, t)],
                None => Seq::<(PodSetting, Seq<char>)>::empty(),
            },
            None => Seq::<(PodSetting, Seq<char>)>::empty(),
        },
{
    reveal_with_fuel(written_entries, 2);
    let p = exit_policy_step(m);
    assert(p.len() > 0 ==> p.drop_last() =~= Seq::<PodPlanModel>::empty());
}

/// Reading prefix `a` then part `p` from no settings.
proof fn lemma_read_after(a: Seq<PodPlanModel>, p: Seq<PodPlanModel>, setting: PodSetting, value: Option<Seq<char>>)
    requires
        seen_before(read_pod_entries(unset_pod(), Seq::empty(), written_entries(a)).1, rank(setting)),
        written_entries(p) == match value {
            Some(v) => seq![(setting, v)],
            None => Seq::<(PodSetting, Seq<char>)>::empty(),
        },
    ensures
        ({
            let before = read_pod_entries(unset_pod(), Seq::empty(), written_entries(a));
            let after = read_pod_entries(unset_pod(), Seq::empty(), written_entries(a + p));
            &&& seen_before(after.1, rank(setting) + 1)
            &&& after.0 == match value {
                Some(v) => pod_after_entry(before.0, before.1, setting, v).0,
                None => before.0,
            }
            &&& value is Some ==> !before.1.contains(setting)
        }),
{
    let u = unset_pod();
    let e = Seq::<PodSetting>::empty();
    lemma_written_concat(a, p);
    lemma_read_concat(u, e, written_entries(a), written_entries(p));
    let before = read_pod_entries(u, e, written_entries(a));
    lemma_read_part(before.0, before.1, p, setting, value);
}

/// A pod unit's single entries read back as the settings written: when they are carried
/// exactly, reading the entries that [`plan_pod_entries`] writes, in order, into no settings
/// gives back every setting.
pub proof fn lemma_pod_reads_back(m: PodModel)
    requires
        carried_exactly(m),
    ensures
        read_pod_entries(unset_pod(), Seq::empty(), written_entries(pod_plan(m))).0 == m,
{
    let u = unset_pod();
    let e = Seq::<PodSetting>::empty();
    let p0 = step(PodSetting::PodName, m.runtime_name, true, Seq::empty());
    lemma_step_written(PodSetting::PodName, m.runtime_name, true, Seq::empty());
    lemma_read_after(Seq::empty(), p0, PodSetting::PodName, m.runtime_name);
    assert(Seq::<PodPlanModel>::empty() + p0 =~= p0);
    assert(written_entries(Seq::<PodPlanModel>::empty()) =~= Seq::<(PodSetting, Seq<char>)>::empty());

    let p1 = service_name_step(m);
    lemma_step_written(PodSetting::ServiceName, m.service_name, match m.service_name {
        Some(v) => !ends_with(v, service_suffix()) && native_atom(v),
        None => false,
    }, "pod ServiceName must be a safe unsuffixed service-name stem"@);
    lemma_read_after(p0, p1, PodSetting::ServiceName, m.service_name);
    let a1 = p0 + p1;

    let p2 = user_namespace_step(m);
    lemma_step_written(PodSetting::UserNs, m.user_namespace, match m.user_namespace {
        Some(v) => safe_word(v, false),
        None => false,
    }, "pod UserNS requires a safe one-line native token"@);
    lemma_read_after(a1, p2, PodSetting::UserNs, m.user_namespace);
    let a2 = a1 + p2;

    let p3 = shm_size_step(m);
    lemma_step_written(PodSetting::ShmSize, m.shm_size, match m.shm_size {
        Some(v) => shm_size_spelling(v),
        None => false,
    }, "pod ShmSize must use the reviewed native grammar"@);
    lemma_read_after(a2, p3, PodSetting::ShmSize, m.shm_size);
    let a3 = a2 + p3;

    let p4 = exit_policy_step(m);
    let exit_text = match m.exit_policy {
        Some(p) => exit_policy_text(p),
        None => None,
    };
    lemma_exit_written(m);
    lemma_read_after(a3, p4, PodSetting::ExitPolicy, exit_text);
    let a4 = a3 + p4;
    assert(seq!['c', 'o', 'n', 't', 'i', 'n', 'u', 'e'] != seq!['s', 't', 'o', 'p']) by {
        assert(seq!['c', 'o', 'n', 't', 'i', 'n', 'u', 'e'].len() == 8);
    }

    let p5 = stop_timeout_step(m);
    lemma_step_written(PodSetting::StopTimeout, m.stop_timeout, match m.stop_timeout {
        Some(v) => canonical_nonnegative_seconds(v),
        None => false,
    }, "pod StopTimeout requires canonical integral seconds"@);
    lemma_read_after(a4, p5, PodSetting::StopTimeout, m.stop_timeout);
    let a5 = a4 + p5;
    assert(a5 == pod_plan(m));
    let s5 = read_pod_entries(u, e, written_entries(a5));
    assert(s5.0 =~= m);
}

/// The host network, `host`.
pub open spec fn host_network() -> Seq<char> {
    seq!['h', 'o', 's', 't']
}

/// A pod that joins the host network cannot publish ports: whether the pod attached to
/// `networks` with `port_count` published ports has that conflict.
pub fn host_network_conflict(networks: &[String], port_count: usize) -> (conflict: bool)
    ensures
        conflict == (port_count > 0 && networks@.map_values(|n: String| n@).contains(host_network())),
{
    let ghost names = networks@.map_values(|n: String| n@);
    let host = vec!['h', 'o', 's', 't'];
    assert(host@ =~= host_network());
    let mut found = false;
    let mut i: usize = 0;
    while i < networks.len() && !found
        invariant
            i <= networks@.len(),
            host@ == host_network(),
            names == networks@.map_values(|n: String| n@),
            found ==> names.contains(host_network()),
            !found ==> forall|j: int| 0 <= j < i ==> names[j] != host_network(),
        decreases networks@.len() - i,
    {
        if same_chars(chars_of(networks[i].as_str()).as_slice(), host.as_slice()) {
            assert(names[i as int] == host_network());
            found = true;
        }
        i = i + 1;
    }
    port_count > 0 && found
}

/// The views of a unit's entries.
pub open spec fn entry_views(entries: Seq<(PodSetting, String)>) -> Seq<(PodSetting, Seq<char>)> {
    entries.map_values(|e: (PodSetting, String)| (e.0, e.1@))
}

/// Reads a pod unit's single entries in order into fresh settings: the settings read, and how each entry read.
pub fn read_pod_unit(entries: &[(PodSetting, String)]) -> (read: (PodScalars, Vec<PodReading>))
    ensures
        read.0@ == read_pod_entries(unset_pod(), Seq::empty(), entry_views(entries@)).0,
        read.1@.len() == entries@.len(),
        forall|i: int|
            0 <= i < entries@.len() ==> #[trigger] read.1@[i] == pod_after_entry(
                read_pod_entries(unset_pod(), Seq::empty(), entry_views(entries@).take(i)).0,
                read_pod_entries(unset_pod(), Seq::empty(), entry_views(entries@).take(i)).1,
                entries@[i].0,
                entries@[i].1@,
            ).2,
{
    let ghost views = entry_views(entries@);
    let mut settings = PodScalars::new();
    let mut seen: Vec<PodSetting> = Vec::new();
    let mut readings: Vec<PodReading> = Vec::new();
    let mut i: usize = 0;
    assert(views.take(0) =~= Seq::<(PodSetting, Seq<char>)>::empty());
    while i < entries.len()
        invariant
            i <= entries@.len(),
            views == entry_views(entries@),
            (settings@, seen@) == read_pod_entries(unset_pod(), Seq::empty(), views.take(i as int)),
            readings@.len() == i,
            forall|j: int|
                0 <= j < i ==> #[trigger] readings@[j] == pod_after_entry(
                    read_pod_entries(unset_pod(), Seq::empty(), views.take(j)).0,
                    read_pod_entries(unset_pod(), Seq::empty(), views.take(j)).1,
                    entries@[j].0,
                    entries@[j].1@,
                ).2,
        decreases entries@.len() - i,
    {
        let reading = read_pod_entry(&mut settings, &mut seen, entries[i].0, entries[i].1.as_str());
        readings.push(reading);
        proof {
            let t = views.take(i + 1);
            assert(t.drop_last() =~= views.take(i as int));
            assert(t.last() == (entries@[i as int].0, entries@[i as int].1@));
        }
        i += 1;
    }
    assert(views.take(entries@.len() as int) =~= views);
    (settings, readings)
}

} // verus!
