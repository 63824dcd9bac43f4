//! A container's execution context: its runtime name, user, group, user namespace,
//! supplementary groups, working directory, read-only root filesystem and startup notification,
//! the entries written for them, and how those entries are read back.

use vstd::prelude::*;
use crate::grammar::{
    decimal, is_decimal, is_native_atom, is_safe_mount_part, is_safe_word, native_atom, podman_container_name,
    safe_mount_part, safe_word, valid_podman_container_name,
};
use crate::scalar::{bool_spelling, bool_text};
use crate::text::{chars_of, contains_char, has_char, same_chars};

verus! {

broadcast use vstd::string::group_string_axioms;

/// The execution-context entries of a container unit.
#[derive(Clone, Copy, Debug, PartialEq, Eq, Structural)]
pub enum ExecKey {
    ContainerName,
    User,
    Group,
    UserNs,
    GroupAdd,
    WorkingDir,
    ReadOnly,
    Notify,
}

impl ExecKey {
    /// The entry's key as written in a unit file.
    pub fn key(self) -> (key: &'static str)
        ensures
            key@ == match self {
                ExecKey::ContainerName => "ContainerName"@,
                ExecKey::User => "User"@,
                ExecKey::Group => "Group"@,
                ExecKey::UserNs => "UserNS"@,
                ExecKey::GroupAdd => "GroupAdd"@,
                ExecKey::WorkingDir => "WorkingDir"@,
                ExecKey::ReadOnly => "ReadOnly"@,
                ExecKey::Notify => "Notify"@,
            },
    {
        match self {
            ExecKey::ContainerName => "ContainerName",
            ExecKey::User => "User",
            ExecKey::Group => "Group",
            ExecKey::UserNs => "UserNS",
            ExecKey::GroupAdd => "GroupAdd",
            ExecKey::WorkingDir => "WorkingDir",
            ExecKey::ReadOnly => "ReadOnly",
            ExecKey::Notify => "Notify",
        }
    }
}

/// The setting an outcome is about; a supplementary group by its index.
#[derive(Clone, Copy, Debug, PartialEq, Eq, Structural)]
pub enum ExecField {
    RuntimeName,
    User,
    Group,
    UserNamespace,
    SupplementaryGroup(usize),
    WorkingDirectory,
    ReadOnly,
    StartupNotification,
}

impl ExecField {
    /// The neutral field's name; for a supplementary group, the name of the list.
    pub fn name(self) -> (name: &'static str)
        ensures
            name@ == match self {
                ExecField::RuntimeName => "runtime_name"@,
                ExecField::User => "user"@,
                ExecField::Group => "group"@,
                ExecField::UserNamespace => "user_namespace"@,
                ExecField::SupplementaryGroup(_) => "supplementary_groups"@,
                ExecField::WorkingDirectory => "working_directory"@,
                ExecField::ReadOnly => "read_only_root_filesystem"@,
                ExecField::StartupNotification => "startup_notification"@,
            },
    {
        match self {
            ExecField::RuntimeName => "runtime_name",
            ExecField::User => "user",
            ExecField::Group => "group",
            ExecField::UserNamespace => "user_namespace",
            ExecField::SupplementaryGroup(_) => "supplementary_groups",
            ExecField::WorkingDirectory => "working_directory",
            ExecField::ReadOnly => "read_only_root_filesystem",
            ExecField::StartupNotification => "startup_notification",
        }
    }
}

/// How a container tells systemd that it has started.
#[derive(Clone, Copy, Debug, PartialEq, Eq, Structural)]
pub enum StartupNotification {
    /// The runtime notifies (`Notify=false`).
    Runtime,
    /// The application notifies (`Notify=true`).
    Application,
    /// The health check notifies once healthy (`Notify=healthy`).
    Healthy,
}

/// A service's execution context.
#[derive(Clone, Debug, PartialEq, Eq)]
pub struct ExecutionContext {
    pub runtime_name: Option<String>,
    pub user: Option<String>,
    pub group: Option<String>,
    pub user_namespace: Option<String>,
    pub supplementary_groups: Vec<String>,
    pub working_directory: Option<String>,
    pub read_only: Option<bool>,
    pub startup_notification: Option<StartupNotification>,
}

/// Mathematical model of an [`ExecutionContext`].
#[verifier::ext_equal]
pub struct ExecModel {
    pub runtime_name: Option<Seq<char>>,
    pub user: Option<Seq<char>>,
    pub group: Option<Seq<char>>,
    pub user_namespace: Option<Seq<char>>,
    pub supplementary_groups: Seq<Seq<char>>,
    pub working_directory: Option<Seq<char>>,
    pub read_only: Option<bool>,
    pub startup_notification: Option<StartupNotification>,
}

/// The view of an optional string.
pub open spec fn opt_view(value: Option<String>) -> Option<Seq<char>> {
    match value {
        Some(v) => Some(v@),
        None => None,
    }
}

/// The views of a list of strings.
pub open spec fn strings_view(values: Seq<String>) -> Seq<Seq<char>> {
    values.map_values(|v: String| v@)
}

impl View for ExecutionContext {
    type V = ExecModel;

    open spec fn view(&self) -> ExecModel {
        ExecModel {
            runtime_name: opt_view(self.runtime_name),
            user: opt_view(self.user),
            group: opt_view(self.group),
            user_namespace: opt_view(self.user_namespace),
            supplementary_groups: strings_view(self.supplementary_groups@),
            working_directory: opt_view(self.working_directory),
            read_only: self.read_only,
            startup_notification: self.startup_notification,
        }
    }
}

/// No setting made.
pub open spec fn unset_exec() -> ExecModel {
    ExecModel {
        runtime_name: None,
        user: None,
        group: None,
        user_namespace: None,
        supplementary_groups: Seq::empty(),
        working_directory: None,
        read_only: None,
        startup_notification: None,
    }
}

impl ExecutionContext {
    /// No setting made.
    pub fn new() -> (context: Self)
        ensures
            context@ == unset_exec(),
    {
        let context = ExecutionContext {
            runtime_name: None,
            user: None,
            group: None,
            user_namespace: None,
            supplementary_groups: Vec::new(),
            working_directory: None,
            read_only: None,
            startup_notification: None,
        };
        assert(context@ =~= unset_exec());
        context
    }
}

/// One step of writing an execution context.
#[derive(Clone, Debug, PartialEq, Eq)]
pub enum ExecEntryPlan {
    /// The entry is written.
    Write(ExecKey, String),
    /// The setting is not carried, for this reason.
    Unsupported(ExecField, &'static str),
    /// The setting is invalid, for this reason.
    Invalid(ExecField, &'static str),
}

/// Mathematical model of an [`ExecEntryPlan`].
pub enum ExecPlanModel {
    Write(ExecKey, Seq<char>),
    Unsupported(ExecField, Seq<char>),
    Invalid(ExecField, Seq<char>),
}

impl View for ExecEntryPlan {
    type V = ExecPlanModel;

    open spec fn view(&self) -> ExecPlanModel {
        match self {
            ExecEntryPlan::Write(k, v) => ExecPlanModel::Write(*k, v@),
            ExecEntryPlan::Unsupported(f, r) => ExecPlanModel::Unsupported(*f, r@),
            ExecEntryPlan::Invalid(f, r) => ExecPlanModel::Invalid(*f, r@),
        }
    }
}

/// The views of a plan.
pub open spec fn plan_view(plan: Seq<ExecEntryPlan>) -> Seq<ExecPlanModel> {
    plan.map_values(|p: ExecEntryPlan| p@)
}

/// Why an execution-context value is not written.
pub open spec fn protected_reason() -> Seq<char> {
    "execution-context value requires systemd quoting or target-specific validation not yet encoded"@
}

/// Writing a value that must be one safe word.
pub open spec fn protected_step(key: ExecKey, field: ExecField, value: Option<Seq<char>>) -> Seq<ExecPlanModel> {
    match value {
        None => Seq::empty(),
        Some(v) => if safe_word(v, false) {
            seq![ExecPlanModel::Write(key, v)]
        } else {
            seq![ExecPlanModel::Unsupported(field, protected_reason())]
        },
    }
}

/// Writing the runtime name, which must satisfy Podman's container-name grammar.
pub open spec fn name_step(m: ExecModel) -> Seq<ExecPlanModel> {
    match m.runtime_name {
        None => Seq::empty(),
        Some(v) => if podman_container_name(v) {
            seq![ExecPlanModel::Write(ExecKey::ContainerName, v)]
        } else {
            seq![
                ExecPlanModel::Invalid(
                    ExecField::RuntimeName,
                    "explicit container name does not satisfy Podman's runtime name grammar"@,
                ),
            ]
        },
    }
}

/// Writing the group, which must be a numeric GID.
pub open spec fn group_step(m: ExecModel) -> Seq<ExecPlanModel> {
    match m.group {
        None => Seq::empty(),
        Some(v) => if decimal(v) {
            protected_step(ExecKey::Group, ExecField::Group, Some(v))
        } else {
            seq![
                ExecPlanModel::Unsupported(
                    ExecField::Group,
                    "Quadlet Group requires a numeric GID in the supported native contract"@,
                ),
            ]
        },
    }
}

/// Writing each supplementary group, in order.
pub open spec fn groups_step(groups: Seq<Seq<char>>) -> Seq<ExecPlanModel>
    decreases groups.len(),
{
    if groups.len() == 0 {
        Seq::empty()
    } else {
        groups_step(groups.drop_last()) + protected_step(
            ExecKey::GroupAdd,
            ExecField::SupplementaryGroup((groups.len() - 1) as usize),
            Some(groups.last()),
        )
    }
}

/// Writing the read-only flag.
pub open spec fn read_only_step(m: ExecModel) -> Seq<ExecPlanModel> {
    match m.read_only {
        None => Seq::empty(),
        Some(b) => seq![ExecPlanModel::Write(ExecKey::ReadOnly, bool_spelling(b))],
    }
}

/// The `Notify=` spelling of readiness by health.
pub open spec fn healthy() -> Seq<char> {
    seq!['h', 'e', 'a', 'l', 't', 'h', 'y']
}

/// Writing the startup notification: only readiness by health is written.
pub open spec fn notify_step(m: ExecModel) -> Seq<ExecPlanModel> {
    match m.startup_notification {
        None => Seq::empty(),
        Some(StartupNotification::Healthy) => seq![ExecPlanModel::Write(ExecKey::Notify, healthy())],
        Some(_) => seq![
            ExecPlanModel::Unsupported(
                ExecField::StartupNotification,
                "Notify=false and Notify=true require explicit capability evidence before they can be generated"@,
            ),
        ],
    }
}

/// The steps of writing execution context `m`, in order: runtime name, user, group, user
/// namespace (not for a service grouped into a pod), supplementary groups, working directory,
/// read-only flag and startup notification.
pub open spec fn execution_plan(m: ExecModel, grouped: bool) -> Seq<ExecPlanModel> {
    name_step(m) + protected_step(ExecKey::User, ExecField::User, m.user) + group_step(m) + (if grouped {
        Seq::empty()
    } else {
        protected_step(ExecKey::UserNs, ExecField::UserNamespace, m.user_namespace)
    }) + groups_step(m.supplementary_groups) + protected_step(
        ExecKey::WorkingDir,
        ExecField::WorkingDirectory,
        m.working_directory,
    ) + read_only_step(m) + notify_step(m)
}

fn plan_protected(plan: &mut Vec<ExecEntryPlan>, key: ExecKey, field: ExecField, value: &Option<String>)
    ensures
        plan_view(final(plan)@) == plan_view(old(plan)@) + protected_step(key, field, opt_view(*value)),
{
    let ghost before = plan_view(plan@);
    match value {
        Some(v) => {
            if is_safe_word(v.as_str(), false) {
                plan.push(ExecEntryPlan::Write(key, v.clone()));
            } else {
                plan.push(
                    ExecEntryPlan::Unsupported(
                        field,
                        "execution-context value requires systemd quoting or target-specific validation not yet encoded",
                    ),
                );
            }
        },
        None => {},
    }
    assert(plan_view(plan@) =~= before + protected_step(key, field, opt_view(*value)));
}

fn plan_groups(plan: &mut Vec<ExecEntryPlan>, groups: &Vec<String>)
    ensures
        plan_view(final(plan)@) == plan_view(old(plan)@) + groups_step(strings_view(groups@)),
{
    let ghost before = plan_view(plan@);
    let ghost views = strings_view(groups@);
    let mut i: usize = 0;
    while i < groups.len()
        invariant
            i <= groups@.len(),
            views == strings_view(groups@),
            plan_view(plan@) == before + groups_step(views.take(i as int)),
        decreases groups@.len() - i,
    {
        let ghost mid = plan_view(plan@);
        let value = Some(groups[i].clone());
        plan_protected(plan, ExecKey::GroupAdd, ExecField::SupplementaryGroup(i), &value);
        proof {
            let t = views.take(i + 1);
            assert(t.drop_last() =~= views.take(i as int));
            assert(t.last() == groups@[i as int]@);
            assert(opt_view(value) == Some(t.last()));
            assert(plan_view(plan@) =~= before + groups_step(t));
        }
        i += 1;
    }
    assert(views.take(groups@.len() as int) =~= views);
}

/// Plans the entries of execution context `context`, for a service grouped into a pod or not.
pub fn plan_execution_entries(context: &ExecutionContext, grouped: bool) -> (plan: Vec<ExecEntryPlan>)
    ensures
        plan_view(plan@) == execution_plan(context@, grouped),
{
    let mut plan: Vec<ExecEntryPlan> = Vec::new();
    match &context.runtime_name {
        Some(name) => {
            if valid_podman_container_name(name.as_str()) {
                plan.push(ExecEntryPlan::Write(ExecKey::ContainerName, name.clone()));
            } else {
                plan.push(
                    ExecEntryPlan::Invalid(
                        ExecField::RuntimeName,
                        "explicit container name does not satisfy Podman's runtime name grammar",
                    ),
                );
            }
        },
        None => {},
    }
    assert(plan_view(plan@) =~= name_step(context@));
    plan_protected(&mut plan, ExecKey::User, ExecField::User, &context.user);
    let ghost a1 = plan_view(plan@);
    match &context.group {
        Some(g) => {
            if is_decimal(g.as_str()) {
                plan_protected(&mut plan, ExecKey::Group, ExecField::Group, &context.group);
            } else {
                plan.push(
                    ExecEntryPlan::Unsupported(
                        ExecField::Group,
                        "Quadlet Group requires a numeric GID in the supported native contract",
                    ),
                );
            }
        },
        None => {},
    }
    assert(plan_view(plan@) =~= a1 + group_step(context@));
    let ghost a2 = plan_view(plan@);
    if !grouped {
        plan_protected(&mut plan, ExecKey::UserNs, ExecField::UserNamespace, &context.user_namespace);
    }
    assert(plan_view(plan@) =~= a2 + (if grouped {
        Seq::empty()
    } else {
        protected_step(ExecKey::UserNs, ExecField::UserNamespace, context@.user_namespace)
    }));
    plan_groups(&mut plan, &context.supplementary_groups);
    plan_protected(&mut plan, ExecKey::WorkingDir, ExecField::WorkingDirectory, &context.working_directory);
    let ghost a5 = plan_view(plan@);
    match context.read_only {
        Some(b) => plan.push(ExecEntryPlan::Write(ExecKey::ReadOnly, bool_text(b).to_string())),
        None => {},
    }
    assert(plan_view(plan@) =~= a5 + read_only_step(context@));
    let ghost a6 = plan_view(plan@);
    match context.startup_notification {
        Some(StartupNotification::Healthy) => {
            proof {
                reveal_strlit("healthy");
            }
            let text = "healthy".to_string();
            assert(text@ =~= healthy());
            plan.push(ExecEntryPlan::Write(ExecKey::Notify, text));
        },
        Some(_) => plan.push(
            ExecEntryPlan::Unsupported(
                ExecField::StartupNotification,
                "Notify=false and Notify=true require explicit capability evidence before they can be generated",
            ),
        ),
        None => {},
    }
    assert(plan_view(plan@) =~= a6 + notify_step(context@));
    plan
}

/// What reading one execution-context entry did.
#[derive(Clone, Copy, Debug, PartialEq, Eq)]
pub enum ExecReading {
    /// The setting was read exactly.
    Exact,
    /// The group is read once every entry is read, when the user is known.
    Deferred,
    /// The value has no exact reading, for this reason; nothing was read.
    Unsupported(&'static str),
    /// The value is malformed, for this reason; nothing was read.
    Invalid(&'static str),
    /// The entry came again; nothing was read.
    Duplicate,
}

impl ExecReading {
    /// Why the entry does not read exactly; `None` when it does or is deferred.
    pub fn reason(&self) -> (reason: Option<&'static str>)
        ensures
            match *self {
                ExecReading::Exact | ExecReading::Deferred => reason is None,
                ExecReading::Unsupported(r) => reason == Some(r),
                ExecReading::Invalid(r) => reason == Some(r),
                ExecReading::Duplicate => reason matches Some(r) && r@
                    == "Quadlet singleton key is declared more than once"@,
            },
    {
        match self {
            ExecReading::Exact | ExecReading::Deferred => None,
            ExecReading::Unsupported(r) => Some(*r),
            ExecReading::Invalid(r) => Some(*r),
            ExecReading::Duplicate => Some("Quadlet singleton key is declared more than once"),
        }
    }
}

/// Reads the execution-context entries of a container unit one by one.
pub struct ExecutionReader {
    /// What has been read.
    pub context: ExecutionContext,
    /// The single entries read so far.
    pub seen: Vec<ExecKey>,
    /// The value of the `Group=` entry, read last.
    pub group: Option<String>,
}

/// Mathematical model of an [`ExecutionReader`].
#[verifier::ext_equal]
pub struct ExecReaderModel {
    pub context: ExecModel,
    pub seen: Seq<ExecKey>,
    pub group: Option<Seq<char>>,
}

impl View for ExecutionReader {
    type V = ExecReaderModel;

    open spec fn view(&self) -> ExecReaderModel {
        ExecReaderModel { context: self.context@, seen: self.seen@, group: opt_view(self.group) }
    }
}

/// A reader that has read nothing.
pub open spec fn fresh_exec_reader() -> ExecReaderModel {
    ExecReaderModel { context: unset_exec(), seen: Seq::empty(), group: None }
}

/// A working directory of the exact subset: an absolute, unquoted mount-part path without `%`.
pub open spec fn working_dir_ok(v: Seq<char>) -> bool {
    v.len() > 0 && v[0] == '/' && !has_char(v, '%') && safe_mount_part(v)
}

/// `r` with context `c`.
pub open spec fn with_context(r: ExecReaderModel, c: ExecModel) -> ExecReaderModel {
    ExecReaderModel { context: c, ..r }
}

/// What reading entry `key` with value `value` makes of reader `r`, and how it reads. Every
/// entry but `GroupAdd=` is single: one that came before is a duplicate. A name must be
/// non-empty without `NUL`; a user and a supplementary group a native atom; a user namespace a
/// safe word; a working directory absolute in the exact subset; the read-only flag `true` or
/// `false`; the notification `false`, `true` or `healthy`. The group is kept for the end.
pub open spec fn exec_after_entry(r: ExecReaderModel, key: ExecKey, value: Seq<char>) -> (ExecReaderModel, ExecReading) {
    if key != ExecKey::GroupAdd && r.seen.contains(key) {
        (r, ExecReading::Duplicate)
    } else {
        let r1 = if key != ExecKey::GroupAdd {
            ExecReaderModel { seen: r.seen.push(key), ..r }
        } else {
            r
        };
        let c = r1.context;
        match key {
            ExecKey::ContainerName => if value.len() == 0 || has_char(value, '\0') {
                (r1, ExecReading::Invalid("container name must be non-empty and contain no NUL byte"))
            } else {
                (with_context(r1, ExecModel { runtime_name: Some(value), ..c }), ExecReading::Exact)
            },
            ExecKey::User => if native_atom(value) {
                (with_context(r1, ExecModel { user: Some(value), ..c }), ExecReading::Exact)
            } else {
                (r1, ExecReading::Unsupported("User requires native quoting or target-specific interpretation"))
            },
            ExecKey::Group => (ExecReaderModel { group: Some(value), ..r1 }, ExecReading::Deferred),
            ExecKey::UserNs => if safe_word(value, false) {
                (with_context(r1, ExecModel { user_namespace: Some(value), ..c }), ExecReading::Exact)
            } else {
                (r1, ExecReading::Unsupported("UserNS requires native quoting or target-specific interpretation"))
            },
            ExecKey::GroupAdd => if native_atom(value) {
                (
                    with_context(r1, ExecModel { supplementary_groups: c.supplementary_groups.push(value), ..c }),
                    ExecReading::Exact,
                )
            } else {
                (r1, ExecReading::Unsupported("GroupAdd requires native quoting or target-specific interpretation"))
            },
            ExecKey::WorkingDir => if working_dir_ok(value) {
                (with_context(r1, ExecModel { working_directory: Some(value), ..c }), ExecReading::Exact)
            } else {
                (
                    r1,
                    ExecReading::Unsupported(
                        "WorkingDir must be an unquoted absolute container path in the exact subset",
                    ),
                )
            },
            ExecKey::ReadOnly => if value == bool_spelling(true) {
                (with_context(r1, ExecModel { read_only: Some(true), ..c }), ExecReading::Exact)
            } else if value == bool_spelling(false) {
                (with_context(r1, ExecModel { read_only: Some(false), ..c }), ExecReading::Exact)
            } else {
                (r1, ExecReading::Invalid("ReadOnly must be true or false"))
            },
            ExecKey::Notify => if value == bool_spelling(false) {
                (
                    with_context(r1, ExecModel { startup_notification: Some(StartupNotification::Runtime), ..c }),
                    ExecReading::Exact,
                )
            } else if value == bool_spelling(true) {
                (
                    with_context(r1, ExecModel { startup_notification: Some(StartupNotification::Application), ..c }),
                    ExecReading::Exact,
                )
            } else if value == healthy() {
                (
                    with_context(r1, ExecModel { startup_notification: Some(StartupNotification::Healthy), ..c }),
                    ExecReading::Exact,
                )
            } else {
                (r1, ExecReading::Unsupported("Notify must be false, true, or healthy"))
            },
        }
    }
}

/// What reading the kept group makes of the context, once every entry is read: a group needs a
/// user and must be a numeric GID.
pub open spec fn exec_finish(r: ExecReaderModel) -> (ExecModel, Option<ExecReading>) {
    match r.group {
        None => (r.context, None),
        Some(v) => if r.context.user is None {
            (r.context, Some(ExecReading::Invalid("Quadlet Group requires a valid User value")))
        } else if !decimal(v) {
            (
                r.context,
                Some(ExecReading::Unsupported("Quadlet Group requires a numeric GID in the supported native contract")),
            )
        } else {
            (ExecModel { group: Some(v), ..r.context }, Some(ExecReading::Exact))
        },
    }
}

impl ExecutionReader {
    /// A reader that has read nothing.
    pub fn new() -> (reader: Self)
        ensures
            reader@ == fresh_exec_reader(),
    {
        ExecutionReader { context: ExecutionContext::new(), seen: Vec::new(), group: None }
    }

    /// Reads entry `key` with value `value`.
    pub fn read(&mut self, key: ExecKey, value: &str) -> (reading: ExecReading)
        ensures
            (final(self)@, reading) == exec_after_entry(old(self)@, key, value@),
    {
        if key != ExecKey::GroupAdd {
            let mut i: usize = 0;
            while i < self.seen.len()
                invariant
                    i <= self.seen@.len(),
                    *self == *old(self),
                    key != ExecKey::GroupAdd,
                    forall|j: int| 0 <= j < i ==> self.seen@[j] != key,
                decreases self.seen@.len() - i,
            {
                if self.seen[i] == key {
                    assert(self.seen@[i as int] == key);
                    return ExecReading::Duplicate;
                }
                i = i + 1;
            }
            self.seen.push(key);
        }
        let s = chars_of(value);
        let t = vec!['t', 'r', 'u', 'e'];
        let f = vec!['f', 'a', 'l', 's', 'e'];
        let h = vec!['h', 'e', 'a', 'l', 't', 'h', 'y'];
        assert(t@ =~= bool_spelling(true) && f@ =~= bool_spelling(false) && h@ =~= healthy());
        match key {
            ExecKey::ContainerName => {
                if s.len() == 0 || contains_char(s.as_slice(), '\0') {
                    return ExecReading::Invalid("container name must be non-empty and contain no NUL byte");
                }
                self.context.runtime_name = Some(value.to_string());
                ExecReading::Exact
            },
            ExecKey::User => {
                if !is_native_atom(value) {
                    return ExecReading::Unsupported("User requires native quoting or target-specific interpretation");
                }
                self.context.user = Some(value.to_string());
                ExecReading::Exact
            },
            ExecKey::Group => {
                self.group = Some(value.to_string());
                ExecReading::Deferred
            },
            ExecKey::UserNs => {
                if !is_safe_word(value, false) {
                    return ExecReading::Unsupported("UserNS requires native quoting or target-specific interpretation");
                }
                self.context.user_namespace = Some(value.to_string());
                ExecReading::Exact
            },
            ExecKey::GroupAdd => {
                if !is_native_atom(value) {
                    return ExecReading::Unsupported("GroupAdd requires native quoting or target-specific interpretation");
                }
                let ghost before = self.context@.supplementary_groups;
                self.context.supplementary_groups.push(value.to_string());
                assert(self.context@.supplementary_groups =~= before.push(value@));
                ExecReading::Exact
            },
            ExecKey::WorkingDir => {
                if !(s.len() > 0 && s[0] == '/' && !contains_char(s.as_slice(), '%') && is_safe_mount_part(value)) {
                    return ExecReading::Unsupported(
                        "WorkingDir must be an unquoted absolute container path in the exact subset",
                    );
                }
                self.context.working_directory = Some(value.to_string());
                ExecReading::Exact
            },
            ExecKey::ReadOnly => {
                if same_chars(s.as_slice(), t.as_slice()) {
                    self.context.read_only = Some(true);
                    ExecReading::Exact
                } else if same_chars(s.as_slice(), f.as_slice()) {
                    self.context.read_only = Some(false);
                    ExecReading::Exact
                } else {
                    ExecReading::Invalid("ReadOnly must be true or false")
                }
            },
            ExecKey::Notify => {
                if same_chars(s.as_slice(), f.as_slice()) {
                    self.context.startup_notification = Some(StartupNotification::Runtime);
                    ExecReading::Exact
                } else if same_chars(s.as_slice(), t.as_slice()) {
                    self.context.startup_notification = Some(StartupNotification::Application);
                    ExecReading::Exact
                } else if same_chars(s.as_slice(), h.as_slice()) {
                    self.context.startup_notification = Some(StartupNotification::Healthy);
                    ExecReading::Exact
                } else {
                    ExecReading::Unsupported("Notify must be false, true, or healthy")
                }
            },
        }
    }

    /// Reads the kept group, once every entry is read, and gives the context read.
    pub fn finish(self) -> (result: (ExecutionContext, Option<ExecReading>))
        ensures
            (result.0@, result.1) == exec_finish(self@),
    {
        let ExecutionReader { context, group, .. } = self;
        let mut context = context;
        match group {
            None => (context, None),
            Some(v) => {
                if context.user.is_none() {
                    return (context, Some(ExecReading::Invalid("Quadlet Group requires a valid User value")));
                }
                if !is_decimal(v.as_str()) {
                    return (
                        context,
                        Some(ExecReading::Unsupported("Quadlet Group requires a numeric GID in the supported native contract")),
                    );
                }
                context.group = Some(v);
                (context, Some(ExecReading::Exact))
            },
        }
    }
}

/// The entries a plan writes, in order.
pub open spec fn written_entries(plan: Seq<ExecPlanModel>) -> Seq<(ExecKey, Seq<char>)>
    decreases plan.len(),
{
    if plan.len() == 0 {
        Seq::empty()
    } else {
        written_entries(plan.drop_last()) + match plan.last() {
            ExecPlanModel::Write(key, value) => seq![(key, value)],
            _ => Seq::empty(),
        }
    }
}

/// The reader after reading `entries` in order from `r`.
pub open spec fn read_exec_entries(r: ExecReaderModel, entries: Seq<(ExecKey, Seq<char>)>) -> ExecReaderModel
    decreases entries.len(),
{
    if entries.len() == 0 {
        r
    } else {
        exec_after_entry(read_exec_entries(r, entries.drop_last()), entries.last().0, entries.last().1).0
    }
}

/// A value written as one safe word that reads back as a native atom.
pub open spec fn atom_word(v: Seq<char>) -> bool {
    safe_word(v, false) && native_atom(v)
}

/// An execution context that its entries carry: a runtime name of Podman's grammar; a user and
/// supplementary groups that are safe words and native atoms; a numeric group with a user; a
/// safe-word user namespace; a safe-word working directory in the exact absolute subset; and, if
/// any, readiness by health as the startup notification.
pub open spec fn carried_exactly(m: ExecModel) -> bool {
    &&& (m.runtime_name matches Some(v) ==> podman_container_name(v))
    &&& (m.user matches Some(v) ==> atom_word(v))
    &&& (m.group matches Some(v) ==> decimal(v) && m.user is Some)
    &&& (m.user_namespace matches Some(v) ==> safe_word(v, false))
    &&& (forall|i: int| 0 <= i < m.supplementary_groups.len() ==> atom_word(#[trigger] m.supplementary_groups[i]))
    &&& (m.working_directory matches Some(v) ==> safe_word(v, false) && working_dir_ok(v))
    &&& (m.startup_notification matches Some(n) ==> n == StartupNotification::Healthy)
}

/// What reading an execution context's entries gives back of it: a service grouped into a pod
/// writes no user namespace.
pub open spec fn as_read(m: ExecModel, grouped: bool) -> ExecModel {
    ExecModel { user_namespace: if grouped { None } else { m.user_namespace }, ..m }
}

proof fn lemma_written_concat(a: Seq<ExecPlanModel>, b: Seq<ExecPlanModel>)
    ensures
        written_entries(a + b) == written_entries(a) + written_entries(b),
    decreases b.len(),
{
    if b.len() == 0 {
        assert(a + b =~= a);
    } else {
        lemma_written_concat(a, b.drop_last());
        assert((a + b).drop_last() =~= a + b.drop_last());
        assert((a + b).last() == b.last());
    }
}

proof fn lemma_read_concat(r: ExecReaderModel, a: Seq<(ExecKey, Seq<char>)>, b: Seq<(ExecKey, Seq<char>)>)
    ensures
        read_exec_entries(r, a + b) == read_exec_entries(read_exec_entries(r, a), b),
    decreases b.len(),
{
    if b.len() == 0 {
        assert(a + b =~= a);
    } else {
        lemma_read_concat(r, a, b.drop_last());
        assert((a + b).drop_last() =~= a + b.drop_last());
        assert((a + b).last() == b.last());
    }
}

/// The order in which the plan writes single entries.
spec fn rank(key: ExecKey) -> int {
    match key {
        ExecKey::ContainerName => 0,
        ExecKey::User => 1,
        ExecKey::Group => 2,
        ExecKey::UserNs => 3,
        ExecKey::GroupAdd => 4,
        ExecKey::WorkingDir => 5,
        ExecKey::ReadOnly => 6,
        ExecKey::Notify => 7,
    }
}

/// Every entry seen comes before `bound`.
spec fn seen_before(seen: Seq<ExecKey>, bound: int) -> bool {
    forall|i: int| 0 <= i < seen.len() ==> rank(#[trigger] seen[i]) < bound
}

/// The entries written by a part that writes at most `key` with `value`.
spec fn at_most(key: ExecKey, value: Option<Seq<char>>) -> Seq<(ExecKey, Seq<char>)> {
    match value {
        Some(v) => seq![(key, v)],
        None => Seq::empty(),
    }
}

/// The value, if any, that a part of at most one step writes.
spec fn single_written(p: Seq<ExecPlanModel>) -> Option<Seq<char>> {
    if p.len() == 1 && p[0] is Write {
        Some(p[0]->Write_1)
    } else {
        None
    }
}

proof fn lemma_single_written(p: Seq<ExecPlanModel>, key: ExecKey)
    requires
        p.len() <= 1,
        p.len() == 1 && p[0] is Write ==> p[0]->Write_0 == key,
    ensures
        written_entries(p) == at_most(key, single_written(p)),
{
    reveal_with_fuel(written_entries, 2);
    if p.len() == 1 {
        assert(p.drop_last() =~= Seq::<ExecPlanModel>::empty());
    }
}

/// Reading one single entry, written after entries of lower rank.
proof fn lemma_read_single(r: ExecReaderModel, key: ExecKey, value: Option<Seq<char>>)
    requires
        key != ExecKey::GroupAdd,
        seen_before(r.seen, rank(key)),
    ensures
        read_exec_entries(r, at_most(key, value)) == match value {
            Some(v) => exec_after_entry(r, key, v).0,
            None => r,
        },
        seen_before(read_exec_entries(r, at_most(key, value)).seen, rank(key) + 1),
        value is Some ==> !r.seen.contains(key),
{
    reveal_with_fuel(read_exec_entries, 2);
    if let Some(v) = value {
        assert(seq![(key, v)].drop_last() =~= Seq::<(ExecKey, Seq<char>)>::empty());
        assert(!r.seen.contains(key)) by {
            if r.seen.contains(key) {
                let i = choose|i: int| 0 <= i < r.seen.len() && r.seen[i] == key;
                assert(rank(r.seen[i]) < rank(key));
            }
        }
        let after = exec_after_entry(r, key, v).0;
        assert forall|i: int| 0 <= i < after.seen.len() implies rank(#[trigger] after.seen[i]) < rank(key) + 1 by {
            if i < r.seen.len() {
                assert(after.seen[i] == r.seen[i]);
            }
        }
    }
}

/// The supplementary groups written, each as its `GroupAdd=` entry.
proof fn lemma_groups_written(groups: Seq<Seq<char>>)
    requires
        forall|i: int| 0 <= i < groups.len() ==> atom_word(#[trigger] groups[i]),
    ensures
        written_entries(groups_step(groups)) == groups.map_values(|g: Seq<char>| (ExecKey::GroupAdd, g)),
    decreases groups.len(),
{
    if groups.len() > 0 {
        let init = groups.drop_last();
        assert forall|i: int| 0 <= i < init.len() implies atom_word(#[trigger] init[i]) by {
            assert(init[i] == groups[i]);
        }
        lemma_groups_written(init);
        let last = protected_step(
            ExecKey::GroupAdd,
            ExecField::SupplementaryGroup((groups.len() - 1) as usize),
            Some(groups.last()),
        );
        assert(atom_word(groups[groups.len() - 1]));
        lemma_single_written(last, ExecKey::GroupAdd);
        lemma_written_concat(groups_step(init), last);
        assert(groups.map_values(|g: Seq<char>| (ExecKey::GroupAdd, g)) =~= init.map_values(
            |g: Seq<char>| (ExecKey::GroupAdd, g),
        ) + seq![(ExecKey::GroupAdd, groups.last())]);
    } else {
        assert(groups.map_values(|g: Seq<char>| (ExecKey::GroupAdd, g)) =~= Seq::<(ExecKey, Seq<char>)>::empty());
    }
}

/// Reading `GroupAdd=` entries appends each group and changes nothing else.
proof fn lemma_groups_read(r: ExecReaderModel, groups: Seq<Seq<char>>)
    requires
        forall|i: int| 0 <= i < groups.len() ==> atom_word(#[trigger] groups[i]),
    ensures
        read_exec_entries(r, groups.map_values(|g: Seq<char>| (ExecKey::GroupAdd, g))) == with_context(
            r,
            ExecModel { supplementary_groups: r.context.supplementary_groups + groups, ..r.context },
        ),
    decreases groups.len(),
{
    let entries = groups.map_values(|g: Seq<char>| (ExecKey::GroupAdd, g));
    if groups.len() == 0 {
        assert(r.context.supplementary_groups + groups =~= r.context.supplementary_groups);
        assert(with_context(r, ExecModel { supplementary_groups: r.context.supplementary_groups + groups, ..r.context })
            =~= r);
    } else {
        let init = groups.drop_last();
        assert forall|i: int| 0 <= i < init.len() implies atom_word(#[trigger] init[i]) by {
            assert(init[i] == groups[i]);
        }
        lemma_groups_read(r, init);
        assert(entries.drop_last() =~= init.map_values(|g: Seq<char>| (ExecKey::GroupAdd, g)));
        assert(atom_word(groups[groups.len() - 1]));
        assert(r.context.supplementary_groups + init.push(groups.last()) =~= (r.context.supplementary_groups
            + init).push(groups.last()));
        assert(init.push(groups.last()) =~= groups);
    }
}

/// Reading prefix `a` then a single-entry part `p` from a fresh reader.
proof fn lemma_read_after(a: Seq<ExecPlanModel>, p: Seq<ExecPlanModel>, key: ExecKey, value: Option<Seq<char>>)
    requires
        key != ExecKey::GroupAdd,
        seen_before(read_exec_entries(fresh_exec_reader(), written_entries(a)).seen, rank(key)),
        written_entries(p) == at_most(key, value),
    ensures
        ({
            let before = read_exec_entries(fresh_exec_reader(), written_entries(a));
            let after = read_exec_entries(fresh_exec_reader(), written_entries(a + p));
            &&& seen_before(after.seen, rank(key) + 1)
            &&& after == match value {
                Some(v) => exec_after_entry(before, key, v).0,
                None => before,
            }
            &&& value is Some ==> !before.seen.contains(key)
        }),
{
    lemma_written_concat(a, p);
    lemma_read_concat(fresh_exec_reader(), written_entries(a), written_entries(p));
    lemma_read_single(read_exec_entries(fresh_exec_reader(), written_entries(a)), key, value);
}

/// A Podman container name is non-empty and holds no `NUL`.
proof fn lemma_name_readable(v: Seq<char>)
    requires
        podman_container_name(v),
    ensures
        v.len() > 0 && !has_char(v, '\0'),
{
    if has_char(v, '\0') {
        let i = choose|i: int| 0 <= i < v.len() && v[i] == '\0';
        assert(crate::charset::in_set(crate::charset::Charset::Atom, v[i]));
    }
}

/// A numeric group is a safe word.
proof fn lemma_decimal_word(v: Seq<char>)
    requires
        decimal(v),
    ensures
        safe_word(v, false),
{
    assert forall|i: int| 0 <= i < v.len() implies crate::charset::in_set(crate::charset::Charset::Word, #[trigger] v[i]) by {
        assert(crate::text::is_digit(v[i]));
    }
}

/// An execution context's entries read back as the context written: when it is carried exactly,
/// reading the entries that [`plan_execution_entries`] writes, in order, into a fresh
/// [`ExecutionReader`] and finishing it gives back every setting (no user namespace for a
/// service grouped into a pod).
pub proof fn lemma_execution_reads_back(m: ExecModel, grouped: bool)
    requires
        carried_exactly(m),
    ensures
        exec_finish(read_exec_entries(fresh_exec_reader(), written_entries(execution_plan(m, grouped)))).0 == as_read(
            m,
            grouped,
        ),
{
    let f = fresh_exec_reader();
    let empty_plan = Seq::<ExecPlanModel>::empty();
    assert(written_entries(empty_plan) =~= Seq::<(ExecKey, Seq<char>)>::empty());
    assert(read_exec_entries(f, written_entries(empty_plan)) == f);

    let p0 = name_step(m);
    lemma_single_written(p0, ExecKey::ContainerName);
    lemma_read_after(empty_plan, p0, ExecKey::ContainerName, single_written(p0));
    assert(empty_plan + p0 =~= p0);
    if let Some(v) = m.runtime_name {
        lemma_name_readable(v);
    }

    let p1 = protected_step(ExecKey::User, ExecField::User, m.user);
    lemma_single_written(p1, ExecKey::User);
    lemma_read_after(p0, p1, ExecKey::User, single_written(p1));
    let a1 = p0 + p1;

    let p2 = group_step(m);
    if let Some(v) = m.group {
        lemma_decimal_word(v);
    }
    lemma_single_written(p2, ExecKey::Group);
    lemma_read_after(a1, p2, ExecKey::Group, single_written(p2));
    let a2 = a1 + p2;

    let p3 = if grouped {
        Seq::empty()
    } else {
        protected_step(ExecKey::UserNs, ExecField::UserNamespace, m.user_namespace)
    };
    lemma_single_written(p3, ExecKey::UserNs);
    lemma_read_after(a2, p3, ExecKey::UserNs, single_written(p3));
    let a3 = a2 + p3;
    let r3 = read_exec_entries(f, written_entries(a3));

    let p4 = groups_step(m.supplementary_groups);
    lemma_groups_written(m.supplementary_groups);
    lemma_written_concat(a3, p4);
    lemma_read_concat(f, written_entries(a3), written_entries(p4));
    lemma_groups_read(r3, m.supplementary_groups);
    let a4 = a3 + p4;
    let r4 = read_exec_entries(f, written_entries(a4));
    assert(r4.seen == r3.seen);
    assert(r3.context.supplementary_groups =~= Seq::<Seq<char>>::empty());
    assert(Seq::<Seq<char>>::empty() + m.supplementary_groups =~= m.supplementary_groups);

    let p5 = protected_step(ExecKey::WorkingDir, ExecField::WorkingDirectory, m.working_directory);
    lemma_single_written(p5, ExecKey::WorkingDir);
    lemma_read_after(a4, p5, ExecKey::WorkingDir, single_written(p5));
    let a5 = a4 + p5;

    let p6 = read_only_step(m);
    lemma_single_written(p6, ExecKey::ReadOnly);
    lemma_read_after(a5, p6, ExecKey::ReadOnly, single_written(p6));
    let a6 = a5 + p6;
    assert(bool_spelling(true) != bool_spelling(false)) by {
        assert(bool_spelling(true).len() != bool_spelling(false).len());
    }

    let p7 = notify_step(m);
    lemma_single_written(p7, ExecKey::Notify);
    lemma_read_after(a6, p7, ExecKey::Notify, single_written(p7));
    let a7 = a6 + p7;
    assert(healthy() != bool_spelling(true) && healthy() != bool_spelling(false)) by {
        assert(healthy().len() == 7);
    }
    assert(a7 == execution_plan(m, grouped));
    let r7 = read_exec_entries(f, written_entries(a7));
    assert(r7.group == m.group);
    assert(exec_finish(r7).0 =~= as_read(m, grouped));
}

/// The views of a unit's entries.
pub open spec fn entry_views(entries: Seq<(ExecKey, String)>) -> Seq<(ExecKey, Seq<char>)> {
    entries.map_values(|e: (ExecKey, String)| (e.0, e.1@))
}

/// Reads a container unit's execution-context entries in order with a fresh reader and finishes it: the settings read, how each
/// entry read, and what finishing reported.
pub fn read_execution_unit(entries: &[(ExecKey, String)]) -> (read: (ExecutionContext, Vec<ExecReading>, Option<ExecReading>))
    ensures
        (read.0@, read.2) == exec_finish(read_exec_entries(fresh_exec_reader(), entry_views(entries@))),
        read.1@.len() == entries@.len(),
        forall|i: int|
            0 <= i < entries@.len() ==> #[trigger] read.1@[i] == exec_after_entry(
                read_exec_entries(fresh_exec_reader(), entry_views(entries@).take(i)),
                entries@[i].0,
                entries@[i].1@,
            ).1,
{
    let ghost views = entry_views(entries@);
    let mut reader = ExecutionReader::new();
    let mut readings: Vec<ExecReading> = Vec::new();
    let mut i: usize = 0;
    assert(views.take(0) =~= Seq::<(ExecKey, Seq<char>)>::empty());
    while i < entries.len()
        invariant
            i <= entries@.len(),
            views == entry_views(entries@),
            reader@ == read_exec_entries(fresh_exec_reader(), views.take(i as int)),
            readings@.len() == i,
            forall|j: int|
                0 <= j < i ==> #[trigger] readings@[j] == exec_after_entry(
                    read_exec_entries(fresh_exec_reader(), views.take(j)),
                    entries@[j].0,
                    entries@[j].1@,
                ).1,
        decreases entries@.len() - i,
    {
        let reading = reader.read(entries[i].0, entries[i].1.as_str());
        readings.push(reading);
        proof {
            let t = views.take(i + 1);
            assert(t.drop_last() =~= views.take(i as int));
            assert(t.last() == (entries@[i as int].0, entries@[i as int].1@));
        }
        i += 1;
    }
    assert(views.take(entries@.len() as int) =~= views);
    let (settings, finished) = reader.finish();
    (settings, readings, finished)
}

} // verus!
