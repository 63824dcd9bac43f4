use boxferry_quadlet::execution::{
    plan_execution_entries, ExecEntryPlan, ExecField, ExecKey, ExecReading, ExecutionContext, ExecutionReader,
    StartupNotification,
};

fn text(value: &str) -> Option<String> {
    Some(value.to_string())
}

fn full_context() -> ExecutionContext {
    let mut context = ExecutionContext::new();
    context.runtime_name = text("web-1");
    context.user = text("app");
    context.group = text("1000");
    context.user_namespace = text("keep-id");
    context.supplementary_groups = vec!["wheel".to_string(), "audio".to_string()];
    context.working_directory = text("/srv/app");
    context.read_only = Some(true);
    context.startup_notification = Some(StartupNotification::Healthy);
    context
}

#[test]
fn execution_entries_are_planned_in_order() {
    let plan = plan_execution_entries(&full_context(), false);
    assert_eq!(
        plan,
        vec![
            ExecEntryPlan::Write(ExecKey::ContainerName, "web-1".to_string()),
            ExecEntryPlan::Write(ExecKey::User, "app".to_string()),
            ExecEntryPlan::Write(ExecKey::Group, "1000".to_string()),
            ExecEntryPlan::Write(ExecKey::UserNs, "keep-id".to_string()),
            ExecEntryPlan::Write(ExecKey::GroupAdd, "wheel".to_string()),
            ExecEntryPlan::Write(ExecKey::GroupAdd, "audio".to_string()),
            ExecEntryPlan::Write(ExecKey::WorkingDir, "/srv/app".to_string()),
            ExecEntryPlan::Write(ExecKey::ReadOnly, "true".to_string()),
            ExecEntryPlan::Write(ExecKey::Notify, "healthy".to_string()),
        ]
    );
    let grouped = plan_execution_entries(&full_context(), true);
    assert!(!grouped.contains(&ExecEntryPlan::Write(ExecKey::UserNs, "keep-id".to_string())));
    assert_eq!(grouped.len(), 8);
}

#[test]
fn unwritable_execution_settings_are_reported() {
    let mut context = ExecutionContext::new();
    context.runtime_name = text("-web");
    context.user = text("app user");
    context.group = text("staff");
    context.supplementary_groups = vec!["ok".to_string(), "not ok".to_string()];
    context.startup_notification = Some(StartupNotification::Application);
    let reason = "execution-context value requires systemd quoting or target-specific validation not yet encoded";
    assert_eq!(
        plan_execution_entries(&context, false),
        vec![
            ExecEntryPlan::Invalid(
                ExecField::RuntimeName,
                "explicit container name does not satisfy Podman's runtime name grammar"
            ),
            ExecEntryPlan::Unsupported(ExecField::User, reason),
            ExecEntryPlan::Unsupported(
                ExecField::Group,
                "Quadlet Group requires a numeric GID in the supported native contract"
            ),
            ExecEntryPlan::Write(ExecKey::GroupAdd, "ok".to_string()),
            ExecEntryPlan::Unsupported(ExecField::SupplementaryGroup(1), reason),
            ExecEntryPlan::Unsupported(
                ExecField::StartupNotification,
                "Notify=false and Notify=true require explicit capability evidence before they can be generated"
            ),
        ]
    );
    assert_eq!(ExecField::SupplementaryGroup(1).name(), "supplementary_groups");
    assert_eq!(ExecKey::UserNs.key(), "UserNS");
}

#[test]
fn written_execution_entries_read_back() {
    let context = full_context();
    let mut reader = ExecutionReader::new();
    for step in plan_execution_entries(&context, false) {
        if let ExecEntryPlan::Write(key, value) = step {
            let reading = reader.read(key, &value);
            assert!(reading == ExecReading::Exact || reading == ExecReading::Deferred);
        }
    }
    let (read, group) = reader.finish();
    assert_eq!(group, Some(ExecReading::Exact));
    assert_eq!(read, context);
}

#[test]
fn execution_entries_are_read_with_their_reasons() {
    let mut reader = ExecutionReader::new();
    assert_eq!(reader.read(ExecKey::Group, "100"), ExecReading::Deferred);
    assert_eq!(
        reader.read(ExecKey::ContainerName, ""),
        ExecReading::Invalid("container name must be non-empty and contain no NUL byte")
    );
    let duplicate = reader.read(ExecKey::ContainerName, "web");
    assert_eq!(duplicate, ExecReading::Duplicate);
    assert_eq!(duplicate.reason(), Some("Quadlet singleton key is declared more than once"));
    assert_eq!(
        reader.read(ExecKey::User, "app_"),
        ExecReading::Unsupported("User requires native quoting or target-specific interpretation")
    );
    assert_eq!(
        reader.read(ExecKey::WorkingDir, "srv"),
        ExecReading::Unsupported("WorkingDir must be an unquoted absolute container path in the exact subset")
    );
    assert_eq!(reader.read(ExecKey::ReadOnly, "yes"), ExecReading::Invalid("ReadOnly must be true or false"));
    assert_eq!(
        reader.read(ExecKey::Notify, "ready"),
        ExecReading::Unsupported("Notify must be false, true, or healthy")
    );
    assert_eq!(reader.read(ExecKey::GroupAdd, "a"), ExecReading::Exact);
    assert_eq!(reader.read(ExecKey::GroupAdd, "a"), ExecReading::Exact);
    let (read, group) = reader.finish();
    assert_eq!(group, Some(ExecReading::Invalid("Quadlet Group requires a valid User value")));
    assert_eq!(read.group, None);
    assert_eq!(read.supplementary_groups, vec!["a".to_string(), "a".to_string()]);

    let mut reader = ExecutionReader::new();
    assert_eq!(reader.read(ExecKey::User, "app"), ExecReading::Exact);
    assert_eq!(reader.read(ExecKey::Group, "staff"), ExecReading::Deferred);
    assert_eq!(reader.read(ExecKey::Notify, "false"), ExecReading::Exact);
    let (read, group) = reader.finish();
    assert_eq!(
        group,
        Some(ExecReading::Unsupported("Quadlet Group requires a numeric GID in the supported native contract"))
    );
    assert_eq!(read.startup_notification, Some(StartupNotification::Runtime));
}
