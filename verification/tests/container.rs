use boxferry_quadlet::container::{
    plan_container_entries, read_container_entry, ContainerEntryPlan, ContainerReading, ContainerScalars,
    ContainerSetting, PullPolicy,
};

fn text(value: &str) -> Option<String> {
    Some(value.to_string())
}

fn full_scalars() -> ContainerScalars {
    let mut scalars = ContainerScalars::new();
    scalars.entrypoint = Some(vec!["/usr/bin/tini".to_string(), "--".to_string()]);
    scalars.run_init = Some(true);
    scalars.stop_timeout = text("30");
    scalars.pull_policy = Some(PullPolicy::Raw("newer".to_string()));
    scalars.memory_limit = text("512m");
    scalars
}

fn read_back(scalars: &ContainerScalars) -> ContainerScalars {
    let mut read = ContainerScalars::new();
    let mut seen = Vec::new();
    for step in plan_container_entries(scalars) {
        match step {
            ContainerEntryPlan::Write(setting, value) | ContainerEntryPlan::Approximate(setting, value, _) => {
                let reading = read_container_entry(&mut read, &mut seen, setting, &value);
                assert_ne!(reading, ContainerReading::Duplicate);
            }
            ContainerEntryPlan::Unsupported(..) => {}
        }
    }
    read
}

#[test]
fn container_entries_are_planned_in_order() {
    assert_eq!(
        plan_container_entries(&full_scalars()),
        vec![
            ContainerEntryPlan::Write(ContainerSetting::Entrypoint, r#"["/usr/bin/tini","--"]"#.to_string()),
            ContainerEntryPlan::Approximate(
                ContainerSetting::RunInit,
                "true".to_string(),
                "RunInit runtime equivalence remains reviewable"
            ),
            ContainerEntryPlan::Write(ContainerSetting::StopTimeout, "30".to_string()),
            ContainerEntryPlan::Write(ContainerSetting::Pull, "newer".to_string()),
            ContainerEntryPlan::Write(ContainerSetting::Memory, "512m".to_string()),
        ]
    );
}

#[test]
fn unwritable_container_settings_are_reported() {
    let mut scalars = ContainerScalars::new();
    scalars.entrypoint = Some(vec!["sh -c".to_string()]);
    scalars.stop_timeout = text("1.5");
    scalars.pull_policy = Some(PullPolicy::Raw("sometimes".to_string()));
    scalars.memory_limit = text("0");
    assert_eq!(
        plan_container_entries(&scalars),
        vec![
            ContainerEntryPlan::Unsupported(
                ContainerSetting::Entrypoint,
                "Entrypoint is exact only for a reviewed JSON exec array"
            ),
            ContainerEntryPlan::Unsupported(
                ContainerSetting::StopTimeout,
                "only nonnegative integral stop-timeout seconds are encodable; fractional native durations remain source-aware but require review"
            ),
            ContainerEntryPlan::Unsupported(
                ContainerSetting::Pull,
                "only reviewed native Pull values can be emitted; arbitrary raw policies remain unsupported"
            ),
            ContainerEntryPlan::Unsupported(ContainerSetting::Memory, "memory must be a positive canonical byte quantity"),
        ]
    );
    let mut zero = ContainerScalars::new();
    zero.stop_timeout = text("0");
    zero.pull_policy = Some(PullPolicy::Missing);
    assert_eq!(
        plan_container_entries(&zero),
        vec![
            ContainerEntryPlan::Approximate(
                ContainerSetting::StopTimeout,
                "0".to_string(),
                "a zero stop timeout can differ from an omitted/default timeout and remains reviewable"
            ),
            ContainerEntryPlan::Write(ContainerSetting::Pull, "missing".to_string()),
        ]
    );
}

#[test]
fn written_container_entries_read_back() {
    let scalars = full_scalars();
    assert_eq!(read_back(&scalars), scalars);
    let mut other = ContainerScalars::new();
    other.run_init = Some(false);
    other.stop_timeout = text("0");
    other.pull_policy = Some(PullPolicy::Always);
    assert_eq!(read_back(&other), other);
}

#[test]
fn container_entries_are_read_with_their_reasons() {
    let mut read = ContainerScalars::new();
    let mut seen = Vec::new();
    assert_eq!(
        read_container_entry(&mut read, &mut seen, ContainerSetting::Entrypoint, "/bin/sh"),
        ContainerReading::Unsupported("Entrypoint is exact only for reviewed JSON exec arrays")
    );
    assert_eq!(read.entrypoint, None);
    let duplicate = read_container_entry(&mut read, &mut seen, ContainerSetting::Entrypoint, r#"["/bin/sh"]"#);
    assert_eq!(duplicate, ContainerReading::Duplicate);
    assert_eq!(duplicate.reason(), Some("Quadlet singleton key is declared more than once"));
    assert_eq!(
        read_container_entry(&mut read, &mut seen, ContainerSetting::RunInit, "maybe"),
        ContainerReading::Invalid("RunInit must be a Quadlet boolean")
    );
    assert_eq!(read.run_init, None);
    assert_eq!(
        read_container_entry(&mut read, &mut seen, ContainerSetting::StopTimeout, "1.5"),
        ContainerReading::Approximate("fractional, zero, and default stop-timeout semantics remain reviewable")
    );
    assert_eq!(read.stop_timeout, text("1.5"));
    assert_eq!(
        read_container_entry(&mut read, &mut seen, ContainerSetting::Pull, "newer"),
        ContainerReading::Retained("native pull policy is retained as a raw target-specific value")
    );
    assert_eq!(read.pull_policy, Some(PullPolicy::Raw("newer".to_string())));
    assert_eq!(
        read_container_entry(&mut read, &mut seen, ContainerSetting::Memory, "1GiB"),
        ContainerReading::Retained("Memory must be a positive canonical byte quantity")
    );
    assert_eq!(read.memory_limit, text("1GiB"));
    assert_eq!(ContainerReading::Exact.reason(), None);
    assert_eq!(ContainerSetting::Pull.key(), "Pull");
    assert_eq!(ContainerSetting::Pull.field(), "pull_policy");
}
