use boxferry_quadlet::health::HealthcheckCommand;
use boxferry_quadlet::healthcheck::{
    plan_health_entries, read_health_entry, HealthEntryPlan, HealthKey, HealthReading, HealthSettings, HealthSubject,
};

fn text(value: &str) -> Option<String> {
    Some(value.to_string())
}

fn exec(arguments: &[&str]) -> HealthcheckCommand {
    HealthcheckCommand::Exec(arguments.iter().map(|a| a.to_string()).collect())
}

fn full_settings() -> HealthSettings {
    let mut settings = HealthSettings::new();
    settings.command = Some(exec(&["curl", "-f", "http://localhost/"]));
    settings.interval = text("30s");
    settings.timeout = text("1m30s");
    settings.retries = text("3");
    settings.start_period = text("0");
    settings
}

#[test]
fn health_entries_are_planned_in_order() {
    assert_eq!(
        plan_health_entries(&full_settings()),
        vec![
            HealthEntryPlan::Write(HealthKey::Command, r#"["CMD","curl","-f","http://localhost/"]"#.to_string()),
            HealthEntryPlan::Write(HealthKey::Interval, "30s".to_string()),
            HealthEntryPlan::Write(HealthKey::Timeout, "1m30s".to_string()),
            HealthEntryPlan::Write(HealthKey::Retries, "3".to_string()),
            HealthEntryPlan::Write(HealthKey::StartPeriod, "0".to_string()),
        ]
    );
}

#[test]
fn disabled_health_check_writes_none() {
    let mut settings = HealthSettings::new();
    settings.disabled = Some(true);
    assert_eq!(
        plan_health_entries(&settings),
        vec![HealthEntryPlan::Write(HealthKey::Command, "none".to_string())]
    );
    settings.disabled = Some(false);
    assert_eq!(plan_health_entries(&settings), Vec::new());
}

#[test]
fn disabled_health_check_with_command_is_invalid() {
    let mut settings = full_settings();
    settings.disabled = Some(true);
    assert_eq!(
        plan_health_entries(&settings),
        vec![HealthEntryPlan::Invalid(
            HealthSubject::Healthcheck,
            "health check cannot be both disabled and assigned a command"
        )]
    );
}

#[test]
fn unwritable_health_settings_are_reported() {
    let mut settings = HealthSettings::new();
    settings.command = Some(HealthcheckCommand::Shell(String::new()));
    settings.interval = text("soon");
    settings.timeout = text(" 5s");
    settings.retries = text("-1");
    settings.start_period = text("10d");
    settings.start_interval = text("5s");
    let reason = "health-check scalar is not valid for the selected Podman target";
    assert_eq!(
        plan_health_entries(&settings),
        vec![
            HealthEntryPlan::Invalid(HealthSubject::Test, "health-check shell command must not be empty"),
            HealthEntryPlan::Unsupported(HealthSubject::Interval, reason),
            HealthEntryPlan::Unsupported(HealthSubject::Timeout, reason),
            HealthEntryPlan::Unsupported(HealthSubject::Retries, reason),
            HealthEntryPlan::Unsupported(HealthSubject::StartPeriod, reason),
            HealthEntryPlan::Unsupported(
                HealthSubject::StartInterval,
                "Quadlet has no native HealthStartInterval key and no verified fallback is enabled"
            ),
        ]
    );
    let mut percent = HealthSettings::new();
    percent.command = Some(exec(&["echo", "100%"]));
    assert_eq!(
        plan_health_entries(&percent),
        vec![HealthEntryPlan::Unsupported(
            HealthSubject::Test,
            "health command contains a NUL byte or unresolved systemd percent specifier"
        )]
    );
}

#[test]
fn written_health_entries_read_back() {
    let settings = full_settings();
    let mut read = HealthSettings::new();
    let mut seen = Vec::new();
    for step in plan_health_entries(&settings) {
        if let HealthEntryPlan::Write(key, value) = step {
            assert_eq!(read_health_entry(&mut read, &mut seen, key, &value), HealthReading::Exact);
        }
    }
    assert_eq!(read, settings);

    let mut disabled = HealthSettings::new();
    disabled.disabled = Some(true);
    let mut read = HealthSettings::new();
    let mut seen = Vec::new();
    for step in plan_health_entries(&disabled) {
        if let HealthEntryPlan::Write(key, value) = step {
            assert_eq!(read_health_entry(&mut read, &mut seen, key, &value), HealthReading::Exact);
        }
    }
    assert_eq!(read, disabled);
}

#[test]
fn health_entries_are_read_with_their_reasons() {
    let mut read = HealthSettings::new();
    let mut seen = Vec::new();
    assert_eq!(
        read_health_entry(&mut read, &mut seen, HealthKey::Command, "curl -f http://localhost/"),
        HealthReading::Exact
    );
    assert_eq!(read.command, Some(HealthcheckCommand::Shell("curl -f http://localhost/".to_string())));
    let duplicate = read_health_entry(&mut read, &mut seen, HealthKey::Command, "none");
    assert_eq!(duplicate, HealthReading::Duplicate);
    assert_eq!(duplicate.reason(), Some("Quadlet singleton key is declared more than once"));
    assert_eq!(read.disabled, None);

    let disable = read_health_entry(&mut read, &mut seen, HealthKey::Interval, "disable");
    assert_eq!(
        disable,
        HealthReading::Unsupported(
            "a disabled automatic health timer is distinct from disabling the health check and has no neutral field"
        )
    );
    assert_eq!(read.interval, None);
    assert_eq!(
        read_health_entry(&mut read, &mut seen, HealthKey::Timeout, "5 seconds"),
        HealthReading::Invalid("health duration is not a supported Podman duration spelling")
    );
    assert_eq!(
        read_health_entry(&mut read, &mut seen, HealthKey::Retries, "-1"),
        HealthReading::Invalid("HealthRetries must be a non-negative decimal integer")
    );
    assert_eq!(read_health_entry(&mut read, &mut seen, HealthKey::StartPeriod, "1.5s"), HealthReading::Exact);
    assert_eq!(read.start_period, text("1.5s"));
    assert_eq!(HealthReading::Exact.reason(), None);

    let mut other = HealthSettings::new();
    let mut seen = Vec::new();
    assert_eq!(
        read_health_entry(&mut other, &mut seen, HealthKey::Command, r#"["CMD"]"#),
        HealthReading::Invalid("CMD health check requires at least one command argument")
    );
    assert_eq!(other.command, None);
}

#[test]
fn health_keys_and_subjects_are_named() {
    assert_eq!(HealthKey::Command.key(), "HealthCmd");
    assert_eq!(HealthKey::StartPeriod.key(), "HealthStartPeriod");
    assert_eq!(HealthSubject::Test.path(), "healthcheck.test");
    assert_eq!(HealthSubject::StartInterval.path(), "healthcheck.start_interval");
}
