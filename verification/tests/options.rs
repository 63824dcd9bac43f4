use boxferry_quadlet::health::{decode_health_command, decode_health_command_with, encode_health_command, HealthDurationField, HealthcheckCommand};
use boxferry_quadlet::host::{host_mapping_entry, host_mapping_names, split_host_mapping};
use boxferry_quadlet::issue::ValueIssue;
use boxferry_quadlet::secret::{decode_secret_grant, podman_secret_entry, podman_secret_options, DecodedSecretGrant, SecretGrant};
use boxferry_quadlet::security::{
    read_security_option, reviewed_device_value, security_option_is_selinux_label, security_option_output,
    security_option_singleton_name, Device, SecurityKey, SecurityOption,
};

fn grant(target: Option<&str>, uid: Option<&str>, gid: Option<&str>, mode: Option<&str>) -> SecretGrant {
    SecretGrant {
        target: target.map(str::to_string),
        uid: uid.map(str::to_string),
        gid: gid.map(str::to_string),
        mode: mode.map(str::to_string),
    }
}

#[test]
fn secret_grants_read_every_option() {
    assert_eq!(
        decode_secret_grant("db-pass"),
        Ok(DecodedSecretGrant {
            source: "db-pass".to_string(),
            target: None,
            uid: None,
            gid: None,
            mode: None,
            has_options: false,
        })
    );
    assert_eq!(
        decode_secret_grant("db-pass,type=mount,target=pw,uid=1000,gid=1001,mode=0440"),
        Ok(DecodedSecretGrant {
            source: "db-pass".to_string(),
            target: Some("pw".to_string()),
            uid: Some("1000".to_string()),
            gid: Some("1001".to_string()),
            mode: Some("0440".to_string()),
            has_options: true,
        })
    );
}

#[test]
fn secret_grant_errors_name_their_reason() {
    assert_eq!(
        decode_secret_grant("db-pass,type=env"),
        Err(ValueIssue::Unsupported("environment-exposed Podman secrets require a neutral grant exposure field"))
    );
    assert_eq!(
        decode_secret_grant("db pass"),
        Err(ValueIssue::Unsupported("secret name requires native quoting or target-specific interpretation"))
    );
    assert_eq!(
        decode_secret_grant("s,target"),
        Err(ValueIssue::Invalid("Secret option must use name=value syntax"))
    );
    assert_eq!(
        decode_secret_grant("s,uid=1,uid=2"),
        Err(ValueIssue::Invalid("Secret option is declared more than once"))
    );
    assert_eq!(decode_secret_grant("s,type=file"), Err(ValueIssue::Invalid("Secret type must be mount or env")));
    assert_eq!(
        decode_secret_grant("s,target=a b"),
        Err(ValueIssue::Unsupported("secret target requires native quoting or target-specific interpretation"))
    );
    assert_eq!(
        decode_secret_grant("s,gid=x"),
        Err(ValueIssue::Invalid("secret UID and GID options require non-negative decimal integers"))
    );
    assert_eq!(
        decode_secret_grant("s,mode=0999"),
        Err(ValueIssue::Invalid("secret mode must be a one-to-four-digit octal value no greater than 0777"))
    );
    assert_eq!(
        decode_secret_grant("s,label=x"),
        Err(ValueIssue::Unsupported("Secret option is outside the reviewed Podman mount-secret grammar"))
    );
}

#[test]
fn secret_entries_are_written_in_option_order() {
    assert_eq!(
        podman_secret_entry(&grant(Some("pw"), Some("0"), None, Some("440")), "db", "db"),
        Ok("db,target=pw,uid=0,mode=0440".to_string())
    );
    assert_eq!(podman_secret_entry(&grant(None, None, None, None), "prod-db", "db"), Ok("prod-db,target=db".to_string()));
    assert_eq!(podman_secret_entry(&grant(None, None, None, None), "db", "db"), Ok("db".to_string()));
    assert_eq!(
        podman_secret_options(&grant(None, None, Some("7"), None), "db", "db"),
        Ok(vec!["gid=7".to_string()])
    );
    assert_eq!(
        podman_secret_entry(&grant(Some("a,b"), None, None, None), "db", "db"),
        Err("secret target cannot be encoded in the reviewed Quadlet Secret grammar")
    );
    assert_eq!(
        podman_secret_entry(&grant(None, Some("x"), None, None), "db", "db"),
        Err("secret UID and GID options require non-negative decimal integers")
    );
    assert_eq!(
        podman_secret_entry(&grant(None, None, None, Some("0600")), "db", "db"),
        Err("secret mode must be a one-to-four-digit octal value without writable bits")
    );
}

#[test]
fn written_secret_entries_read_back() {
    let written = podman_secret_entry(&grant(None, Some("1000"), Some("1000"), Some("0o400")), "prod-db", "db").unwrap();
    let read = decode_secret_grant(&written).unwrap();
    assert_eq!(read.source, "prod-db");
    assert_eq!(read.target.as_deref(), Some("db"));
    assert_eq!(read.uid.as_deref(), Some("1000"));
    assert_eq!(read.gid.as_deref(), Some("1000"));
    assert_eq!(read.mode.as_deref(), Some("0400"));
    assert!(read.has_options);
}

#[test]
fn health_commands_read_plain_and_json_forms() {
    assert_eq!(
        decode_health_command("curl -f http://localhost"),
        Ok(HealthcheckCommand::Shell("curl -f http://localhost".to_string()))
    );
    assert_eq!(
        decode_health_command(r#"["CMD","curl","-f"]"#),
        Ok(HealthcheckCommand::Exec(vec!["curl".to_string(), "-f".to_string()]))
    );
    assert_eq!(
        decode_health_command(r#"[ "CMD", "say \"hi\"" ]"#),
        Ok(HealthcheckCommand::Exec(vec!["say \"hi\"".to_string()]))
    );
    assert_eq!(
        decode_health_command(r#"["CMD-SHELL","pg_isready -U app"]"#),
        Ok(HealthcheckCommand::Shell("pg_isready -U app".to_string()))
    );
}

#[test]
fn health_command_errors_name_their_reason() {
    assert_eq!(
        decode_health_command(r#"["CMD"]"#),
        Err(ValueIssue::Invalid("CMD health check requires at least one command argument"))
    );
    assert_eq!(
        decode_health_command(r#"["CMD-SHELL","a","b"]"#),
        Err(ValueIssue::Unsupported("CMD-SHELL health check must contain exactly one non-empty shell string"))
    );
    assert_eq!(
        decode_health_command(r#"["NONE"]"#),
        Err(ValueIssue::Unsupported("HealthCmd JSON array uses an unknown health-check command mode"))
    );
    assert_eq!(
        decode_health_command("[not json"),
        Err(ValueIssue::Unsupported("HealthCmd JSON array requires native command decoding"))
    );
    assert_eq!(
        decode_health_command(r#"["CMD","50%"]"#),
        Err(ValueIssue::Unsupported("HealthCmd contains a control byte or unresolved systemd percent specifier"))
    );
    assert_eq!(
        decode_health_command("a && b"),
        Err(ValueIssue::Unsupported(
            "HealthCmd requires JSON-array decoding or shell syntax outside the conservative plain-command subset"
        ))
    );
    assert_eq!(
        decode_health_command_with(r#"["CMD","x"]"#, None),
        Err(ValueIssue::Unsupported("HealthCmd JSON array requires native command decoding"))
    );
    assert_eq!(
        decode_health_command_with("run check", Some(vec!["CMD".to_string(), "x".to_string()])),
        Ok(HealthcheckCommand::Shell("run check".to_string()))
    );
}

#[test]
fn health_commands_are_written_as_json_lists() {
    let exec = HealthcheckCommand::Exec(vec!["curl".to_string(), "-f".to_string()]);
    assert_eq!(encode_health_command(&exec), Ok(r#"["CMD","curl","-f"]"#.to_string()));
    let shell = HealthcheckCommand::Shell("pg_isready -U app".to_string());
    assert_eq!(encode_health_command(&shell), Ok(r#"["CMD-SHELL","pg_isready -U app"]"#.to_string()));
    assert_eq!(
        encode_health_command(&HealthcheckCommand::Exec(Vec::new())),
        Err(ValueIssue::Invalid("health-check exec command requires at least one argument"))
    );
    assert_eq!(
        encode_health_command(&HealthcheckCommand::Shell(String::new())),
        Err(ValueIssue::Invalid("health-check shell command must not be empty"))
    );
    assert_eq!(
        encode_health_command(&HealthcheckCommand::Exec(vec!["100%".to_string()])),
        Err(ValueIssue::Unsupported("health command contains a NUL byte or unresolved systemd percent specifier"))
    );
}

#[test]
fn written_health_commands_read_back() {
    for command in [
        HealthcheckCommand::Exec(vec!["wget".to_string(), "-q".to_string(), "say \"ok\"".to_string()]),
        HealthcheckCommand::Shell("test -f /ready".to_string()),
    ] {
        let written = encode_health_command(&command).unwrap();
        assert_eq!(decode_health_command(&written), Ok(command));
    }
}

#[test]
fn health_duration_fields_have_neutral_names() {
    assert_eq!(HealthDurationField::Interval.name(), "interval");
    assert_eq!(HealthDurationField::Timeout.name(), "timeout");
    assert_eq!(HealthDurationField::StartPeriod.name(), "start_period");
}

#[test]
fn host_mappings_split_before_the_address() {
    assert_eq!(split_host_mapping("db:10.0.0.5"), Ok(("db".to_string(), "10.0.0.5".to_string())));
    assert_eq!(split_host_mapping("a;b:host-gateway"), Ok(("a;b".to_string(), "host-gateway".to_string())));
    assert_eq!(split_host_mapping("db:[::1]"), Ok(("db".to_string(), "[::1]".to_string())));
    assert_eq!(split_host_mapping("db"), Err(ValueIssue::Invalid("AddHost must contain hostname:address")));
    assert_eq!(
        split_host_mapping(":10.0.0.1"),
        Err(ValueIssue::Invalid("AddHost must contain at least one hostname"))
    );
    assert_eq!(
        split_host_mapping("db]"),
        Err(ValueIssue::Unsupported("AddHost bracketed address is outside the exact hostname:address subset"))
    );
    assert_eq!(host_mapping_names("a;b"), Ok(vec!["a".to_string(), "b".to_string()]));
    assert_eq!(
        host_mapping_names("a;b c"),
        Err(ValueIssue::Unsupported("AddHost hostname requires native quoting or target-specific interpretation"))
    );
}

#[test]
fn written_host_mappings_read_back() {
    for address in ["10.0.0.5", "host-gateway", "[fe80::1]"] {
        let written = host_mapping_entry("db", address).unwrap();
        assert_eq!(split_host_mapping(&written), Ok(("db".to_string(), address.to_string())));
    }
    assert_eq!(host_mapping_entry("-db", "10.0.0.5"), None);
}

#[test]
fn security_options_choose_key_and_value() {
    assert_eq!(
        security_option_output(&SecurityOption::NoNewPrivileges(true)),
        ("quadlet.container.no-new-privileges", SecurityKey::NoNewPrivileges, "true")
    );
    assert_eq!(
        security_option_output(&SecurityOption::SecurityLabelType("spc_t".to_string())),
        ("quadlet.container.security-label-type", SecurityKey::SecurityLabelType, "spc_t")
    );
    assert_eq!(
        security_option_output(&SecurityOption::Unmask("/proc/kcore".to_string())),
        ("quadlet.container.unmask", SecurityKey::Unmask, "/proc/kcore")
    );
    assert_eq!(security_option_singleton_name(&SecurityOption::AppArmor("unconfined".to_string())), Some("AppArmor"));
    assert_eq!(security_option_singleton_name(&SecurityOption::Mask("/proc".to_string())), None);
    assert!(security_option_is_selinux_label(&SecurityOption::SecurityLabelLevel("s0".to_string())));
    assert!(!security_option_is_selinux_label(&SecurityOption::SecurityLabelDisable(true)));
    assert_eq!(SecurityOption::SeccompProfile("x".to_string()).key(), SecurityKey::SeccompProfile);
}

#[test]
fn devices_render_reviewed_parts() {
    let long = Device::Long {
        source: Some("/dev/fuse".to_string()),
        target: Some("/dev/fuse".to_string()),
        permissions: Some("rw".to_string()),
    };
    assert_eq!(reviewed_device_value(&long), Some("/dev/fuse:/dev/fuse:rw".to_string()));
    let source_only = Device::Long { source: Some("/dev/kvm".to_string()), target: None, permissions: None };
    assert_eq!(reviewed_device_value(&source_only), Some("/dev/kvm".to_string()));
    let no_target = Device::Long {
        source: Some("/dev/kvm".to_string()),
        target: None,
        permissions: Some("r".to_string()),
    };
    assert_eq!(reviewed_device_value(&no_target), None);
    let no_source = Device::Long { source: None, target: Some("/dev/kvm".to_string()), permissions: None };
    assert_eq!(reviewed_device_value(&no_source), None);
    assert_eq!(reviewed_device_value(&Device::Short("/dev/kvm:/dev/kvm".to_string())), Some("/dev/kvm:/dev/kvm".to_string()));
    assert_eq!(reviewed_device_value(&Device::Short("/etc/shadow".to_string())), None);
}

#[test]
fn rendered_devices_pass_the_short_review() {
    let long = Device::Long {
        source: Some("/dev/snd".to_string()),
        target: Some("/dev/snd".to_string()),
        permissions: Some("rwm".to_string()),
    };
    let rendered = reviewed_device_value(&long).unwrap();
    assert_eq!(reviewed_device_value(&Device::Short(rendered.clone())), Some(rendered));
}

#[test]
fn security_entries_are_read_as_options() {
    assert_eq!(
        read_security_option(SecurityKey::AppArmor, "container-default", false),
        Ok(SecurityOption::AppArmor("container-default".to_string()))
    );
    assert_eq!(
        read_security_option(SecurityKey::NoNewPrivileges, "yes", false),
        Ok(SecurityOption::NoNewPrivileges(true))
    );
    assert_eq!(
        read_security_option(SecurityKey::SecurityLabelNested, "maybe", false),
        Err("SecurityLabelNested must use a supported systemd boolean spelling")
    );
    assert_eq!(
        read_security_option(SecurityKey::Mask, "/proc/kcore", true),
        Err("security-option continuation requires native semantic decoding before import")
    );
    assert_eq!(
        read_security_option(SecurityKey::Mask, "%h/secret", false),
        Err("security-option must be a non-empty unquoted physical line without systemd specifiers")
    );
    for option in [
        SecurityOption::SecurityLabelDisable(false),
        SecurityOption::Unmask("/sys/fs".to_string()),
        SecurityOption::SecurityLabelLevel("s0:c1,c2".to_string()),
    ] {
        let (_, key, value) = security_option_output(&option);
        assert_eq!(read_security_option(key, value, false), Ok(option.clone()));
    }
}
