use boxferry_quadlet::encode::decode_json_exec_array;
use boxferry_quadlet::service::{
    capability_list_reading, command_arguments, command_value, entrypoint_value, reload_action_reading, reload_entry,
    restart_policy_reading, restart_value, sysctl_parts, sysctl_value, ulimit_parts, ulimit_value, CapabilityReading,
    Command, ReloadAction, ReloadKey, RestartPolicy,
};

fn strings(values: &[&str]) -> Vec<String> {
    values.iter().map(|value| value.to_string()).collect()
}

#[test]
fn commands_are_written_as_space_separated_words() {
    assert_eq!(command_value(&Command::Exec(strings(&["/bin/server", "--port=80"]))), Ok("/bin/server --port=80".to_string()));
    assert_eq!(
        command_value(&Command::Exec(strings(&["echo", "two words"]))),
        Err("command arguments requiring systemd quoting are not yet encoded")
    );
    assert_eq!(
        command_value(&Command::Exec(Vec::new())),
        Err("command arguments requiring systemd quoting are not yet encoded")
    );
    assert_eq!(
        command_value(&Command::Shell("echo hi".to_string())),
        Err("shell-form command semantics are not yet encoded for Quadlet Exec")
    );
    assert_eq!(
        command_value(&Command::Empty),
        Err("explicit command clearing is not yet represented by the Quadlet adapter")
    );
}

#[test]
fn commands_are_read_as_ascii_words() {
    assert_eq!(command_arguments("  /bin/server\t--port=80 "), Ok(strings(&["/bin/server", "--port=80"])));
    assert_eq!(
        command_arguments("   "),
        Err("Exec requires systemd command-line decoding outside the exact unquoted-word subset")
    );
    assert_eq!(
        command_arguments("echo 'quoted'"),
        Err("Exec requires systemd command-line decoding outside the exact unquoted-word subset")
    );
}

#[test]
fn written_commands_read_back() {
    let arguments = strings(&["/usr/bin/app", "serve", "--config=/etc/app.conf"]);
    let written = command_value(&Command::Exec(arguments.clone())).unwrap();
    assert_eq!(command_arguments(&written), Ok(arguments));
}

#[test]
fn entrypoints_are_written_as_json_arrays() {
    assert_eq!(entrypoint_value(&strings(&["/entry.sh", "-x"])), Ok(r#"["/entry.sh","-x"]"#.to_string()));
    assert_eq!(
        entrypoint_value(&strings(&["a b"])),
        Err("Entrypoint is exact only for a reviewed JSON exec array")
    );
    assert_eq!(entrypoint_value(&[]), Err("Entrypoint is exact only for a reviewed JSON exec array"));
}

#[test]
fn written_entrypoints_read_back() {
    let arguments = strings(&["/docker-entrypoint.sh", "--mode=prod"]);
    let written = entrypoint_value(&arguments).unwrap();
    assert_eq!(decode_json_exec_array(&written), Some(arguments));
    let with_comma = entrypoint_value(&strings(&["a,b"])).unwrap();
    assert_eq!(decode_json_exec_array(&with_comma), None);
}

#[test]
fn reload_actions_pick_their_key() {
    assert_eq!(
        reload_entry(&ReloadAction::Signal("SIGHUP".to_string())),
        Ok((ReloadKey::Signal, "SIGHUP".to_string()))
    );
    assert_eq!(reload_entry(&ReloadAction::Signal("HUP".to_string())), Err("reload signal is not safely encodable"));
    assert_eq!(
        reload_entry(&ReloadAction::Command(Command::Exec(strings(&["nginx", "-s", "reload"])))),
        Ok((ReloadKey::Command, "nginx -s reload".to_string()))
    );
    assert_eq!(
        reload_entry(&ReloadAction::Command(Command::Shell("kill -HUP 1".to_string()))),
        Err("reload command requires unsupported systemd command-line encoding")
    );
}

#[test]
fn reload_actions_are_read_once() {
    assert_eq!(
        reload_action_reading("nginx -s reload", ReloadKey::Command, false),
        Ok(ReloadAction::Command(Command::Exec(strings(&["nginx", "-s", "reload"]))))
    );
    assert_eq!(
        reload_action_reading("anything goes", ReloadKey::Signal, false),
        Ok(ReloadAction::Signal("anything goes".to_string()))
    );
    assert_eq!(
        reload_action_reading("SIGHUP", ReloadKey::Signal, true),
        Err("ReloadCmd and ReloadSignal are mutually exclusive")
    );
    assert_eq!(
        reload_action_reading("echo \"x\"", ReloadKey::Command, false),
        Err("ReloadCmd requires unsupported systemd command-line decoding")
    );
}

#[test]
fn written_reload_actions_read_back() {
    for action in [
        ReloadAction::Signal("SIGUSR1".to_string()),
        ReloadAction::Command(Command::Exec(strings(&["/bin/reload", "--graceful"]))),
    ] {
        let (key, value) = reload_entry(&action).unwrap();
        assert_eq!(reload_action_reading(&value, key, false), Ok(action));
    }
}

#[test]
fn restart_policies_map_both_ways() {
    assert_eq!(restart_value(RestartPolicy::Never), Ok(("no", None)));
    assert_eq!(
        restart_value(RestartPolicy::OnFailure { maximum_retries: Some(3) }),
        Err("a finite container restart count has no equivalent in Restart=; systemd start-rate limits use different time-window semantics")
    );
    assert_eq!(restart_value(RestartPolicy::UnlessStopped).unwrap().0, "always");
    assert_eq!(restart_policy_reading("no"), Ok((RestartPolicy::Never, None)));
    assert_eq!(
        restart_policy_reading("on-abort"),
        Err("Restart value has no faithful neutral container restart-policy representation")
    );
    for policy in [
        RestartPolicy::Never,
        RestartPolicy::Always,
        RestartPolicy::OnFailure { maximum_retries: None },
        RestartPolicy::UnlessStopped,
    ] {
        let (value, _) = restart_value(policy).unwrap();
        let (read, _) = restart_policy_reading(value).unwrap();
        let expected = if policy == RestartPolicy::UnlessStopped { RestartPolicy::Always } else { policy };
        assert_eq!(read, expected);
    }
}

#[test]
fn capability_lists_are_read_as_names_or_retained() {
    assert_eq!(capability_list_reading(""), CapabilityReading::Reset);
    assert_eq!(
        capability_list_reading("NET_ADMIN  CAP_SYS_TIME"),
        CapabilityReading::Names(strings(&["NET_ADMIN", "CAP_SYS_TIME"]))
    );
    assert_eq!(capability_list_reading("net_admin"), CapabilityReading::Retained("net_admin".to_string()));
}

#[test]
fn kernel_parameters_and_limits_round_trip() {
    let sysctl = sysctl_value("net.core.somaxconn", "1024").unwrap();
    assert_eq!(sysctl, "net.core.somaxconn=1024");
    assert_eq!(sysctl_parts(&sysctl), Ok(("net.core.somaxconn".to_string(), "1024".to_string())));
    assert_eq!(sysctl_value("a=b", "1"), None);
    assert_eq!(sysctl_parts("novalue"), Err("Sysctl must contain one NAME=VALUE assignment"));
    let ulimit = ulimit_value("nofile", "1024", "-1").unwrap();
    assert_eq!(ulimit, "nofile=1024:-1");
    assert_eq!(ulimit_parts(&ulimit), Ok(("nofile".to_string(), "1024".to_string(), "-1".to_string())));
    assert_eq!(ulimit_value("NOFILE", "1", "1"), None);
    assert_eq!(ulimit_parts("nofile=1024"), Err("Ulimit must contain NAME=SOFT:HARD"));
    assert_eq!(ulimit_parts("nofile"), Err("Ulimit must contain NAME=SOFT:HARD"));
}
