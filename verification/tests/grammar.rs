use boxferry_quadlet::grammar::{
    is_canonical_decimal, is_canonical_nonnegative_seconds, is_compose_managed_label, is_decimal,
    is_environment_name, is_external_network_name, is_ipv4_spelling, is_label_name, is_native_atom,
    is_podman_secret_mode, is_positive_canonical_decimal, is_positive_canonical_size, is_positive_memory,
    is_reviewed_device_component, is_reviewed_device_permissions, is_safe_absolute_container_path,
    is_safe_absolute_environment_file_path, is_safe_capability, is_safe_device, is_safe_device_path,
    is_safe_health_scalar, is_safe_health_shell_command, is_safe_hostname, is_safe_limit_value, is_safe_mount_part,
    is_safe_network_assignment, is_safe_network_scalar, is_safe_secret_component, is_safe_security_option_value,
    is_safe_signal, is_safe_stop_signal, is_safe_sysctl, is_safe_sysctl_assignment, is_safe_systemd_unit_name,
    is_safe_tmpfs, is_safe_ulimit, is_safe_ulimit_assignment, is_safe_word, is_valid_mapping_source,
    reviewed_device_spelling, valid_podman_container_name,
};

#[test]
fn native_atoms_start_and_end_alphanumeric() {
    assert!(is_native_atom("web-1.app_x"));
    assert!(is_native_atom("a"));
    assert!(!is_native_atom(""));
    assert!(!is_native_atom("-web"));
    assert!(!is_native_atom("web."));
    assert!(!is_native_atom("we b"));
    assert!(is_safe_systemd_unit_name("db.container"));
    assert!(!is_safe_systemd_unit_name("db container"));
    assert!(is_external_network_name("frontend"));
    assert!(!is_external_network_name("front/end"));
}

#[test]
fn environment_names_follow_posix() {
    assert!(is_environment_name("_PATH9"));
    assert!(is_environment_name("HOME"));
    assert!(!is_environment_name("9LIVES"));
    assert!(!is_environment_name("A-B"));
    assert!(!is_environment_name(""));
}

#[test]
fn health_scalars_and_shell_commands() {
    assert!(is_safe_health_scalar("curl -f http://localhost"));
    assert!(!is_safe_health_scalar(" padded"));
    assert!(!is_safe_health_scalar("100%"));
    assert!(!is_safe_health_scalar(""));
    assert!(is_safe_health_shell_command("curl -f http://localhost/health"));
    assert!(!is_safe_health_shell_command("a && b"));
    assert!(!is_safe_health_shell_command("trailing "));
}

#[test]
fn words_and_network_scalars() {
    assert!(is_safe_word("", true));
    assert!(!is_safe_word("", false));
    assert!(!is_safe_word("a b", false));
    assert!(is_safe_network_scalar("", true));
    assert!(!is_safe_network_scalar("", false));
    assert!(is_safe_network_assignment("mtu", "1500"));
    assert!(is_safe_network_assignment("flag", ""));
    assert!(!is_safe_network_assignment("", "x"));
    assert!(!is_safe_network_assignment("a=b", "x"));
}

#[test]
fn label_names_and_compose_labels() {
    assert!(is_label_name("org.example.tier"));
    assert!(!is_label_name(".hidden"));
    assert!(is_compose_managed_label("com.docker.compose.project"));
    assert!(!is_compose_managed_label("com.docker.composer"));
}

#[test]
fn sizes_and_decimals() {
    assert!(is_positive_memory("512m"));
    assert!(is_positive_memory("1"));
    assert!(!is_positive_memory("0"));
    assert!(!is_positive_memory("05m"));
    assert!(!is_positive_memory("1t"));
    assert!(is_positive_canonical_size("2g"));
    assert!(is_positive_canonical_decimal("18446744073709551615"));
    assert!(!is_positive_canonical_decimal("18446744073709551616"));
    assert!(is_canonical_decimal("0"));
    assert!(!is_canonical_decimal("00"));
    assert!(is_decimal("007"));
    assert!(!is_decimal(""));
    assert!(!is_decimal("-1"));
    assert!(is_canonical_nonnegative_seconds("0"));
    assert!(is_canonical_nonnegative_seconds("30"));
    assert!(!is_canonical_nonnegative_seconds("030"));
}

#[test]
fn security_values_capabilities_and_signals() {
    assert!(is_safe_security_option_value("unconfined"));
    assert!(!is_safe_security_option_value(""));
    assert!(is_safe_capability("NET_ADMIN"));
    assert!(is_safe_capability("CAP_SYS_TIME"));
    assert!(!is_safe_capability("net_admin"));
    assert!(!is_safe_capability("CAP_"));
    assert!(is_safe_signal("15"));
    assert!(is_safe_signal("SIGTERM"));
    assert!(is_safe_signal("SIGRTMIN1"));
    assert!(!is_safe_signal("65"));
    assert!(!is_safe_signal("015"));
    assert!(!is_safe_signal("TERM"));
    assert!(is_safe_stop_signal("SIGINT"));
    assert!(!is_safe_stop_signal("0"));
}

#[test]
fn hostnames_are_dns_labels() {
    assert!(is_safe_hostname("db.internal"));
    assert!(!is_safe_hostname("-db"));
    assert!(!is_safe_hostname("db..internal"));
    let long_label = "a".repeat(64);
    assert!(!is_safe_hostname(&long_label));
    assert!(is_safe_hostname(&"a".repeat(63)));
}

#[test]
fn container_paths_and_tmpfs() {
    assert!(is_safe_absolute_container_path("/var/lib/data"));
    assert!(!is_safe_absolute_container_path("var/lib"));
    assert!(!is_safe_absolute_container_path("/var/../etc"));
    assert!(!is_safe_absolute_container_path("/%h"));
    assert!(is_safe_tmpfs("/run"));
    assert!(is_safe_tmpfs("/run:rw,size=64m"));
    assert!(!is_safe_tmpfs("/run:"));
    assert!(!is_safe_tmpfs("run:rw"));
}

#[test]
fn kernel_parameters_and_limits() {
    assert!(is_safe_sysctl("net.core.somaxconn", "1024"));
    assert!(!is_safe_sysctl("a=b", "1"));
    assert!(is_safe_sysctl_assignment("net.ipv4.ip_forward", "1"));
    assert!(!is_safe_sysctl_assignment("net", ""));
    assert!(is_safe_limit_value("-1"));
    assert!(is_safe_limit_value("0"));
    assert!(is_safe_limit_value("65536"));
    assert!(!is_safe_limit_value("-2"));
    assert!(!is_safe_limit_value("01"));
    assert!(is_safe_ulimit("nofile", "1024", "2048"));
    assert!(!is_safe_ulimit("NOFILE", "1", "1"));
    assert!(is_safe_ulimit_assignment("nofile", "1024", "-1"));
    assert!(!is_safe_ulimit_assignment("nofile", "1:2", "3"));
}

#[test]
fn devices_are_reviewed_by_component() {
    assert!(is_reviewed_device_component("/dev/fuse"));
    assert!(!is_reviewed_device_component("/dev/"));
    assert!(!is_reviewed_device_component("/dev/../etc"));
    assert!(!is_reviewed_device_component("/dev/a:b"));
    assert!(is_reviewed_device_permissions("rwm"));
    assert!(!is_reviewed_device_permissions("rr"));
    assert!(!is_reviewed_device_permissions("x"));
    assert_eq!(reviewed_device_spelling("/dev/fuse:/dev/fuse:rw"), Some("/dev/fuse:/dev/fuse:rw".to_string()));
    assert_eq!(reviewed_device_spelling("/dev/fuse:/dev/fuse:rw:m"), None);
    assert_eq!(reviewed_device_spelling("/etc/passwd"), None);
    assert!(is_safe_device_path("/dev/kvm"));
    assert!(!is_safe_device_path("/dev/"));
    assert!(is_safe_device("/dev/kvm:/dev/kvm:r"));
    assert!(!is_safe_device("/dev/kvm:/dev/kvm:q"));
}

#[test]
fn secrets_mounts_and_mappings() {
    assert!(is_safe_secret_component("db-password"));
    assert!(!is_safe_secret_component("a,b"));
    assert!(!is_safe_secret_component("a=b"));
    assert!(is_podman_secret_mode("0440"));
    assert!(is_podman_secret_mode("777"));
    assert!(!is_podman_secret_mode("1000"));
    assert!(!is_podman_secret_mode("0888"));
    assert!(!is_podman_secret_mode("00000"));
    assert!(is_safe_mount_part("/srv/data%h"));
    assert!(!is_safe_mount_part("a b"));
    assert!(is_valid_mapping_source("~/data"));
    assert!(!is_valid_mapping_source("a\nb"));
    assert!(!is_valid_mapping_source(""));
}

#[test]
fn addresses_names_and_environment_files() {
    assert!(is_ipv4_spelling("10.0.0.1"));
    assert!(is_ipv4_spelling("999.1"));
    assert!(!is_ipv4_spelling("::1"));
    assert!(valid_podman_container_name("web_1"));
    assert!(!valid_podman_container_name("_web"));
    assert!(is_safe_absolute_environment_file_path("/etc/app/env"));
    assert!(!is_safe_absolute_environment_file_path("etc/app/env"));
    assert!(!is_safe_absolute_environment_file_path("/etc/%i.env"));
}
