use boxferry_quadlet::encode::{decode_json_exec_array, encode_json_array, encode_quadlet_label, normalize_secret_mode};
use boxferry_quadlet::grammar::is_podman_secret_mode;
use boxferry_quadlet::issue::ValueIssue;
use boxferry_quadlet::mount::{decode_mount, mount_value, MountSource, SelinuxRelabel};
use boxferry_quadlet::path::{is_valid_quadlet_bind_source, normalize_absolute_path, resolve_relative_path};
use boxferry_quadlet::port::{exposed_port, exposed_port_value, ExposedPort};
use boxferry_quadlet::port::{decode_port, encode_port, optional_port, protocol_name, required_port, PortIssue, Protocol, PublishedPort};
use boxferry_quadlet::scalar::{
    artifact_assignment, bool_text, is_ipv4_address, is_podman_health_duration, parse_canonical_network_bool,
    parse_network_assignment, parse_network_label, parse_quadlet_bool, parse_security_option_boolean,
    sibling_service_reference, unit_stem,
};

#[test]
fn json_arrays_escape_each_item() {
    assert_eq!(encode_json_array(&["CMD", "curl", "-f"]), r#"["CMD","curl","-f"]"#);
    assert_eq!(encode_json_array(&["a\"b\\c"]), r#"["a\"b\\c"]"#);
    assert_eq!(encode_json_array(&["tab\there", "\u{1}"]), "[\"tab\\there\",\"\\u0001\"]");
    assert_eq!(encode_json_array(&[]), "[]");
}

#[test]
fn compact_exec_arrays_read_plain_items() {
    assert_eq!(
        decode_json_exec_array(r#"["/bin/app","--flag"]"#),
        Some(vec!["/bin/app".to_string(), "--flag".to_string()])
    );
    assert_eq!(decode_json_exec_array("[]"), None);
    assert_eq!(decode_json_exec_array(r#"["a", "b"]"#), None);
    assert_eq!(decode_json_exec_array(r#"["a\"b"]"#), None);
    assert_eq!(decode_json_exec_array(r#"[""]"#), None);
    assert_eq!(decode_json_exec_array("/bin/app"), None);
}

#[test]
fn exec_array_written_reads_back() {
    let items = ["/usr/bin/server", "--port=8080", "serve"];
    let written = encode_json_array(&items);
    let read = decode_json_exec_array(&written).expect("plain items read back");
    assert_eq!(read, items.iter().map(|item| item.to_string()).collect::<Vec<_>>());
}

#[test]
fn labels_are_quoted_and_escaped() {
    assert_eq!(encode_quadlet_label("tier", "web"), Some("\"tier=web\"".to_string()));
    assert_eq!(encode_quadlet_label("ratio", "50%"), Some("\"ratio=50%%\"".to_string()));
    assert_eq!(encode_quadlet_label("q", "say \"hi\""), Some("\"q=say \\\"hi\\\"\"".to_string()));
    assert_eq!(encode_quadlet_label("line", "a\nb"), Some("\"line=a\\nb\"".to_string()));
    assert_eq!(encode_quadlet_label("bell", "\u{7}"), Some("\"bell=\\u0007\"".to_string()));
    assert_eq!(encode_quadlet_label("nul", "a\0b"), None);
}

#[test]
fn secret_modes_are_canonical_four_digits() {
    assert_eq!(normalize_secret_mode("440"), Some("0440".to_string()));
    assert_eq!(normalize_secret_mode("0o400"), Some("0400".to_string()));
    assert_eq!(normalize_secret_mode("4"), Some("0004".to_string()));
    assert_eq!(normalize_secret_mode("0600"), None);
    assert_eq!(normalize_secret_mode("1000"), None);
    assert_eq!(normalize_secret_mode("0o"), None);
    assert_eq!(normalize_secret_mode("9"), None);
}

#[test]
fn canonical_secret_mode_is_stable_and_accepted() {
    for mode in ["440", "0o4", "0555", "7"] {
        if let Some(canonical) = normalize_secret_mode(mode) {
            assert!(is_podman_secret_mode(&canonical));
            assert_eq!(normalize_secret_mode(&canonical), Some(canonical.clone()));
        }
    }
}

#[test]
fn booleans_in_three_spellings() {
    assert_eq!(parse_quadlet_bool("yes"), Some(true));
    assert_eq!(parse_quadlet_bool("1"), Some(true));
    assert_eq!(parse_quadlet_bool("0"), Some(false));
    assert_eq!(parse_quadlet_bool("True"), None);
    assert_eq!(parse_canonical_network_bool("true"), Some(true));
    assert_eq!(parse_canonical_network_bool("yes"), None);
    assert_eq!(parse_security_option_boolean("on"), Some(true));
    assert_eq!(parse_security_option_boolean("f"), Some(false));
    assert_eq!(parse_security_option_boolean("maybe"), None);
}

#[test]
fn written_booleans_read_back() {
    for value in [true, false] {
        let text = bool_text(value);
        assert_eq!(parse_quadlet_bool(text), Some(value));
        assert_eq!(parse_canonical_network_bool(text), Some(value));
        assert_eq!(parse_security_option_boolean(text), Some(value));
    }
    assert_eq!(bool_text(true), "true");
    assert_eq!(bool_text(false), "false");
}

#[test]
fn unit_stems_drop_the_last_suffix() {
    assert_eq!(unit_stem("web.container"), "web");
    assert_eq!(unit_stem("a.b.volume"), "a.b");
    assert_eq!(unit_stem("noext"), "noext");
}

#[test]
fn sibling_services_need_a_known_stem() {
    let services = vec!["db".to_string(), "cache".to_string()];
    assert_eq!(sibling_service_reference("db.container", &services), Some("db"));
    assert_eq!(sibling_service_reference("cache.service", &services), Some("cache"));
    assert_eq!(sibling_service_reference("web.container", &services), None);
    assert_eq!(sibling_service_reference("db.network", &services), None);
    assert_eq!(sibling_service_reference("db .container", &services), None);
}

#[test]
fn network_assignments_split_at_the_first_equals() {
    assert_eq!(parse_network_assignment("mtu=1500"), Some(("mtu", "1500")));
    assert_eq!(parse_network_assignment("a=b=c"), Some(("a", "b=c")));
    assert_eq!(parse_network_assignment("flag="), Some(("flag", "")));
    assert_eq!(parse_network_assignment("=x"), None);
    assert_eq!(parse_network_assignment("novalue"), None);
    assert_eq!(parse_network_assignment("a=b c"), None);
    assert_eq!(parse_network_label("org.example.tier=web"), Some(("org.example.tier", "web")));
    assert_eq!(parse_network_label("-bad=web"), None);
}

#[test]
fn artifact_assignments_split_at_the_first_equals() {
    let with_value = artifact_assignment("key=a=b", true);
    assert_eq!(with_value.name, "key");
    assert_eq!(with_value.value.as_deref(), Some("a=b"));
    assert!(with_value.sensitive);
    let bare = artifact_assignment("flag", false);
    assert_eq!(bare.name, "flag");
    assert_eq!(bare.value, None);
    assert!(!bare.sensitive);
}

#[test]
fn ipv4_addresses_and_durations() {
    assert!(is_ipv4_address("192.168.1.10"));
    assert!(!is_ipv4_address("256.1.1.1"));
    assert!(!is_ipv4_address("1.2.3"));
    assert!(!is_ipv4_address("01.2.3.4"));
    assert!(is_podman_health_duration("0"));
    assert!(is_podman_health_duration("1m30s"));
    assert!(is_podman_health_duration("1.5s"));
    assert!(is_podman_health_duration("250ms"));
    assert!(!is_podman_health_duration("30"));
    assert!(!is_podman_health_duration("1..5s"));
    assert!(!is_podman_health_duration(""));
}

#[test]
fn ports_are_written_in_the_published_form() {
    let port = PublishedPort { container: 80, published: Some(8080), host_address: None, protocol: Protocol::Tcp };
    assert_eq!(encode_port(&port).unwrap(), "8080:80/tcp");
    let bound = PublishedPort {
        container: 53,
        published: Some(5353),
        host_address: Some("127.0.0.1".to_string()),
        protocol: Protocol::Udp,
    };
    assert_eq!(encode_port(&bound).unwrap(), "127.0.0.1:5353:53/udp");
    let exposed = PublishedPort { container: 80, published: None, host_address: None, protocol: Protocol::Tcp };
    assert_eq!(encode_port(&exposed).unwrap_err(), PortIssue::NotPublished);
    let ipv6 = PublishedPort {
        container: 80,
        published: Some(80),
        host_address: Some("::1".to_string()),
        protocol: Protocol::Tcp,
    };
    assert_eq!(encode_port(&ipv6).unwrap_err(), PortIssue::HostAddressForm);
    assert_eq!(
        PortIssue::NotPublished.reason(),
        "container-only exposure without host publication is not in the current Quadlet subset"
    );
    assert_eq!(protocol_name(Protocol::Sctp), "sctp");
}

#[test]
fn ports_read_back_exactly() {
    let port = decode_port("127.0.0.1:8443:443/tcp").unwrap();
    assert_eq!(port.container, 443);
    assert_eq!(port.published, Some(8443));
    assert_eq!(port.host_address.as_deref(), Some("127.0.0.1"));
    assert_eq!(port.protocol, Protocol::Tcp);
    let written = PublishedPort { container: 9000, published: Some(9001), host_address: None, protocol: Protocol::Sctp };
    let read = decode_port(&encode_port(&written).unwrap()).unwrap();
    assert_eq!(read.container, 9000);
    assert_eq!(read.published, Some(9001));
    assert_eq!(read.host_address, None);
    assert_eq!(read.protocol, Protocol::Sctp);
    assert!(matches!(decode_port("80/icmp"), Err(ValueIssue::Invalid(_))));
    assert!(decode_port("70000:80").is_err());
    assert_eq!(optional_port(""), Ok(None));
    assert_eq!(optional_port("8080"), Ok(Some(8080)));
    assert_eq!(required_port("443"), Ok(443));
    assert!(required_port("").is_err());
}

#[test]
fn mounts_are_written_and_read_back() {
    assert_eq!(mount_value("data", "/var/lib/data", true, Some(SelinuxRelabel::Private)), "data:/var/lib/data:ro,Z");
    assert_eq!(mount_value("", "/scratch", false, None), "/scratch");
    let (mount, external) = decode_mount("data.volume:/srv:ro", true).unwrap();
    assert!(matches!(mount.source, MountSource::Volume(ref name) if name == "data"));
    assert_eq!(mount.target, "/srv");
    assert!(mount.read_only);
    assert_eq!(external, None);
    let (named, external) = decode_mount("cache:/cache:z", false).unwrap();
    assert!(matches!(named.source, MountSource::Volume(ref name) if name == "cache"));
    assert_eq!(named.relabel, Some(SelinuxRelabel::Shared));
    assert_eq!(external.as_deref(), Some("cache"));
    let (bind, _) = decode_mount("/host/path:/container", false).unwrap();
    assert!(matches!(bind.source, MountSource::HostPath(ref path) if path == "/host/path"));
    let (anonymous, _) = decode_mount("/tmp/anon", false).unwrap();
    assert!(matches!(anonymous.source, MountSource::Anonymous));
}

#[test]
fn mount_errors_name_their_reason() {
    assert_eq!(decode_mount("", false).unwrap_err(), ValueIssue::Invalid("Volume value is empty"));
    assert_eq!(
        decode_mount("a:/b:ro,rw", false).unwrap_err(),
        ValueIssue::Invalid("Volume options contain conflicting ro and rw intent")
    );
    assert_eq!(
        decode_mount("a:/b:z,Z", false).unwrap_err(),
        ValueIssue::Invalid("Volume options contain conflicting or repeated SELinux relabel intent")
    );
    assert!(matches!(decode_mount("a:/b:c:d", false), Err(ValueIssue::Unsupported(_))));
    assert!(matches!(decode_mount("./rel:/b", false), Err(ValueIssue::Unsupported(_))));
    assert_eq!(
        decode_mount("data:/b", true).unwrap_err(),
        ValueIssue::Invalid("invalid .volume unit reference")
    );
    assert!(matches!(decode_mount("a:relative", false), Err(ValueIssue::Unsupported(_))));
}

#[test]
fn paths_normalize_lexically() {
    assert_eq!(normalize_absolute_path("/srv/./app/../data//x"), Some("/srv/data/x".to_string()));
    assert_eq!(normalize_absolute_path("/"), Some("/".to_string()));
    assert_eq!(normalize_absolute_path("/.."), None);
    assert_eq!(normalize_absolute_path("relative"), None);
    assert_eq!(resolve_relative_path("/project", "./data"), Some("/project/data".to_string()));
    assert_eq!(resolve_relative_path("/project/app", "../shared"), Some("/project/shared".to_string()));
    assert_eq!(resolve_relative_path("/", "../x"), None);
    assert_eq!(resolve_relative_path("/home", "./~/x"), None);
    assert!(is_valid_quadlet_bind_source("/srv/data"));
    assert!(is_valid_quadlet_bind_source("%h/data"));
    assert!(!is_valid_quadlet_bind_source("./data"));
    assert!(!is_valid_quadlet_bind_source("data"));
}

#[test]
fn exposed_ports_round_trip() {
    assert_eq!(exposed_port_value(ExposedPort { container: 8080, protocol: Protocol::Tcp }), Ok("8080".to_string()));
    assert_eq!(exposed_port_value(ExposedPort { container: 53, protocol: Protocol::Udp }), Ok("53/udp".to_string()));
    assert_eq!(
        exposed_port_value(ExposedPort { container: 9, protocol: Protocol::Sctp }),
        Err("ExposeHostPort supports only tcp or udp")
    );
    assert_eq!(exposed_port("8080/tcp"), Ok(ExposedPort { container: 8080, protocol: Protocol::Tcp }));
    assert_eq!(exposed_port("53/udp"), Ok(ExposedPort { container: 53, protocol: Protocol::Udp }));
    assert_eq!(exposed_port("53/sctp"), Err(ValueIssue::Unsupported("ExposeHostPort supports only one tcp or udp port")));
    assert_eq!(
        exposed_port("8000-8010"),
        Err(ValueIssue::Unsupported("ExposeHostPort ranges and deferred values are not exposure metadata"))
    );
    assert_eq!(exposed_port("0"), Err(ValueIssue::Invalid("ExposeHostPort cannot be zero")));
    for port in [ExposedPort { container: 1, protocol: Protocol::Udp }, ExposedPort { container: 65535, protocol: Protocol::Tcp }] {
        assert_eq!(exposed_port(&exposed_port_value(port).unwrap()), Ok(port));
    }
}
