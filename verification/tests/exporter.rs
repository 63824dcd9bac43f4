use boxferry_quadlet::export::{network_source_name, unit_file_name, volume_source_name, ResourceOwnership};
use boxferry_quadlet::mount::{MountSource, MountSpec, SelinuxRelabel};
use boxferry_quadlet::scalar::unit_stem;
use boxferry_quadlet::{QuadletExporter, QuadletExporterError, QuadletGroupingPolicy};

fn exporter() -> QuadletExporter {
    QuadletExporter::new().expect("the built-in catalogue loads")
}

#[test]
fn new_exporter_has_default_settings() {
    let exporter = exporter();
    assert_eq!(exporter.relative_bind_root(), None);
    assert_eq!(exporter.relative_host_path_root(), None);
    assert_eq!(exporter.grouping_policy(), QuadletGroupingPolicy::SeparateContainers);
    assert_eq!(exporter.pod_name(), None);
    assert_eq!(exporter.bind_source_mapping("~/data"), None);
    assert_eq!(QuadletGroupingPolicy::default(), QuadletGroupingPolicy::SeparateContainers);
    let _ = exporter.catalogue();
}

#[test]
fn project_roots_are_normalized_or_refused() {
    let exporter = exporter().with_relative_bind_root("/project/./app/..").unwrap();
    assert_eq!(exporter.relative_bind_root(), Some("/project"));
    let general = QuadletExporter::new().unwrap().with_relative_host_path_root("/srv//compose").unwrap();
    assert_eq!(general.relative_host_path_root(), Some("/srv/compose"));
    match QuadletExporter::new().unwrap().with_relative_bind_root("relative/root") {
        Err(QuadletExporterError::InvalidRelativeBindRoot(root)) => assert_eq!(root, "relative/root"),
        other => panic!("unexpected {other:?}"),
    }
    assert!(matches!(
        QuadletExporter::new().unwrap().with_relative_bind_root("/.."),
        Err(QuadletExporterError::InvalidRelativeBindRoot(_))
    ));
}

#[test]
fn bind_source_mappings_read_back_and_conflicts_are_refused() {
    let exporter = exporter().with_bind_source_mapping("~/data", "/srv/data").unwrap();
    assert_eq!(exporter.bind_source_mapping("~/data"), Some("/srv/data"));
    assert_eq!(exporter.bind_source_mapping("~/other"), None);
    let exporter = exporter.with_bind_source_mapping("~/data", "/srv/data").unwrap();
    match exporter.with_bind_source_mapping("~/data", "/srv/elsewhere") {
        Err(QuadletExporterError::ConflictingBindSourceMapping { source, existing, replacement }) => {
            assert_eq!(source, "~/data");
            assert_eq!(existing, "/srv/data");
            assert_eq!(replacement, "/srv/elsewhere");
        },
        other => panic!("unexpected {other:?}"),
    }
    match QuadletExporter::new().unwrap().with_bind_source_mapping("~/data", "./relative") {
        Err(QuadletExporterError::InvalidBindSourceMapping { source, target }) => {
            assert_eq!(source, "~/data");
            assert_eq!(target, "./relative");
        },
        other => panic!("unexpected {other:?}"),
    }
    assert!(matches!(
        QuadletExporter::new().unwrap().with_bind_source_mapping("", "/srv"),
        Err(QuadletExporterError::InvalidBindSourceMapping { .. })
    ));
    assert!(QuadletExporter::new().unwrap().with_bind_source_mapping("C:\\data", "%h/data").is_ok());
}

#[test]
fn explicit_mappings_take_precedence() {
    let exporter = exporter()
        .with_relative_bind_root("/project")
        .unwrap()
        .with_bind_source_mapping("./data", "/srv/mapped")
        .unwrap();
    assert_eq!(exporter.container_bind_source("./data"), Ok("/srv/mapped".to_string()));
    assert_eq!(exporter.pod_bind_source("./data"), Ok("/srv/mapped".to_string()));
    assert_eq!(exporter.container_bind_source("./other"), Ok("/project/other".to_string()));
}

#[test]
fn container_bind_sources_by_form() {
    let plain = exporter();
    assert_eq!(plain.container_bind_source("/srv/data"), Ok("/srv/data".to_string()));
    assert_eq!(plain.container_bind_source("%h/data"), Ok("%h/data".to_string()));
    assert_eq!(
        plain.container_bind_source("./data"),
        Err("relative bind source needs an explicit Compose project root")
    );
    assert_eq!(
        plain.container_bind_source("data"),
        Err("relative bind form needs an explicit source-to-target mapping")
    );
    assert_eq!(
        plain.container_bind_source("/with space"),
        Err("bind source needs an explicit source-to-target mapping for Quadlet")
    );
    let rooted = exporter().with_relative_bind_root("/").unwrap();
    assert_eq!(
        rooted.container_bind_source("../data"),
        Err("relative bind source traverses above the filesystem root")
    );
    assert_eq!(
        plain.pod_bind_source("./data"),
        Err("pod bind source needs an explicit safe source-to-target mapping")
    );
}

#[test]
fn environment_files_resolve_against_the_root() {
    let plain = exporter();
    assert_eq!(plain.environment_file_path("/etc/app/../app.env"), Ok("/etc/app.env".to_string()));
    assert_eq!(
        plain.environment_file_path("./app.env"),
        Err("relative environment-file path needs an explicit Compose project root")
    );
    assert_eq!(
        plain.environment_file_path("%h/app.env"),
        Err("Compose environment-file paths cannot acquire systemd specifier semantics implicitly")
    );
    let rooted = exporter().with_relative_host_path_root("/project").unwrap();
    assert_eq!(rooted.environment_file_path("./app.env"), Ok("/project/app.env".to_string()));
    assert_eq!(rooted.environment_file_path("config/app.env"), Ok("/project/config/app.env".to_string()));
    assert_eq!(
        rooted.environment_file_path("~/app.env"),
        Err("environment-file path is not a safely encodable POSIX path")
    );
}

#[test]
fn resource_sources_follow_ownership() {
    assert_eq!(volume_source_name("data", Some(ResourceOwnership::Application)), Ok("data.volume".to_string()));
    assert_eq!(volume_source_name("data", Some(ResourceOwnership::External)), Ok("data".to_string()));
    assert_eq!(
        volume_source_name("data", Some(ResourceOwnership::Implicit)),
        Err("implicit volume cannot yet be reproduced safely")
    );
    assert_eq!(volume_source_name("da ta", None), Err("volume name requires target-specific escaping"));
    assert_eq!(network_source_name("host", None), Ok("host".to_string()));
    assert_eq!(network_source_name("front", Some(ResourceOwnership::Application)), Ok("front.network".to_string()));
    assert_eq!(network_source_name("front", None), Err("implicit network cannot yet be reproduced safely"));
    assert_eq!(network_source_name("fr ont", None), Err("network name requires target-specific escaping"));
}

#[test]
fn unit_filenames_keep_their_stem() {
    assert_eq!(unit_file_name("web", "container"), Some("web.container".to_string()));
    assert_eq!(unit_file_name("-web", "container"), None);
    let name = unit_file_name("api.v2", "pod").unwrap();
    assert_eq!(unit_stem(&name), "api.v2");
}

#[test]
fn mount_entries_combine_source_target_and_options() {
    let exporter = exporter().with_bind_source_mapping("~/cache", "%h/cache").unwrap();
    let named = MountSpec {
        source: MountSource::Volume("data".to_string()),
        target: "/var/lib/data".to_string(),
        read_only: true,
        relabel: Some(SelinuxRelabel::Shared),
    };
    assert_eq!(
        exporter.mount_entry(&named, Some(ResourceOwnership::Application), false),
        Ok("data.volume:/var/lib/data:ro,z".to_string())
    );
    let bind = MountSpec {
        source: MountSource::HostPath("~/cache".to_string()),
        target: "/cache".to_string(),
        read_only: false,
        relabel: None,
    };
    assert_eq!(exporter.mount_entry(&bind, None, true), Ok("%h/cache:/cache".to_string()));
    let anonymous = MountSpec { source: MountSource::Anonymous, target: "/tmp".to_string(), read_only: false, relabel: None };
    assert_eq!(exporter.mount_entry(&anonymous, None, false), Ok("/tmp".to_string()));
    let bad_target = MountSpec { source: MountSource::Anonymous, target: "tmp".to_string(), read_only: false, relabel: None };
    assert_eq!(
        exporter.mount_entry(&bad_target, None, true),
        Err("pod mount target is not a safely encoded absolute path")
    );
}

#[test]
fn grouping_and_pod_name_are_recorded() {
    let exporter = exporter().with_grouping_policy(QuadletGroupingPolicy::SinglePod).with_pod_name("stack");
    assert_eq!(exporter.grouping_policy(), QuadletGroupingPolicy::SinglePod);
    assert_eq!(exporter.pod_name(), Some("stack"));
}

#[test]
fn exporter_errors_describe_themselves() {
    assert_eq!(
        QuadletExporterError::InvalidRelativeBindRoot("rel".to_string()).message(),
        "invalid absolute relative-bind root `rel`"
    );
    assert_eq!(
        QuadletExporterError::InvalidBindSourceMapping { source: "a".to_string(), target: "b".to_string() }.message(),
        "invalid explicit bind-source mapping `a` to `b`"
    );
    assert_eq!(
        QuadletExporterError::ConflictingBindSourceMapping {
            source: "a".to_string(),
            existing: "/x".to_string(),
            replacement: "/y".to_string(),
        }
        .message(),
        "conflicting bind-source mapping for `a`: `/x` versus `/y`"
    );
}
