use boxferry_quadlet::document::{read_volume_document, trim, volume_setting_of_key, SkippedEntry};
use boxferry_quadlet::{QuadletDocumentInput, QuadletSource};
use boxferry_quadlet::container::{read_container_unit, ContainerReading, ContainerSetting};
use boxferry_quadlet::execution::{read_execution_unit, ExecKey, ExecReading};
use boxferry_quadlet::healthcheck::{read_health_unit, HealthKey, HealthReading};
use boxferry_quadlet::network::{read_network_unit, NetworkSetting};
use boxferry_quadlet::pod::{read_pod_unit, PodReading, PodSetting};
use boxferry_quadlet::volume::{read_volume_unit, VolumeReading, VolumeSetting};

fn entries<K: Copy>(pairs: &[(K, &str)]) -> Vec<(K, String)> {
    pairs.iter().map(|(k, v)| (*k, v.to_string())).collect()
}

#[test]
fn volume_unit_entries_are_read_in_order() {
    let (settings, readings) = read_volume_unit(&entries(&[
        (VolumeSetting::VolumeName, "data"),
        (VolumeSetting::Driver, "local"),
        (VolumeSetting::VolumeName, "other"),
    ]));
    assert_eq!(settings.runtime_name, Some("data".to_string()));
    assert_eq!(settings.driver, Some("local".to_string()));
    assert_eq!(readings.len(), 3);
    assert_eq!(readings[0], VolumeReading::Exact);
    assert_eq!(readings[2], VolumeReading::Duplicate);
}

#[test]
fn pod_unit_entries_are_read_in_order() {
    let (scalars, readings) = read_pod_unit(&entries(&[(PodSetting::PodName, "shop"), (PodSetting::PodName, "again")]));
    assert_eq!(scalars.runtime_name, Some("shop".to_string()));
    assert_eq!(readings, vec![PodReading::Exact, PodReading::Duplicate]);
}

#[test]
fn health_unit_entries_are_read_in_order() {
    let (settings, readings) = read_health_unit(&entries(&[(HealthKey::Command, "none"), (HealthKey::Retries, "x")]));
    assert_eq!(settings.disabled, Some(true));
    assert_eq!(
        readings,
        vec![HealthReading::Exact, HealthReading::Invalid("HealthRetries must be a non-negative decimal integer")]
    );
}

#[test]
fn container_unit_entries_are_read_in_order() {
    let (scalars, readings) =
        read_container_unit(&entries(&[(ContainerSetting::Memory, "512m"), (ContainerSetting::Pull, "never")]));
    assert_eq!(scalars.memory_limit, Some("512m".to_string()));
    assert_eq!(readings, vec![ContainerReading::Exact, ContainerReading::Exact]);
}

#[test]
fn execution_unit_entries_are_read_and_finished() {
    let (context, readings, group) =
        read_execution_unit(&entries(&[(ExecKey::Group, "100"), (ExecKey::User, "app")]));
    assert_eq!(readings, vec![ExecReading::Deferred, ExecReading::Exact]);
    assert_eq!(group, Some(ExecReading::Exact));
    assert_eq!(context.group, Some("100".to_string()));
    assert_eq!(context.user, Some("app".to_string()));
}

#[test]
fn network_unit_entries_are_read_and_finished() {
    let (settings, readings, issue) =
        read_network_unit(&entries(&[(NetworkSetting::NetworkName, "backend"), (NetworkSetting::Driver, "bridge")]));
    assert_eq!(readings.len(), 2);
    assert_eq!(issue, None);
    assert_eq!(settings.runtime_name, Some("backend".to_string()));
    assert_eq!(settings.driver, Some("bridge".to_string()));
}

#[test]
fn parsed_volume_documents_are_read() {
    let input = QuadletDocumentInput::new("data.volume", 1, "[Volume]\nDriver=local\nVolumeName= shared \nLabel=a=b\nDriver=other\n");
    let parsed = QuadletSource::parse("app", vec![input]).unwrap();
    let (entries, settings, readings, skipped) = read_volume_document(parsed.source().documents(), 0);
    assert_eq!(entries.len(), 4);
    assert_eq!(settings.driver, Some("local".to_string()));
    assert_eq!(settings.runtime_name, Some("shared".to_string()));
    assert_eq!(readings.len(), 4);
    assert_eq!(readings[3], VolumeReading::Duplicate);
    assert!(skipped.is_empty());
    let (none, _, _, _) = read_volume_document(parsed.source().documents(), 1);
    assert!(none.is_empty());
}

#[test]
fn volume_keys_and_trimming() {
    assert_eq!(volume_setting_of_key("UID"), Some(VolumeSetting::Uid));
    assert_eq!(volume_setting_of_key("Uid"), None);
    assert_eq!(trim("  a b \t"), "a b");
    assert_eq!(SkippedEntry::Continued.reason(), "continued physical values require native semantic decoding before import");
}
