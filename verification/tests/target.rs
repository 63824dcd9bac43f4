use boxferry_quadlet::target::{check_target, check_target_range, PodmanRelease, TargetIssue, TargetRange};
use boxferry_quadlet::QuadletExporter;

fn release(major: u64, minor: u64, patch: u64) -> PodmanRelease {
    PodmanRelease { major, minor, patch }
}

fn coverage() -> (PodmanRelease, PodmanRelease) {
    (release(4, 4, 0), release(5, 7, 1))
}

#[test]
fn podman_ranges_within_the_catalogue_are_targets() {
    assert_eq!(
        check_target_range("podman", release(5, 0, 0), Some(release(5, 7, 1)), coverage()),
        Ok(TargetRange { minimum: release(5, 0, 0), maximum: Some(release(5, 7, 1)) })
    );
    assert_eq!(
        check_target_range("podman", release(4, 4, 0), None, coverage()),
        Ok(TargetRange { minimum: release(4, 4, 0), maximum: None })
    );
}

#[test]
fn other_targets_are_refused() {
    assert_eq!(check_target_range("docker", release(5, 0, 0), None, coverage()), Err(TargetIssue::NotPodman));
    assert_eq!(
        check_target_range("podman", release(4, 3, 9), None, coverage()),
        Err(TargetIssue::OutsideCatalogue(
            "requested 4.3.9 through open ended; verified coverage is 4.4.0 through 5.7.1".to_string()
        ))
    );
    assert_eq!(
        check_target_range("podman", release(5, 0, 0), Some(release(5, 8, 0)), coverage()),
        Err(TargetIssue::OutsideCatalogue(
            "requested 5.0.0 through 5.8.0; verified coverage is 4.4.0 through 5.7.1".to_string()
        ))
    );
    assert_eq!(
        check_target_range("podman", release(5, 2, 0), Some(release(5, 1, 10)), coverage()),
        Err(TargetIssue::InvertedRange)
    );
    assert_eq!(
        TargetIssue::InvertedRange.explanation(),
        ("requested Podman range is invalid", "maximum version is before minimum version".to_string())
    );
    assert_eq!(
        TargetIssue::NotPodman.explanation(),
        ("Quadlet output requires the `podman` target implementation", "select target implementation `podman`".to_string())
    );
}

#[test]
fn targets_are_checked_against_the_loaded_catalogue() {
    let exporter = QuadletExporter::new().unwrap();
    assert_eq!(
        check_target(exporter.catalogue(), "docker", release(5, 0, 0), None),
        Err(TargetIssue::NotPodman)
    );
    assert!(matches!(
        check_target(exporter.catalogue(), "podman", release(0, 0, 1), None),
        Err(TargetIssue::OutsideCatalogue(_))
    ));
}
