use boxferry_quadlet::pod::{host_network_conflict, plan_pod_entries, read_pod_entry, PodEntryPlan, PodExitPolicy, PodReading, PodScalars, PodSetting};

fn text(value: &str) -> Option<String> {
    Some(value.to_string())
}

fn full_scalars() -> PodScalars {
    let mut scalars = PodScalars::new();
    scalars.runtime_name = text("shop");
    scalars.service_name = text("shop-pod");
    scalars.user_namespace = text("keep-id");
    scalars.shm_size = text("64m");
    scalars.exit_policy = Some(PodExitPolicy::Continue);
    scalars.stop_timeout = text("30");
    scalars
}

#[test]
fn pod_entries_are_planned_in_order() {
    assert_eq!(
        plan_pod_entries(&full_scalars()),
        vec![
            PodEntryPlan::Write(PodSetting::PodName, "shop".to_string()),
            PodEntryPlan::Write(PodSetting::ServiceName, "shop-pod".to_string()),
            PodEntryPlan::Write(PodSetting::UserNs, "keep-id".to_string()),
            PodEntryPlan::Write(PodSetting::ShmSize, "64m".to_string()),
            PodEntryPlan::Write(PodSetting::ExitPolicy, "continue".to_string()),
            PodEntryPlan::Write(PodSetting::StopTimeout, "30".to_string()),
        ]
    );
    let mut odd = PodScalars::new();
    odd.service_name = text("shop.service");
    odd.user_namespace = text("keep id");
    odd.shm_size = text("64mb");
    odd.exit_policy = Some(PodExitPolicy::Raw("stop-all".to_string()));
    odd.stop_timeout = text("030");
    assert_eq!(
        plan_pod_entries(&odd),
        vec![
            PodEntryPlan::Unsupported(PodSetting::ServiceName, "pod ServiceName must be a safe unsuffixed service-name stem"),
            PodEntryPlan::Unsupported(PodSetting::UserNs, "pod UserNS requires a safe one-line native token"),
            PodEntryPlan::Unsupported(PodSetting::ShmSize, "pod ShmSize must use the reviewed native grammar"),
            PodEntryPlan::Unsupported(
                PodSetting::ExitPolicy,
                "raw pod ExitPolicy is retained as native evidence and is not synthesized"
            ),
            PodEntryPlan::Unsupported(PodSetting::StopTimeout, "pod StopTimeout requires canonical integral seconds"),
        ]
    );
}

#[test]
fn written_pod_entries_read_back() {
    let scalars = full_scalars();
    let mut read = PodScalars::new();
    let mut seen = Vec::new();
    for step in plan_pod_entries(&scalars) {
        if let PodEntryPlan::Write(setting, value) = step {
            assert_eq!(read_pod_entry(&mut read, &mut seen, setting, &value), PodReading::Exact);
        }
    }
    assert_eq!(read, scalars);
}

#[test]
fn pod_entries_are_read_one_by_one() {
    let mut read = PodScalars::new();
    let mut seen = Vec::new();
    assert_eq!(read_pod_entry(&mut read, &mut seen, PodSetting::ServiceName, "a.service"), PodReading::InvalidServiceName);
    assert_eq!(read_pod_entry(&mut read, &mut seen, PodSetting::ServiceName, "a"), PodReading::Duplicate);
    assert_eq!(read.service_name, None);
    assert_eq!(read_pod_entry(&mut read, &mut seen, PodSetting::ShmSize, "0"), PodReading::Exact);
    assert_eq!(read_pod_entry(&mut read, &mut seen, PodSetting::ExitPolicy, "stop-all"), PodReading::Retained);
    assert_eq!(read.exit_policy, Some(PodExitPolicy::Raw("stop-all".to_string())));
    assert_eq!(read_pod_entry(&mut read, &mut seen, PodSetting::StopTimeout, "1.5"), PodReading::Retained);
    assert_eq!(read.stop_timeout, text("1.5"));
    let mut other = PodScalars::new();
    let mut other_seen = Vec::new();
    assert_eq!(read_pod_entry(&mut other, &mut other_seen, PodSetting::ShmSize, "00m"), PodReading::Retained);
    assert_eq!(other.shm_size, text("00m"));
    assert_eq!(
        PodReading::Duplicate.reason(PodSetting::PodName),
        Some("Quadlet PodName is declared more than once")
    );
    assert_eq!(
        PodReading::Duplicate.reason(PodSetting::UserNs),
        Some("Quadlet singleton pod key is declared more than once")
    );
    assert_eq!(
        PodReading::Retained.reason(PodSetting::ShmSize),
        Some("pod shared-memory size is retained but outside the reviewed grammar")
    );
    assert_eq!(PodReading::Exact.reason(PodSetting::ShmSize), None);
}

#[test]
fn the_host_network_conflicts_with_published_ports() {
    let networks = vec!["frontend".to_string(), "host".to_string()];
    assert!(host_network_conflict(&networks, 1));
    assert!(!host_network_conflict(&networks, 0));
    assert!(!host_network_conflict(&["frontend".to_string()], 2));
    assert!(!host_network_conflict(&[], 2));
}
