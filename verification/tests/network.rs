use boxferry_quadlet::ipam::{IpamIssue, IpamRow};
use boxferry_quadlet::network::{
    plan_network_entries, NetworkEntryPlan, NetworkReader, NetworkReading, NetworkSetting, NetworkSettings,
};

fn pairs(values: &[(&str, &str)]) -> Vec<(String, String)> {
    values.iter().map(|(name, value)| (name.to_string(), value.to_string())).collect()
}

fn full_settings() -> NetworkSettings {
    let mut settings = NetworkSettings::new();
    settings.driver = Some("bridge".to_string());
    settings.driver_options = Some(pairs(&[("mtu", "1400"), ("isolate", "true")]));
    settings.labels = Some(pairs(&[("app", "web"), ("empty", "")]));
    settings.internal = Some(true);
    settings.ipv6 = Some(false);
    settings.ipam_driver = Some("host-local".to_string());
    settings.ipam_rows = Some(vec![IpamRow {
        subnet: "10.89.0.0/24".to_string(),
        gateway: Some("10.89.0.1".to_string()),
        ip_range: None,
    }]);
    settings
}

fn read_back(plan: &[NetworkEntryPlan]) -> (NetworkSettings, Option<IpamIssue>) {
    let mut reader = NetworkReader::new();
    for step in plan {
        if let NetworkEntryPlan::Write(setting, value) = step {
            let reading = reader.read(*setting, value, value);
            assert!(reading == NetworkReading::Exact || reading == NetworkReading::Gathered);
        }
    }
    reader.finish()
}

#[test]
fn network_units_are_planned_in_order() {
    assert_eq!(
        plan_network_entries("backend", &full_settings()),
        vec![
            NetworkEntryPlan::Write(NetworkSetting::NetworkName, "backend".to_string()),
            NetworkEntryPlan::Write(NetworkSetting::Driver, "bridge".to_string()),
            NetworkEntryPlan::Write(NetworkSetting::Options, "mtu=1400".to_string()),
            NetworkEntryPlan::Write(NetworkSetting::Options, "isolate=true".to_string()),
            NetworkEntryPlan::Write(NetworkSetting::Label, "app=web".to_string()),
            NetworkEntryPlan::Write(NetworkSetting::Label, "empty=".to_string()),
            NetworkEntryPlan::Write(NetworkSetting::Internal, "true".to_string()),
            NetworkEntryPlan::Write(NetworkSetting::Ipv6, "false".to_string()),
            NetworkEntryPlan::Write(NetworkSetting::IpamDriver, "host-local".to_string()),
            NetworkEntryPlan::Write(NetworkSetting::Subnet, "10.89.0.0/24".to_string()),
            NetworkEntryPlan::Write(NetworkSetting::Gateway, "10.89.0.1".to_string()),
        ]
    );
}

#[test]
fn written_networks_read_back() {
    let settings = full_settings();
    let (read, issue) = read_back(&plan_network_entries("backend", &settings));
    let mut expected = settings;
    expected.runtime_name = Some("backend".to_string());
    assert_eq!(read, expected);
    assert_eq!(issue, None);
}

#[test]
fn an_unsafe_network_name_writes_nothing_else() {
    let mut settings = full_settings();
    settings.runtime_name = Some("two words".to_string());
    assert_eq!(
        plan_network_entries("backend", &settings),
        vec![NetworkEntryPlan::Unsupported(
            NetworkSetting::NetworkName,
            "NetworkName must be an unquoted systemd-safe network name"
        )]
    );
}

#[test]
fn unsafe_network_settings_are_reported() {
    let mut settings = NetworkSettings::new();
    settings.driver = Some("a b".to_string());
    settings.driver_options = Some(Vec::new());
    settings.labels = Some(pairs(&[("bad name!", "x")]));
    settings.ipam_rows = Some(Vec::new());
    assert_eq!(
        plan_network_entries("net", &settings),
        vec![
            NetworkEntryPlan::Write(NetworkSetting::NetworkName, "net".to_string()),
            NetworkEntryPlan::Unsupported(NetworkSetting::Driver, "network driver must be an unquoted systemd-safe scalar"),
            NetworkEntryPlan::Unsupported(
                NetworkSetting::Options,
                "an explicit empty network option collection has no safe Quadlet reset encoding"
            ),
            NetworkEntryPlan::Unsupported(
                NetworkSetting::Label,
                "network label must use an unambiguous systemd-safe NAME=VALUE spelling"
            ),
            NetworkEntryPlan::Unsupported(
                NetworkSetting::Subnet,
                "an explicit empty IPAM collection has no safe Quadlet reset encoding"
            ),
        ]
    );
}

#[test]
fn network_entries_are_read_one_by_one() {
    let mut reader = NetworkReader::new();
    assert_eq!(reader.read(NetworkSetting::Driver, "\"bridge\"", "bridge"), NetworkReading::NeedsDecoding);
    assert_eq!(reader.read(NetworkSetting::Driver, "bridge", "bridge"), NetworkReading::Duplicate);
    assert_eq!(reader.read(NetworkSetting::NetworkName, "a%b", "a%b"), NetworkReading::NeedsDecoding);
    assert_eq!(reader.read(NetworkSetting::Internal, "yes", "yes"), NetworkReading::InvalidBool);
    assert_eq!(reader.read(NetworkSetting::Options, "mtu=1400", "mtu=1400"), NetworkReading::Exact);
    assert_eq!(reader.read(NetworkSetting::Options, "mtu=1500", "mtu=1500"), NetworkReading::DuplicateOption);
    assert_eq!(reader.read(NetworkSetting::Options, "novalue", "novalue"), NetworkReading::BadOption);
    assert_eq!(reader.read(NetworkSetting::Options, "", ""), NetworkReading::OptionsReset);
    assert_eq!(reader.read(NetworkSetting::Options, "mtu=1500", "mtu=1500"), NetworkReading::Exact);
    assert_eq!(reader.read(NetworkSetting::Label, "a=b", "a=b"), NetworkReading::Exact);
    assert_eq!(reader.read(NetworkSetting::Label, "a=c", "a=c"), NetworkReading::DuplicateLabel);
    assert_eq!(reader.read(NetworkSetting::Label, "=c", "=c"), NetworkReading::BadLabel);
    assert_eq!(reader.read(NetworkSetting::Subnet, "", ""), NetworkReading::Gathered);
    let (settings, issue) = reader.finish();
    assert_eq!(settings.driver, None);
    assert_eq!(settings.driver_options, Some(pairs(&[("mtu", "1500")])));
    assert_eq!(settings.labels, Some(pairs(&[("a", "b")])));
    assert_eq!(settings.ipam_rows, Some(Vec::new()));
    assert_eq!(issue, Some(IpamIssue::EmptyColumn { all_empty: true }));
    assert_eq!(
        NetworkReading::UnsafeScalar.reason(NetworkSetting::Driver),
        Some("Driver requires an unquoted systemd-safe scalar")
    );
    assert_eq!(
        NetworkReading::DuplicateOption.reason(NetworkSetting::Options),
        Some("duplicate network option names are collapsed by native processing and cannot be imported exactly")
    );
    assert_eq!(NetworkReading::Gathered.reason(NetworkSetting::Subnet), None);
}
