use boxferry_quadlet::volume::{
    plan_volume_entries, read_volume_entry, VolumeEntryPlan, VolumeImage, VolumeReading, VolumeSetting, VolumeSettings,
};

fn text(value: &str) -> Option<String> {
    Some(value.to_string())
}

fn full_settings() -> VolumeSettings {
    let mut settings = VolumeSettings::new();
    settings.driver = text("local");
    settings.device = text("/srv/data");
    settings.volume_type = text("bind");
    settings.options = text("rbind");
    settings.copy = Some(false);
    settings.labels = Some(vec![("app".to_string(), "web".to_string()), ("tier".to_string(), String::new())]);
    settings.global_args = Some(vec!["--log-level=debug".to_string()]);
    settings.uid = text("1000");
    settings.gid = text("100");
    settings.image = Some(VolumeImage::Build("base".to_string()));
    settings
}

fn written(plan: &[VolumeEntryPlan]) -> Vec<(VolumeSetting, String)> {
    plan.iter()
        .filter_map(|step| match step {
            VolumeEntryPlan::Write(setting, value) => Some((*setting, value.clone())),
            _ => None,
        })
        .collect()
}

#[test]
fn volume_units_are_planned_in_order() {
    let plan = plan_volume_entries("data", &full_settings(), false);
    assert_eq!(
        plan,
        vec![
            VolumeEntryPlan::Write(VolumeSetting::VolumeName, "data".to_string()),
            VolumeEntryPlan::Write(VolumeSetting::Driver, "local".to_string()),
            VolumeEntryPlan::Write(VolumeSetting::Device, "/srv/data".to_string()),
            VolumeEntryPlan::Write(VolumeSetting::Type, "bind".to_string()),
            VolumeEntryPlan::Write(VolumeSetting::Options, "rbind".to_string()),
            VolumeEntryPlan::Write(VolumeSetting::Uid, "1000".to_string()),
            VolumeEntryPlan::Write(VolumeSetting::Gid, "100".to_string()),
            VolumeEntryPlan::Write(VolumeSetting::Copy, "false".to_string()),
            VolumeEntryPlan::Write(VolumeSetting::Label, "app=web".to_string()),
            VolumeEntryPlan::Write(VolumeSetting::Label, "tier=".to_string()),
            VolumeEntryPlan::Write(VolumeSetting::GlobalArgs, "--log-level=debug".to_string()),
            VolumeEntryPlan::Unsupported(
                VolumeSetting::Image,
                "Image ignores Copy; the conflict is retained rather than claimed exact"
            ),
            VolumeEntryPlan::Write(VolumeSetting::Image, "base.build".to_string()),
        ]
    );
}

#[test]
fn written_volumes_read_back() {
    let settings = full_settings();
    let mut read = VolumeSettings::new();
    let mut seen = Vec::new();
    for (setting, value) in written(&plan_volume_entries("data", &settings, false)) {
        assert_eq!(read_volume_entry(&mut read, &mut seen, setting, &value), VolumeReading::Exact);
    }
    let mut expected = settings;
    expected.runtime_name = text("data");
    assert_eq!(read, expected);
}

#[test]
fn unsafe_or_unsupported_volume_settings_are_reported() {
    let mut settings = VolumeSettings::new();
    settings.runtime_name = text("shared");
    settings.driver = text("has space");
    settings.volume_type = text("tmpfs");
    settings.options = text("size=1g");
    settings.uid = text("-1");
    settings.labels = Some(Vec::new());
    settings.podman_args = Some(vec!["ok".to_string(), "100%".to_string()]);
    assert!(settings.type_without_device());
    assert_eq!(
        plan_volume_entries("data", &settings, true),
        vec![
            VolumeEntryPlan::Write(VolumeSetting::VolumeName, "shared".to_string()),
            VolumeEntryPlan::Unsupported(VolumeSetting::Driver, "volume value requires an unquoted systemd-safe scalar"),
            VolumeEntryPlan::Write(VolumeSetting::Type, "tmpfs".to_string()),
            VolumeEntryPlan::Unsupported(
                VolumeSetting::Options,
                "Options without Device is only evidenced for target ranges beginning at Podman 6.0"
            ),
            VolumeEntryPlan::Unsupported(
                VolumeSetting::Uid,
                "only reviewed canonical numeric identity spellings can be emitted"
            ),
            VolumeEntryPlan::Invalid(VolumeSetting::Type, "Volume Type requires Device"),
            VolumeEntryPlan::Unsupported(
                VolumeSetting::Label,
                "an explicit empty volume label collection has no safe Quadlet reset encoding"
            ),
            VolumeEntryPlan::Write(VolumeSetting::PodmanArgs, "ok".to_string()),
            VolumeEntryPlan::Unsupported(
                VolumeSetting::PodmanArgs,
                "protected raw volume arguments are retained but only safe physical forms can be regenerated"
            ),
        ]
    );
    let plan = plan_volume_entries("data", &settings, false);
    assert_eq!(plan[3], VolumeEntryPlan::Write(VolumeSetting::Options, "size=1g".to_string()));
}

#[test]
fn volume_entries_are_read_one_by_one() {
    let mut read = VolumeSettings::new();
    let mut seen = Vec::new();
    assert_eq!(read_volume_entry(&mut read, &mut seen, VolumeSetting::Copy, "yes"), VolumeReading::InvalidCopy);
    assert_eq!(read.copy, None);
    assert_eq!(read_volume_entry(&mut read, &mut seen, VolumeSetting::Copy, "true"), VolumeReading::Duplicate);
    assert_eq!(read.copy, None);
    assert_eq!(read_volume_entry(&mut read, &mut seen, VolumeSetting::Driver, "local"), VolumeReading::Exact);
    assert_eq!(read_volume_entry(&mut read, &mut seen, VolumeSetting::Driver, "other"), VolumeReading::Duplicate);
    assert_eq!(read.driver, Some("local".to_string()));
    assert_eq!(read_volume_entry(&mut read, &mut seen, VolumeSetting::Label, "a=b"), VolumeReading::Exact);
    assert_eq!(read_volume_entry(&mut read, &mut seen, VolumeSetting::Label, "not a label"), VolumeReading::BadLabel);
    assert_eq!(read.labels, Some(vec![("a".to_string(), "b".to_string())]));
    assert_eq!(read_volume_entry(&mut read, &mut seen, VolumeSetting::Label, ""), VolumeReading::LabelsReset);
    assert_eq!(read.labels, Some(Vec::new()));
    assert_eq!(read_volume_entry(&mut read, &mut seen, VolumeSetting::PodmanArgs, "--x"), VolumeReading::Exact);
    assert_eq!(read_volume_entry(&mut read, &mut seen, VolumeSetting::PodmanArgs, ""), VolumeReading::ListReset);
    assert_eq!(read.podman_args, Some(Vec::new()));
    assert_eq!(read_volume_entry(&mut read, &mut seen, VolumeSetting::Image, "web.image"), VolumeReading::Exact);
    assert_eq!(read.image, Some(VolumeImage::Acquisition("web".to_string())));
    let mut other = VolumeSettings::new();
    let mut other_seen = Vec::new();
    read_volume_entry(&mut other, &mut other_seen, VolumeSetting::Image, "quay.io/org/image:1");
    assert_eq!(other.image, Some(VolumeImage::Literal("quay.io/org/image:1".to_string())));
    assert_eq!(VolumeReading::Duplicate.reason(), Some("Quadlet volume singleton is declared more than once"));
    assert_eq!(VolumeReading::BadLabel.reason(), Some("Label requires one safe NAME=VALUE assignment"));
    assert_eq!(VolumeReading::Exact.reason(), None);
}
