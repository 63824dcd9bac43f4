use boxferry_quadlet::capability::{gate_volume_step, plan_volume_unit, volume_capability, CapabilitySupport, VolumeUnitStep};
use boxferry_quadlet::target::{PodmanRelease, TargetRange};
use boxferry_quadlet::volume::{plan_volume_entries, VolumeEntryPlan, VolumeSetting, VolumeSettings};
use boxferry_quadlet::QuadletExporter;

#[test]
fn writes_are_gated_by_capability_support() {
    let write = VolumeEntryPlan::Write(VolumeSetting::Driver, "local".to_string());
    assert_eq!(
        gate_volume_step(&write, CapabilitySupport::Native),
        VolumeUnitStep::Write { setting: VolumeSetting::Driver, value: "local".to_string(), deprecated: false }
    );
    assert_eq!(
        gate_volume_step(&write, CapabilitySupport::Deprecated),
        VolumeUnitStep::Write { setting: VolumeSetting::Driver, value: "local".to_string(), deprecated: true }
    );
    assert_eq!(
        gate_volume_step(&write, CapabilitySupport::Unavailable),
        VolumeUnitStep::Refused {
            setting: VolumeSetting::Driver,
            capability: "quadlet.volume.driver",
            reason: "required Quadlet capability does not cover the complete target range",
        }
    );
    let unsupported = VolumeEntryPlan::Unsupported(VolumeSetting::Driver, "why");
    assert_eq!(
        gate_volume_step(&unsupported, CapabilitySupport::Unavailable),
        VolumeUnitStep::Planned(unsupported.clone())
    );
    assert_eq!(volume_capability(VolumeSetting::ServiceName), "quadlet.volume.service-name");
}

#[test]
fn volume_units_are_planned_against_the_catalogue() {
    let exporter = QuadletExporter::new().unwrap();
    let target = TargetRange { minimum: PodmanRelease { major: 5, minor: 0, patch: 0 }, maximum: None };
    let mut settings = VolumeSettings::new();
    settings.driver = Some("local".to_string());
    let plan = plan_volume_entries("data", &settings, false);
    let steps = plan_volume_unit("data", &settings, false, exporter.catalogue(), &target);
    assert_eq!(steps.len(), plan.len());
    for (step, planned) in steps.iter().zip(plan.iter()) {
        match (step, planned) {
            (VolumeUnitStep::Write { setting, value, .. }, VolumeEntryPlan::Write(s, v)) => {
                assert_eq!((setting, value), (s, v));
            }
            (VolumeUnitStep::Refused { setting, .. }, VolumeEntryPlan::Write(s, _)) => assert_eq!(setting, s),
            (VolumeUnitStep::Planned(p), q) => assert_eq!(p, q),
            _ => panic!("a step does not follow its plan"),
        }
    }
}
