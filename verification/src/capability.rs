//! Capability gating: each entry a plan writes is written only when the capability catalogue
//! supports its Quadlet capability over the whole target range.

use vstd::prelude::*;
use quadlet_lens::capability::{CapabilityCatalogue, PodmanTarget, PodmanVersion, SupportClassification};
use crate::target::{release_before, TargetRange};
use crate::volume::{plan_view, plan_volume_entries, volume_plan, PlanModel, VolumeEntryPlan, VolumeSetting, VolumeSettings};

verus! {

broadcast use vstd::string::group_string_axioms;

/// How the catalogue supports one capability over a target range.
#[derive(Clone, Copy, Debug, PartialEq, Eq, Structural)]
pub enum CapabilitySupport {
    /// Direct Quadlet support covers the range.
    Native,
    /// Support covers the range but is deprecated in part of it.
    Deprecated,
    /// No direct support covers the whole range: a fallback, removal, no representation, missing
    /// evidence, or a known broken range.
    Unavailable,
}

/// A target range whose maximum, if any, does not come before its minimum.
pub open spec fn ordered_target(target: TargetRange) -> bool {
    target.maximum matches Some(m) ==> !release_before(m, target.minimum)
}

/// Evaluates `capability` over `target` with `CapabilityCatalogue::evaluate` and its
/// classification, on the range `PodmanTarget::new` builds from the target's releases.
///
/// The range is built for every ordered target (the crate refuses only an inverted one, and its
/// versions order as releases do), so a classification always comes back; which one rests on
/// the loaded catalogue data and is not claimed.
#[verifier::external_body]
fn evaluate_capability(catalogue: &CapabilityCatalogue, capability: &str, target: &TargetRange) -> (support: Option<
    CapabilitySupport,
>)
    requires
        ordered_target(*target),
    ensures
        support is Some,
{
    let minimum = PodmanVersion::new(target.minimum.major, target.minimum.minor, target.minimum.patch);
    let maximum = target.maximum.map(|m| PodmanVersion::new(m.major, m.minor, m.patch));
    let Ok(range) = PodmanTarget::new(minimum, maximum) else { return None };
    Some(match catalogue.evaluate(capability, range).classification() {
        SupportClassification::Native => CapabilitySupport::Native,
        SupportClassification::Deprecated => CapabilitySupport::Deprecated,
        _ => CapabilitySupport::Unavailable,
    })
}

/// The reason a write is refused for want of a capability.
pub open spec fn capability_loss() -> Seq<char> {
    "required Quadlet capability does not cover the complete target range"@
}

/// The capability each volume entry needs.
pub open spec fn volume_capability_spec(setting: VolumeSetting) -> Seq<char> {
    match setting {
        VolumeSetting::VolumeName => "quadlet.volume.name"@,
        VolumeSetting::Driver => "quadlet.volume.driver"@,
        VolumeSetting::Options => "quadlet.volume.options"@,
        VolumeSetting::Label => "quadlet.volume.label"@,
        VolumeSetting::Device => "quadlet.volume.device"@,
        VolumeSetting::Type => "quadlet.volume.type"@,
        VolumeSetting::Copy => "quadlet.volume.copy"@,
        VolumeSetting::ContainersConfModule => "quadlet.volume.containers-conf-module"@,
        VolumeSetting::GlobalArgs => "quadlet.volume.global-args"@,
        VolumeSetting::PodmanArgs => "quadlet.volume.podman-args"@,
        VolumeSetting::User => "quadlet.volume.user"@,
        VolumeSetting::Group => "quadlet.volume.group"@,
        VolumeSetting::Uid => "quadlet.volume.uid"@,
        VolumeSetting::Gid => "quadlet.volume.gid"@,
        VolumeSetting::ServiceName => "quadlet.volume.service-name"@,
        VolumeSetting::Image => "quadlet.volume.image"@,
    }
}

/// The capability a volume entry needs.
pub fn volume_capability(setting: VolumeSetting) -> (capability: &'static str)
    ensures
        capability@ == volume_capability_spec(setting),
{
    match setting {
        VolumeSetting::VolumeName => "quadlet.volume.name",
        VolumeSetting::Driver => "quadlet.volume.driver",
        VolumeSetting::Options => "quadlet.volume.options",
        VolumeSetting::Label => "quadlet.volume.label",
        VolumeSetting::Device => "quadlet.volume.device",
        VolumeSetting::Type => "quadlet.volume.type",
        VolumeSetting::Copy => "quadlet.volume.copy",
        VolumeSetting::ContainersConfModule => "quadlet.volume.containers-conf-module",
        VolumeSetting::GlobalArgs => "quadlet.volume.global-args",
        VolumeSetting::PodmanArgs => "quadlet.volume.podman-args",
        VolumeSetting::User => "quadlet.volume.user",
        VolumeSetting::Group => "quadlet.volume.group",
        VolumeSetting::Uid => "quadlet.volume.uid",
        VolumeSetting::Gid => "quadlet.volume.gid",
        VolumeSetting::ServiceName => "quadlet.volume.service-name",
        VolumeSetting::Image => "quadlet.volume.image",
    }
}

/// One step of writing a volume unit once capabilities are consulted.
#[derive(Clone, Debug, PartialEq, Eq)]
pub enum VolumeUnitStep {
    /// The entry is written; `deprecated` when its capability is deprecated in part of the range.
    Write { setting: VolumeSetting, value: String, deprecated: bool },
    /// The entry is not written: its capability does not cover the whole range.
    Refused { setting: VolumeSetting, capability: &'static str, reason: &'static str },
    /// A step that writes nothing, as planned.
    Planned(VolumeEntryPlan),
}

/// Mathematical model of a [`VolumeUnitStep`].
pub enum UnitStepModel {
    Write { setting: VolumeSetting, value: Seq<char>, deprecated: bool },
    Refused { setting: VolumeSetting, capability: Seq<char>, reason: Seq<char> },
    Planned(PlanModel),
}

impl View for VolumeUnitStep {
    type V = UnitStepModel;

    open spec fn view(&self) -> UnitStepModel {
        match self {
            VolumeUnitStep::Write { setting, value, deprecated } => UnitStepModel::Write {
                setting: *setting,
                value: value@,
                deprecated: *deprecated,
            },
            VolumeUnitStep::Refused { setting, capability, reason } => UnitStepModel::Refused {
                setting: *setting,
                capability: capability@,
                reason: reason@,
            },
            VolumeUnitStep::Planned(p) => UnitStepModel::Planned(p@),
        }
    }
}

/// What becomes of planned step `step` when its capability has `support`: a write goes ahead when
/// the capability is native or deprecated, and is refused otherwise; other steps stay.
pub open spec fn gated_step(step: PlanModel, support: CapabilitySupport) -> UnitStepModel {
    match step {
        PlanModel::Write(setting, value) => match support {
            CapabilitySupport::Native => UnitStepModel::Write { setting, value, deprecated: false },
            CapabilitySupport::Deprecated => UnitStepModel::Write { setting, value, deprecated: true },
            CapabilitySupport::Unavailable => UnitStepModel::Refused {
                setting,
                capability: volume_capability_spec(setting),
                reason: capability_loss(),
            },
        },
        _ => UnitStepModel::Planned(step),
    }
}

/// `gated` is planned step `step` gated by some support of its capability.
pub open spec fn gated_by_some_support(gated: UnitStepModel, step: PlanModel) -> bool {
    exists|support: CapabilitySupport| gated == #[trigger] gated_step(step, support)
}

/// Gates one planned step with the support of its capability.
pub fn gate_volume_step(step: &VolumeEntryPlan, support: CapabilitySupport) -> (gated: VolumeUnitStep)
    ensures
        gated@ == gated_step(step@, support),
{
    match step {
        VolumeEntryPlan::Write(setting, value) => match support {
            CapabilitySupport::Native => VolumeUnitStep::Write { setting: *setting, value: value.clone(), deprecated: false },
            CapabilitySupport::Deprecated => VolumeUnitStep::Write {
                setting: *setting,
                value: value.clone(),
                deprecated: true,
            },
            CapabilitySupport::Unavailable => VolumeUnitStep::Refused {
                setting: *setting,
                capability: volume_capability(*setting),
                reason: "required Quadlet capability does not cover the complete target range",
            },
        },
        VolumeEntryPlan::Unsupported(setting, reason) => VolumeUnitStep::Planned(
            VolumeEntryPlan::Unsupported(*setting, *reason),
        ),
        VolumeEntryPlan::Invalid(setting, reason) => VolumeUnitStep::Planned(VolumeEntryPlan::Invalid(*setting, *reason)),
    }
}

/// Plans the entries of volume unit `name` for `settings` (see [`plan_volume_entries`]), and gates each write by the support of its
/// capability in `catalogue` over `target`. Each step is the planned step gated by some support:
/// which support comes back rests on the catalogue data.
pub fn plan_volume_unit(name: &str, settings: &VolumeSettings, options_need_device: bool, catalogue: &CapabilityCatalogue, target: &TargetRange) -> (steps: Vec<
    VolumeUnitStep,
>)
    requires
        ordered_target(*target),
    ensures
        steps@.len() == volume_plan(name@, settings@, options_need_device).len(),
        forall|i: int|
            0 <= i < steps@.len() ==> gated_by_some_support(
                (#[trigger] steps@[i])@,
                volume_plan(name@, settings@, options_need_device)[i],
            ),
{
    let plan = plan_volume_entries(name, settings, options_need_device);
    let ghost planned = plan_view(plan@);
    let mut steps: Vec<VolumeUnitStep> = Vec::new();
    let ghost mut supports: Seq<CapabilitySupport> = Seq::empty();
    let mut i: usize = 0;
    while i < plan.len()
        invariant
            i <= plan@.len(),
            planned == plan_view(plan@),
            planned == volume_plan(name@, settings@, options_need_device),
            ordered_target(*target),
            steps@.len() == i,
            supports.len() == i,
            forall|j: int| 0 <= j < i ==> #[trigger] steps@[j]@ == gated_step(planned[j], supports[j]),
        decreases plan@.len() - i,
    {
        let step = &plan[i];
        assert(step@ == planned[i as int]);
        let support = match step {
            VolumeEntryPlan::Write(setting, _) => match evaluate_capability(catalogue, volume_capability(*setting), target) {
                Some(s) => s,
                None => CapabilitySupport::Unavailable,
            },
            _ => CapabilitySupport::Native,
        };
        let gated = gate_volume_step(step, support);
        steps.push(gated);
        proof {
            supports = supports.push(support);
        }
        i += 1;
    }
    assert forall|j: int| 0 <= j < steps@.len() implies gated_by_some_support(
        (#[trigger] steps@[j])@,
        volume_plan(name@, settings@, options_need_device)[j],
    ) by {
        assert(steps@[j]@ == gated_step(planned[j], supports[j]));
    }
    steps
}

} // verus!
