//! Volume units: the settings of an application-owned volume, the entries written for them, and
//! how a volume unit's entries are read back into settings.

use vstd::prelude::*;
use crate::grammar::{label_name, label_name_chars, safe_network_scalar, safe_network_scalar_chars};
use crate::grammar::{decimal, is_decimal};
use crate::scalar::{bool_spelling, bool_text, ends_with, ends_with_chars, lemma_network_label_reads_back, network_label, parse_network_label};
use crate::text::{chars_of, same_chars, string_from};

verus! {

broadcast use vstd::string::group_string_axioms;

/// The entries of a volume unit.
#[derive(Clone, Copy, Debug, PartialEq, Eq, Structural)]
pub enum VolumeSetting {
    VolumeName,
    Driver,
    Options,
    Label,
    Device,
    Type,
    Copy,
    ContainersConfModule,
    GlobalArgs,
    PodmanArgs,
    User,
    Group,
    Uid,
    Gid,
    ServiceName,
    Image,
}

/// The entries a volume unit may repeat; every other entry is a singleton.
pub open spec fn repeatable(setting: VolumeSetting) -> bool {
    match setting {
        VolumeSetting::Label | VolumeSetting::ContainersConfModule | VolumeSetting::GlobalArgs
        | VolumeSetting::PodmanArgs => true,
        _ => false,
    }
}

/// Whether a volume unit may repeat `setting`.
pub fn volume_setting_repeatable(setting: VolumeSetting) -> (repeats: bool)
    ensures
        repeats == repeatable(setting),
{
    match setting {
        VolumeSetting::Label | VolumeSetting::ContainersConfModule | VolumeSetting::GlobalArgs
        | VolumeSetting::PodmanArgs => true,
        _ => false,
    }
}

/// Where a volume's initial content comes from.
#[derive(Clone, Debug, PartialEq, Eq)]
pub enum VolumeImage {
    /// A literal image reference.
    Literal(String),
    /// The image of the application's image unit of this name (`<name>.image`).
    Acquisition(String),
    /// The image of the application's build unit of this name (`<name>.build`).
    Build(String),
}

/// Mathematical model of a [`VolumeImage`].
pub enum VolumeImageModel {
    Literal(Seq<char>),
    Acquisition(Seq<char>),
    Build(Seq<char>),
}

impl View for VolumeImage {
    type V = VolumeImageModel;

    open spec fn view(&self) -> VolumeImageModel {
        match self {
            VolumeImage::Literal(v) => VolumeImageModel::Literal(v@),
            VolumeImage::Acquisition(n) => VolumeImageModel::Acquisition(n@),
            VolumeImage::Build(n) => VolumeImageModel::Build(n@),
        }
    }
}

/// The settings of an application-owned volume that a volume unit carries. A list that is
/// `Some` but empty was set explicitly empty.
#[derive(Clone, Debug, PartialEq, Eq)]
pub struct VolumeSettings {
    pub runtime_name: Option<String>,
    pub driver: Option<String>,
    pub device: Option<String>,
    pub volume_type: Option<String>,
    pub options: Option<String>,
    pub copy: Option<bool>,
    pub labels: Option<Vec<(String, String)>>,
    pub containers_conf_modules: Option<Vec<String>>,
    pub global_args: Option<Vec<String>>,
    pub podman_args: Option<Vec<String>>,
    pub user: Option<String>,
    pub group: Option<String>,
    pub uid: Option<String>,
    pub gid: Option<String>,
    pub service_name: Option<String>,
    pub image: Option<VolumeImage>,
}

/// Mathematical model of [`VolumeSettings`].
#[verifier::ext_equal]
pub struct VolumeModel {
    pub runtime_name: Option<Seq<char>>,
    pub driver: Option<Seq<char>>,
    pub device: Option<Seq<char>>,
    pub volume_type: Option<Seq<char>>,
    pub options: Option<Seq<char>>,
    pub copy: Option<bool>,
    pub labels: Option<Seq<(Seq<char>, Seq<char>)>>,
    pub containers_conf_modules: Option<Seq<Seq<char>>>,
    pub global_args: Option<Seq<Seq<char>>>,
    pub podman_args: Option<Seq<Seq<char>>>,
    pub user: Option<Seq<char>>,
    pub group: Option<Seq<char>>,
    pub uid: Option<Seq<char>>,
    pub gid: Option<Seq<char>>,
    pub service_name: Option<Seq<char>>,
    pub image: Option<VolumeImageModel>,
}

/// The view of an optional string.
pub open spec fn text_view(value: Option<String>) -> Option<Seq<char>> {
    match value {
        Some(v) => Some(v@),
        None => None,
    }
}

/// The view of an optional list of strings.
pub open spec fn list_view(values: Option<Vec<String>>) -> Option<Seq<Seq<char>>> {
    match values {
        Some(v) => Some(v@.map_values(|s: String| s@)),
        None => None,
    }
}

/// The view of an optional list of labels.
pub open spec fn labels_view(labels: Option<Vec<(String, String)>>) -> Option<Seq<(Seq<char>, Seq<char>)>> {
    match labels {
        Some(v) => Some(v@.map_values(|l: (String, String)| (l.0@, l.1@))),
        None => None,
    }
}

impl View for VolumeSettings {
    type V = VolumeModel;

    open spec fn view(&self) -> VolumeModel {
        VolumeModel {
            runtime_name: text_view(self.runtime_name),
            driver: text_view(self.driver),
            device: text_view(self.device),
            volume_type: text_view(self.volume_type),
            options: text_view(self.options),
            copy: self.copy,
            labels: labels_view(self.labels),
            containers_conf_modules: list_view(self.containers_conf_modules),
            global_args: list_view(self.global_args),
            podman_args: list_view(self.podman_args),
            user: text_view(self.user),
            group: text_view(self.group),
            uid: text_view(self.uid),
            gid: text_view(self.gid),
            service_name: text_view(self.service_name),
            image: match self.image {
                Some(i) => Some(i@),
                None => None,
            },
        }
    }
}

/// No setting made.
pub open spec fn unset_volume() -> VolumeModel {
    VolumeModel {
        runtime_name: None,
        driver: None,
        device: None,
        volume_type: None,
        options: None,
        copy: None,
        labels: None,
        containers_conf_modules: None,
        global_args: None,
        podman_args: None,
        user: None,
        group: None,
        uid: None,
        gid: None,
        service_name: None,
        image: None,
    }
}

impl VolumeSettings {
    /// No setting made.
    pub fn new() -> (settings: Self)
        ensures
            settings@ == unset_volume(),
    {
        VolumeSettings {
            runtime_name: None,
            driver: None,
            device: None,
            volume_type: None,
            options: None,
            copy: None,
            labels: None,
            containers_conf_modules: None,
            global_args: None,
            podman_args: None,
            user: None,
            group: None,
            uid: None,
            gid: None,
            service_name: None,
            image: None,
        }
    }

    /// A type is set without a device, which the local driver cannot mount.
    pub fn type_without_device(&self) -> (missing: bool)
        ensures
            missing == (self.volume_type is Some && self.device is None),
    {
        self.volume_type.is_some() && self.device.is_none()
    }
}

/// The suffix `.image`.
pub open spec fn image_suffix() -> Seq<char> {
    seq!['.', 'i', 'm', 'a', 'g', 'e']
}

/// The suffix `.build`.
pub open spec fn build_suffix() -> Seq<char> {
    seq!['.', 'b', 'u', 'i', 'l', 'd']
}

/// The image source an `Image=` value names: an image unit, a build unit, or a literal
/// reference.
pub open spec fn image_source(value: Seq<char>) -> VolumeImageModel {
    if ends_with(value, image_suffix()) {
        VolumeImageModel::Acquisition(value.take(value.len() - 6))
    } else if ends_with(value, build_suffix()) {
        VolumeImageModel::Build(value.take(value.len() - 6))
    } else {
        VolumeImageModel::Literal(value)
    }
}

/// What reading one volume entry did.
#[derive(Clone, Copy, Debug, PartialEq, Eq, Structural)]
pub enum VolumeReading {
    /// The setting was read exactly.
    Exact,
    /// An empty `Label=` reset the labels.
    LabelsReset,
    /// An empty entry reset its list.
    ListReset,
    /// `Copy=` was neither `true` nor `false`; nothing was set.
    InvalidCopy,
    /// `Label=` was not one safe `NAME=VALUE` assignment; nothing was set.
    BadLabel,
    /// A singleton entry came again; nothing was set.
    Duplicate,
}

impl VolumeReading {
    /// Why the entry does not read exactly; `None` when it does.
    pub fn reason(&self) -> (reason: Option<&'static str>)
        ensures
            match self {
                VolumeReading::Exact => reason is None,
                VolumeReading::LabelsReset => reason matches Some(r) && r@
                    == "an empty Label assignment resets the effective list and cannot be regenerated exactly"@,
                VolumeReading::ListReset => reason matches Some(r) && r@
                    == "an empty assignment reset cannot be regenerated exactly"@,
                VolumeReading::InvalidCopy => reason matches Some(r) && r@ == "Copy must be true or false"@,
                VolumeReading::BadLabel => reason matches Some(r) && r@
                    == "Label requires one safe NAME=VALUE assignment"@,
                VolumeReading::Duplicate => reason matches Some(r) && r@
                    == "Quadlet volume singleton is declared more than once"@,
            },
    {
        match self {
            VolumeReading::Exact => None,
            VolumeReading::LabelsReset => Some(
                "an empty Label assignment resets the effective list and cannot be regenerated exactly",
            ),
            VolumeReading::ListReset => Some("an empty assignment reset cannot be regenerated exactly"),
            VolumeReading::InvalidCopy => Some("Copy must be true or false"),
            VolumeReading::BadLabel => Some("Label requires one safe NAME=VALUE assignment"),
            VolumeReading::Duplicate => Some("Quadlet volume singleton is declared more than once"),
        }
    }
}

/// A list with `value` appended, an unset list counting as empty.
pub open spec fn appended<T>(list: Option<Seq<T>>, value: T) -> Option<Seq<T>> {
    match list {
        Some(l) => Some(l.push(value)),
        None => Some(seq![value]),
    }
}

/// What reading entry `setting` with value `value` makes of the settings `m`, and how it reads.
pub open spec fn volume_after_entry(m: VolumeModel, setting: VolumeSetting, value: Seq<char>) -> (
    VolumeModel,
    VolumeReading,
) {
    match setting {
        VolumeSetting::VolumeName => (VolumeModel { runtime_name: Some(value), ..m }, VolumeReading::Exact),
        VolumeSetting::Driver => (VolumeModel { driver: Some(value), ..m }, VolumeReading::Exact),
        VolumeSetting::Device => (VolumeModel { device: Some(value), ..m }, VolumeReading::Exact),
        VolumeSetting::Type => (VolumeModel { volume_type: Some(value), ..m }, VolumeReading::Exact),
        VolumeSetting::Options => (VolumeModel { options: Some(value), ..m }, VolumeReading::Exact),
        VolumeSetting::User => (VolumeModel { user: Some(value), ..m }, VolumeReading::Exact),
        VolumeSetting::Group => (VolumeModel { group: Some(value), ..m }, VolumeReading::Exact),
        VolumeSetting::Uid => (VolumeModel { uid: Some(value), ..m }, VolumeReading::Exact),
        VolumeSetting::Gid => (VolumeModel { gid: Some(value), ..m }, VolumeReading::Exact),
        VolumeSetting::ServiceName => (VolumeModel { service_name: Some(value), ..m }, VolumeReading::Exact),
        VolumeSetting::Copy => if value == seq!['t', 'r', 'u', 'e'] {
            (VolumeModel { copy: Some(true), ..m }, VolumeReading::Exact)
        } else if value == seq!['f', 'a', 'l', 's', 'e'] {
            (VolumeModel { copy: Some(false), ..m }, VolumeReading::Exact)
        } else {
            (m, VolumeReading::InvalidCopy)
        },
        VolumeSetting::Label => if value.len() == 0 {
            (VolumeModel { labels: Some(Seq::empty()), ..m }, VolumeReading::LabelsReset)
        } else {
            match network_label(value) {
                Some(label) => (VolumeModel { labels: appended(m.labels, label), ..m }, VolumeReading::Exact),
                None => (m, VolumeReading::BadLabel),
            }
        },
        VolumeSetting::ContainersConfModule => if value.len() == 0 {
            (VolumeModel { containers_conf_modules: Some(Seq::empty()), ..m }, VolumeReading::ListReset)
        } else {
            (
                VolumeModel { containers_conf_modules: appended(m.containers_conf_modules, value), ..m },
                VolumeReading::Exact,
            )
        },
        VolumeSetting::GlobalArgs => if value.len() == 0 {
            (VolumeModel { global_args: Some(Seq::empty()), ..m }, VolumeReading::ListReset)
        } else {
            (VolumeModel { global_args: appended(m.global_args, value), ..m }, VolumeReading::Exact)
        },
        VolumeSetting::PodmanArgs => if value.len() == 0 {
            (VolumeModel { podman_args: Some(Seq::empty()), ..m }, VolumeReading::ListReset)
        } else {
            (VolumeModel { podman_args: appended(m.podman_args, value), ..m }, VolumeReading::Exact)
        },
        VolumeSetting::Image => (VolumeModel { image: Some(image_source(value)), ..m }, VolumeReading::Exact),
    }
}

fn push_text(list: &mut Option<Vec<String>>, value: &str)
    ensures
        list_view(*final(list)) == appended(list_view(*old(list)), value@),
{
    let mut values = match list.take() {
        Some(values) => values,
        None => Vec::new(),
    };
    let ghost before = values@.map_values(|s: String| s@);
    values.push(value.to_string());
    assert(values@.map_values(|s: String| s@) =~= before.push(value@));
    proof {
        if *old(list) is None {
            assert(before =~= Seq::<Seq<char>>::empty());
            assert(before.push(value@) =~= seq![value@]);
        }
    }
    *list = Some(values);
}

fn read_image_source(value: &str) -> (image: VolumeImage)
    ensures
        image@ == image_source(value@),
{
    let s = chars_of(value);
    let image = vec!['.', 'i', 'm', 'a', 'g', 'e'];
    let build = vec!['.', 'b', 'u', 'i', 'l', 'd'];
    assert(image@ =~= image_suffix());
    assert(build@ =~= build_suffix());
    if ends_with_chars(s.as_slice(), image.as_slice()) {
        let stem = &s.as_slice()[0..s.len() - 6];
        assert(stem@ =~= value@.take(value@.len() - 6));
        VolumeImage::Acquisition(string_from(stem))
    } else if ends_with_chars(s.as_slice(), build.as_slice()) {
        let stem = &s.as_slice()[0..s.len() - 6];
        assert(stem@ =~= value@.take(value@.len() - 6));
        VolumeImage::Build(string_from(stem))
    } else {
        VolumeImage::Literal(value.to_string())
    }
}

/// Reads entry `setting` of a volume unit, with value `value`, into `settings`. `seen` holds the
/// singleton entries read so far: a singleton that comes again is a duplicate and changes
/// nothing.
pub fn read_volume_entry(
    settings: &mut VolumeSettings,
    seen: &mut Vec<VolumeSetting>,
    setting: VolumeSetting,
    value: &str,
) -> (reading: VolumeReading)
    ensures
        if !repeatable(setting) && old(seen)@.contains(setting) {
            &&& reading == VolumeReading::Duplicate
            &&& final(settings)@ == old(settings)@
            &&& final(seen)@ == old(seen)@
        } else {
            &&& final(seen)@ == if repeatable(setting) {
                old(seen)@
            } else {
                old(seen)@.push(setting)
            }
            &&& final(settings)@ == volume_after_entry(old(settings)@, setting, value@).0
            &&& reading == volume_after_entry(old(settings)@, setting, value@).1
        },
{
    if !volume_setting_repeatable(setting) {
        let mut i: usize = 0;
        while i < seen.len()
            invariant
                i <= seen@.len(),
                !repeatable(setting),
                seen@ == old(seen)@,
                *settings == *old(settings),
                forall|j: int| 0 <= j < i ==> seen@[j] != setting,
            decreases seen@.len() - i,
        {
            if seen[i] == setting {
                assert(seen@[i as int] == setting);
                return VolumeReading::Duplicate;
            }
            i = i + 1;
        }
        seen.push(setting);
    }
    let s = chars_of(value);
    match setting {
        VolumeSetting::VolumeName => {
            settings.runtime_name = Some(value.to_string());
        },
        VolumeSetting::Driver => {
            settings.driver = Some(value.to_string());
        },
        VolumeSetting::Device => {
            settings.device = Some(value.to_string());
        },
        VolumeSetting::Type => {
            settings.volume_type = Some(value.to_string());
        },
        VolumeSetting::Options => {
            settings.options = Some(value.to_string());
        },
        VolumeSetting::User => {
            settings.user = Some(value.to_string());
        },
        VolumeSetting::Group => {
            settings.group = Some(value.to_string());
        },
        VolumeSetting::Uid => {
            settings.uid = Some(value.to_string());
        },
        VolumeSetting::Gid => {
            settings.gid = Some(value.to_string());
        },
        VolumeSetting::ServiceName => {
            settings.service_name = Some(value.to_string());
        },
        VolumeSetting::Copy => {
            let yes = vec!['t', 'r', 'u', 'e'];
            let no = vec!['f', 'a', 'l', 's', 'e'];
            assert(yes@ =~= seq!['t', 'r', 'u', 'e']);
            assert(no@ =~= seq!['f', 'a', 'l', 's', 'e']);
            if same_chars(s.as_slice(), yes.as_slice()) {
                settings.copy = Some(true);
            } else if same_chars(s.as_slice(), no.as_slice()) {
                settings.copy = Some(false);
            } else {
                return VolumeReading::InvalidCopy;
            }
        },
        VolumeSetting::Label => {
            if s.len() == 0 {
                settings.labels = Some(Vec::new());
                assert(labels_view(settings.labels) =~= Some(Seq::<(Seq<char>, Seq<char>)>::empty()));
                return VolumeReading::LabelsReset;
            }
            match parse_network_label(value) {
                Some((name, text)) => {
                    let mut labels = match settings.labels.take() {
                        Some(labels) => labels,
                        None => Vec::new(),
                    };
                    let ghost before = labels@.map_values(|l: (String, String)| (l.0@, l.1@));
                    labels.push((name.to_string(), text.to_string()));
                    assert(labels@.map_values(|l: (String, String)| (l.0@, l.1@)) =~= before.push((name@, text@)));
                    proof {
                        if old(settings).labels is None {
                            assert(before.push((name@, text@)) =~= seq![(name@, text@)]);
                        }
                    }
                    settings.labels = Some(labels);
                },
                None => {
                    return VolumeReading::BadLabel;
                },
            }
        },
        VolumeSetting::ContainersConfModule => {
            if s.len() == 0 {
                settings.containers_conf_modules = Some(Vec::new());
                assert(list_view(settings.containers_conf_modules) =~= Some(Seq::<Seq<char>>::empty()));
                return VolumeReading::ListReset;
            }
            push_text(&mut settings.containers_conf_modules, value);
        },
        VolumeSetting::GlobalArgs => {
            if s.len() == 0 {
                settings.global_args = Some(Vec::new());
                assert(list_view(settings.global_args) =~= Some(Seq::<Seq<char>>::empty()));
                return VolumeReading::ListReset;
            }
            push_text(&mut settings.global_args, value);
        },
        VolumeSetting::PodmanArgs => {
            if s.len() == 0 {
                settings.podman_args = Some(Vec::new());
                assert(list_view(settings.podman_args) =~= Some(Seq::<Seq<char>>::empty()));
                return VolumeReading::ListReset;
            }
            push_text(&mut settings.podman_args, value);
        },
        VolumeSetting::Image => {
            settings.image = Some(read_image_source(value));
        },
    }
    VolumeReading::Exact
}

/// One step of writing a volume unit.
#[derive(Clone, Debug, PartialEq, Eq)]
pub enum VolumeEntryPlan {
    /// The entry is written.
    Write(VolumeSetting, String),
    /// The setting is not carried exactly, for this reason.
    Unsupported(VolumeSetting, &'static str),
    /// The settings are invalid, for this reason.
    Invalid(VolumeSetting, &'static str),
}

/// Mathematical model of a [`VolumeEntryPlan`].
pub enum PlanModel {
    Write(VolumeSetting, Seq<char>),
    Unsupported(VolumeSetting, Seq<char>),
    Invalid(VolumeSetting, Seq<char>),
}

impl View for VolumeEntryPlan {
    type V = PlanModel;

    open spec fn view(&self) -> PlanModel {
        match self {
            VolumeEntryPlan::Write(setting, value) => PlanModel::Write(*setting, value@),
            VolumeEntryPlan::Unsupported(setting, reason) => PlanModel::Unsupported(*setting, reason@),
            VolumeEntryPlan::Invalid(setting, reason) => PlanModel::Invalid(*setting, reason@),
        }
    }
}

/// The views of a plan.
pub open spec fn plan_view(plan: Seq<VolumeEntryPlan>) -> Seq<PlanModel> {
    plan.map_values(|p: VolumeEntryPlan| p@)
}

/// A scalar setting, written when it is a non-empty systemd-safe scalar.
pub open spec fn scalar_plan(setting: VolumeSetting, value: Option<Seq<char>>) -> Seq<PlanModel> {
    match value {
        None => Seq::empty(),
        Some(v) => if safe_network_scalar(v, false) {
            seq![PlanModel::Write(setting, v)]
        } else {
            seq![PlanModel::Unsupported(setting, "volume value requires an unquoted systemd-safe scalar"@)]
        },
    }
}

/// The options, which need a device on targets before Podman 6.0.
pub open spec fn options_plan(m: VolumeModel, options_need_device: bool) -> Seq<PlanModel> {
    match m.options {
        None => Seq::empty(),
        Some(v) => if m.device is None && options_need_device {
            seq![
                PlanModel::Unsupported(
                    VolumeSetting::Options,
                    "Options without Device is only evidenced for target ranges beginning at Podman 6.0"@,
                ),
            ]
        } else {
            scalar_plan(VolumeSetting::Options, m.options)
        },
    }
}

/// A numeric identity, written when it is a canonical decimal.
pub open spec fn identity_plan(setting: VolumeSetting, value: Option<Seq<char>>) -> Seq<PlanModel> {
    match value {
        None => Seq::empty(),
        Some(v) => if decimal(v) {
            seq![PlanModel::Write(setting, v)]
        } else {
            seq![
                PlanModel::Unsupported(setting, "only reviewed canonical numeric identity spellings can be emitted"@),
            ]
        },
    }
}

/// The text of a label entry, `NAME=VALUE`.
pub open spec fn label_text(label: (Seq<char>, Seq<char>)) -> Seq<char> {
    label.0 + seq!['='] + label.1
}

/// The first `k` labels, each written when its name is a label name and its value a safe
/// scalar.
pub open spec fn label_items(labels: Seq<(Seq<char>, Seq<char>)>) -> Seq<PlanModel>
    decreases labels.len(),
{
    if labels.len() == 0 {
        Seq::empty()
    } else {
        let label = labels.last();
        label_items(labels.drop_last()) + if label_name(label.0) && safe_network_scalar(label.1, true) {
            seq![PlanModel::Write(VolumeSetting::Label, label_text(label))]
        } else {
            seq![PlanModel::Unsupported(VolumeSetting::Label, "volume label must use a safe NAME=VALUE assignment"@)]
        }
    }
}

/// The labels; an explicit empty list has no entry that writes it.
pub open spec fn labels_plan(labels: Option<Seq<(Seq<char>, Seq<char>)>>) -> Seq<PlanModel> {
    match labels {
        None => Seq::empty(),
        Some(ls) => if ls.len() == 0 {
            seq![
                PlanModel::Unsupported(
                    VolumeSetting::Label,
                    "an explicit empty volume label collection has no safe Quadlet reset encoding"@,
                ),
            ]
        } else {
            label_items(ls)
        },
    }
}

/// The values of a repeated argument list, each written when it is a safe scalar.
pub open spec fn list_items(setting: VolumeSetting, values: Seq<Seq<char>>) -> Seq<PlanModel>
    decreases values.len(),
{
    if values.len() == 0 {
        Seq::empty()
    } else {
        list_items(setting, values.drop_last()) + if safe_network_scalar(values.last(), false) {
            seq![PlanModel::Write(setting, values.last())]
        } else {
            seq![
                PlanModel::Unsupported(
                    setting,
                    "protected raw volume arguments are retained but only safe physical forms can be regenerated"@,
                ),
            ]
        }
    }
}

/// A repeated argument list; an explicit empty list has no entry that writes it.
pub open spec fn list_plan(setting: VolumeSetting, values: Option<Seq<Seq<char>>>) -> Seq<PlanModel> {
    match values {
        None => Seq::empty(),
        Some(vs) => if vs.len() == 0 {
            seq![
                PlanModel::Unsupported(setting, "an explicit empty collection has no safe Quadlet reset encoding"@),
            ]
        } else {
            list_items(setting, vs)
        },
    }
}

/// The text of an `Image=` entry.
pub open spec fn image_text(image: VolumeImageModel) -> Seq<char> {
    match image {
        VolumeImageModel::Literal(v) => v,
        VolumeImageModel::Acquisition(n) => n + image_suffix(),
        VolumeImageModel::Build(n) => n + build_suffix(),
    }
}

/// The image source; a copy setting beside it is ignored by the target, which is noted.
pub open spec fn image_plan(m: VolumeModel) -> Seq<PlanModel> {
    match m.image {
        None => Seq::empty(),
        Some(image) => (if m.copy is Some {
            seq![
                PlanModel::Unsupported(
                    VolumeSetting::Image,
                    "Image ignores Copy; the conflict is retained rather than claimed exact"@,
                ),
            ]
        } else {
            Seq::empty()
        }) + seq![PlanModel::Write(VolumeSetting::Image, image_text(image))],
    }
}

/// The steps of writing the unit of volume `name` with settings `m`: its runtime name (the
/// volume's name unless set), its scalar settings, options, identities, the type-without-device
/// check, copy, labels, argument lists and image source, in that order.
pub open spec fn volume_plan(name: Seq<char>, m: VolumeModel, options_need_device: bool) -> Seq<PlanModel> {
    seq![PlanModel::Write(VolumeSetting::VolumeName, match m.runtime_name {
        Some(r) => r,
        None => name,
    })] + scalar_plan(VolumeSetting::Driver, m.driver) + scalar_plan(VolumeSetting::Device, m.device) + scalar_plan(
        VolumeSetting::Type,
        m.volume_type,
    ) + scalar_plan(VolumeSetting::User, m.user) + scalar_plan(VolumeSetting::Group, m.group) + scalar_plan(
        VolumeSetting::ServiceName,
        m.service_name,
    ) + options_plan(m, options_need_device) + identity_plan(VolumeSetting::Uid, m.uid) + identity_plan(
        VolumeSetting::Gid,
        m.gid,
    ) + checks_and_copy_plan(m) + labels_plan(m.labels) + list_plan(VolumeSetting::ContainersConfModule, m.containers_conf_modules) + list_plan(
        VolumeSetting::GlobalArgs,
        m.global_args,
    ) + list_plan(VolumeSetting::PodmanArgs, m.podman_args) + image_plan(m)
}

fn plan_scalar(plan: &mut Vec<VolumeEntryPlan>, setting: VolumeSetting, value: &Option<String>)
    ensures
        plan_view(final(plan)@) == plan_view(old(plan)@) + scalar_plan(setting, text_view(*value)),
{
    let ghost before = plan_view(plan@);
    match value {
        Some(v) => {
            if safe_network_scalar_chars(chars_of(v.as_str()).as_slice(), false) {
                plan.push(VolumeEntryPlan::Write(setting, v.clone()));
            } else {
                plan.push(VolumeEntryPlan::Unsupported(setting, "volume value requires an unquoted systemd-safe scalar"));
            }
            assert(plan_view(plan@) =~= before + scalar_plan(setting, text_view(*value)));
        },
        None => {
            assert(plan_view(plan@) =~= before + scalar_plan(setting, text_view(*value)));
        },
    }
}

fn plan_identity(plan: &mut Vec<VolumeEntryPlan>, setting: VolumeSetting, value: &Option<String>)
    ensures
        plan_view(final(plan)@) == plan_view(old(plan)@) + identity_plan(setting, text_view(*value)),
{
    let ghost before = plan_view(plan@);
    match value {
        Some(v) => {
            if is_decimal(v.as_str()) {
                plan.push(VolumeEntryPlan::Write(setting, v.clone()));
            } else {
                plan.push(
                    VolumeEntryPlan::Unsupported(setting, "only reviewed canonical numeric identity spellings can be emitted"),
                );
            }
            assert(plan_view(plan@) =~= before + identity_plan(setting, text_view(*value)));
        },
        None => {
            assert(plan_view(plan@) =~= before + identity_plan(setting, text_view(*value)));
        },
    }
}

fn plan_list(plan: &mut Vec<VolumeEntryPlan>, setting: VolumeSetting, values: &Option<Vec<String>>)
    ensures
        plan_view(final(plan)@) == plan_view(old(plan)@) + list_plan(setting, list_view(*values)),
{
    let ghost before = plan_view(plan@);
    match values {
        None => {
            assert(plan_view(plan@) =~= before + list_plan(setting, list_view(*values)));
        },
        Some(vs) => {
            let ghost all = vs@.map_values(|s: String| s@);
            if vs.len() == 0 {
                plan.push(
                    VolumeEntryPlan::Unsupported(setting, "an explicit empty collection has no safe Quadlet reset encoding"),
                );
                assert(plan_view(plan@) =~= before + list_plan(setting, list_view(*values)));
                return;
            }
            let mut k: usize = 0;
            while k < vs.len()
                invariant
                    k <= vs@.len(),
                    all == vs@.map_values(|s: String| s@),
                    plan_view(plan@) == before + list_items(setting, all.take(k as int)),
                decreases vs@.len() - k,
            {
                assert(all.take(k + 1).drop_last() =~= all.take(k as int));
                assert(all[k as int] == vs@[k as int]@);
                let ghost mid = plan_view(plan@);
                if safe_network_scalar_chars(chars_of(vs[k].as_str()).as_slice(), false) {
                    plan.push(VolumeEntryPlan::Write(setting, vs[k].clone()));
                } else {
                    plan.push(
                        VolumeEntryPlan::Unsupported(
                            setting,
                            "protected raw volume arguments are retained but only safe physical forms can be regenerated",
                        ),
                    );
                }
                assert(all.take(k + 1).last() == all[k as int]);
                let ghost item = if safe_network_scalar(all[k as int], false) {
                    seq![PlanModel::Write(setting, all[k as int])]
                } else {
                    seq![
                        PlanModel::Unsupported(
                            setting,
                            "protected raw volume arguments are retained but only safe physical forms can be regenerated"@,
                        ),
                    ]
                };
                assert(plan_view(plan@) =~= mid + item);
                assert(list_items(setting, all.take(k + 1)) == list_items(setting, all.take(k as int)) + item);
                assert(plan_view(plan@) =~= before + list_items(setting, all.take(k + 1)));
                k = k + 1;
            }
            assert(all.take(vs@.len() as int) =~= all);
        },
    }
}

fn plan_labels(plan: &mut Vec<VolumeEntryPlan>, labels: &Option<Vec<(String, String)>>)
    ensures
        plan_view(final(plan)@) == plan_view(old(plan)@) + labels_plan(labels_view(*labels)),
{
    let ghost before = plan_view(plan@);
    match labels {
        None => {
            assert(plan_view(plan@) =~= before + labels_plan(labels_view(*labels)));
        },
        Some(ls) => {
            let ghost all = ls@.map_values(|l: (String, String)| (l.0@, l.1@));
            if ls.len() == 0 {
                plan.push(
                    VolumeEntryPlan::Unsupported(
                        VolumeSetting::Label,
                        "an explicit empty volume label collection has no safe Quadlet reset encoding",
                    ),
                );
                assert(plan_view(plan@) =~= before + labels_plan(labels_view(*labels)));
                return;
            }
            let mut k: usize = 0;
            while k < ls.len()
                invariant
                    k <= ls@.len(),
                    all == ls@.map_values(|l: (String, String)| (l.0@, l.1@)),
                    plan_view(plan@) == before + label_items(all.take(k as int)),
                decreases ls@.len() - k,
            {
                assert(all.take(k + 1).drop_last() =~= all.take(k as int));
                let ghost mid = plan_view(plan@);
                let (name, text) = &ls[k];
                assert(all[k as int] == (name@, text@));
                if label_name_chars(chars_of(name.as_str()).as_slice()) && safe_network_scalar_chars(
                    chars_of(text.as_str()).as_slice(),
                    true,
                ) {
                    let mut entry = chars_of(name.as_str());
                    entry.push('=');
                    let tail = chars_of(text.as_str());
                    let mut j: usize = 0;
                    while j < tail.len()
                        invariant
                            j <= tail@.len(),
                            entry@ == name@ + seq!['='] + tail@.take(j as int),
                        decreases tail@.len() - j,
                    {
                        entry.push(tail[j]);
                        assert(entry@ =~= name@ + seq!['='] + tail@.take(j + 1));
                        j = j + 1;
                    }
                    assert(tail@.take(tail@.len() as int) =~= text@);
                    plan.push(VolumeEntryPlan::Write(VolumeSetting::Label, string_from(entry.as_slice())));
                } else {
                    plan.push(
                        VolumeEntryPlan::Unsupported(
                            VolumeSetting::Label,
                            "volume label must use a safe NAME=VALUE assignment",
                        ),
                    );
                }
                assert(all.take(k + 1).last() == all[k as int]);
                let ghost label = all[k as int];
                let ghost item = if label_name(label.0) && safe_network_scalar(label.1, true) {
                    seq![PlanModel::Write(VolumeSetting::Label, label_text(label))]
                } else {
                    seq![PlanModel::Unsupported(VolumeSetting::Label, "volume label must use a safe NAME=VALUE assignment"@)]
                };
                assert(plan_view(plan@) =~= mid + item);
                assert(label_items(all.take(k + 1)) == label_items(all.take(k as int)) + item);
                assert(plan_view(plan@) =~= before + label_items(all.take(k + 1)));
                k = k + 1;
            }
            assert(all.take(ls@.len() as int) =~= all);
        },
    }
}

fn suffixed(stem: &str, suffix: &[char]) -> (text: String)
    ensures
        text@ == stem@ + suffix@,
{
    let mut chars = chars_of(stem);
    let mut j: usize = 0;
    while j < suffix.len()
        invariant
            j <= suffix@.len(),
            chars@ == stem@ + suffix@.take(j as int),
        decreases suffix@.len() - j,
    {
        chars.push(suffix[j]);
        assert(chars@ =~= stem@ + suffix@.take(j + 1));
        j = j + 1;
    }
    assert(suffix@.take(suffix@.len() as int) =~= suffix@);
    string_from(chars.as_slice())
}

fn plan_options(plan: &mut Vec<VolumeEntryPlan>, settings: &VolumeSettings, options_need_device: bool)
    ensures
        plan_view(final(plan)@) == plan_view(old(plan)@) + options_plan(settings@, options_need_device),
{
    let ghost before = plan_view(plan@);
    if settings.options.is_some() && settings.device.is_none() && options_need_device {
        plan.push(
            VolumeEntryPlan::Unsupported(
                VolumeSetting::Options,
                "Options without Device is only evidenced for target ranges beginning at Podman 6.0",
            ),
        );
        assert(plan_view(plan@) =~= before + options_plan(settings@, options_need_device));
    } else {
        plan_scalar(plan, VolumeSetting::Options, &settings.options);
    }
}

/// The type-without-device check, then the copy setting.
pub open spec fn checks_and_copy_plan(m: VolumeModel) -> Seq<PlanModel> {
    (if m.volume_type is Some && m.device is None {
        seq![PlanModel::Invalid(VolumeSetting::Type, "Volume Type requires Device"@)]
    } else {
        Seq::empty()
    }) + match m.copy {
        Some(b) => seq![PlanModel::Write(VolumeSetting::Copy, bool_spelling(b))],
        None => Seq::empty(),
    }
}

fn plan_checks_and_copy(plan: &mut Vec<VolumeEntryPlan>, settings: &VolumeSettings)
    ensures
        plan_view(final(plan)@) == plan_view(old(plan)@) + checks_and_copy_plan(settings@),
{
    let ghost before = plan_view(plan@);
    if settings.type_without_device() {
        plan.push(VolumeEntryPlan::Invalid(VolumeSetting::Type, "Volume Type requires Device"));
    }
    let ghost checked = plan_view(plan@);
    assert(checked =~= before + (if settings@.volume_type is Some && settings@.device is None {
        seq![PlanModel::Invalid(VolumeSetting::Type, "Volume Type requires Device"@)]
    } else {
        Seq::empty()
    }));
    match settings.copy {
        Some(b) => {
            let text = bool_text(b).to_string();
            plan.push(VolumeEntryPlan::Write(VolumeSetting::Copy, text));
            assert(plan_view(plan@) =~= checked + seq![PlanModel::Write(VolumeSetting::Copy, bool_spelling(b))]);
        },
        None => {
            assert(plan_view(plan@) =~= checked + Seq::<PlanModel>::empty());
        },
    }
    assert(plan_view(plan@) =~= before + checks_and_copy_plan(settings@));
}

fn plan_image(plan: &mut Vec<VolumeEntryPlan>, settings: &VolumeSettings)
    ensures
        plan_view(final(plan)@) == plan_view(old(plan)@) + image_plan(settings@),
{
    let ghost before = plan_view(plan@);
    match &settings.image {
        Some(image) => {
            if settings.copy.is_some() {
                plan.push(
                    VolumeEntryPlan::Unsupported(
                        VolumeSetting::Image,
                        "Image ignores Copy; the conflict is retained rather than claimed exact",
                    ),
                );
            }
            let text = match image {
                VolumeImage::Literal(v) => v.clone(),
                VolumeImage::Acquisition(n) => {
                    let suffix = vec!['.', 'i', 'm', 'a', 'g', 'e'];
                    assert(suffix@ =~= image_suffix());
                    suffixed(n.as_str(), suffix.as_slice())
                },
                VolumeImage::Build(n) => {
                    let suffix = vec!['.', 'b', 'u', 'i', 'l', 'd'];
                    assert(suffix@ =~= build_suffix());
                    suffixed(n.as_str(), suffix.as_slice())
                },
            };
            plan.push(VolumeEntryPlan::Write(VolumeSetting::Image, text));
        },
        None => {},
    }
    assert(plan_view(plan@) =~= before + image_plan(settings@));
}

/// Plans the unit of application-owned volume `name` with `settings`. `options_need_device`
/// when the target range begins before Podman 6.0, where options are only evidenced with a
/// device.
pub fn plan_volume_entries(name: &str, settings: &VolumeSettings, options_need_device: bool) -> (plan: Vec<
    VolumeEntryPlan,
>)
    ensures
        plan_view(plan@) == volume_plan(name@, settings@, options_need_device),
{
    let ghost m = settings@;
    let mut plan: Vec<VolumeEntryPlan> = Vec::new();
    let runtime = match &settings.runtime_name {
        Some(r) => r.clone(),
        None => name.to_string(),
    };
    plan.push(VolumeEntryPlan::Write(VolumeSetting::VolumeName, runtime));
    plan_scalar(&mut plan, VolumeSetting::Driver, &settings.driver);
    plan_scalar(&mut plan, VolumeSetting::Device, &settings.device);
    plan_scalar(&mut plan, VolumeSetting::Type, &settings.volume_type);
    plan_scalar(&mut plan, VolumeSetting::User, &settings.user);
    plan_scalar(&mut plan, VolumeSetting::Group, &settings.group);
    plan_scalar(&mut plan, VolumeSetting::ServiceName, &settings.service_name);
    plan_options(&mut plan, settings, options_need_device);
    plan_identity(&mut plan, VolumeSetting::Uid, &settings.uid);
    plan_identity(&mut plan, VolumeSetting::Gid, &settings.gid);
    plan_checks_and_copy(&mut plan, settings);
    plan_labels(&mut plan, &settings.labels);
    plan_list(&mut plan, VolumeSetting::ContainersConfModule, &settings.containers_conf_modules);
    plan_list(&mut plan, VolumeSetting::GlobalArgs, &settings.global_args);
    plan_list(&mut plan, VolumeSetting::PodmanArgs, &settings.podman_args);
    plan_image(&mut plan, settings);
    plan
}

/// The entries a plan writes, in order.
pub open spec fn written_entries(plan: Seq<PlanModel>) -> Seq<(VolumeSetting, Seq<char>)>
    decreases plan.len(),
{
    if plan.len() == 0 {
        Seq::empty()
    } else {
        written_entries(plan.drop_last()) + match plan.last() {
            PlanModel::Write(setting, value) => seq![(setting, value)],
            _ => Seq::empty(),
        }
    }
}

/// The settings and the singletons seen after reading `entries` in order from `m` and `seen`,
/// as [`read_volume_entry`] reads each.
pub open spec fn read_entries(m: VolumeModel, seen: Seq<VolumeSetting>, entries: Seq<(VolumeSetting, Seq<char>)>) -> (
    VolumeModel,
    Seq<VolumeSetting>,
)
    decreases entries.len(),
{
    if entries.len() == 0 {
        (m, seen)
    } else {
        let (m1, seen1) = read_entries(m, seen, entries.drop_last());
        let (setting, value) = entries.last();
        if !repeatable(setting) && seen1.contains(setting) {
            (m1, seen1)
        } else {
            (
                volume_after_entry(m1, setting, value).0,
                if repeatable(setting) {
                    seen1
                } else {
                    seen1.push(setting)
                },
            )
        }
    }
}

/// Settings that the unit carries exactly: every scalar is a safe scalar, identities are
/// decimal, options have what they need, labels are safe `NAME=VALUE` pairs, lists are
/// non-empty lists of safe scalars, and a literal image does not end in `.image` or `.build`.
pub open spec fn carried_exactly(m: VolumeModel, options_need_device: bool) -> bool {
    &&& (m.driver matches Some(v) ==> safe_network_scalar(v, false))
    &&& (m.device matches Some(v) ==> safe_network_scalar(v, false))
    &&& (m.volume_type matches Some(v) ==> safe_network_scalar(v, false))
    &&& (m.user matches Some(v) ==> safe_network_scalar(v, false))
    &&& (m.group matches Some(v) ==> safe_network_scalar(v, false))
    &&& (m.service_name matches Some(v) ==> safe_network_scalar(v, false))
    &&& (m.options matches Some(v) ==> safe_network_scalar(v, false) && !(m.device is None && options_need_device))
    &&& (m.uid matches Some(v) ==> decimal(v))
    &&& (m.gid matches Some(v) ==> decimal(v))
    &&& (m.labels matches Some(ls) ==> ls.len() > 0 && forall|i: int|
        0 <= i < ls.len() ==> label_name((#[trigger] ls[i]).0) && safe_network_scalar(ls[i].1, true))
    &&& (m.containers_conf_modules matches Some(vs) ==> vs.len() > 0 && forall|i: int|
        0 <= i < vs.len() ==> safe_network_scalar(#[trigger] vs[i], false))
    &&& (m.global_args matches Some(vs) ==> vs.len() > 0 && forall|i: int|
        0 <= i < vs.len() ==> safe_network_scalar(#[trigger] vs[i], false))
    &&& (m.podman_args matches Some(vs) ==> vs.len() > 0 && forall|i: int|
        0 <= i < vs.len() ==> safe_network_scalar(#[trigger] vs[i], false))
    &&& (m.image matches Some(VolumeImageModel::Literal(v)) ==> !ends_with(v, image_suffix()) && !ends_with(
        v,
        build_suffix(),
    ))
}

proof fn lemma_written_concat(a: Seq<PlanModel>, b: Seq<PlanModel>)
    ensures
        written_entries(a + b) == written_entries(a) + written_entries(b),
    decreases b.len(),
{
    if b.len() == 0 {
        assert(a + b =~= a);
    } else {
        lemma_written_concat(a, b.drop_last());
        assert((a + b).drop_last() =~= a + b.drop_last());
        assert((a + b).last() == b.last());
    }
}

proof fn lemma_read_concat(
    m: VolumeModel,
    seen: Seq<VolumeSetting>,
    a: Seq<(VolumeSetting, Seq<char>)>,
    b: Seq<(VolumeSetting, Seq<char>)>,
)
    ensures
        read_entries(m, seen, a + b) == read_entries(read_entries(m, seen, a).0, read_entries(m, seen, a).1, b),
    decreases b.len(),
{
    if b.len() == 0 {
        assert(a + b =~= a);
    } else {
        lemma_read_concat(m, seen, a, b.drop_last());
        assert((a + b).drop_last() =~= a + b.drop_last());
        assert((a + b).last() == b.last());
    }
}

/// The order in which the plan writes singletons.
spec fn rank(setting: VolumeSetting) -> int {
    match setting {
        VolumeSetting::VolumeName => 0,
        VolumeSetting::Driver => 1,
        VolumeSetting::Device => 2,
        VolumeSetting::Type => 3,
        VolumeSetting::User => 4,
        VolumeSetting::Group => 5,
        VolumeSetting::ServiceName => 6,
        VolumeSetting::Options => 7,
        VolumeSetting::Uid => 8,
        VolumeSetting::Gid => 9,
        VolumeSetting::Copy => 10,
        VolumeSetting::Image => 11,
        _ => 12,
    }
}

/// Every singleton seen comes before `bound`.
spec fn seen_before(seen: Seq<VolumeSetting>, bound: int) -> bool {
    forall|i: int| 0 <= i < seen.len() ==> rank(#[trigger] seen[i]) < bound
}

proof fn lemma_read_single(m: VolumeModel, seen: Seq<VolumeSetting>, setting: VolumeSetting, value: Seq<char>)
    requires
        !repeatable(setting),
        seen_before(seen, rank(setting)),
    ensures
        read_entries(m, seen, seq![(setting, value)]) == (volume_after_entry(m, setting, value).0, seen.push(setting)),
        seen_before(seen.push(setting), rank(setting) + 1),
{
    assert(seq![(setting, value)].drop_last() =~= Seq::<(VolumeSetting, Seq<char>)>::empty());
    reveal_with_fuel(read_entries, 2);
    assert(!seen.contains(setting)) by {
        if seen.contains(setting) {
            let i = choose|i: int| 0 <= i < seen.len() && seen[i] == setting;
            assert(rank(seen[i]) < rank(setting));
        }
    }
}

proof fn lemma_read_scalar(m: VolumeModel, seen: Seq<VolumeSetting>, setting: VolumeSetting, value: Option<Seq<char>>)
    requires
        !repeatable(setting),
        setting != VolumeSetting::Copy,
        seen_before(seen, rank(setting)),
        value matches Some(v) ==> safe_network_scalar(v, false),
    ensures
        ({
            let (m1, seen1) = read_entries(m, seen, written_entries(scalar_plan(setting, value)));
            &&& seen_before(seen1, rank(setting) + 1)
            &&& m1 == match value {
                Some(v) => volume_after_entry(m, setting, v).0,
                None => m,
            }
        }),
{
    reveal_with_fuel(written_entries, 2);
    reveal_with_fuel(read_entries, 2);
    match value {
        Some(v) => {
            assert(scalar_plan(setting, value).drop_last() =~= Seq::<PlanModel>::empty());
            assert(written_entries(scalar_plan(setting, value)) =~= seq![(setting, v)]);
            lemma_read_single(m, seen, setting, v);
        },
        None => {
            assert(written_entries(scalar_plan(setting, value)) =~= Seq::<(VolumeSetting, Seq<char>)>::empty());
            assert forall|i: int| 0 <= i < seen.len() implies rank(#[trigger] seen[i]) < rank(setting) + 1 by {}
        },
    }
}

proof fn lemma_read_identity(m: VolumeModel, seen: Seq<VolumeSetting>, setting: VolumeSetting, value: Option<Seq<char>>)
    requires
        setting == VolumeSetting::Uid || setting == VolumeSetting::Gid,
        seen_before(seen, rank(setting)),
        value matches Some(v) ==> decimal(v),
    ensures
        ({
            let (m1, seen1) = read_entries(m, seen, written_entries(identity_plan(setting, value)));
            &&& seen_before(seen1, rank(setting) + 1)
            &&& m1 == match value {
                Some(v) => volume_after_entry(m, setting, v).0,
                None => m,
            }
        }),
{
    reveal_with_fuel(written_entries, 2);
    reveal_with_fuel(read_entries, 2);
    match value {
        Some(v) => {
            assert(identity_plan(setting, value).drop_last() =~= Seq::<PlanModel>::empty());
            assert(written_entries(identity_plan(setting, value)) =~= seq![(setting, v)]);
            lemma_read_single(m, seen, setting, v);
        },
        None => {
            assert(written_entries(identity_plan(setting, value)) =~= Seq::<(VolumeSetting, Seq<char>)>::empty());
        },
    }
}

/// Appends `values` to an optional list, an unset list counting as empty; appending nothing
/// leaves it as it was.
pub open spec fn extended<T>(list: Option<Seq<T>>, values: Seq<T>) -> Option<Seq<T>> {
    if values.len() == 0 {
        list
    } else {
        match list {
            Some(l) => Some(l + values),
            None => Some(values),
        }
    }
}

/// The list of `setting` in `m`.
spec fn list_of(m: VolumeModel, setting: VolumeSetting) -> Option<Seq<Seq<char>>> {
    match setting {
        VolumeSetting::ContainersConfModule => m.containers_conf_modules,
        VolumeSetting::GlobalArgs => m.global_args,
        _ => m.podman_args,
    }
}

/// `m` with the list of `setting` replaced.
spec fn with_list(m: VolumeModel, setting: VolumeSetting, list: Option<Seq<Seq<char>>>) -> VolumeModel {
    match setting {
        VolumeSetting::ContainersConfModule => VolumeModel { containers_conf_modules: list, ..m },
        VolumeSetting::GlobalArgs => VolumeModel { global_args: list, ..m },
        _ => VolumeModel { podman_args: list, ..m },
    }
}

proof fn lemma_read_list_items(m: VolumeModel, seen: Seq<VolumeSetting>, setting: VolumeSetting, values: Seq<Seq<char>>)
    requires
        setting == VolumeSetting::ContainersConfModule || setting == VolumeSetting::GlobalArgs || setting
            == VolumeSetting::PodmanArgs,
        forall|i: int| 0 <= i < values.len() ==> safe_network_scalar(#[trigger] values[i], false),
    ensures
        read_entries(m, seen, written_entries(list_items(setting, values))) == (
            with_list(m, setting, extended(list_of(m, setting), values)),
            seen,
        ),
    decreases values.len(),
{
    reveal_with_fuel(written_entries, 2);
    reveal_with_fuel(read_entries, 2);
    if values.len() == 0 {
        assert(written_entries(list_items(setting, values)) =~= Seq::<(VolumeSetting, Seq<char>)>::empty());
        assert(with_list(m, setting, list_of(m, setting)) =~= m);
    } else {
        let rest = values.drop_last();
        let v = values.last();
        assert forall|i: int| 0 <= i < rest.len() implies safe_network_scalar(#[trigger] rest[i], false) by {
            assert(rest[i] == values[i]);
        }
        assert(safe_network_scalar(values[values.len() - 1], false));
        lemma_read_list_items(m, seen, setting, rest);
        let item = seq![PlanModel::Write(setting, v)];
        assert(list_items(setting, values) == list_items(setting, rest) + item);
        lemma_written_concat(list_items(setting, rest), item);
        assert(item.drop_last() =~= Seq::<PlanModel>::empty());
        assert(written_entries(item) =~= seq![(setting, v)]);
        lemma_read_concat(m, seen, written_entries(list_items(setting, rest)), seq![(setting, v)]);
        assert(seq![(setting, v)].drop_last() =~= Seq::<(VolumeSetting, Seq<char>)>::empty());
        let mid = with_list(m, setting, extended(list_of(m, setting), rest));
        assert(v.len() > 0);
        assert(rest.push(v) =~= values);
        match list_of(m, setting) {
            Some(l) => {
                assert(l + rest.push(v) =~= (l + rest).push(v));
            },
            None => {
                if rest.len() == 0 {
                    assert(rest.push(v) =~= seq![v]);
                }
            },
        }
        assert(volume_after_entry(mid, setting, v).0 =~= with_list(m, setting, extended(list_of(m, setting), values)));
    }
}

proof fn lemma_read_labels(m: VolumeModel, seen: Seq<VolumeSetting>, labels: Seq<(Seq<char>, Seq<char>)>)
    requires
        forall|i: int| 0 <= i < labels.len() ==> label_name((#[trigger] labels[i]).0) && safe_network_scalar(labels[i].1, true),
    ensures
        read_entries(m, seen, written_entries(label_items(labels))) == (
            VolumeModel { labels: extended(m.labels, labels), ..m },
            seen,
        ),
    decreases labels.len(),
{
    reveal_with_fuel(written_entries, 2);
    reveal_with_fuel(read_entries, 2);
    if labels.len() == 0 {
        assert(written_entries(label_items(labels)) =~= Seq::<(VolumeSetting, Seq<char>)>::empty());
        assert(VolumeModel { labels: extended(m.labels, labels), ..m } =~= m);
    } else {
        let rest = labels.drop_last();
        let label = labels.last();
        assert forall|i: int| 0 <= i < rest.len() implies label_name((#[trigger] rest[i]).0) && safe_network_scalar(
            rest[i].1,
            true,
        ) by {
            assert(rest[i] == labels[i]);
        }
        assert(label == labels[labels.len() - 1]);
        lemma_read_labels(m, seen, rest);
        let text = label_text(label);
        let item = seq![PlanModel::Write(VolumeSetting::Label, text)];
        assert(label_items(labels) == label_items(rest) + item);
        lemma_written_concat(label_items(rest), item);
        assert(item.drop_last() =~= Seq::<PlanModel>::empty());
        assert(written_entries(item) =~= seq![(VolumeSetting::Label, text)]);
        lemma_read_concat(m, seen, written_entries(label_items(rest)), seq![(VolumeSetting::Label, text)]);
        assert(seq![(VolumeSetting::Label, text)].drop_last() =~= Seq::<(VolumeSetting, Seq<char>)>::empty());
        lemma_network_label_reads_back(label.0, label.1);
        assert(text.len() > 0);
        assert(rest.push(label) =~= labels);
        match m.labels {
            Some(l) => {
                assert(l + rest.push(label) =~= (l + rest).push(label));
            },
            None => {
                if rest.len() == 0 {
                    assert(rest.push(label) =~= seq![label]);
                }
            },
        }
    }
}


proof fn lemma_image_reads_back(image: VolumeImageModel)
    requires
        image matches VolumeImageModel::Literal(v) ==> !ends_with(v, image_suffix()) && !ends_with(v, build_suffix()),
    ensures
        image_source(image_text(image)) == image,
{
    match image {
        VolumeImageModel::Literal(v) => {},
        VolumeImageModel::Acquisition(n) => {
            let t = n + image_suffix();
            assert(t.skip(t.len() - 6) =~= image_suffix());
            assert(t.take(t.len() - 6) =~= n);
        },
        VolumeImageModel::Build(n) => {
            let t = n + build_suffix();
            assert(!ends_with(t, image_suffix())) by {
                if ends_with(t, image_suffix()) {
                    assert(t.skip(t.len() - 6)[5] == t[t.len() - 1]);
                }
            }
            assert(t.skip(t.len() - 6) =~= build_suffix());
            assert(t.take(t.len() - 6) =~= n);
        },
    }
}

/// Reading the written entries of `a + b` from `m` and `seen` is reading those of `b` after
/// those of `a`.
proof fn lemma_read_plan_concat(m: VolumeModel, seen: Seq<VolumeSetting>, a: Seq<PlanModel>, b: Seq<PlanModel>)
    ensures
        read_entries(m, seen, written_entries(a + b)) == read_entries(
            read_entries(m, seen, written_entries(a)).0,
            read_entries(m, seen, written_entries(a)).1,
            written_entries(b),
        ),
{
    lemma_written_concat(a, b);
    lemma_read_concat(m, seen, written_entries(a), written_entries(b));
}

/// The runtime name a volume unit is written with.
pub open spec fn written_runtime_name(name: Seq<char>, m: VolumeModel) -> Seq<char> {
    match m.runtime_name {
        Some(r) => r,
        None => name,
    }
}

/// The first part of a volume plan: names, scalars, options and identities.
spec fn head_plan(name: Seq<char>, m: VolumeModel, options_need_device: bool) -> Seq<PlanModel> {
    seq![PlanModel::Write(VolumeSetting::VolumeName, written_runtime_name(name, m))] + scalar_plan(
        VolumeSetting::Driver,
        m.driver,
    ) + scalar_plan(VolumeSetting::Device, m.device) + scalar_plan(VolumeSetting::Type, m.volume_type) + scalar_plan(
        VolumeSetting::User,
        m.user,
    ) + scalar_plan(VolumeSetting::Group, m.group) + scalar_plan(VolumeSetting::ServiceName, m.service_name)
        + options_plan(m, options_need_device) + identity_plan(VolumeSetting::Uid, m.uid) + identity_plan(
        VolumeSetting::Gid,
        m.gid,
    )
}

#[verifier::rlimit(40)]
proof fn lemma_head_reads_back(name: Seq<char>, m: VolumeModel, options_need_device: bool)
    requires
        carried_exactly(m, options_need_device),
    ensures
        ({
            let (m1, seen1) = read_entries(unset_volume(), Seq::empty(), written_entries(head_plan(name, m, options_need_device)));
            &&& seen_before(seen1, 10)
            &&& m1 == VolumeModel {
                runtime_name: Some(written_runtime_name(name, m)),
                driver: m.driver,
                device: m.device,
                volume_type: m.volume_type,
                user: m.user,
                group: m.group,
                service_name: m.service_name,
                options: m.options,
                uid: m.uid,
                gid: m.gid,
                ..unset_volume()
            }
        }),
{
    let e = Seq::<VolumeSetting>::empty();
    let u = unset_volume();
    let p0 = seq![PlanModel::Write(VolumeSetting::VolumeName, written_runtime_name(name, m))];
    reveal_with_fuel(written_entries, 2);
    assert(p0.drop_last() =~= Seq::<PlanModel>::empty());
    assert(written_entries(p0) =~= seq![(VolumeSetting::VolumeName, written_runtime_name(name, m))]);
    lemma_read_single(u, e, VolumeSetting::VolumeName, written_runtime_name(name, m));
    let a0 = p0;
    let s0 = read_entries(u, e, written_entries(a0));

    let p1 = scalar_plan(VolumeSetting::Driver, m.driver);
    lemma_read_plan_concat(u, e, a0, p1);
    lemma_read_scalar(s0.0, s0.1, VolumeSetting::Driver, m.driver);
    let a1 = a0 + p1;
    let s1 = read_entries(u, e, written_entries(a1));

    let p2 = scalar_plan(VolumeSetting::Device, m.device);
    lemma_read_plan_concat(u, e, a1, p2);
    lemma_read_scalar(s1.0, s1.1, VolumeSetting::Device, m.device);
    let a2 = a1 + p2;
    let s2 = read_entries(u, e, written_entries(a2));

    let p3 = scalar_plan(VolumeSetting::Type, m.volume_type);
    lemma_read_plan_concat(u, e, a2, p3);
    lemma_read_scalar(s2.0, s2.1, VolumeSetting::Type, m.volume_type);
    let a3 = a2 + p3;
    let s3 = read_entries(u, e, written_entries(a3));

    let p4 = scalar_plan(VolumeSetting::User, m.user);
    lemma_read_plan_concat(u, e, a3, p4);
    lemma_read_scalar(s3.0, s3.1, VolumeSetting::User, m.user);
    let a4 = a3 + p4;
    let s4 = read_entries(u, e, written_entries(a4));

    let p5 = scalar_plan(VolumeSetting::Group, m.group);
    lemma_read_plan_concat(u, e, a4, p5);
    lemma_read_scalar(s4.0, s4.1, VolumeSetting::Group, m.group);
    let a5 = a4 + p5;
    let s5 = read_entries(u, e, written_entries(a5));

    let p6 = scalar_plan(VolumeSetting::ServiceName, m.service_name);
    lemma_read_plan_concat(u, e, a5, p6);
    lemma_read_scalar(s5.0, s5.1, VolumeSetting::ServiceName, m.service_name);
    let a6 = a5 + p6;
    let s6 = read_entries(u, e, written_entries(a6));

    let p7 = options_plan(m, options_need_device);
    assert(p7 == scalar_plan(VolumeSetting::Options, m.options));
    lemma_read_plan_concat(u, e, a6, p7);
    lemma_read_scalar(s6.0, s6.1, VolumeSetting::Options, m.options);
    let a7 = a6 + p7;
    let s7 = read_entries(u, e, written_entries(a7));

    let p8 = identity_plan(VolumeSetting::Uid, m.uid);
    lemma_read_plan_concat(u, e, a7, p8);
    lemma_read_identity(s7.0, s7.1, VolumeSetting::Uid, m.uid);
    let a8 = a7 + p8;
    let s8 = read_entries(u, e, written_entries(a8));

    let p9 = identity_plan(VolumeSetting::Gid, m.gid);
    lemma_read_plan_concat(u, e, a8, p9);
    lemma_read_identity(s8.0, s8.1, VolumeSetting::Gid, m.gid);
    let a9 = a8 + p9;
    assert(a9 == head_plan(name, m, options_need_device));
    let s9 = read_entries(u, e, written_entries(a9));
    assert(s9.0 =~= VolumeModel {
        runtime_name: Some(written_runtime_name(name, m)),
        driver: m.driver,
        device: m.device,
        volume_type: m.volume_type,
        user: m.user,
        group: m.group,
        service_name: m.service_name,
        options: m.options,
        uid: m.uid,
        gid: m.gid,
        ..unset_volume()
    });
}

proof fn lemma_copy_step(m0: VolumeModel, seen: Seq<VolumeSetting>, m: VolumeModel)
    requires
        seen_before(seen, 10),
    ensures
        ({
            let (m1, seen1) = read_entries(m0, seen, written_entries(checks_and_copy_plan(m)));
            &&& seen_before(seen1, 11)
            &&& m1 == (VolumeModel { copy: match m.copy {
                Some(b) => Some(b),
                None => m0.copy,
            }, ..m0 })
        }),
{
    reveal_with_fuel(written_entries, 2);
    reveal_with_fuel(read_entries, 2);
    let check: Seq<PlanModel> = if m.volume_type is Some && m.device is None {
        seq![PlanModel::Invalid(VolumeSetting::Type, "Volume Type requires Device"@)]
    } else {
        Seq::empty()
    };
    let copy: Seq<PlanModel> = match m.copy {
        Some(b) => seq![PlanModel::Write(VolumeSetting::Copy, bool_spelling(b))],
        None => Seq::empty(),
    };
    lemma_written_concat(check, copy);
    assert(check.len() > 0 ==> check.drop_last() =~= Seq::<PlanModel>::empty());
    assert(written_entries(check) =~= Seq::<(VolumeSetting, Seq<char>)>::empty());
    match m.copy {
        Some(b) => {
            assert(copy.drop_last() =~= Seq::<PlanModel>::empty());
            assert(written_entries(copy) =~= seq![(VolumeSetting::Copy, bool_spelling(b))]);
            assert(written_entries(checks_and_copy_plan(m)) =~= seq![(VolumeSetting::Copy, bool_spelling(b))]);
            lemma_read_single(m0, seen, VolumeSetting::Copy, bool_spelling(b));
            assert(bool_spelling(false) != seq!['t', 'r', 'u', 'e']) by {
                assert(bool_spelling(false).len() == 5);
            }
        },
        None => {
            assert(written_entries(checks_and_copy_plan(m)) =~= Seq::<(VolumeSetting, Seq<char>)>::empty());
            assert forall|i: int| 0 <= i < seen.len() implies rank(#[trigger] seen[i]) < 11 by {}
            assert(m0 =~= VolumeModel { copy: m0.copy, ..m0 });
        },
    }
}

proof fn lemma_list_step(m0: VolumeModel, seen: Seq<VolumeSetting>, setting: VolumeSetting, values: Option<Seq<Seq<char>>>)
    requires
        setting == VolumeSetting::ContainersConfModule || setting == VolumeSetting::GlobalArgs || setting
            == VolumeSetting::PodmanArgs,
        list_of(m0, setting) is None,
        values matches Some(vs) ==> vs.len() > 0 && forall|i: int| 0 <= i < vs.len() ==> safe_network_scalar(#[trigger] vs[i], false),
    ensures
        read_entries(m0, seen, written_entries(list_plan(setting, values))) == (with_list(m0, setting, values), seen),
{
    reveal_with_fuel(written_entries, 2);
    reveal_with_fuel(read_entries, 2);
    match values {
        Some(vs) => {
            lemma_read_list_items(m0, seen, setting, vs);
        },
        None => {
            assert(written_entries(list_plan(setting, values)) =~= Seq::<(VolumeSetting, Seq<char>)>::empty());
            assert(with_list(m0, setting, values) =~= m0);
        },
    }
}

proof fn lemma_labels_step(m0: VolumeModel, seen: Seq<VolumeSetting>, labels: Option<Seq<(Seq<char>, Seq<char>)>>)
    requires
        m0.labels is None,
        labels matches Some(ls) ==> ls.len() > 0 && forall|i: int|
            0 <= i < ls.len() ==> label_name((#[trigger] ls[i]).0) && safe_network_scalar(ls[i].1, true),
    ensures
        read_entries(m0, seen, written_entries(labels_plan(labels))) == (VolumeModel { labels, ..m0 }, seen),
{
    reveal_with_fuel(written_entries, 2);
    reveal_with_fuel(read_entries, 2);
    match labels {
        Some(ls) => {
            lemma_read_labels(m0, seen, ls);
        },
        None => {
            assert(written_entries(labels_plan(labels)) =~= Seq::<(VolumeSetting, Seq<char>)>::empty());
            assert(VolumeModel { labels, ..m0 } =~= m0);
        },
    }
}

proof fn lemma_image_step(m0: VolumeModel, seen: Seq<VolumeSetting>, m: VolumeModel)
    requires
        seen_before(seen, 11),
        m.image matches Some(VolumeImageModel::Literal(v)) ==> !ends_with(v, image_suffix()) && !ends_with(
            v,
            build_suffix(),
        ),
        m0.image is None,
    ensures
        read_entries(m0, seen, written_entries(image_plan(m))).0 == (VolumeModel { image: m.image, ..m0 }),
{
    reveal_with_fuel(written_entries, 2);
    reveal_with_fuel(read_entries, 2);
    match m.image {
        Some(image) => {
            let note: Seq<PlanModel> = if m.copy is Some {
                seq![
                    PlanModel::Unsupported(
                        VolumeSetting::Image,
                        "Image ignores Copy; the conflict is retained rather than claimed exact"@,
                    ),
                ]
            } else {
                Seq::empty()
            };
            let write = seq![PlanModel::Write(VolumeSetting::Image, image_text(image))];
            lemma_written_concat(note, write);
            assert(note.len() > 0 ==> note.drop_last() =~= Seq::<PlanModel>::empty());
            assert(written_entries(note) =~= Seq::<(VolumeSetting, Seq<char>)>::empty());
            assert(write.drop_last() =~= Seq::<PlanModel>::empty());
            assert(written_entries(image_plan(m)) =~= seq![(VolumeSetting::Image, image_text(image))]);
            lemma_read_single(m0, seen, VolumeSetting::Image, image_text(image));
            lemma_image_reads_back(image);
        },
        None => {
            assert(written_entries(image_plan(m)) =~= Seq::<(VolumeSetting, Seq<char>)>::empty());
            assert(VolumeModel { image: m.image, ..m0 } =~= m0);
        },
    }
}

/// A volume written as a unit reads back as the same volume: when its settings are carried
/// exactly, reading the entries that [`plan_volume_entries`] writes, in order and from no
/// settings, gives back every setting, with the runtime name set to the one written (the
/// volume's name when it had none).
pub proof fn lemma_volume_reads_back(name: Seq<char>, m: VolumeModel, options_need_device: bool)
    requires
        carried_exactly(m, options_need_device),
    ensures
        read_entries(unset_volume(), Seq::empty(), written_entries(volume_plan(name, m, options_need_device))).0
            == (VolumeModel { runtime_name: Some(written_runtime_name(name, m)), ..m }),
{
    let e = Seq::<VolumeSetting>::empty();
    let u = unset_volume();
    lemma_head_reads_back(name, m, options_need_device);
    let a9 = head_plan(name, m, options_need_device);
    let s9 = read_entries(u, e, written_entries(a9));

    let p10 = checks_and_copy_plan(m);
    lemma_read_plan_concat(u, e, a9, p10);
    lemma_copy_step(s9.0, s9.1, m);
    let a10 = a9 + p10;
    let s10 = read_entries(u, e, written_entries(a10));

    let p11 = labels_plan(m.labels);
    lemma_read_plan_concat(u, e, a10, p11);
    lemma_labels_step(s10.0, s10.1, m.labels);
    let a11 = a10 + p11;
    let s11 = read_entries(u, e, written_entries(a11));

    let p12 = list_plan(VolumeSetting::ContainersConfModule, m.containers_conf_modules);
    lemma_read_plan_concat(u, e, a11, p12);
    lemma_list_step(s11.0, s11.1, VolumeSetting::ContainersConfModule, m.containers_conf_modules);
    let a12 = a11 + p12;
    let s12 = read_entries(u, e, written_entries(a12));

    let p13 = list_plan(VolumeSetting::GlobalArgs, m.global_args);
    lemma_read_plan_concat(u, e, a12, p13);
    lemma_list_step(s12.0, s12.1, VolumeSetting::GlobalArgs, m.global_args);
    let a13 = a12 + p13;
    let s13 = read_entries(u, e, written_entries(a13));

    let p14 = list_plan(VolumeSetting::PodmanArgs, m.podman_args);
    lemma_read_plan_concat(u, e, a13, p14);
    lemma_list_step(s13.0, s13.1, VolumeSetting::PodmanArgs, m.podman_args);
    let a14 = a13 + p14;
    let s14 = read_entries(u, e, written_entries(a14));

    let p15 = image_plan(m);
    lemma_read_plan_concat(u, e, a14, p15);
    lemma_image_step(s14.0, s14.1, m);
    let a15 = a14 + p15;
    assert(a15 == volume_plan(name, m, options_need_device));
    let s15 = read_entries(u, e, written_entries(a15));
    assert(s15.0 =~= VolumeModel { runtime_name: Some(written_runtime_name(name, m)), ..m });
}

/// The views of a unit's entries.
pub open spec fn entry_views(entries: Seq<(VolumeSetting, String)>) -> Seq<(VolumeSetting, Seq<char>)> {
    entries.map_values(|e: (VolumeSetting, String)| (e.0, e.1@))
}

/// How entry `setting` with value `value` reads after the settings `m` and entries `seen`.
pub open spec fn entry_reading(m: VolumeModel, seen: Seq<VolumeSetting>, setting: VolumeSetting, value: Seq<char>) -> VolumeReading {
    if !repeatable(setting) && seen.contains(setting) {
        VolumeReading::Duplicate
    } else {
        volume_after_entry(m, setting, value).1
    }
}

/// Reads a volume unit's entries in order into fresh settings: the settings read, and how each
/// entry read.
pub fn read_volume_unit(entries: &[(VolumeSetting, String)]) -> (read: (VolumeSettings, Vec<VolumeReading>))
    ensures
        read.0@ == read_entries(unset_volume(), Seq::empty(), entry_views(entries@)).0,
        read.1@.len() == entries@.len(),
        forall|i: int|
            0 <= i < entries@.len() ==> #[trigger] read.1@[i] == entry_reading(
                read_entries(unset_volume(), Seq::empty(), entry_views(entries@).take(i)).0,
                read_entries(unset_volume(), Seq::empty(), entry_views(entries@).take(i)).1,
                entries@[i].0,
                entries@[i].1@,
            ),
{
    let ghost views = entry_views(entries@);
    let mut settings = VolumeSettings::new();
    let mut seen: Vec<VolumeSetting> = Vec::new();
    let mut readings: Vec<VolumeReading> = Vec::new();
    let mut i: usize = 0;
    assert(views.take(0) =~= Seq::<(VolumeSetting, Seq<char>)>::empty());
    while i < entries.len()
        invariant
            i <= entries@.len(),
            views == entry_views(entries@),
            (settings@, seen@) == read_entries(unset_volume(), Seq::empty(), views.take(i as int)),
            readings@.len() == i,
            forall|j: int|
                0 <= j < i ==> #[trigger] readings@[j] == entry_reading(
                    read_entries(unset_volume(), Seq::empty(), views.take(j)).0,
                    read_entries(unset_volume(), Seq::empty(), views.take(j)).1,
                    entries@[j].0,
                    entries@[j].1@,
                ),
        decreases entries@.len() - i,
    {
        let ghost before = (settings@, seen@);
        let reading = read_volume_entry(&mut settings, &mut seen, entries[i].0, entries[i].1.as_str());
        readings.push(reading);
        proof {
            let t = views.take(i + 1);
            assert(t.drop_last() =~= views.take(i as int));
            assert(t.last() == (entries@[i as int].0, entries@[i as int].1@));
        }
        i += 1;
    }
    assert(views.take(entries@.len() as int) =~= views);
    (settings, readings)
}

} // verus!
