//! Network units: the settings of an application-owned network, the entries written for them,
//! and how a network unit's entries are read back into settings.

use vstd::prelude::*;
use crate::grammar::{label_name, label_name_chars, safe_network_assignment, safe_network_scalar, safe_network_scalar_chars};
use crate::ipam::{ipam_columns, ipam_reading, lemma_ipam_row_reads_back, read_ipam_entries, row_columns, IpamColumn, IpamIssue, IpamRow, IpamRowModel};
use crate::scalar::{bool_spelling, bool_text, canonical_network_bool, lemma_bool_spelling_reads_back,
    lemma_network_assignment_reads_back, lemma_network_label_reads_back, network_assignment, network_label,
    parse_canonical_network_bool, parse_network_assignment, parse_network_label};
use crate::text::{chars_of, contains_char, has_char, string_from};

verus! {

broadcast use vstd::string::group_string_axioms;

/// The entries of a network unit.
#[derive(Clone, Copy, Debug, PartialEq, Eq, Structural)]
pub enum NetworkSetting {
    NetworkName,
    Driver,
    Options,
    Label,
    Internal,
    Ipv6,
    IpamDriver,
    Subnet,
    Gateway,
    IpRange,
}

/// The entries a network unit may not repeat.
pub open spec fn network_singleton(setting: NetworkSetting) -> bool {
    match setting {
        NetworkSetting::NetworkName | NetworkSetting::Driver | NetworkSetting::Internal | NetworkSetting::Ipv6
        | NetworkSetting::IpamDriver => true,
        _ => false,
    }
}

/// The entry that carries IPAM column `column`.
pub open spec fn column_setting(column: IpamColumn) -> NetworkSetting {
    match column {
        IpamColumn::Subnet => NetworkSetting::Subnet,
        IpamColumn::Gateway => NetworkSetting::Gateway,
        IpamColumn::IpRange => NetworkSetting::IpRange,
    }
}

/// The settings of an application-owned network that a network unit carries. A list that is
/// `Some` but empty was set explicitly empty.
#[derive(Clone, Debug, PartialEq, Eq)]
pub struct NetworkSettings {
    pub runtime_name: Option<String>,
    pub driver: Option<String>,
    pub driver_options: Option<Vec<(String, String)>>,
    pub labels: Option<Vec<(String, String)>>,
    pub internal: Option<bool>,
    pub ipv6: Option<bool>,
    pub ipam_driver: Option<String>,
    pub ipam_rows: Option<Vec<IpamRow>>,
}

/// Mathematical model of [`NetworkSettings`].
#[verifier::ext_equal]
pub struct NetworkModel {
    pub runtime_name: Option<Seq<char>>,
    pub driver: Option<Seq<char>>,
    pub driver_options: Option<Seq<(Seq<char>, Seq<char>)>>,
    pub labels: Option<Seq<(Seq<char>, Seq<char>)>>,
    pub internal: Option<bool>,
    pub ipv6: Option<bool>,
    pub ipam_driver: Option<Seq<char>>,
    pub ipam_rows: Option<Seq<IpamRowModel>>,
}

/// The view of an optional string.
pub open spec fn text_view(value: Option<String>) -> Option<Seq<char>> {
    match value {
        Some(v) => Some(v@),
        None => None,
    }
}

/// The view of an optional list of pairs.
pub open spec fn pairs_view(pairs: Option<Vec<(String, String)>>) -> Option<Seq<(Seq<char>, Seq<char>)>> {
    match pairs {
        Some(v) => Some(v@.map_values(|p: (String, String)| (p.0@, p.1@))),
        None => None,
    }
}

/// The view of an optional list of address rows.
pub open spec fn rows_view(rows: Option<Vec<IpamRow>>) -> Option<Seq<IpamRowModel>> {
    match rows {
        Some(v) => Some(v@.map_values(|r: IpamRow| r@)),
        None => None,
    }
}

impl View for NetworkSettings {
    type V = NetworkModel;

    open spec fn view(&self) -> NetworkModel {
        NetworkModel {
            runtime_name: text_view(self.runtime_name),
            driver: text_view(self.driver),
            driver_options: pairs_view(self.driver_options),
            labels: pairs_view(self.labels),
            internal: self.internal,
            ipv6: self.ipv6,
            ipam_driver: text_view(self.ipam_driver),
            ipam_rows: rows_view(self.ipam_rows),
        }
    }
}

/// No setting made.
pub open spec fn unset_network() -> NetworkModel {
    NetworkModel {
        runtime_name: None,
        driver: None,
        driver_options: None,
        labels: None,
        internal: None,
        ipv6: None,
        ipam_driver: None,
        ipam_rows: None,
    }
}

impl NetworkSettings {
    /// No setting made.
    pub fn new() -> (settings: Self)
        ensures
            settings@ == unset_network(),
    {
        NetworkSettings {
            runtime_name: None,
            driver: None,
            driver_options: None,
            labels: None,
            internal: None,
            ipv6: None,
            ipam_driver: None,
            ipam_rows: None,
        }
    }
}

/// One step of writing a network unit.
#[derive(Clone, Debug, PartialEq, Eq)]
pub enum NetworkEntryPlan {
    /// The entry is written.
    Write(NetworkSetting, String),
    /// The setting is not carried exactly, for this reason.
    Unsupported(NetworkSetting, &'static str),
}

/// Mathematical model of a [`NetworkEntryPlan`].
pub enum NetworkPlanModel {
    Write(NetworkSetting, Seq<char>),
    Unsupported(NetworkSetting, Seq<char>),
}

impl View for NetworkEntryPlan {
    type V = NetworkPlanModel;

    open spec fn view(&self) -> NetworkPlanModel {
        match self {
            NetworkEntryPlan::Write(setting, value) => NetworkPlanModel::Write(*setting, value@),
            NetworkEntryPlan::Unsupported(setting, reason) => NetworkPlanModel::Unsupported(*setting, reason@),
        }
    }
}

/// The views of a plan.
pub open spec fn plan_view(plan: Seq<NetworkEntryPlan>) -> Seq<NetworkPlanModel> {
    plan.map_values(|p: NetworkEntryPlan| p@)
}

/// A scalar setting, written when it is a non-empty systemd-safe scalar.
pub open spec fn scalar_plan(setting: NetworkSetting, value: Option<Seq<char>>, reason: Seq<char>) -> Seq<
    NetworkPlanModel,
> {
    match value {
        None => Seq::empty(),
        Some(v) => if safe_network_scalar(v, false) {
            seq![NetworkPlanModel::Write(setting, v)]
        } else {
            seq![NetworkPlanModel::Unsupported(setting, reason)]
        },
    }
}

/// The text of a `NAME=VALUE` entry.
pub open spec fn pair_text(pair: (Seq<char>, Seq<char>)) -> Seq<char> {
    pair.0 + seq!['='] + pair.1
}

/// A driver option is written when it is a safe network assignment.
pub open spec fn option_written(pair: (Seq<char>, Seq<char>)) -> bool {
    safe_network_assignment(pair.0, pair.1)
}

/// A label is written when its name is a label name and its value a safe scalar.
pub open spec fn label_written(pair: (Seq<char>, Seq<char>)) -> bool {
    label_name(pair.0) && safe_network_scalar(pair.1, true)
}

/// The items of a list of `NAME=VALUE` pairs carried by `setting`: each written when `labels`
/// is false and it is a safe assignment, or `labels` is true and it is a safe label.
pub open spec fn pair_items(setting: NetworkSetting, pairs: Seq<(Seq<char>, Seq<char>)>, labels: bool) -> Seq<
    NetworkPlanModel,
>
    decreases pairs.len(),
{
    if pairs.len() == 0 {
        Seq::empty()
    } else {
        let pair = pairs.last();
        let written = if labels {
            label_written(pair)
        } else {
            option_written(pair)
        };
        pair_items(setting, pairs.drop_last(), labels) + if written {
            seq![NetworkPlanModel::Write(setting, pair_text(pair))]
        } else {
            seq![NetworkPlanModel::Unsupported(setting, if labels {
                "network label must use an unambiguous systemd-safe NAME=VALUE spelling"@
            } else {
                "network option must use an unambiguous systemd-safe NAME=VALUE spelling"@
            })]
        }
    }
}

/// The driver options.
pub open spec fn options_plan(options: Option<Seq<(Seq<char>, Seq<char>)>>) -> Seq<NetworkPlanModel> {
    match options {
        None => Seq::empty(),
        Some(os) => if os.len() == 0 {
            seq![
                NetworkPlanModel::Unsupported(
                    NetworkSetting::Options,
                    "an explicit empty network option collection has no safe Quadlet reset encoding"@,
                ),
            ]
        } else {
            pair_items(NetworkSetting::Options, os, false)
        },
    }
}

/// The labels.
pub open spec fn labels_plan(labels: Option<Seq<(Seq<char>, Seq<char>)>>) -> Seq<NetworkPlanModel> {
    match labels {
        None => Seq::empty(),
        Some(ls) => if ls.len() == 0 {
            seq![
                NetworkPlanModel::Unsupported(
                    NetworkSetting::Label,
                    "an explicit empty network label collection has no safe Quadlet reset encoding"@,
                ),
            ]
        } else {
            pair_items(NetworkSetting::Label, ls, true)
        },
    }
}

/// A boolean setting.
pub open spec fn flag_plan(setting: NetworkSetting, value: Option<bool>) -> Seq<NetworkPlanModel> {
    match value {
        None => Seq::empty(),
        Some(b) => seq![NetworkPlanModel::Write(setting, bool_spelling(b))],
    }
}

/// The IPAM entries of `rows`, each written when it is a safe scalar.
pub open spec fn column_items(columns: Seq<(IpamColumn, Seq<char>)>) -> Seq<NetworkPlanModel>
    decreases columns.len(),
{
    if columns.len() == 0 {
        Seq::empty()
    } else {
        let (column, value) = columns.last();
        column_items(columns.drop_last()) + if safe_network_scalar(value, false) {
            seq![NetworkPlanModel::Write(column_setting(column), value)]
        } else {
            seq![NetworkPlanModel::Unsupported(column_setting(column), "IPAM values must be unquoted systemd-safe scalars"@)]
        }
    }
}

/// The address rows.
pub open spec fn rows_plan(rows: Option<Seq<IpamRowModel>>) -> Seq<NetworkPlanModel> {
    match rows {
        None => Seq::empty(),
        Some(rs) => if rs.len() == 0 {
            seq![
                NetworkPlanModel::Unsupported(
                    NetworkSetting::Subnet,
                    "an explicit empty IPAM collection has no safe Quadlet reset encoding"@,
                ),
            ]
        } else {
            column_items(ipam_columns(rs))
        },
    }
}

/// The runtime name a network unit is written with.
pub open spec fn written_runtime_name(name: Seq<char>, m: NetworkModel) -> Seq<char> {
    match m.runtime_name {
        Some(r) => r,
        None => name,
    }
}

/// The steps of writing the unit of network `name` with settings `m`: its runtime name (the
/// network's name unless set), which must be safe for anything else to be written, then its
/// driver, options, labels, internal and IPv6 flags, IPAM driver and address rows.
pub open spec fn network_plan(name: Seq<char>, m: NetworkModel) -> Seq<NetworkPlanModel> {
    let runtime = written_runtime_name(name, m);
    if !safe_network_scalar(runtime, false) {
        seq![
            NetworkPlanModel::Unsupported(
                NetworkSetting::NetworkName,
                "NetworkName must be an unquoted systemd-safe network name"@,
            ),
        ]
    } else {
        seq![NetworkPlanModel::Write(NetworkSetting::NetworkName, runtime)] + scalar_plan(
            NetworkSetting::Driver,
            m.driver,
            "network driver must be an unquoted systemd-safe scalar"@,
        ) + options_plan(m.driver_options) + labels_plan(m.labels) + flag_plan(NetworkSetting::Internal, m.internal)
            + flag_plan(NetworkSetting::Ipv6, m.ipv6) + scalar_plan(
            NetworkSetting::IpamDriver,
            m.ipam_driver,
            "IPAM driver must be an unquoted systemd-safe scalar"@,
        ) + rows_plan(m.ipam_rows)
    }
}

fn plan_scalar(plan: &mut Vec<NetworkEntryPlan>, setting: NetworkSetting, value: &Option<String>, reason: &'static str)
    ensures
        plan_view(final(plan)@) == plan_view(old(plan)@) + scalar_plan(setting, text_view(*value), reason@),
{
    let ghost before = plan_view(plan@);
    match value {
        Some(v) => {
            if safe_network_scalar_chars(chars_of(v.as_str()).as_slice(), false) {
                plan.push(NetworkEntryPlan::Write(setting, v.clone()));
            } else {
                plan.push(NetworkEntryPlan::Unsupported(setting, reason));
            }
        },
        None => {},
    }
    assert(plan_view(plan@) =~= before + scalar_plan(setting, text_view(*value), reason@));
}

fn pair_string(name: &String, value: &String) -> (text: String)
    ensures
        text@ == pair_text((name@, value@)),
{
    let mut entry = chars_of(name.as_str());
    entry.push('=');
    let tail = chars_of(value.as_str());
    let mut j: usize = 0;
    while j < tail.len()
        invariant
            j <= tail@.len(),
            entry@ == name@ + seq!['='] + tail@.take(j as int),
        decreases tail@.len() - j,
    {
        entry.push(tail[j]);
        assert(entry@ =~= name@ + seq!['='] + tail@.take(j + 1));
        j = j + 1;
    }
    assert(tail@.take(tail@.len() as int) =~= value@);
    string_from(entry.as_slice())
}

fn plan_pairs(plan: &mut Vec<NetworkEntryPlan>, setting: NetworkSetting, pairs: &Vec<(String, String)>, labels: bool)
    ensures
        plan_view(final(plan)@) == plan_view(old(plan)@) + pair_items(
            setting,
            pairs@.map_values(|p: (String, String)| (p.0@, p.1@)),
            labels,
        ),
{
    let ghost before = plan_view(plan@);
    let ghost all = pairs@.map_values(|p: (String, String)| (p.0@, p.1@));
    let mut k: usize = 0;
    while k < pairs.len()
        invariant
            k <= pairs@.len(),
            all == pairs@.map_values(|p: (String, String)| (p.0@, p.1@)),
            plan_view(plan@) == before + pair_items(setting, all.take(k as int), labels),
        decreases pairs@.len() - k,
    {
        assert(all.take(k + 1).drop_last() =~= all.take(k as int));
        assert(all.take(k + 1).last() == all[k as int]);
        let ghost mid = plan_view(plan@);
        let (name, value) = &pairs[k];
        assert(all[k as int] == (name@, value@));
        let name_chars = chars_of(name.as_str());
        let value_chars = chars_of(value.as_str());
        let written = if labels {
            label_name_chars(name_chars.as_slice()) && safe_network_scalar_chars(value_chars.as_slice(), true)
        } else {
            name_chars.len() > 0 && !contains_char(name_chars.as_slice(), '=') && safe_network_scalar_chars(
                name_chars.as_slice(),
                false,
            ) && safe_network_scalar_chars(value_chars.as_slice(), true)
        };
        if written {
            plan.push(NetworkEntryPlan::Write(setting, pair_string(name, value)));
        } else if labels {
            plan.push(
                NetworkEntryPlan::Unsupported(setting, "network label must use an unambiguous systemd-safe NAME=VALUE spelling"),
            );
        } else {
            plan.push(
                NetworkEntryPlan::Unsupported(setting, "network option must use an unambiguous systemd-safe NAME=VALUE spelling"),
            );
        }
        let ghost item = if written {
            seq![NetworkPlanModel::Write(setting, pair_text(all[k as int]))]
        } else {
            seq![NetworkPlanModel::Unsupported(setting, if labels {
                "network label must use an unambiguous systemd-safe NAME=VALUE spelling"@
            } else {
                "network option must use an unambiguous systemd-safe NAME=VALUE spelling"@
            })]
        };
        assert(plan_view(plan@) =~= mid + item);
        assert(pair_items(setting, all.take(k + 1), labels) == pair_items(setting, all.take(k as int), labels) + item);
        k = k + 1;
    }
    assert(all.take(pairs@.len() as int) =~= all);
}

fn plan_pair_list(
    plan: &mut Vec<NetworkEntryPlan>,
    setting: NetworkSetting,
    pairs: &Option<Vec<(String, String)>>,
    labels: bool,
)
    requires
        labels <==> setting == NetworkSetting::Label,
        setting == NetworkSetting::Label || setting == NetworkSetting::Options,
    ensures
        plan_view(final(plan)@) == plan_view(old(plan)@) + if labels {
            labels_plan(pairs_view(*pairs))
        } else {
            options_plan(pairs_view(*pairs))
        },
{
    let ghost before = plan_view(plan@);
    match pairs {
        None => {
            assert(plan_view(plan@) =~= before + Seq::<NetworkPlanModel>::empty());
        },
        Some(ps) => {
            if ps.len() == 0 {
                if labels {
                    plan.push(
                        NetworkEntryPlan::Unsupported(
                            setting,
                            "an explicit empty network label collection has no safe Quadlet reset encoding",
                        ),
                    );
                } else {
                    plan.push(
                        NetworkEntryPlan::Unsupported(
                            setting,
                            "an explicit empty network option collection has no safe Quadlet reset encoding",
                        ),
                    );
                }
                assert(plan_view(plan@) =~= before + if labels {
                    labels_plan(pairs_view(*pairs))
                } else {
                    options_plan(pairs_view(*pairs))
                });
            } else {
                plan_pairs(plan, setting, ps, labels);
            }
        },
    }
}

fn plan_flag(plan: &mut Vec<NetworkEntryPlan>, setting: NetworkSetting, value: Option<bool>)
    ensures
        plan_view(final(plan)@) == plan_view(old(plan)@) + flag_plan(setting, value),
{
    let ghost before = plan_view(plan@);
    match value {
        Some(b) => {
            plan.push(NetworkEntryPlan::Write(setting, bool_text(b).to_string()));
        },
        None => {},
    }
    assert(plan_view(plan@) =~= before + flag_plan(setting, value));
}

fn plan_rows(plan: &mut Vec<NetworkEntryPlan>, rows: &Option<Vec<IpamRow>>)
    ensures
        plan_view(final(plan)@) == plan_view(old(plan)@) + rows_plan(rows_view(*rows)),
{
    let ghost before = plan_view(plan@);
    match rows {
        None => {
            assert(plan_view(plan@) =~= before + rows_plan(rows_view(*rows)));
        },
        Some(rs) => {
            match crate::ipam::plan_ipam_entries(rs.as_slice()) {
                Err(reason) => {
                    plan.push(NetworkEntryPlan::Unsupported(NetworkSetting::Subnet, reason));
                    assert(plan_view(plan@) =~= before + rows_plan(rows_view(*rows)));
                },
                Ok(entries) => {
                    let ghost columns = ipam_columns(rs@.map_values(|r: IpamRow| r@));
                    assert(entries@.len() == columns.len()) by {
                        assert(entries@.map_values(|e: (IpamColumn, String, bool)| (e.0, e.1@, e.2)).len()
                            == columns.len());
                    }
                    let mut k: usize = 0;
                    while k < entries.len()
                        invariant
                            k <= entries@.len(),
                            entries@.len() == columns.len(),
                            entries@.map_values(|e: (IpamColumn, String, bool)| (e.0, e.1@, e.2)) == columns.map_values(
                                |e: (IpamColumn, Seq<char>)| crate::ipam::written_entry(e),
                            ),
                            plan_view(plan@) == before + column_items(columns.take(k as int)),
                        decreases entries@.len() - k,
                    {
                        assert(columns.take(k + 1).drop_last() =~= columns.take(k as int));
                        assert(columns.take(k + 1).last() == columns[k as int]);
                        let ghost mid = plan_view(plan@);
                        let (column, value, safe) = &entries[k];
                        assert(entries@.map_values(|e: (IpamColumn, String, bool)| (e.0, e.1@, e.2))[k as int] == (
                        entries@[k as int].0, entries@[k as int].1@, entries@[k as int].2));
                        assert(columns.map_values(|e: (IpamColumn, Seq<char>)| crate::ipam::written_entry(e))[k as int]
                            == crate::ipam::written_entry(columns[k as int]));
                        assert((entries@[k as int].0, entries@[k as int].1@, entries@[k as int].2)
                            == crate::ipam::written_entry(columns[k as int]));
                        let setting = match column {
                            IpamColumn::Subnet => NetworkSetting::Subnet,
                            IpamColumn::Gateway => NetworkSetting::Gateway,
                            IpamColumn::IpRange => NetworkSetting::IpRange,
                        };
                        if *safe {
                            plan.push(NetworkEntryPlan::Write(setting, value.clone()));
                        } else {
                            plan.push(NetworkEntryPlan::Unsupported(setting, "IPAM values must be unquoted systemd-safe scalars"));
                        }
                        let ghost item = if safe_network_scalar(columns[k as int].1, false) {
                            seq![NetworkPlanModel::Write(column_setting(columns[k as int].0), columns[k as int].1)]
                        } else {
                            seq![
                                NetworkPlanModel::Unsupported(
                                    column_setting(columns[k as int].0),
                                    "IPAM values must be unquoted systemd-safe scalars"@,
                                ),
                            ]
                        };
                        assert(plan_view(plan@) =~= mid + item);
                        assert(column_items(columns.take(k + 1)) == column_items(columns.take(k as int)) + item);
                        k = k + 1;
                    }
                    assert(columns.take(entries@.len() as int) =~= columns);
                },
            }
        },
    }
}

/// Plans the unit of application-owned network `name` with `settings`.
pub fn plan_network_entries(name: &str, settings: &NetworkSettings) -> (plan: Vec<NetworkEntryPlan>)
    ensures
        plan_view(plan@) == network_plan(name@, settings@),
{
    let ghost m = settings@;
    let mut plan: Vec<NetworkEntryPlan> = Vec::new();
    let runtime = match &settings.runtime_name {
        Some(r) => r.clone(),
        None => name.to_string(),
    };
    if !safe_network_scalar_chars(chars_of(runtime.as_str()).as_slice(), false) {
        plan.push(
            NetworkEntryPlan::Unsupported(NetworkSetting::NetworkName, "NetworkName must be an unquoted systemd-safe network name"),
        );
        assert(plan_view(plan@) =~= network_plan(name@, m));
        return plan;
    }
    plan.push(NetworkEntryPlan::Write(NetworkSetting::NetworkName, runtime));
    plan_scalar(&mut plan, NetworkSetting::Driver, &settings.driver, "network driver must be an unquoted systemd-safe scalar");
    plan_pair_list(&mut plan, NetworkSetting::Options, &settings.driver_options, false);
    plan_pair_list(&mut plan, NetworkSetting::Label, &settings.labels, true);
    plan_flag(&mut plan, NetworkSetting::Internal, settings.internal);
    plan_flag(&mut plan, NetworkSetting::Ipv6, settings.ipv6);
    plan_scalar(&mut plan, NetworkSetting::IpamDriver, &settings.ipam_driver, "IPAM driver must be an unquoted systemd-safe scalar");
    plan_rows(&mut plan, &settings.ipam_rows);
    plan
}

/// The state of reading a network unit: the settings read so far, the singletons seen, the
/// option and label names read since their lists were last reset, and the IPAM entries
/// gathered for the end.
#[derive(Clone, Debug, PartialEq, Eq)]
pub struct NetworkReader {
    pub settings: NetworkSettings,
    pub seen: Vec<NetworkSetting>,
    pub option_names: Vec<String>,
    pub label_names: Vec<String>,
    pub ipam_entries: Vec<(IpamColumn, String)>,
}

/// Mathematical model of a [`NetworkReader`].
#[verifier::ext_equal]
pub struct ReaderModel {
    pub settings: NetworkModel,
    pub seen: Seq<NetworkSetting>,
    pub option_names: Seq<Seq<char>>,
    pub label_names: Seq<Seq<char>>,
    pub ipam_entries: Seq<(IpamColumn, Seq<char>)>,
}

impl View for NetworkReader {
    type V = ReaderModel;

    open spec fn view(&self) -> ReaderModel {
        ReaderModel {
            settings: self.settings@,
            seen: self.seen@,
            option_names: self.option_names@.map_values(|s: String| s@),
            label_names: self.label_names@.map_values(|s: String| s@),
            ipam_entries: self.ipam_entries@.map_values(|e: (IpamColumn, String)| (e.0, e.1@)),
        }
    }
}

/// Nothing read yet.
pub open spec fn fresh_reader() -> ReaderModel {
    ReaderModel {
        settings: unset_network(),
        seen: Seq::empty(),
        option_names: Seq::empty(),
        label_names: Seq::empty(),
        ipam_entries: Seq::empty(),
    }
}

/// What reading one network entry did.
#[derive(Clone, Copy, Debug, PartialEq, Eq, Structural)]
pub enum NetworkReading {
    /// The setting was read exactly.
    Exact,
    /// An IPAM entry was gathered for the end.
    Gathered,
    /// A singleton entry came again; nothing was read.
    Duplicate,
    /// The value is quoted, escaped, padded or holds a specifier; nothing was read.
    NeedsDecoding,
    /// A name, driver or IPAM driver that is not a safe scalar; nothing was read.
    UnsafeScalar,
    /// An empty `Options=` reset the driver options.
    OptionsReset,
    /// `Options=` was not one safe `NAME=VALUE` assignment.
    BadOption,
    /// A driver option name came again since the last reset.
    DuplicateOption,
    /// An empty `Label=` reset the labels.
    LabelsReset,
    /// `Label=` was not one safe `NAME=VALUE` assignment.
    BadLabel,
    /// A label name came again since the last reset.
    DuplicateLabel,
    /// `Internal=` or `IPv6=` was neither `true` nor `false`.
    InvalidBool,
}

impl NetworkReading {
    /// Why entry `setting` does not read exactly; `None` when it does or was gathered.
    pub fn reason(&self, setting: NetworkSetting) -> (reason: Option<&'static str>)
        ensures
            match self {
                NetworkReading::Exact | NetworkReading::Gathered => reason is None,
                NetworkReading::Duplicate => reason matches Some(r) && r@
                    == "Quadlet network singleton is declared more than once"@,
                NetworkReading::NeedsDecoding => reason matches Some(r) && r@
                    == "quoted, escaped, specifier-bearing, or whitespace-padded network values require native semantic decoding"@,
                NetworkReading::UnsafeScalar => reason matches Some(r) && r@ == match setting {
                    NetworkSetting::NetworkName => "NetworkName requires an unquoted systemd-safe scalar"@,
                    NetworkSetting::Driver => "Driver requires an unquoted systemd-safe scalar"@,
                    _ => "IPAMDriver requires an unquoted systemd-safe scalar"@,
                },
                NetworkReading::OptionsReset => reason matches Some(r) && r@
                    == "an empty Options assignment resets the effective list and cannot be regenerated exactly"@,
                NetworkReading::BadOption => reason matches Some(r) && r@
                    == "Options requires one explicit unquoted systemd-safe NAME=VALUE assignment"@,
                NetworkReading::DuplicateOption => reason matches Some(r) && r@
                    == "duplicate network option names are collapsed by native processing and cannot be imported exactly"@,
                NetworkReading::LabelsReset => reason matches Some(r) && r@
                    == "an empty Label assignment resets the effective list and cannot be regenerated exactly"@,
                NetworkReading::BadLabel => reason matches Some(r) && r@
                    == "Label requires one explicit unquoted systemd-safe NAME=VALUE assignment"@,
                NetworkReading::DuplicateLabel => reason matches Some(r) && r@
                    == "duplicate network label names are collapsed by native processing and cannot be imported exactly"@,
                NetworkReading::InvalidBool => reason matches Some(r) && r@
                    == "network booleans must use canonical true or false spelling"@,
            },
    {
        match self {
            NetworkReading::Exact | NetworkReading::Gathered => None,
            NetworkReading::Duplicate => Some("Quadlet network singleton is declared more than once"),
            NetworkReading::NeedsDecoding => Some(
                "quoted, escaped, specifier-bearing, or whitespace-padded network values require native semantic decoding",
            ),
            NetworkReading::UnsafeScalar => match setting {
                NetworkSetting::NetworkName => Some("NetworkName requires an unquoted systemd-safe scalar"),
                NetworkSetting::Driver => Some("Driver requires an unquoted systemd-safe scalar"),
                _ => Some("IPAMDriver requires an unquoted systemd-safe scalar"),
            },
            NetworkReading::OptionsReset => Some(
                "an empty Options assignment resets the effective list and cannot be regenerated exactly",
            ),
            NetworkReading::BadOption => Some("Options requires one explicit unquoted systemd-safe NAME=VALUE assignment"),
            NetworkReading::DuplicateOption => Some(
                "duplicate network option names are collapsed by native processing and cannot be imported exactly",
            ),
            NetworkReading::LabelsReset => Some(
                "an empty Label assignment resets the effective list and cannot be regenerated exactly",
            ),
            NetworkReading::BadLabel => Some("Label requires one explicit unquoted systemd-safe NAME=VALUE assignment"),
            NetworkReading::DuplicateLabel => Some(
                "duplicate network label names are collapsed by native processing and cannot be imported exactly",
            ),
            NetworkReading::InvalidBool => Some("network booleans must use canonical true or false spelling"),
        }
    }
}

/// The value differs from what was authored, or holds a quote, a backslash or `%`.
pub open spec fn needs_decoding(authored: Seq<char>, value: Seq<char>) -> bool {
    authored != value || has_char(value, '\'') || has_char(value, '"') || has_char(value, '\\') || has_char(value, '%')
}

/// A list with `value` appended, an unset list counting as empty.
pub open spec fn appended<T>(list: Option<Seq<T>>, value: T) -> Option<Seq<T>> {
    match list {
        Some(l) => Some(l.push(value)),
        None => Some(seq![value]),
    }
}

/// What reading entry `setting`, authored as `authored` with direct value `value`, makes of
/// reader `r`, and how it reads.
pub open spec fn network_after_entry(r: ReaderModel, setting: NetworkSetting, authored: Seq<char>, value: Seq<char>) -> (
    ReaderModel,
    NetworkReading,
) {
    if network_singleton(setting) && r.seen.contains(setting) {
        (r, NetworkReading::Duplicate)
    } else {
        let r1 = if network_singleton(setting) {
            ReaderModel { seen: r.seen.push(setting), ..r }
        } else {
            r
        };
        let m = r1.settings;
        if needs_decoding(authored, value) {
            (r1, NetworkReading::NeedsDecoding)
        } else {
            match setting {
                NetworkSetting::NetworkName => if safe_network_scalar(value, false) {
                    (ReaderModel { settings: NetworkModel { runtime_name: Some(value), ..m }, ..r1 }, NetworkReading::Exact)
                } else {
                    (r1, NetworkReading::UnsafeScalar)
                },
                NetworkSetting::Driver => if safe_network_scalar(value, false) {
                    (ReaderModel { settings: NetworkModel { driver: Some(value), ..m }, ..r1 }, NetworkReading::Exact)
                } else {
                    (r1, NetworkReading::UnsafeScalar)
                },
                NetworkSetting::IpamDriver => if safe_network_scalar(value, false) {
                    (ReaderModel { settings: NetworkModel { ipam_driver: Some(value), ..m }, ..r1 }, NetworkReading::Exact)
                } else {
                    (r1, NetworkReading::UnsafeScalar)
                },
                NetworkSetting::Options => if value.len() == 0 {
                    (
                        ReaderModel {
                            settings: NetworkModel { driver_options: Some(Seq::empty()), ..m },
                            option_names: Seq::empty(),
                            ..r1
                        },
                        NetworkReading::OptionsReset,
                    )
                } else {
                    match network_assignment(value) {
                        None => (r1, NetworkReading::BadOption),
                        Some(pair) => if r1.option_names.contains(pair.0) {
                            (r1, NetworkReading::DuplicateOption)
                        } else {
                            (
                                ReaderModel {
                                    settings: NetworkModel { driver_options: appended(m.driver_options, pair), ..m },
                                    option_names: r1.option_names.push(pair.0),
                                    ..r1
                                },
                                NetworkReading::Exact,
                            )
                        },
                    }
                },
                NetworkSetting::Label => if value.len() == 0 {
                    (
                        ReaderModel {
                            settings: NetworkModel { labels: Some(Seq::empty()), ..m },
                            label_names: Seq::empty(),
                            ..r1
                        },
                        NetworkReading::LabelsReset,
                    )
                } else {
                    match network_label(value) {
                        None => (r1, NetworkReading::BadLabel),
                        Some(pair) => if r1.label_names.contains(pair.0) {
                            (r1, NetworkReading::DuplicateLabel)
                        } else {
                            (
                                ReaderModel {
                                    settings: NetworkModel { labels: appended(m.labels, pair), ..m },
                                    label_names: r1.label_names.push(pair.0),
                                    ..r1
                                },
                                NetworkReading::Exact,
                            )
                        },
                    }
                },
                NetworkSetting::Internal => match canonical_network_bool(value) {
                    None => (r1, NetworkReading::InvalidBool),
                    Some(b) => (ReaderModel { settings: NetworkModel { internal: Some(b), ..m }, ..r1 }, NetworkReading::Exact),
                },
                NetworkSetting::Ipv6 => match canonical_network_bool(value) {
                    None => (r1, NetworkReading::InvalidBool),
                    Some(b) => (ReaderModel { settings: NetworkModel { ipv6: Some(b), ..m }, ..r1 }, NetworkReading::Exact),
                },
                NetworkSetting::Subnet => (
                    ReaderModel { ipam_entries: r1.ipam_entries.push((IpamColumn::Subnet, value)), ..r1 },
                    NetworkReading::Gathered,
                ),
                NetworkSetting::Gateway => (
                    ReaderModel { ipam_entries: r1.ipam_entries.push((IpamColumn::Gateway, value)), ..r1 },
                    NetworkReading::Gathered,
                ),
                NetworkSetting::IpRange => (
                    ReaderModel { ipam_entries: r1.ipam_entries.push((IpamColumn::IpRange, value)), ..r1 },
                    NetworkReading::Gathered,
                ),
            }
        }
    }
}

/// What the gathered IPAM entries make of the settings at the end: the one row they form, or
/// no rows when every entry was empty, and the issue when they form none.
pub open spec fn network_finish(r: ReaderModel) -> (NetworkModel, Option<IpamIssue>) {
    match ipam_reading(r.ipam_entries) {
        Ok(None) => (r.settings, None),
        Ok(Some(row)) => (NetworkModel { ipam_rows: Some(seq![row]), ..r.settings }, None),
        Err(IpamIssue::EmptyColumn { all_empty }) => (
            if all_empty {
                NetworkModel { ipam_rows: Some(Seq::empty()), ..r.settings }
            } else {
                r.settings
            },
            Some(IpamIssue::EmptyColumn { all_empty }),
        ),
        Err(issue) => (r.settings, Some(issue)),
    }
}

fn contains_text(names: &Vec<String>, name: &str) -> (found: bool)
    ensures
        found == names@.map_values(|s: String| s@).contains(name@),
{
    let ghost all = names@.map_values(|s: String| s@);
    let target = name.to_string();
    let mut i: usize = 0;
    while i < names.len()
        invariant
            i <= names@.len(),
            all == names@.map_values(|s: String| s@),
            target@ == name@,
            forall|j: int| 0 <= j < i ==> all[j] != name@,
        decreases names@.len() - i,
    {
        if names[i] == target {
            assert(all[i as int] == name@);
            return true;
        }
        i = i + 1;
    }
    false
}

fn push_pair(list: &mut Option<Vec<(String, String)>>, name: &str, value: &str)
    ensures
        pairs_view(*final(list)) == appended(pairs_view(*old(list)), (name@, value@)),
{
    let mut values = match list.take() {
        Some(values) => values,
        None => Vec::new(),
    };
    let ghost before = values@.map_values(|p: (String, String)| (p.0@, p.1@));
    values.push((name.to_string(), value.to_string()));
    assert(values@.map_values(|p: (String, String)| (p.0@, p.1@)) =~= before.push((name@, value@)));
    proof {
        if *old(list) is None {
            assert(before.push((name@, value@)) =~= seq![(name@, value@)]);
        }
    }
    *list = Some(values);
}

fn push_name(names: &mut Vec<String>, name: &str)
    ensures
        final(names)@.map_values(|s: String| s@) == old(names)@.map_values(|s: String| s@).push(name@),
{
    let ghost before = names@.map_values(|s: String| s@);
    names.push(name.to_string());
    assert(names@.map_values(|s: String| s@) =~= before.push(name@));
}

fn push_column(entries: &mut Vec<(IpamColumn, String)>, column: IpamColumn, value: &str)
    ensures
        final(entries)@.map_values(|e: (IpamColumn, String)| (e.0, e.1@)) == old(entries)@.map_values(
            |e: (IpamColumn, String)| (e.0, e.1@),
        ).push((column, value@)),
{
    let ghost before = entries@.map_values(|e: (IpamColumn, String)| (e.0, e.1@));
    entries.push((column, value.to_string()));
    assert(entries@.map_values(|e: (IpamColumn, String)| (e.0, e.1@)) =~= before.push((column, value@)));
}

impl NetworkReader {
    /// Nothing read yet.
    pub fn new() -> (reader: Self)
        ensures
            reader@ == fresh_reader(),
    {
        let reader = NetworkReader {
            settings: NetworkSettings::new(),
            seen: Vec::new(),
            option_names: Vec::new(),
            label_names: Vec::new(),
            ipam_entries: Vec::new(),
        };
        assert(reader@ =~= fresh_reader());
        reader
    }

    /// Reads entry `setting` of a network unit, authored as `authored`, with direct value
    /// `value`.
    pub fn read(&mut self, setting: NetworkSetting, authored: &str, value: &str) -> (reading: NetworkReading)
        ensures
            (final(self)@, reading) == network_after_entry(old(self)@, setting, authored@, value@),
    {
        let singleton = match setting {
            NetworkSetting::NetworkName | NetworkSetting::Driver | NetworkSetting::Internal | NetworkSetting::Ipv6
            | NetworkSetting::IpamDriver => true,
            _ => false,
        };
        if singleton {
            let mut i: usize = 0;
            while i < self.seen.len()
                invariant
                    i <= self.seen@.len(),
                    network_singleton(setting),
                    *self == *old(self),
                    forall|j: int| 0 <= j < i ==> self.seen@[j] != setting,
                decreases self.seen@.len() - i,
            {
                if self.seen[i] == setting {
                    assert(self.seen@[i as int] == setting);
                    return NetworkReading::Duplicate;
                }
                i = i + 1;
            }
            self.seen.push(setting);
        }
        let ghost r1 = self@;
        let s = chars_of(value);
        let written = chars_of(authored);
        if !crate::text::same_chars(written.as_slice(), s.as_slice()) || contains_char(s.as_slice(), '\'')
            || contains_char(s.as_slice(), '"') || contains_char(s.as_slice(), '\\') || contains_char(s.as_slice(), '%') {
            return NetworkReading::NeedsDecoding;
        }
        match setting {
            NetworkSetting::NetworkName | NetworkSetting::Driver | NetworkSetting::IpamDriver => {
                if !safe_network_scalar_chars(s.as_slice(), false) {
                    return NetworkReading::UnsafeScalar;
                }
                let text = Some(value.to_string());
                match setting {
                    NetworkSetting::NetworkName => {
                        self.settings.runtime_name = text;
                    },
                    NetworkSetting::Driver => {
                        self.settings.driver = text;
                    },
                    _ => {
                        self.settings.ipam_driver = text;
                    },
                }
                assert(self@ =~= network_after_entry(old(self)@, setting, authored@, value@).0);
                NetworkReading::Exact
            },
            NetworkSetting::Options => {
                if s.len() == 0 {
                    self.settings.driver_options = Some(Vec::new());
                    self.option_names = Vec::new();
                    assert(self@ =~= network_after_entry(old(self)@, setting, authored@, value@).0);
                    return NetworkReading::OptionsReset;
                }
                match parse_network_assignment(value) {
                    None => NetworkReading::BadOption,
                    Some((name, text)) => {
                        if contains_text(&self.option_names, name) {
                            return NetworkReading::DuplicateOption;
                        }
                        push_pair(&mut self.settings.driver_options, name, text);
                        push_name(&mut self.option_names, name);
                        assert(self@ =~= network_after_entry(old(self)@, setting, authored@, value@).0);
                        NetworkReading::Exact
                    },
                }
            },
            NetworkSetting::Label => {
                if s.len() == 0 {
                    self.settings.labels = Some(Vec::new());
                    self.label_names = Vec::new();
                    assert(self@ =~= network_after_entry(old(self)@, setting, authored@, value@).0);
                    return NetworkReading::LabelsReset;
                }
                match parse_network_label(value) {
                    None => NetworkReading::BadLabel,
                    Some((name, text)) => {
                        if contains_text(&self.label_names, name) {
                            return NetworkReading::DuplicateLabel;
                        }
                        push_pair(&mut self.settings.labels, name, text);
                        push_name(&mut self.label_names, name);
                        assert(self@ =~= network_after_entry(old(self)@, setting, authored@, value@).0);
                        NetworkReading::Exact
                    },
                }
            },
            NetworkSetting::Internal | NetworkSetting::Ipv6 => {
                match parse_canonical_network_bool(value) {
                    None => NetworkReading::InvalidBool,
                    Some(b) => {
                        match setting {
                            NetworkSetting::Internal => {
                                self.settings.internal = Some(b);
                            },
                            _ => {
                                self.settings.ipv6 = Some(b);
                            },
                        }
                        assert(self@ =~= network_after_entry(old(self)@, setting, authored@, value@).0);
                        NetworkReading::Exact
                    },
                }
            },
            NetworkSetting::Subnet | NetworkSetting::Gateway | NetworkSetting::IpRange => {
                let column = match setting {
                    NetworkSetting::Subnet => IpamColumn::Subnet,
                    NetworkSetting::Gateway => IpamColumn::Gateway,
                    _ => IpamColumn::IpRange,
                };
                push_column(&mut self.ipam_entries, column, value);
                assert(self@ =~= network_after_entry(old(self)@, setting, authored@, value@).0);
                NetworkReading::Gathered
            },
        }
    }

    /// Reads the gathered IPAM entries into the settings and hands the settings out, with the
    /// issue of the IPAM entries when they form no row.
    pub fn finish(self) -> (result: (NetworkSettings, Option<IpamIssue>))
        ensures
            (result.0@, result.1) == network_finish(self@),
    {
        let NetworkReader { settings, ipam_entries, .. } = self;
        let mut settings = settings;
        match read_ipam_entries(ipam_entries.as_slice()) {
            Ok(None) => (settings, None),
            Ok(Some(row)) => {
                settings.ipam_rows = Some(vec![row]);
                assert(settings@ =~= network_finish(self@).0);
                (settings, None)
            },
            Err(IpamIssue::EmptyColumn { all_empty }) => {
                if all_empty {
                    settings.ipam_rows = Some(Vec::new());
                    assert(settings@ =~= network_finish(self@).0);
                }
                (settings, Some(IpamIssue::EmptyColumn { all_empty }))
            },
            Err(issue) => (settings, Some(issue)),
        }
    }
}

/// The entries a plan writes, in order.
pub open spec fn written_entries(plan: Seq<NetworkPlanModel>) -> Seq<(NetworkSetting, Seq<char>)>
    decreases plan.len(),
{
    if plan.len() == 0 {
        Seq::empty()
    } else {
        written_entries(plan.drop_last()) + match plan.last() {
            NetworkPlanModel::Write(setting, value) => seq![(setting, value)],
            _ => Seq::empty(),
        }
    }
}

/// The reader after reading `entries` in order, each authored as its value.
pub open spec fn read_network_entries(r: ReaderModel, entries: Seq<(NetworkSetting, Seq<char>)>) -> ReaderModel
    decreases entries.len(),
{
    if entries.len() == 0 {
        r
    } else {
        let before = read_network_entries(r, entries.drop_last());
        network_after_entry(before, entries.last().0, entries.last().1, entries.last().1).0
    }
}

/// Names that occur once each in `pairs`.
pub open spec fn distinct_names(pairs: Seq<(Seq<char>, Seq<char>)>) -> bool {
    forall|i: int, j: int| 0 <= i < j < pairs.len() ==> (#[trigger] pairs[i]).0 != (#[trigger] pairs[j]).0
}

/// Settings that the unit carries exactly: the runtime name, driver and IPAM driver are safe
/// scalars, options and labels are non-empty lists of safe pairs with distinct names, and the
/// address rows are one row of safe values.
pub open spec fn carried_exactly(name: Seq<char>, m: NetworkModel) -> bool {
    &&& safe_network_scalar(written_runtime_name(name, m), false)
    &&& (m.driver matches Some(v) ==> safe_network_scalar(v, false))
    &&& (m.ipam_driver matches Some(v) ==> safe_network_scalar(v, false))
    &&& (m.driver_options matches Some(os) ==> os.len() > 0 && distinct_names(os) && forall|i: int|
        0 <= i < os.len() ==> option_written(#[trigger] os[i]))
    &&& (m.labels matches Some(ls) ==> ls.len() > 0 && distinct_names(ls) && forall|i: int|
        0 <= i < ls.len() ==> label_written(#[trigger] ls[i]))
    &&& (m.ipam_rows matches Some(rs) ==> rs.len() == 1 && safe_network_scalar(rs[0].subnet, false) && (
    rs[0].gateway matches Some(g) ==> safe_network_scalar(g, false)) && (rs[0].ip_range matches Some(r)
        ==> safe_network_scalar(r, false)))
}

proof fn lemma_written_concat(a: Seq<NetworkPlanModel>, b: Seq<NetworkPlanModel>)
    ensures
        written_entries(a + b) == written_entries(a) + written_entries(b),
    decreases b.len(),
{
    if b.len() == 0 {
        assert(a + b =~= a);
    } else {
        lemma_written_concat(a, b.drop_last());
        assert((a + b).drop_last() =~= a + b.drop_last());
        assert((a + b).last() == b.last());
    }
}

proof fn lemma_read_concat(r: ReaderModel, a: Seq<(NetworkSetting, Seq<char>)>, b: Seq<(NetworkSetting, Seq<char>)>)
    ensures
        read_network_entries(r, a + b) == read_network_entries(read_network_entries(r, a), b),
    decreases b.len(),
{
    if b.len() == 0 {
        assert(a + b =~= a);
    } else {
        lemma_read_concat(r, a, b.drop_last());
        assert((a + b).drop_last() =~= a + b.drop_last());
        assert((a + b).last() == b.last());
    }
}

proof fn lemma_read_plan_concat(r: ReaderModel, a: Seq<NetworkPlanModel>, b: Seq<NetworkPlanModel>)
    ensures
        read_network_entries(r, written_entries(a + b)) == read_network_entries(
            read_network_entries(r, written_entries(a)),
            written_entries(b),
        ),
{
    lemma_written_concat(a, b);
    lemma_read_concat(r, written_entries(a), written_entries(b));
}

/// Holds no quote, backslash or `%`.
spec fn plain(value: Seq<char>) -> bool {
    !has_char(value, '\'') && !has_char(value, '"') && !has_char(value, '\\') && !has_char(value, '%')
}

proof fn lemma_safe_is_plain(value: Seq<char>, allow_empty: bool)
    requires
        safe_network_scalar(value, allow_empty),
    ensures
        plain(value),
{
    assert forall|c: char| c == '\'' || c == '"' || c == '\\' || c == '%' implies !has_char(value, c) by {
        if has_char(value, c) {
            let i = choose|i: int| 0 <= i < value.len() && value[i] == c;
            assert(!crate::charset::in_set(crate::charset::Charset::NetworkForbidden, value[i]));
        }
    }
}

proof fn lemma_pair_plain(pair: (Seq<char>, Seq<char>))
    requires
        safe_network_scalar(pair.0, false),
        safe_network_scalar(pair.1, true),
    ensures
        plain(pair_text(pair)),
        pair_text(pair).len() > 0,
{
    lemma_safe_is_plain(pair.0, false);
    lemma_safe_is_plain(pair.1, true);
    let t = pair_text(pair);
    assert forall|c: char| c == '\'' || c == '"' || c == '\\' || c == '%' implies !has_char(t, c) by {
        if has_char(t, c) {
            let i = choose|i: int| 0 <= i < t.len() && t[i] == c;
            if i < pair.0.len() {
                assert(t[i] == pair.0[i]);
            } else if i > pair.0.len() {
                assert(t[i] == pair.1[i - pair.0.len() - 1]);
            }
        }
    }
}

/// The order in which the plan writes singletons.
spec fn rank(setting: NetworkSetting) -> int {
    match setting {
        NetworkSetting::NetworkName => 0,
        NetworkSetting::Driver => 1,
        NetworkSetting::Internal => 2,
        NetworkSetting::Ipv6 => 3,
        NetworkSetting::IpamDriver => 4,
        _ => 5,
    }
}

/// Every singleton seen comes before `bound`.
spec fn seen_before(seen: Seq<NetworkSetting>, bound: int) -> bool {
    forall|i: int| 0 <= i < seen.len() ==> rank(#[trigger] seen[i]) < bound
}

proof fn lemma_read_singleton(r: ReaderModel, setting: NetworkSetting, value: Seq<char>)
    requires
        network_singleton(setting),
        seen_before(r.seen, rank(setting)),
        plain(value),
    ensures
        read_network_entries(r, seq![(setting, value)]) == network_after_entry(r, setting, value, value).0,
        !r.seen.contains(setting),
        network_after_entry(r, setting, value, value).0.seen == r.seen.push(setting),
        seen_before(r.seen.push(setting), rank(setting) + 1),
{
    reveal_with_fuel(read_network_entries, 2);
    assert(seq![(setting, value)].drop_last() =~= Seq::<(NetworkSetting, Seq<char>)>::empty());
    assert(!r.seen.contains(setting)) by {
        if r.seen.contains(setting) {
            let i = choose|i: int| 0 <= i < r.seen.len() && r.seen[i] == setting;
            assert(rank(r.seen[i]) < rank(setting));
        }
    }
}

proof fn lemma_read_scalar(r: ReaderModel, setting: NetworkSetting, value: Option<Seq<char>>, reason: Seq<char>)
    requires
        setting == NetworkSetting::Driver || setting == NetworkSetting::IpamDriver,
        seen_before(r.seen, rank(setting)),
        value matches Some(v) ==> safe_network_scalar(v, false),
    ensures
        ({
            let after = read_network_entries(r, written_entries(scalar_plan(setting, value, reason)));
            &&& seen_before(after.seen, rank(setting) + 1)
            &&& after == match value {
                Some(v) => ReaderModel {
                    settings: if setting == NetworkSetting::Driver {
                        NetworkModel { driver: Some(v), ..r.settings }
                    } else {
                        NetworkModel { ipam_driver: Some(v), ..r.settings }
                    },
                    seen: r.seen.push(setting),
                    ..r
                },
                None => r,
            }
        }),
{
    reveal_with_fuel(written_entries, 2);
    match value {
        Some(v) => {
            let plan = scalar_plan(setting, value, reason);
            assert(plan.drop_last() =~= Seq::<NetworkPlanModel>::empty());
            assert(written_entries(plan) =~= seq![(setting, v)]);
            lemma_safe_is_plain(v, false);
            lemma_read_singleton(r, setting, v);
        },
        None => {
            assert(written_entries(scalar_plan(setting, value, reason)) =~= Seq::<(NetworkSetting, Seq<char>)>::empty());
        },
    }
}

proof fn lemma_read_flag(r: ReaderModel, setting: NetworkSetting, value: Option<bool>)
    requires
        setting == NetworkSetting::Internal || setting == NetworkSetting::Ipv6,
        seen_before(r.seen, rank(setting)),
    ensures
        ({
            let after = read_network_entries(r, written_entries(flag_plan(setting, value)));
            &&& seen_before(after.seen, rank(setting) + 1)
            &&& after == match value {
                Some(b) => ReaderModel {
                    settings: if setting == NetworkSetting::Internal {
                        NetworkModel { internal: Some(b), ..r.settings }
                    } else {
                        NetworkModel { ipv6: Some(b), ..r.settings }
                    },
                    seen: r.seen.push(setting),
                    ..r
                },
                None => r,
            }
        }),
{
    reveal_with_fuel(written_entries, 2);
    match value {
        Some(b) => {
            let plan = flag_plan(setting, value);
            assert(plan.drop_last() =~= Seq::<NetworkPlanModel>::empty());
            assert(written_entries(plan) =~= seq![(setting, bool_spelling(b))]);
            assert(plain(bool_spelling(b))) by {
                let t = bool_spelling(b);
                assert forall|c: char| c == '\'' || c == '"' || c == '\\' || c == '%' implies !has_char(t, c) by {
                    if has_char(t, c) {
                        let i = choose|i: int| 0 <= i < t.len() && t[i] == c;
                    }
                }
            }
            lemma_bool_spelling_reads_back(b);
            lemma_read_singleton(r, setting, bool_spelling(b));
        },
        None => {
            assert(written_entries(flag_plan(setting, value)) =~= Seq::<(NetworkSetting, Seq<char>)>::empty());
        },
    }
}


/// Appends `values` to an optional list, an unset list counting as empty; appending nothing
/// leaves it as it was.
pub open spec fn extended<T>(list: Option<Seq<T>>, values: Seq<T>) -> Option<Seq<T>> {
    if values.len() == 0 {
        list
    } else {
        match list {
            Some(l) => Some(l + values),
            None => Some(values),
        }
    }
}

/// The names of `pairs`.
spec fn pair_names(pairs: Seq<(Seq<char>, Seq<char>)>) -> Seq<Seq<char>> {
    pairs.map_values(|p: (Seq<char>, Seq<char>)| p.0)
}

/// `r` with `pairs` appended to its labels (`labels`) or driver options, and their names to
/// the names read.
spec fn with_pairs(r: ReaderModel, labels: bool, pairs: Seq<(Seq<char>, Seq<char>)>) -> ReaderModel {
    if labels {
        ReaderModel {
            settings: NetworkModel { labels: extended(r.settings.labels, pairs), ..r.settings },
            label_names: r.label_names + pair_names(pairs),
            ..r
        }
    } else {
        ReaderModel {
            settings: NetworkModel { driver_options: extended(r.settings.driver_options, pairs), ..r.settings },
            option_names: r.option_names + pair_names(pairs),
            ..r
        }
    }
}

proof fn lemma_read_pairs(r: ReaderModel, setting: NetworkSetting, pairs: Seq<(Seq<char>, Seq<char>)>, labels: bool)
    requires
        labels <==> setting == NetworkSetting::Label,
        setting == NetworkSetting::Label || setting == NetworkSetting::Options,
        forall|i: int|
            0 <= i < pairs.len() ==> if labels {
                label_written(#[trigger] pairs[i])
            } else {
                option_written(pairs[i])
            },
        distinct_names(pairs),
        forall|i: int|
            0 <= i < pairs.len() ==> !(if labels {
                r.label_names
            } else {
                r.option_names
            }).contains((#[trigger] pairs[i]).0),
    ensures
        read_network_entries(r, written_entries(pair_items(setting, pairs, labels))) == with_pairs(r, labels, pairs),
    decreases pairs.len(),
{
    reveal_with_fuel(written_entries, 2);
    reveal_with_fuel(read_network_entries, 2);
    if pairs.len() == 0 {
        assert(written_entries(pair_items(setting, pairs, labels)) =~= Seq::<(NetworkSetting, Seq<char>)>::empty());
        assert(pair_names(pairs) =~= Seq::<Seq<char>>::empty());
        assert(with_pairs(r, labels, pairs) =~= r);
    } else {
        let rest = pairs.drop_last();
        let pair = pairs.last();
        assert(pair == pairs[pairs.len() - 1]);
        assert forall|i: int|
            0 <= i < rest.len() implies if labels {
                label_written(#[trigger] rest[i])
            } else {
                option_written(rest[i])
            } by {
            assert(rest[i] == pairs[i]);
        }
        assert forall|i: int, j: int| 0 <= i < j < rest.len() implies (#[trigger] rest[i]).0 != (#[trigger] rest[j]).0 by {
            assert(rest[i] == pairs[i] && rest[j] == pairs[j]);
        }
        assert forall|i: int|
            0 <= i < rest.len() implies !(if labels {
                r.label_names
            } else {
                r.option_names
            }).contains((#[trigger] rest[i]).0) by {
            assert(rest[i] == pairs[i]);
        }
        lemma_read_pairs(r, setting, rest, labels);
        let text = pair_text(pair);
        let item = seq![NetworkPlanModel::Write(setting, text)];
        assert(pair_items(setting, pairs, labels) == pair_items(setting, rest, labels) + item);
        lemma_written_concat(pair_items(setting, rest, labels), item);
        assert(item.drop_last() =~= Seq::<NetworkPlanModel>::empty());
        assert(written_entries(item) =~= seq![(setting, text)]);
        lemma_read_concat(r, written_entries(pair_items(setting, rest, labels)), seq![(setting, text)]);
        assert(seq![(setting, text)].drop_last() =~= Seq::<(NetworkSetting, Seq<char>)>::empty());
        if labels {
            lemma_network_label_reads_back(pair.0, pair.1);
            assert(safe_network_scalar(pair.0, false)) by {
                assert forall|i: int| 0 <= i < pair.0.len() implies !crate::charset::in_set(
                    crate::charset::Charset::NetworkForbidden,
                    #[trigger] pair.0[i],
                ) by {
                    assert(crate::charset::in_set(crate::charset::Charset::LabelName, pair.0[i]));
                }
                assert(crate::charset::in_set(crate::charset::Charset::LabelName, pair.0[0]));
                assert(crate::charset::in_set(crate::charset::Charset::LabelName, pair.0[pair.0.len() - 1]));
            }
        } else {
            lemma_network_assignment_reads_back(pair.0, pair.1);
        }
        lemma_pair_plain(pair);
        let mid = with_pairs(r, labels, rest);
        let names = if labels {
            mid.label_names
        } else {
            mid.option_names
        };
        assert(!names.contains(pair.0)) by {
            if names.contains(pair.0) {
                let i = choose|i: int| 0 <= i < names.len() && names[i] == pair.0;
                let base = if labels {
                    r.label_names
                } else {
                    r.option_names
                };
                if i < base.len() {
                    assert(base.contains(pair.0));
                    assert(!base.contains(pairs[pairs.len() - 1].0));
                } else {
                    assert(pair_names(rest)[i - base.len()] == rest[i - base.len()].0);
                    assert(rest[i - base.len()] == pairs[i - base.len()]);
                }
            }
        }
        assert(pair_names(rest).push(pair.0) =~= pair_names(pairs));
        assert(rest.push(pair) =~= pairs);
        if labels {
            match r.settings.labels {
                Some(l) => {
                    assert(l + rest.push(pair) =~= (l + rest).push(pair));
                },
                None => {
                    if rest.len() == 0 {
                        assert(rest.push(pair) =~= seq![pair]);
                    }
                },
            }
        } else {
            match r.settings.driver_options {
                Some(l) => {
                    assert(l + rest.push(pair) =~= (l + rest).push(pair));
                },
                None => {
                    if rest.len() == 0 {
                        assert(rest.push(pair) =~= seq![pair]);
                    }
                },
            }
        }
        assert(network_after_entry(mid, setting, text, text).0 =~= with_pairs(r, labels, pairs));
    }
}

proof fn lemma_read_columns(r: ReaderModel, columns: Seq<(IpamColumn, Seq<char>)>)
    requires
        forall|i: int| 0 <= i < columns.len() ==> safe_network_scalar((#[trigger] columns[i]).1, false),
    ensures
        read_network_entries(r, written_entries(column_items(columns))) == (ReaderModel {
            ipam_entries: r.ipam_entries + columns,
            ..r
        }),
    decreases columns.len(),
{
    reveal_with_fuel(written_entries, 2);
    reveal_with_fuel(read_network_entries, 2);
    if columns.len() == 0 {
        assert(written_entries(column_items(columns)) =~= Seq::<(NetworkSetting, Seq<char>)>::empty());
        assert(ReaderModel { ipam_entries: r.ipam_entries + columns, ..r } =~= r);
    } else {
        let rest = columns.drop_last();
        let (column, value) = columns.last();
        assert(columns.last() == columns[columns.len() - 1]);
        assert forall|i: int| 0 <= i < rest.len() implies safe_network_scalar((#[trigger] rest[i]).1, false) by {
            assert(rest[i] == columns[i]);
        }
        lemma_read_columns(r, rest);
        let item = seq![NetworkPlanModel::Write(column_setting(column), value)];
        assert(column_items(columns) == column_items(rest) + item);
        lemma_written_concat(column_items(rest), item);
        assert(item.drop_last() =~= Seq::<NetworkPlanModel>::empty());
        assert(written_entries(item) =~= seq![(column_setting(column), value)]);
        lemma_read_concat(r, written_entries(column_items(rest)), seq![(column_setting(column), value)]);
        assert(seq![(column_setting(column), value)].drop_last() =~= Seq::<(NetworkSetting, Seq<char>)>::empty());
        lemma_safe_is_plain(value, false);
        assert((r.ipam_entries + rest).push((column, value)) =~= r.ipam_entries + columns);
    }
}

proof fn lemma_read_rows(r: ReaderModel, rows: Option<Seq<IpamRowModel>>)
    requires
        r.ipam_entries.len() == 0,
        rows matches Some(rs) ==> rs.len() == 1 && safe_network_scalar(rs[0].subnet, false) && (rs[0].gateway matches Some(
            g,
        ) ==> safe_network_scalar(g, false)) && (rs[0].ip_range matches Some(v) ==> safe_network_scalar(v, false)),
    ensures
        network_finish(read_network_entries(r, written_entries(rows_plan(rows)))) == ((
        NetworkModel { ipam_rows: match rows {
            Some(rs) => Some(rs),
            None => r.settings.ipam_rows,
        }, ..r.settings }, None::<IpamIssue>)),
{
    reveal_with_fuel(written_entries, 2);
    reveal_with_fuel(read_network_entries, 2);
    match rows {
        Some(rs) => {
            let row = rs[0];
            reveal_with_fuel(ipam_columns, 2);
            assert(rs.drop_last() =~= Seq::<IpamRowModel>::empty());
            assert(ipam_columns(rs) =~= row_columns(row));
            lemma_ipam_row_reads_back(row);
            assert forall|i: int| 0 <= i < row_columns(row).len() implies safe_network_scalar(
                (#[trigger] row_columns(row)[i]).1,
                false,
            ) by {
                assert(crate::ipam::written_entry(row_columns(row)[i]).2);
            }
            lemma_read_columns(r, row_columns(row));
            assert(r.ipam_entries + row_columns(row) =~= row_columns(row));
            assert(seq![row] =~= rs);
        },
        None => {
            assert(written_entries(rows_plan(rows)) =~= Seq::<(NetworkSetting, Seq<char>)>::empty());
            assert(r.ipam_entries =~= Seq::<(IpamColumn, Seq<char>)>::empty());
            assert(NetworkModel { ipam_rows: r.settings.ipam_rows, ..r.settings } =~= r.settings);
        },
    }
}

/// A network written as a unit reads back as the same network: when its settings are carried
/// exactly, reading the entries that [`plan_network_entries`] writes, in order, each as
/// authored, from a fresh reader, and finishing, gives back every setting with no IPAM issue,
/// the runtime name set to the one written (the network's name when it had none).
pub proof fn lemma_network_reads_back(name: Seq<char>, m: NetworkModel)
    requires
        carried_exactly(name, m),
    ensures
        network_finish(read_network_entries(fresh_reader(), written_entries(network_plan(name, m)))) == ((
        NetworkModel { runtime_name: Some(written_runtime_name(name, m)), ..m }, None::<IpamIssue>)),
{
    reveal_with_fuel(written_entries, 2);
    let f = fresh_reader();
    let runtime = written_runtime_name(name, m);
    let p0 = seq![NetworkPlanModel::Write(NetworkSetting::NetworkName, runtime)];
    assert(p0.drop_last() =~= Seq::<NetworkPlanModel>::empty());
    assert(written_entries(p0) =~= seq![(NetworkSetting::NetworkName, runtime)]);
    lemma_safe_is_plain(runtime, false);
    lemma_read_singleton(f, NetworkSetting::NetworkName, runtime);
    let s0 = read_network_entries(f, written_entries(p0));
    assert(s0.settings == NetworkModel { runtime_name: Some(runtime), ..unset_network() });

    let p1 = scalar_plan(NetworkSetting::Driver, m.driver, "network driver must be an unquoted systemd-safe scalar"@);
    lemma_read_plan_concat(f, p0, p1);
    lemma_read_scalar(s0, NetworkSetting::Driver, m.driver, "network driver must be an unquoted systemd-safe scalar"@);
    let a1 = p0 + p1;
    let s1 = read_network_entries(f, written_entries(a1));

    let p2 = options_plan(m.driver_options);
    lemma_read_plan_concat(f, a1, p2);
    match m.driver_options {
        Some(os) => {
            lemma_read_pairs(s1, NetworkSetting::Options, os, false);
        },
        None => {
            assert(written_entries(p2) =~= Seq::<(NetworkSetting, Seq<char>)>::empty());
        },
    }
    let a2 = a1 + p2;
    let s2 = read_network_entries(f, written_entries(a2));
    assert(s2.settings.driver_options == m.driver_options);
    assert(s2.seen == s1.seen && s2.label_names == s1.label_names && s2.ipam_entries == s1.ipam_entries);

    let p3 = labels_plan(m.labels);
    lemma_read_plan_concat(f, a2, p3);
    match m.labels {
        Some(ls) => {
            lemma_read_pairs(s2, NetworkSetting::Label, ls, true);
        },
        None => {
            assert(written_entries(p3) =~= Seq::<(NetworkSetting, Seq<char>)>::empty());
        },
    }
    let a3 = a2 + p3;
    let s3 = read_network_entries(f, written_entries(a3));
    assert(s3.settings.labels == m.labels);
    assert(s3.seen == s1.seen && s3.ipam_entries == s1.ipam_entries);

    let p4 = flag_plan(NetworkSetting::Internal, m.internal);
    lemma_read_plan_concat(f, a3, p4);
    lemma_read_flag(s3, NetworkSetting::Internal, m.internal);
    let a4 = a3 + p4;
    let s4 = read_network_entries(f, written_entries(a4));

    let p5 = flag_plan(NetworkSetting::Ipv6, m.ipv6);
    lemma_read_plan_concat(f, a4, p5);
    lemma_read_flag(s4, NetworkSetting::Ipv6, m.ipv6);
    let a5 = a4 + p5;
    let s5 = read_network_entries(f, written_entries(a5));

    let p6 = scalar_plan(NetworkSetting::IpamDriver, m.ipam_driver, "IPAM driver must be an unquoted systemd-safe scalar"@);
    lemma_read_plan_concat(f, a5, p6);
    lemma_read_scalar(s5, NetworkSetting::IpamDriver, m.ipam_driver, "IPAM driver must be an unquoted systemd-safe scalar"@);
    let a6 = a5 + p6;
    let s6 = read_network_entries(f, written_entries(a6));
    assert(s6.ipam_entries.len() == 0);

    let p7 = rows_plan(m.ipam_rows);
    lemma_read_plan_concat(f, a6, p7);
    lemma_read_rows(s6, m.ipam_rows);
    let a7 = a6 + p7;
    assert(a7 == network_plan(name, m));
    assert(s6.settings =~= NetworkModel { runtime_name: Some(runtime), ipam_rows: None, ..m });
}

/// The views of a unit's entries.
pub open spec fn entry_views(entries: Seq<(NetworkSetting, String)>) -> Seq<(NetworkSetting, Seq<char>)> {
    entries.map_values(|e: (NetworkSetting, String)| (e.0, e.1@))
}

/// Reads a network unit's entries in order with a fresh reader and finishes it: the settings read, how each
/// entry read, and what finishing reported.
pub fn read_network_unit(entries: &[(NetworkSetting, String)]) -> (read: (NetworkSettings, Vec<NetworkReading>, Option<IpamIssue>))
    ensures
        (read.0@, read.2) == network_finish(read_network_entries(fresh_reader(), entry_views(entries@))),
        read.1@.len() == entries@.len(),
        forall|i: int|
            0 <= i < entries@.len() ==> #[trigger] read.1@[i] == network_after_entry(
                read_network_entries(fresh_reader(), entry_views(entries@).take(i)),
                entries@[i].0,
                entries@[i].1@,
                entries@[i].1@,
            ).1,
{
    let ghost views = entry_views(entries@);
    let mut reader = NetworkReader::new();
    let mut readings: Vec<NetworkReading> = Vec::new();
    let mut i: usize = 0;
    assert(views.take(0) =~= Seq::<(NetworkSetting, Seq<char>)>::empty());
    while i < entries.len()
        invariant
            i <= entries@.len(),
            views == entry_views(entries@),
            reader@ == read_network_entries(fresh_reader(), views.take(i as int)),
            readings@.len() == i,
            forall|j: int|
                0 <= j < i ==> #[trigger] readings@[j] == network_after_entry(
                    read_network_entries(fresh_reader(), views.take(j)),
                    entries@[j].0,
                    entries@[j].1@,
                    entries@[j].1@,
                ).1,
        decreases entries@.len() - i,
    {
        let reading = reader.read(entries[i].0, entries[i].1.as_str(), entries[i].1.as_str());
        readings.push(reading);
        proof {
            let t = views.take(i + 1);
            assert(t.drop_last() =~= views.take(i as int));
            assert(t.last() == (entries@[i as int].0, entries@[i as int].1@));
        }
        i += 1;
    }
    assert(views.take(entries@.len() as int) =~= views);
    let (settings, finished) = reader.finish();
    (settings, readings, finished)
}

} // verus!
