//! Network IPAM rows: the `Subnet=`, `Gateway=` and `IPRange=` entries written for a network's
//! address rows, and the one row that such entries can be read back as.

use vstd::prelude::*;
use crate::grammar::{safe_network_scalar, safe_network_scalar_chars};
use crate::text::chars_of;

verus! {

broadcast use vstd::string::group_string_axioms;

/// The IPAM columns of a network unit.
#[derive(Clone, Copy, Debug, PartialEq, Eq, Structural)]
pub enum IpamColumn {
    /// `Subnet=`.
    Subnet,
    /// `Gateway=`.
    Gateway,
    /// `IPRange=`.
    IpRange,
}

/// One address row of a network: a subnet, with an optional gateway and allocation range.
#[derive(Clone, Debug, PartialEq, Eq)]
pub struct IpamRow {
    pub subnet: String,
    pub gateway: Option<String>,
    pub ip_range: Option<String>,
}

/// Mathematical model of an [`IpamRow`].
pub struct IpamRowModel {
    pub subnet: Seq<char>,
    pub gateway: Option<Seq<char>>,
    pub ip_range: Option<Seq<char>>,
}

/// The view of an optional string.
pub open spec fn text_view(value: Option<String>) -> Option<Seq<char>> {
    match value {
        Some(v) => Some(v@),
        None => None,
    }
}

impl View for IpamRow {
    type V = IpamRowModel;

    open spec fn view(&self) -> IpamRowModel {
        IpamRowModel { subnet: self.subnet@, gateway: text_view(self.gateway), ip_range: text_view(self.ip_range) }
    }
}

/// The entries of one row: its subnet, then its gateway and its range where it has them.
pub open spec fn row_columns(row: IpamRowModel) -> Seq<(IpamColumn, Seq<char>)> {
    seq![(IpamColumn::Subnet, row.subnet)] + match row.gateway {
        Some(g) => seq![(IpamColumn::Gateway, g)],
        None => Seq::empty(),
    } + match row.ip_range {
        Some(r) => seq![(IpamColumn::IpRange, r)],
        None => Seq::empty(),
    }
}

/// The entries of `rows`, row after row.
pub open spec fn ipam_columns(rows: Seq<IpamRowModel>) -> Seq<(IpamColumn, Seq<char>)>
    decreases rows.len(),
{
    if rows.len() == 0 {
        Seq::empty()
    } else {
        ipam_columns(rows.drop_last()) + row_columns(rows.last())
    }
}

/// An entry is written when its value is a non-empty systemd-safe network scalar.
pub open spec fn written_entry(entry: (IpamColumn, Seq<char>)) -> (IpamColumn, Seq<char>, bool) {
    (entry.0, entry.1, safe_network_scalar(entry.1, false))
}

/// Plans the entries for the address rows `rows`: each column of each row in order, with
/// whether it is written. An explicit empty list of rows is not written at all.
pub fn plan_ipam_entries(rows: &[IpamRow]) -> (plan: Result<Vec<(IpamColumn, String, bool)>, &'static str>)
    ensures
        match plan {
            Err(reason) => rows@.len() == 0 && reason@
                == "an explicit empty IPAM collection has no safe Quadlet reset encoding"@,
            Ok(entries) => rows@.len() > 0 && entries@.map_values(|e: (IpamColumn, String, bool)| (e.0, e.1@, e.2))
                == ipam_columns(rows@.map_values(|r: IpamRow| r@)).map_values(
                |e: (IpamColumn, Seq<char>)| written_entry(e),
            ),
        },
{
    if rows.len() == 0 {
        return Err("an explicit empty IPAM collection has no safe Quadlet reset encoding");
    }
    let ghost models = rows@.map_values(|r: IpamRow| r@);
    let mut entries: Vec<(IpamColumn, String, bool)> = Vec::new();
    let mut k: usize = 0;
    while k < rows.len()
        invariant
            k <= rows@.len(),
            models == rows@.map_values(|r: IpamRow| r@),
            entries@.map_values(|e: (IpamColumn, String, bool)| (e.0, e.1@, e.2)) == ipam_columns(
                models.take(k as int),
            ).map_values(|e: (IpamColumn, Seq<char>)| written_entry(e)),
        decreases rows@.len() - k,
    {
        let ghost before = entries@.map_values(|e: (IpamColumn, String, bool)| (e.0, e.1@, e.2));
        let row = &rows[k];
        assert(models[k as int] == row@);
        assert(models.take(k + 1).drop_last() =~= models.take(k as int));
        let subnet = row.subnet.clone();
        let safe = safe_network_scalar_chars(chars_of(subnet.as_str()).as_slice(), false);
        entries.push((IpamColumn::Subnet, subnet, safe));
        let ghost with_subnet = before.push(written_entry((IpamColumn::Subnet, row@.subnet)));
        assert(entries@.map_values(|e: (IpamColumn, String, bool)| (e.0, e.1@, e.2)) =~= with_subnet);
        let ghost with_gateway = match row@.gateway {
            Some(g) => with_subnet.push(written_entry((IpamColumn::Gateway, g))),
            None => with_subnet,
        };
        match &row.gateway {
            Some(gateway) => {
                let gateway = gateway.clone();
                let safe = safe_network_scalar_chars(chars_of(gateway.as_str()).as_slice(), false);
                entries.push((IpamColumn::Gateway, gateway, safe));
            },
            None => {},
        }
        assert(entries@.map_values(|e: (IpamColumn, String, bool)| (e.0, e.1@, e.2)) =~= with_gateway);
        let ghost with_range = match row@.ip_range {
            Some(r) => with_gateway.push(written_entry((IpamColumn::IpRange, r))),
            None => with_gateway,
        };
        match &row.ip_range {
            Some(range) => {
                let range = range.clone();
                let safe = safe_network_scalar_chars(chars_of(range.as_str()).as_slice(), false);
                entries.push((IpamColumn::IpRange, range, safe));
            },
            None => {},
        }
        assert(entries@.map_values(|e: (IpamColumn, String, bool)| (e.0, e.1@, e.2)) =~= with_range);
        assert(with_range =~= ipam_columns(models.take(k + 1)).map_values(
            |e: (IpamColumn, Seq<char>)| written_entry(e),
        ));
        k = k + 1;
    }
    assert(models.take(rows@.len() as int) =~= models);
    Ok(entries)
}

/// Why IPAM entries do not read as one address row.
#[derive(Clone, Copy, Debug, PartialEq, Eq, Structural)]
pub enum IpamIssue {
    /// Some entry is empty, which resets the column; `all_empty` when every entry is, which
    /// clears the rows.
    EmptyColumn { all_empty: bool },
    /// Some value is not an unquoted systemd-safe scalar.
    UnsafeColumn,
    /// A gateway or range without a subnet.
    MissingSubnet,
    /// More than one subnet, gateway or range.
    RepeatedColumns,
    /// A gateway or range before the subnet.
    AheadOfSubnet,
}

impl IpamIssue {
    /// Why the entries were set aside.
    pub fn reason(&self) -> (reason: &'static str)
        ensures
            reason@ == match self {
                IpamIssue::EmptyColumn { .. } => "an empty IPAM column assignment resets native state and cannot be regenerated exactly"@,
                IpamIssue::UnsafeColumn => "IPAM columns require unquoted systemd-safe scalar values"@,
                IpamIssue::MissingSubnet => "Gateway or IPRange requires a Subnet"@,
                IpamIssue::RepeatedColumns => "independent repeated IPAM columns cannot be associated safely without positional zipping"@,
                IpamIssue::AheadOfSubnet => "Gateway and IPRange must physically follow their Subnet to establish one safe row"@,
            },
    {
        match self {
            IpamIssue::EmptyColumn { .. } => "an empty IPAM column assignment resets native state and cannot be regenerated exactly",
            IpamIssue::UnsafeColumn => "IPAM columns require unquoted systemd-safe scalar values",
            IpamIssue::MissingSubnet => "Gateway or IPRange requires a Subnet",
            IpamIssue::RepeatedColumns => "independent repeated IPAM columns cannot be associated safely without positional zipping",
            IpamIssue::AheadOfSubnet => "Gateway and IPRange must physically follow their Subnet to establish one safe row",
        }
    }
}

/// The number of entries of column `column`.
pub open spec fn column_count(entries: Seq<(IpamColumn, Seq<char>)>, column: IpamColumn) -> nat
    decreases entries.len(),
{
    if entries.len() == 0 {
        0
    } else {
        column_count(entries.drop_last(), column) + if entries.last().0 == column {
            1nat
        } else {
            0nat
        }
    }
}

/// The value of the last entry of column `column`, if any.
pub open spec fn column_value(entries: Seq<(IpamColumn, Seq<char>)>, column: IpamColumn) -> Option<Seq<char>>
    decreases entries.len(),
{
    if entries.len() == 0 {
        None
    } else if entries.last().0 == column {
        Some(entries.last().1)
    } else {
        column_value(entries.drop_last(), column)
    }
}

/// Some gateway or range entry comes before a subnet entry.
pub open spec fn ahead_of_subnet(entries: Seq<(IpamColumn, Seq<char>)>) -> bool {
    exists|i: int, j: int|
        0 <= i < j < entries.len() && (#[trigger] entries[i]).0 != IpamColumn::Subnet && (#[trigger] entries[j]).0
            == IpamColumn::Subnet
}

/// What a network unit's IPAM entries, in order, read as: nothing when there are none; an issue
/// when some entry is empty or unsafe, a gateway or range has no subnet, a column repeats, or a
/// gateway or range comes before the subnet; otherwise the one row they form.
pub open spec fn ipam_reading(entries: Seq<(IpamColumn, Seq<char>)>) -> Result<Option<IpamRowModel>, IpamIssue> {
    if entries.len() == 0 {
        Ok(None)
    } else if exists|i: int| 0 <= i < entries.len() && (#[trigger] entries[i]).1.len() == 0 {
        Err(IpamIssue::EmptyColumn { all_empty: forall|i: int| 0 <= i < entries.len() ==> (#[trigger] entries[i]).1.len() == 0 })
    } else if exists|i: int| 0 <= i < entries.len() && !safe_network_scalar((#[trigger] entries[i]).1, false) {
        Err(IpamIssue::UnsafeColumn)
    } else if column_count(entries, IpamColumn::Subnet) == 0 {
        Err(IpamIssue::MissingSubnet)
    } else if column_count(entries, IpamColumn::Subnet) != 1 || column_count(entries, IpamColumn::Gateway) > 1
        || column_count(entries, IpamColumn::IpRange) > 1 {
        Err(IpamIssue::RepeatedColumns)
    } else if ahead_of_subnet(entries) {
        Err(IpamIssue::AheadOfSubnet)
    } else {
        Ok(
            Some(
                IpamRowModel {
                    subnet: column_value(entries, IpamColumn::Subnet)->Some_0,
                    gateway: column_value(entries, IpamColumn::Gateway),
                    ip_range: column_value(entries, IpamColumn::IpRange),
                },
            ),
        )
    }
}

/// The view of a reading.
pub open spec fn reading_view(reading: Result<Option<IpamRow>, IpamIssue>) -> Result<Option<IpamRowModel>, IpamIssue> {
    match reading {
        Ok(Some(row)) => Ok(Some(row@)),
        Ok(None) => Ok(None),
        Err(issue) => Err(issue),
    }
}

proof fn lemma_column_value_some(entries: Seq<(IpamColumn, Seq<char>)>, column: IpamColumn)
    ensures
        column_count(entries, column) > 0 <==> column_value(entries, column) is Some,
    decreases entries.len(),
{
    if entries.len() > 0 {
        lemma_column_value_some(entries.drop_last(), column);
    }
}

/// Reads a network unit's IPAM entries, in order, as one address row.
pub fn read_ipam_entries(entries: &[(IpamColumn, String)]) -> (reading: Result<Option<IpamRow>, IpamIssue>)
    ensures
        reading_view(reading) == ipam_reading(entries@.map_values(|e: (IpamColumn, String)| (e.0, e.1@))),
{
    let ghost all = entries@.map_values(|e: (IpamColumn, String)| (e.0, e.1@));
    if entries.len() == 0 {
        return Ok(None);
    }
    let mut any_empty = false;
    let mut all_empty = true;
    let mut any_unsafe = false;
    let mut subnets: usize = 0;
    let mut gateways: usize = 0;
    let mut ranges: usize = 0;
    let mut subnet: Option<String> = None;
    let mut gateway: Option<String> = None;
    let mut range: Option<String> = None;
    let mut other_seen = false;
    let mut ahead = false;
    let mut k: usize = 0;
    while k < entries.len()
        invariant
            k <= entries@.len(),
            all == entries@.map_values(|e: (IpamColumn, String)| (e.0, e.1@)),
            any_empty == exists|i: int| 0 <= i < k && (#[trigger] all[i]).1.len() == 0,
            all_empty == forall|i: int| 0 <= i < k ==> (#[trigger] all[i]).1.len() == 0,
            any_unsafe == exists|i: int| 0 <= i < k && !safe_network_scalar((#[trigger] all[i]).1, false),
            subnets == column_count(all.take(k as int), IpamColumn::Subnet),
            gateways == column_count(all.take(k as int), IpamColumn::Gateway),
            ranges == column_count(all.take(k as int), IpamColumn::IpRange),
            subnets <= k && gateways <= k && ranges <= k,
            text_view(subnet) == column_value(all.take(k as int), IpamColumn::Subnet),
            text_view(gateway) == column_value(all.take(k as int), IpamColumn::Gateway),
            text_view(range) == column_value(all.take(k as int), IpamColumn::IpRange),
            other_seen == exists|i: int| 0 <= i < k && (#[trigger] all[i]).0 != IpamColumn::Subnet,
            ahead == ahead_of_subnet(all.take(k as int)),
        decreases entries@.len() - k,
    {
        let column = entries[k].0;
        let value = &entries[k].1;
        assert(all[k as int] == (column, value@));
        let prefix = Ghost(all.take(k as int));
        assert(all.take(k + 1).drop_last() =~= all.take(k as int));
        assert(all.take(k + 1).last() == all[k as int]);
        let chars = chars_of(value.as_str());
        if chars.len() == 0 {
            any_empty = true;
        } else {
            all_empty = false;
        }
        if !safe_network_scalar_chars(chars.as_slice(), false) {
            any_unsafe = true;
        }
        proof {
            assert forall|i: int| 0 <= i < k + 1 implies (#[trigger] all.take(k + 1)[i]) == all[i] by {}
        }
        match column {
            IpamColumn::Subnet => {
                if other_seen {
                    ahead = true;
                }
                subnets = subnets + 1;
                subnet = Some(value.clone());
            },
            IpamColumn::Gateway => {
                other_seen = true;
                gateways = gateways + 1;
                gateway = Some(value.clone());
            },
            IpamColumn::IpRange => {
                other_seen = true;
                ranges = ranges + 1;
                range = Some(value.clone());
            },
        }
        proof {
            let next = all.take(k + 1);
            if ahead {
                if ahead_of_subnet(prefix@) {
                    let (i, j) = choose|i: int, j: int|
                        0 <= i < j < prefix@.len() && (#[trigger] prefix@[i]).0 != IpamColumn::Subnet && (
                        #[trigger] prefix@[j]).0 == IpamColumn::Subnet;
                    assert(next[i] == prefix@[i] && next[j] == prefix@[j]);
                } else {
                    let i = choose|i: int| 0 <= i < k && (#[trigger] all[i]).0 != IpamColumn::Subnet;
                    assert(next[i] == all[i]);
                    assert(next[k as int] == all[k as int]);
                }
            } else {
                assert(!ahead_of_subnet(next)) by {
                    if ahead_of_subnet(next) {
                        let (i, j) = choose|i: int, j: int|
                            0 <= i < j < next.len() && (#[trigger] next[i]).0 != IpamColumn::Subnet && (
                            #[trigger] next[j]).0 == IpamColumn::Subnet;
                        if j < k {
                            assert(prefix@[i] == next[i] && prefix@[j] == next[j]);
                        } else {
                            assert(all[i] == next[i]);
                        }
                    }
                }
            }
        }
        k = k + 1;
    }
    assert(all.take(entries@.len() as int) =~= all);
    if any_empty {
        return Err(IpamIssue::EmptyColumn { all_empty });
    }
    if any_unsafe {
        return Err(IpamIssue::UnsafeColumn);
    }
    if subnets == 0 {
        return Err(IpamIssue::MissingSubnet);
    }
    if subnets != 1 || gateways > 1 || ranges > 1 {
        return Err(IpamIssue::RepeatedColumns);
    }
    if ahead {
        return Err(IpamIssue::AheadOfSubnet);
    }
    proof {
        lemma_column_value_some(all, IpamColumn::Subnet);
    }
    match subnet {
        Some(subnet) => Ok(Some(IpamRow { subnet, gateway, ip_range: range })),
        None => Ok(None),
    }
}

/// An address row written as entries reads back as the same row: when its values are
/// non-empty systemd-safe scalars, every one of its entries is written, and those entries read
/// as exactly that row.
pub proof fn lemma_ipam_row_reads_back(row: IpamRowModel)
    requires
        safe_network_scalar(row.subnet, false),
        row.gateway matches Some(g) ==> safe_network_scalar(g, false),
        row.ip_range matches Some(r) ==> safe_network_scalar(r, false),
    ensures
        forall|i: int| 0 <= i < row_columns(row).len() ==> (#[trigger] written_entry(row_columns(row)[i])).2,
        ipam_reading(row_columns(row)) == Ok::<Option<IpamRowModel>, IpamIssue>(Some(row)),
{
    let entries = row_columns(row);
    reveal_with_fuel(column_count, 4);
    reveal_with_fuel(column_value, 4);
    let sub = seq![(IpamColumn::Subnet, row.subnet)];
    let gw: Seq<(IpamColumn, Seq<char>)> = match row.gateway {
        Some(g) => seq![(IpamColumn::Gateway, g)],
        None => Seq::empty(),
    };
    let rg: Seq<(IpamColumn, Seq<char>)> = match row.ip_range {
        Some(r) => seq![(IpamColumn::IpRange, r)],
        None => Seq::empty(),
    };
    assert(entries == sub + gw + rg);
    assert(entries[0] == (IpamColumn::Subnet, row.subnet));
    assert forall|i: int| 0 <= i < entries.len() implies safe_network_scalar((#[trigger] entries[i]).1, false) && (i
        > 0 ==> entries[i].0 != IpamColumn::Subnet) by {
        if i >= 1 && i < 1 + gw.len() {
            assert(entries[i] == gw[i - 1]);
        } else if i >= 1 + gw.len() {
            assert(entries[i] == rg[i - 1 - gw.len()]);
        }
    }
    assert(!exists|i: int| 0 <= i < entries.len() && (#[trigger] entries[i]).1.len() == 0) by {
        if exists|i: int| 0 <= i < entries.len() && (#[trigger] entries[i]).1.len() == 0 {
            let i = choose|i: int| 0 <= i < entries.len() && (#[trigger] entries[i]).1.len() == 0;
            assert(safe_network_scalar(entries[i].1, false));
        }
    }
    assert(!ahead_of_subnet(entries)) by {
        if ahead_of_subnet(entries) {
            let (i, j) = choose|i: int, j: int|
                0 <= i < j < entries.len() && (#[trigger] entries[i]).0 != IpamColumn::Subnet && (#[trigger] entries[j]).0
                    == IpamColumn::Subnet;
            assert(j > 0);
        }
    }
    match row.gateway {
        Some(g) => match row.ip_range {
            Some(r) => {
                assert(entries =~= seq![(IpamColumn::Subnet, row.subnet), (IpamColumn::Gateway, g), (IpamColumn::IpRange, r)]);
                assert(entries.drop_last() =~= seq![(IpamColumn::Subnet, row.subnet), (IpamColumn::Gateway, g)]);
                assert(entries.drop_last().drop_last() =~= seq![(IpamColumn::Subnet, row.subnet)]);
                assert(entries.drop_last().drop_last().drop_last() =~= Seq::<(IpamColumn, Seq<char>)>::empty());
            },
            None => {
                assert(entries =~= seq![(IpamColumn::Subnet, row.subnet), (IpamColumn::Gateway, g)]);
                assert(entries.drop_last() =~= seq![(IpamColumn::Subnet, row.subnet)]);
                assert(entries.drop_last().drop_last() =~= Seq::<(IpamColumn, Seq<char>)>::empty());
            },
        },
        None => match row.ip_range {
            Some(r) => {
                assert(entries =~= seq![(IpamColumn::Subnet, row.subnet), (IpamColumn::IpRange, r)]);
                assert(entries.drop_last() =~= seq![(IpamColumn::Subnet, row.subnet)]);
                assert(entries.drop_last().drop_last() =~= Seq::<(IpamColumn, Seq<char>)>::empty());
            },
            None => {
                assert(entries =~= seq![(IpamColumn::Subnet, row.subnet)]);
                assert(entries.drop_last() =~= Seq::<(IpamColumn, Seq<char>)>::empty());
            },
        },
    }
}

} // verus!
