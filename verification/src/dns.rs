//! DNS settings of a container: the `DNS=`, `DNSOption=` and `DNSSearch=` entries written for a
//! service's resolver lists, and how such entries are read back into the lists.

use vstd::prelude::*;
use crate::text::{chars_of, contains_char, has_char, same_chars};

verus! {

broadcast use vstd::string::group_string_axioms;

/// The resolver lists of a service.
#[derive(Clone, Copy, Debug, PartialEq, Eq, Structural)]
pub enum DnsField {
    /// Name servers, `DNS=`.
    Servers,
    /// Resolver options, `DNSOption=`.
    Options,
    /// Search domains, `DNSSearch=`.
    SearchDomains,
}

/// How a DNS value is carried.
#[derive(Clone, Copy, Debug, PartialEq, Eq, Structural)]
pub enum DnsValueKind {
    /// Empty, or holding `NUL`, a line break, `%` or `$`: not a literal single-line value.
    Unsafe,
    /// `none` as a name server, or `.` as a search domain: resolver semantics differ by target.
    Special,
    /// A literal value.
    Exact,
}

/// The views of a list of strings.
pub open spec fn views(values: Seq<String>) -> Seq<Seq<char>> {
    values.map_values(|v: String| v@)
}

/// Empty, or holding a character that needs systemd or deferred interpretation.
pub open spec fn dns_unsafe(value: Seq<char>) -> bool {
    value.len() == 0 || has_char(value, '\0') || has_char(value, '\r') || has_char(value, '\n') || has_char(
        value,
        '%',
    ) || has_char(value, '$')
}

/// `none` as a name server, or `.` as a search domain.
pub open spec fn dns_special(field: DnsField, value: Seq<char>) -> bool {
    (field is Servers && value == seq!['n', 'o', 'n', 'e']) || (field is SearchDomains && value == seq!['.'])
}

/// How `value` in list `field` is carried.
pub open spec fn dns_kind(field: DnsField, value: Seq<char>) -> DnsValueKind {
    if dns_unsafe(value) {
        DnsValueKind::Unsafe
    } else if dns_special(field, value) {
        DnsValueKind::Special
    } else {
        DnsValueKind::Exact
    }
}

/// How `value` in list `field` is carried.
pub fn classify_dns_value(field: DnsField, value: &str) -> (kind: DnsValueKind)
    ensures
        kind == dns_kind(field, value@),
{
    let s = chars_of(value);
    if s.len() == 0 || contains_char(s.as_slice(), '\0') || contains_char(s.as_slice(), '\r') || contains_char(
        s.as_slice(),
        '\n',
    ) || contains_char(s.as_slice(), '%') || contains_char(s.as_slice(), '$') {
        return DnsValueKind::Unsafe;
    }
    let none = vec!['n', 'o', 'n', 'e'];
    let dot = vec!['.'];
    assert(none@ =~= seq!['n', 'o', 'n', 'e']);
    assert(dot@ =~= seq!['.']);
    let special = match field {
        DnsField::Servers => same_chars(s.as_slice(), none.as_slice()),
        DnsField::SearchDomains => same_chars(s.as_slice(), dot.as_slice()),
        DnsField::Options => false,
    };
    if special {
        DnsValueKind::Special
    } else {
        DnsValueKind::Exact
    }
}

impl DnsValueKind {
    /// Why a written value is not exact: unsafe values are not written, special ones are written
    /// with their meaning left to the target. `None` for an exact value.
    pub fn export_reason(&self) -> (reason: Option<&'static str>)
        ensures
            match self {
                DnsValueKind::Unsafe => reason matches Some(r) && r@
                    == "DNS values must be non-empty resolved single physical lines without systemd specifiers"@,
                DnsValueKind::Special => reason matches Some(r) && r@
                    == "special DNS values have target-specific resolver semantics"@,
                DnsValueKind::Exact => reason is None,
            },
    {
        match self {
            DnsValueKind::Unsafe => Some(
                "DNS values must be non-empty resolved single physical lines without systemd specifiers",
            ),
            DnsValueKind::Special => Some("special DNS values have target-specific resolver semantics"),
            DnsValueKind::Exact => None,
        }
    }
}

/// Why a service's DNS list is not written at all.
#[derive(Clone, Copy, Debug, PartialEq, Eq, Structural)]
pub enum DnsListIssue {
    /// The list is set but empty: an empty entry would reset the list instead.
    EmptyList,
    /// Resolver options repeat.
    DuplicateOptions,
}

impl DnsListIssue {
    /// Why the list is not written.
    pub fn reason(&self) -> (reason: &'static str)
        ensures
            reason@ == match self {
                DnsListIssue::EmptyList => "an empty Quadlet DNS assignment resets native state and cannot represent an explicit empty collection"@,
                DnsListIssue::DuplicateOptions => "DNS resolver options must be unique; duplicates cannot be emitted safely"@,
            },
    {
        match self {
            DnsListIssue::EmptyList => "an empty Quadlet DNS assignment resets native state and cannot represent an explicit empty collection",
            DnsListIssue::DuplicateOptions => "DNS resolver options must be unique; duplicates cannot be emitted safely",
        }
    }
}

/// Plans the entries for DNS list `field` holding `values`: one per value, in order, each
/// written unless its kind is [`DnsValueKind::Unsafe`].
pub fn plan_dns_values(field: DnsField, values: &[String]) -> (plan: Result<Vec<DnsValueKind>, DnsListIssue>)
    ensures
        match plan {
            Err(DnsListIssue::EmptyList) => values@.len() == 0,
            Err(DnsListIssue::DuplicateOptions) => values@.len() > 0 && field is Options && !views(
                values@,
            ).no_duplicates(),
            Ok(kinds) => values@.len() > 0 && (field is Options ==> views(values@).no_duplicates()) && kinds@ == views(
                values@,
            ).map_values(|v: Seq<char>| dns_kind(field, v)),
        },
{
    let ghost all = views(values@);
    if values.len() == 0 {
        return Err(DnsListIssue::EmptyList);
    }
    if field == DnsField::Options {
        let mut i: usize = 0;
        while i < values.len()
            invariant
                i <= values@.len(),
                field == DnsField::Options,
                all == views(values@),
                forall|a: int, b: int| 0 <= a < b < i ==> all[a] != all[b],
            decreases values@.len() - i,
        {
            let mut j: usize = 0;
            while j < i
                invariant
                    j <= i < values@.len(),
                    field == DnsField::Options,
                    all == views(values@),
                    forall|a: int| 0 <= a < j ==> all[a] != all[i as int],
                decreases i - j,
            {
                if values[j] == values[i] {
                    assert(all[j as int] == all[i as int]);
                    return Err(DnsListIssue::DuplicateOptions);
                }
                j = j + 1;
            }
            i = i + 1;
        }
        assert(all.no_duplicates());
    }
    let mut kinds: Vec<DnsValueKind> = Vec::new();
    let mut k: usize = 0;
    while k < values.len()
        invariant
            k <= values@.len(),
            all == views(values@),
            kinds@ == all.take(k as int).map_values(|v: Seq<char>| dns_kind(field, v)),
        decreases values@.len() - k,
    {
        kinds.push(classify_dns_value(field, values[k].as_str()));
        assert(kinds@ =~= all.take(k + 1).map_values(|v: Seq<char>| dns_kind(field, v)));
        k = k + 1;
    }
    assert(all.take(values@.len() as int) =~= all);
    Ok(kinds)
}

/// What reading a DNS entry did.
#[derive(Clone, Copy, Debug, PartialEq, Eq, Structural)]
pub enum DnsReading {
    /// An empty entry: the list was reset.
    Reset,
    /// The value was appended; how it is carried.
    Appended(DnsValueKind),
}

impl DnsReading {
    /// Why the entry does not read as an exact value; `None` when it does.
    pub fn reason(&self) -> (reason: Option<&'static str>)
        ensures
            match self {
                DnsReading::Reset => reason matches Some(r) && r@
                    == "an empty native DNS assignment resets the effective list and is not a literal DNS value"@,
                DnsReading::Appended(DnsValueKind::Unsafe) => reason matches Some(r) && r@
                    == "DNS value requires unsafe systemd/deferred interpretation"@,
                DnsReading::Appended(DnsValueKind::Special) => reason matches Some(r) && r@
                    == "special DNS values have target-specific resolver semantics"@,
                DnsReading::Appended(DnsValueKind::Exact) => reason is None,
            },
    {
        match self {
            DnsReading::Reset => Some("an empty native DNS assignment resets the effective list and is not a literal DNS value"),
            DnsReading::Appended(DnsValueKind::Unsafe) => Some("DNS value requires unsafe systemd/deferred interpretation"),
            DnsReading::Appended(DnsValueKind::Special) => Some("special DNS values have target-specific resolver semantics"),
            DnsReading::Appended(DnsValueKind::Exact) => None,
        }
    }
}

/// The list that reading entry `value` leaves of list `values`: an empty entry resets it,
/// any other value is appended.
pub open spec fn dns_after_entry(values: Seq<Seq<char>>, value: Seq<char>) -> Seq<Seq<char>> {
    if value.len() == 0 {
        Seq::empty()
    } else {
        values.push(value)
    }
}

/// Reads DNS entry `value` of list `field` into `values`.
pub fn read_dns_value(field: DnsField, values: &mut Vec<String>, value: &str) -> (reading: DnsReading)
    ensures
        views(final(values)@) == dns_after_entry(views(old(values)@), value@),
        reading == if value@.len() == 0 {
            DnsReading::Reset
        } else {
            DnsReading::Appended(dns_kind(field, value@))
        },
{
    let s = chars_of(value);
    if s.len() == 0 {
        values.clear();
        assert(views(values@) =~= Seq::<Seq<char>>::empty());
        return DnsReading::Reset;
    }
    let ghost before = views(values@);
    values.push(value.to_string());
    assert(views(values@) =~= before.push(value@));
    DnsReading::Appended(classify_dns_value(field, value))
}

/// The list that reading `entries` in order leaves of list `values`.
pub open spec fn dns_after_entries(values: Seq<Seq<char>>, entries: Seq<Seq<char>>) -> Seq<Seq<char>>
    decreases entries.len(),
{
    if entries.len() == 0 {
        values
    } else {
        dns_after_entry(dns_after_entries(values, entries.drop_last()), entries.last())
    }
}

/// A DNS list written as entries reads back as the same list: when no value of `values` is
/// unsafe, so that [`plan_dns_values`] writes every one of them, reading those entries in order
/// into an empty list gives `values` back, and no entry resets the list: each is appended and
/// read as the kind it was planned as.
pub proof fn lemma_dns_list_reads_back(field: DnsField, values: Seq<Seq<char>>)
    requires
        forall|i: int| 0 <= i < values.len() ==> !dns_unsafe(#[trigger] values[i]),
    ensures
        dns_after_entries(Seq::empty(), values) == values,
        forall|i: int| 0 <= i < values.len() ==> (#[trigger] values[i]).len() > 0,
    decreases values.len(),
{
    if values.len() > 0 {
        let rest = values.drop_last();
        assert forall|i: int| 0 <= i < rest.len() implies !dns_unsafe(#[trigger] rest[i]) by {
            assert(rest[i] == values[i]);
        }
        lemma_dns_list_reads_back(field, rest);
        assert(!dns_unsafe(values[values.len() - 1]));
        assert(rest.push(values.last()) =~= values);
    }
}

} // verus!
