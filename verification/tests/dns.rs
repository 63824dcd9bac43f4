use boxferry_quadlet::dns::{
    classify_dns_value, plan_dns_values, read_dns_value, DnsField, DnsListIssue, DnsReading, DnsValueKind,
};

fn strings(values: &[&str]) -> Vec<String> {
    values.iter().map(|value| value.to_string()).collect()
}

#[test]
fn dns_values_are_classified() {
    assert_eq!(classify_dns_value(DnsField::Servers, "1.1.1.1"), DnsValueKind::Exact);
    assert_eq!(classify_dns_value(DnsField::Servers, "none"), DnsValueKind::Special);
    assert_eq!(classify_dns_value(DnsField::SearchDomains, "none"), DnsValueKind::Exact);
    assert_eq!(classify_dns_value(DnsField::SearchDomains, "."), DnsValueKind::Special);
    assert_eq!(classify_dns_value(DnsField::Options, "."), DnsValueKind::Exact);
    assert_eq!(classify_dns_value(DnsField::Options, ""), DnsValueKind::Unsafe);
    assert_eq!(classify_dns_value(DnsField::Servers, "%h"), DnsValueKind::Unsafe);
    assert_eq!(classify_dns_value(DnsField::Servers, "$HOST"), DnsValueKind::Unsafe);
    assert_eq!(classify_dns_value(DnsField::SearchDomains, "a\nb"), DnsValueKind::Unsafe);
}

#[test]
fn dns_lists_are_planned_value_by_value() {
    assert_eq!(plan_dns_values(DnsField::Servers, &[]), Err(DnsListIssue::EmptyList));
    assert_eq!(
        plan_dns_values(DnsField::Options, &strings(&["ndots:2", "rotate", "ndots:2"])),
        Err(DnsListIssue::DuplicateOptions)
    );
    assert_eq!(
        plan_dns_values(DnsField::Servers, &strings(&["9.9.9.9", "9.9.9.9", "none", "%i"])),
        Ok(vec![DnsValueKind::Exact, DnsValueKind::Exact, DnsValueKind::Special, DnsValueKind::Unsafe])
    );
    assert_eq!(
        DnsListIssue::EmptyList.reason(),
        "an empty Quadlet DNS assignment resets native state and cannot represent an explicit empty collection"
    );
    assert_eq!(
        DnsListIssue::DuplicateOptions.reason(),
        "DNS resolver options must be unique; duplicates cannot be emitted safely"
    );
    assert_eq!(
        DnsValueKind::Unsafe.export_reason(),
        Some("DNS values must be non-empty resolved single physical lines without systemd specifiers")
    );
    assert_eq!(DnsValueKind::Exact.export_reason(), None);
}

#[test]
fn dns_entries_append_or_reset() {
    let mut values = Vec::new();
    assert_eq!(read_dns_value(DnsField::Servers, &mut values, "1.1.1.1"), DnsReading::Appended(DnsValueKind::Exact));
    assert_eq!(read_dns_value(DnsField::Servers, &mut values, "none"), DnsReading::Appended(DnsValueKind::Special));
    assert_eq!(values, strings(&["1.1.1.1", "none"]));
    assert_eq!(read_dns_value(DnsField::Servers, &mut values, ""), DnsReading::Reset);
    assert!(values.is_empty());
    assert_eq!(read_dns_value(DnsField::Servers, &mut values, "a%b"), DnsReading::Appended(DnsValueKind::Unsafe));
    assert_eq!(values, strings(&["a%b"]));
    assert_eq!(
        DnsReading::Reset.reason(),
        Some("an empty native DNS assignment resets the effective list and is not a literal DNS value")
    );
    assert_eq!(
        DnsReading::Appended(DnsValueKind::Unsafe).reason(),
        Some("DNS value requires unsafe systemd/deferred interpretation")
    );
    assert_eq!(DnsReading::Appended(DnsValueKind::Exact).reason(), None);
}

#[test]
fn planned_dns_lists_read_back() {
    for field in [DnsField::Servers, DnsField::Options, DnsField::SearchDomains] {
        let written = strings(&["example.org", "none", "."]);
        let kinds = plan_dns_values(field, &written).unwrap();
        let mut read = Vec::new();
        for (value, kind) in written.iter().zip(kinds) {
            assert_eq!(read_dns_value(field, &mut read, value), DnsReading::Appended(kind));
        }
        assert_eq!(read, written);
    }
}
