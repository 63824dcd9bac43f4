use boxferry_quadlet::ipam::{plan_ipam_entries, read_ipam_entries, IpamColumn, IpamIssue, IpamRow};

fn row(subnet: &str, gateway: Option<&str>, ip_range: Option<&str>) -> IpamRow {
    IpamRow {
        subnet: subnet.to_string(),
        gateway: gateway.map(str::to_string),
        ip_range: ip_range.map(str::to_string),
    }
}

fn entries(values: &[(IpamColumn, &str)]) -> Vec<(IpamColumn, String)> {
    values.iter().map(|(column, value)| (*column, value.to_string())).collect()
}

#[test]
fn ipam_rows_are_planned_column_by_column() {
    assert_eq!(plan_ipam_entries(&[]), Err("an explicit empty IPAM collection has no safe Quadlet reset encoding"));
    assert_eq!(
        plan_ipam_entries(&[row("10.0.0.0/24", Some("10.0.0.1"), None), row("10.1.0.0/24", None, Some("bad value"))]),
        Ok(vec![
            (IpamColumn::Subnet, "10.0.0.0/24".to_string(), true),
            (IpamColumn::Gateway, "10.0.0.1".to_string(), true),
            (IpamColumn::Subnet, "10.1.0.0/24".to_string(), true),
            (IpamColumn::IpRange, "bad value".to_string(), false),
        ])
    );
}

#[test]
fn one_row_reads_back() {
    for written in [
        row("10.0.0.0/24", None, None),
        row("10.0.0.0/24", Some("10.0.0.1"), None),
        row("10.0.0.0/24", None, Some("10.0.0.128/25")),
        row("10.0.0.0/24", Some("10.0.0.1"), Some("10.0.0.128/25")),
    ] {
        let planned = plan_ipam_entries(&[written.clone()]).unwrap();
        assert!(planned.iter().all(|(_, _, safe)| *safe));
        let read: Vec<(IpamColumn, String)> = planned.into_iter().map(|(column, value, _)| (column, value)).collect();
        assert_eq!(read_ipam_entries(&read), Ok(Some(written)));
    }
}

#[test]
fn ipam_entries_that_form_no_single_row_are_issues() {
    assert_eq!(read_ipam_entries(&[]), Ok(None));
    assert_eq!(
        read_ipam_entries(&entries(&[(IpamColumn::Subnet, ""), (IpamColumn::Gateway, "")])),
        Err(IpamIssue::EmptyColumn { all_empty: true })
    );
    assert_eq!(
        read_ipam_entries(&entries(&[(IpamColumn::Subnet, "10.0.0.0/24"), (IpamColumn::Gateway, "")])),
        Err(IpamIssue::EmptyColumn { all_empty: false })
    );
    assert_eq!(read_ipam_entries(&entries(&[(IpamColumn::Subnet, " 10.0.0.0/24")])), Err(IpamIssue::UnsafeColumn));
    assert_eq!(read_ipam_entries(&entries(&[(IpamColumn::Gateway, "10.0.0.1")])), Err(IpamIssue::MissingSubnet));
    assert_eq!(
        read_ipam_entries(&entries(&[(IpamColumn::Subnet, "10.0.0.0/24"), (IpamColumn::Subnet, "10.1.0.0/24")])),
        Err(IpamIssue::RepeatedColumns)
    );
    assert_eq!(
        read_ipam_entries(&entries(&[
            (IpamColumn::Subnet, "10.0.0.0/24"),
            (IpamColumn::IpRange, "10.0.0.0/25"),
            (IpamColumn::IpRange, "10.0.0.128/25")
        ])),
        Err(IpamIssue::RepeatedColumns)
    );
    assert_eq!(
        read_ipam_entries(&entries(&[(IpamColumn::Gateway, "10.0.0.1"), (IpamColumn::Subnet, "10.0.0.0/24")])),
        Err(IpamIssue::AheadOfSubnet)
    );
    assert_eq!(
        IpamIssue::AheadOfSubnet.reason(),
        "Gateway and IPRange must physically follow their Subnet to establish one safe row"
    );
    assert_eq!(IpamIssue::MissingSubnet.reason(), "Gateway or IPRange requires a Subnet");
}
