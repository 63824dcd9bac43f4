use boxferry_quadlet::export::ResourceOwnership;
use boxferry_quadlet::grouping::{
    check_preserved_group, check_single_pod_grouping, GroupedAttachment, GroupedPort, GroupedService, GroupingIssue,
    PreservedGroupIssue,
};
use boxferry_quadlet::port::Protocol;

fn service(ports: &[(u16, Option<u16>, Protocol)]) -> GroupedService {
    GroupedService {
        networks: vec![GroupedAttachment { network: "backend".to_string(), aliases: Vec::new() }],
        host_mappings: vec![("db.local".to_string(), "10.0.0.5".to_string())],
        user_namespace: Some("keep-id".to_string()),
        ports: ports
            .iter()
            .map(|(container, published, protocol)| GroupedPort {
                container: *container,
                published: *published,
                protocol: *protocol,
            })
            .collect(),
    }
}

#[test]
fn compatible_services_share_a_pod() {
    let services = vec![
        service(&[(80, Some(8080), Protocol::Tcp), (80, Some(8080), Protocol::Tcp)]),
        service(&[(443, Some(8443), Protocol::Tcp), (80, Some(8080), Protocol::Udp)]),
    ];
    assert_eq!(check_single_pod_grouping(&services), Ok(()));
}

#[test]
fn grouping_needs_services() {
    assert_eq!(check_single_pod_grouping(&[]), Err(GroupingIssue::NoServices));
    assert_eq!(
        GroupingIssue::NoServices.explanation(),
        ("single-pod grouping requires at least one service", "the neutral application contains no services")
    );
}

#[test]
fn services_must_agree_on_networking() {
    let mut other = service(&[]);
    other.networks[0].network = "frontend".to_string();
    assert_eq!(check_single_pod_grouping(&[service(&[]), other]), Err(GroupingIssue::DifferentNetworks));
    let mut aliased = service(&[]);
    aliased.networks[0].aliases.push("api".to_string());
    assert_eq!(check_single_pod_grouping(&[aliased.clone(), aliased]), Err(GroupingIssue::NetworkAliases));
    let mut mapped = service(&[]);
    mapped.host_mappings.clear();
    assert_eq!(check_single_pod_grouping(&[service(&[]), mapped]), Err(GroupingIssue::DifferentHostMappings));
}

#[test]
fn services_must_share_one_safe_user_namespace() {
    let mut implicit = service(&[]);
    implicit.user_namespace = None;
    assert_eq!(check_single_pod_grouping(&[service(&[]), implicit.clone()]), Err(GroupingIssue::DifferentUserNamespaces));
    assert_eq!(check_single_pod_grouping(&[implicit.clone(), implicit]), Ok(()));
    let mut unsafe_namespace = service(&[]);
    unsafe_namespace.user_namespace = Some("keep id".to_string());
    assert_eq!(check_single_pod_grouping(&[unsafe_namespace]), Err(GroupingIssue::UnsafeUserNamespace));
}

#[test]
fn overlapping_ports_prevent_grouping() {
    let services = vec![service(&[(80, None, Protocol::Tcp)]), service(&[(80, Some(9000), Protocol::Tcp)])];
    assert_eq!(check_single_pod_grouping(&services), Err(GroupingIssue::OverlappingContainerPorts));
    let services = vec![service(&[(80, Some(8080), Protocol::Tcp)]), service(&[(81, Some(8080), Protocol::Tcp)])];
    assert_eq!(check_single_pod_grouping(&services), Err(GroupingIssue::OverlappingPublishedPorts));
    let services = vec![
        service(&[(80, Some(8080), Protocol::Tcp), (90, None, Protocol::Tcp)]),
        service(&[(81, Some(8080), Protocol::Tcp), (90, None, Protocol::Tcp)]),
    ];
    assert_eq!(check_single_pod_grouping(&services), Err(GroupingIssue::OverlappingPublishedPorts));
    assert_eq!(
        GroupingIssue::OverlappingPublishedPorts.explanation().0,
        "single-pod grouping has overlapping published host ports"
    );
}

fn names(values: &[&str]) -> Vec<String> {
    values.iter().map(|value| value.to_string()).collect()
}

#[test]
fn one_application_group_covering_every_service_is_preserved() {
    let services = vec![service(&[(80, None, Protocol::Tcp)]), service(&[(81, None, Protocol::Tcp)])];
    let members = names(&["web", "db"]);
    let service_names = names(&["db", "web"]);
    assert_eq!(
        check_preserved_group(1, ResourceOwnership::Application, &members, &service_names, false, &services),
        Ok(())
    );
    assert_eq!(
        check_preserved_group(0, ResourceOwnership::Application, &members, &service_names, false, &services),
        Err(PreservedGroupIssue::NoGroup)
    );
    assert_eq!(
        check_preserved_group(2, ResourceOwnership::Application, &members, &service_names, false, &services),
        Err(PreservedGroupIssue::SeveralGroups)
    );
    assert_eq!(
        check_preserved_group(1, ResourceOwnership::External, &members, &service_names, false, &services),
        Err(PreservedGroupIssue::NotApplicationOwned)
    );
    assert_eq!(
        check_preserved_group(1, ResourceOwnership::Application, &names(&["web", "web"]), &service_names, false, &services),
        Err(PreservedGroupIssue::IncompleteMembership)
    );
    assert_eq!(
        check_preserved_group(1, ResourceOwnership::Application, &names(&["web"]), &service_names, false, &services),
        Err(PreservedGroupIssue::IncompleteMembership)
    );
    let clashing = vec![service(&[(80, None, Protocol::Tcp)]), service(&[(80, None, Protocol::Tcp)])];
    assert_eq!(
        check_preserved_group(1, ResourceOwnership::Application, &members, &service_names, false, &clashing),
        Err(PreservedGroupIssue::Grouping(GroupingIssue::OverlappingContainerPorts))
    );
    assert_eq!(
        check_preserved_group(1, ResourceOwnership::Application, &members, &service_names, true, &clashing),
        Ok(())
    );
    assert_eq!(
        PreservedGroupIssue::SeveralGroups.explanation(),
        (
            "preserving a neutral service group requires exactly one group",
            "the application contains multiple service groups"
        )
    );
}
