use boxferry_quadlet::graph::{check_dependency_graph, DependencyCheck, ServiceDependency};

fn on(target: usize) -> ServiceDependency {
    ServiceDependency { target: Some(target), required: true }
}

fn optional(target: Option<usize>) -> ServiceDependency {
    ServiceDependency { target, required: false }
}

fn unnamed() -> ServiceDependency {
    ServiceDependency { target: None, required: true }
}

#[test]
fn an_application_without_services_is_ordered() {
    assert_eq!(check_dependency_graph(&Vec::new()), DependencyCheck::Ordered);
}

#[test]
fn a_chain_of_dependencies_is_ordered() {
    let graph = vec![vec![on(1)], vec![on(2)], vec![]];
    assert_eq!(check_dependency_graph(&graph), DependencyCheck::Ordered);
}

#[test]
fn repeated_dependencies_on_one_service_are_ordered() {
    let graph = vec![vec![on(1), on(1), optional(Some(1))], vec![]];
    assert_eq!(check_dependency_graph(&graph), DependencyCheck::Ordered);
}

#[test]
fn every_missing_required_dependency_is_reported() {
    let graph = vec![vec![unnamed(), optional(Some(5)), on(1)], vec![on(7)], vec![on(0), optional(None), on(2)]];
    assert_eq!(check_dependency_graph(&graph), DependencyCheck::MissingRequired(vec![(0, 0), (1, 0)]));
}

#[test]
fn missing_dependencies_are_reported_before_cycles() {
    let graph = vec![vec![on(1)], vec![on(0), ServiceDependency { target: Some(2), required: true }]];
    assert_eq!(check_dependency_graph(&graph), DependencyCheck::MissingRequired(vec![(1, 1)]));
}

#[test]
fn optional_dependencies_on_absent_services_are_ignored() {
    let graph = vec![vec![optional(None), optional(Some(9))], vec![on(0)]];
    assert_eq!(check_dependency_graph(&graph), DependencyCheck::Ordered);
}

#[test]
fn a_cycle_lists_its_services_in_order() {
    let graph = vec![vec![], vec![on(2)], vec![on(1)]];
    assert_eq!(check_dependency_graph(&graph), DependencyCheck::Cycle(vec![1, 2]));
}

#[test]
fn services_waiting_on_a_cycle_are_listed_with_it() {
    let graph = vec![vec![on(1)], vec![on(0)], vec![on(0)], vec![]];
    assert_eq!(check_dependency_graph(&graph), DependencyCheck::Cycle(vec![0, 1, 2]));
}

#[test]
fn a_service_depending_on_itself_is_a_cycle() {
    let graph = vec![vec![optional(Some(0))], vec![on(0)]];
    assert_eq!(check_dependency_graph(&graph), DependencyCheck::Cycle(vec![0, 1]));
}

#[test]
fn optional_dependencies_take_part_in_the_order() {
    let graph = vec![vec![optional(Some(1))], vec![optional(Some(0))]];
    assert_eq!(check_dependency_graph(&graph), DependencyCheck::Cycle(vec![0, 1]));
}
