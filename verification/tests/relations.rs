use boxferry_quadlet::health::{healthcheck_renderable, HealthcheckCommand};
use boxferry_quadlet::relations::{
    collect_relation_entry, dependency_export_issue, dependency_restart_issue, dependency_unit_entries,
    DependencyCondition, DependencyRelations, RelationIssue, RelationOutcome, UnitRelation,
};

fn services() -> Vec<String> {
    vec!["web".to_string(), "db".to_string(), "cache".to_string()]
}

#[test]
fn dependencies_are_written_as_activation_then_ordering() {
    assert_eq!(
        dependency_unit_entries("db", true),
        vec![(UnitRelation::Requires, "db.service".to_string()), (UnitRelation::After, "db.service".to_string())]
    );
    assert_eq!(
        dependency_unit_entries("cache", false),
        vec![(UnitRelation::Wants, "cache.service".to_string()), (UnitRelation::After, "cache.service".to_string())]
    );
}

#[test]
fn written_dependencies_read_back() {
    for required in [true, false] {
        let mut relations = DependencyRelations::new();
        for (entry, (relation, unit)) in dependency_unit_entries("db", required).into_iter().enumerate() {
            assert_eq!(collect_relation_entry(&mut relations, "web", relation, &unit, entry, &services()), vec![]);
        }
        assert_eq!(
            relations.outcomes(),
            vec![("db".to_string(), RelationOutcome::Dependency { required, entries: vec![0, 1] })]
        );
    }
}

#[test]
fn relations_are_gathered_service_by_service() {
    let mut relations = DependencyRelations::new();
    let services = services();
    assert_eq!(collect_relation_entry(&mut relations, "web", UnitRelation::Requires, "db.service", 0, &services), vec![]);
    assert_eq!(
        collect_relation_entry(&mut relations, "web", UnitRelation::After, "db.container  cache.service", 1, &services),
        vec![]
    );
    assert_eq!(collect_relation_entry(&mut relations, "web", UnitRelation::Wants, "cache.service", 2, &services), vec![]);
    assert_eq!(
        relations.outcomes(),
        vec![
            ("db".to_string(), RelationOutcome::Dependency { required: true, entries: vec![0, 1] }),
            ("cache".to_string(), RelationOutcome::Dependency { required: false, entries: vec![2, 1] }),
        ]
    );
}

#[test]
fn incomplete_or_conflicting_relations_are_reported() {
    let mut relations = DependencyRelations::new();
    let services = services();
    collect_relation_entry(&mut relations, "web", UnitRelation::Requires, "db.service", 0, &services);
    collect_relation_entry(&mut relations, "web", UnitRelation::Wants, "db.service", 1, &services);
    collect_relation_entry(&mut relations, "web", UnitRelation::After, "db.service cache.service", 2, &services);
    assert_eq!(
        relations.outcomes(),
        vec![
            ("db".to_string(), RelationOutcome::Conflicting { first_entry: 0 }),
            ("cache".to_string(), RelationOutcome::OrderingOnly { first_entry: 2 }),
        ]
    );
    let mut relations = DependencyRelations::new();
    collect_relation_entry(&mut relations, "cache", UnitRelation::Wants, "web.service", 3, &services);
    assert_eq!(
        relations.outcomes(),
        vec![("web".to_string(), RelationOutcome::ActivationOnly { required: false, first_entry: 3 })]
    );
}

#[test]
fn references_that_carry_no_relation_are_issues() {
    let mut relations = DependencyRelations::new();
    let services = services();
    assert_eq!(
        collect_relation_entry(&mut relations, "web", UnitRelation::Requires, " \t ", 0, &services),
        vec![RelationIssue::EmptyDirective]
    );
    assert_eq!(
        collect_relation_entry(
            &mut relations,
            "web",
            UnitRelation::Requires,
            "web.service other.service db.socket db.service",
            1,
            &services
        ),
        vec![RelationIssue::SelfDependency(0), RelationIssue::NotSibling(1), RelationIssue::NotSibling(2)]
    );
    assert_eq!(relations.outcomes(), vec![("db".to_string(), RelationOutcome::ActivationOnly { required: true, first_entry: 1 })]);
    assert_eq!(
        RelationIssue::EmptyDirective.reason(),
        "empty systemd dependency directives do not define a neutral service edge"
    );
    assert_eq!(
        RelationIssue::NotSibling(3).reason(),
        "systemd dependency is not an unescaped reference to a sibling .container or generated .service unit"
    );
    assert_eq!(RelationIssue::SelfDependency(0).reason(), "a service cannot depend on itself");
}

#[test]
fn dependency_conditions_decide_whether_relations_are_written() {
    assert_eq!(dependency_export_issue(true, DependencyCondition::Started, false), None);
    assert_eq!(dependency_export_issue(true, DependencyCondition::Healthy, true), None);
    assert_eq!(
        dependency_export_issue(false, DependencyCondition::Started, true),
        Some("optional service dependency is absent from the application")
    );
    assert_eq!(
        dependency_export_issue(true, DependencyCondition::Healthy, false),
        Some("healthy service dependency cannot be established for the target")
    );
    assert_eq!(
        dependency_export_issue(true, DependencyCondition::CompletedSuccessfully, true),
        Some("successful-completion dependency has no verified Quadlet mapping")
    );
    assert_eq!(
        dependency_export_issue(true, DependencyCondition::Other, true),
        Some("source-specific dependency condition has no verified Quadlet mapping")
    );
    assert_eq!(dependency_restart_issue(None), None);
    assert_eq!(dependency_restart_issue(Some(false)), None);
    assert_eq!(
        dependency_restart_issue(Some(true)),
        Some("Compose-controlled dependency restart propagation has no verified Quadlet mapping")
    );
}

#[test]
fn only_enabled_encodable_health_checks_are_renderable() {
    let exec = HealthcheckCommand::Exec(vec!["curl".to_string(), "-f".to_string()]);
    assert!(healthcheck_renderable(false, Some(&exec)));
    assert!(!healthcheck_renderable(true, Some(&exec)));
    assert!(!healthcheck_renderable(false, None));
    assert!(!healthcheck_renderable(false, Some(&HealthcheckCommand::Exec(vec![]))));
    assert!(!healthcheck_renderable(false, Some(&HealthcheckCommand::Exec(vec!["echo".to_string(), "50%".to_string()]))));
    assert!(healthcheck_renderable(false, Some(&HealthcheckCommand::Shell("pg_isready".to_string()))));
    assert!(!healthcheck_renderable(false, Some(&HealthcheckCommand::Shell(String::new()))));
    assert!(!healthcheck_renderable(false, Some(&HealthcheckCommand::Shell("a\0b".to_string()))));
}
