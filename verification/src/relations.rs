//! Service dependencies as systemd unit relations: a dependency is written as an activation
//! entry (`Requires=` or `Wants=`) and an ordering entry (`After=`) naming the same sibling
//! unit, and read back by gathering, service by service, what the unit's entries say of it.

use vstd::prelude::*;
use crate::charset::{in_set, Charset};
use crate::grammar::native_atom;
use crate::scalar::{ends_with, sibling_service, sibling_service_reference};
use crate::service::{ascii_words, ascii_words_of, blank_to_space};
use crate::text::{chars_of, has_char, is_ascii_space, lemma_split_single, string_from};

verus! {

/// The systemd unit relations that carry service dependencies.
#[derive(Clone, Copy, Debug, PartialEq, Eq, Structural)]
pub enum UnitRelation {
    /// `Requires=`: a required activation.
    Requires,
    /// `Wants=`: an optional activation.
    Wants,
    /// `After=`: start ordering.
    After,
}

/// What one unit entry says of one service: the relation, the service's name, and the index
/// of the entry.
pub struct RelationEvent {
    pub relation: UnitRelation,
    pub target: Seq<char>,
    pub entry: usize,
}

/// What the entries read so far say of one service.
#[verifier::ext_equal]
pub struct RelationState {
    /// Whether the first activation was required; `None` before any activation.
    pub required: Option<bool>,
    /// The entries whose activation agrees with the first one.
    pub activations: Seq<usize>,
    /// Whether both `Requires=` and `Wants=` named the service.
    pub conflicting: bool,
    /// The ordering entries.
    pub afters: Seq<usize>,
}

/// Nothing said of a service yet.
pub open spec fn no_relation() -> RelationState {
    RelationState { required: None, activations: Seq::empty(), conflicting: false, afters: Seq::empty() }
}

/// What `state` becomes once `event` (naming the same service) is read.
pub open spec fn apply_relation(state: RelationState, event: RelationEvent) -> RelationState {
    match event.relation {
        UnitRelation::After => RelationState { afters: state.afters.push(event.entry), ..state },
        _ => {
            let required = event.relation is Requires;
            match state.required {
                Some(first) => if first == required {
                    RelationState { activations: state.activations.push(event.entry), ..state }
                } else {
                    RelationState { conflicting: true, ..state }
                },
                None => RelationState { required: Some(required), activations: seq![event.entry], ..state },
            }
        },
    }
}

/// What `events` say of service `target`.
pub open spec fn relation_state(events: Seq<RelationEvent>, target: Seq<char>) -> RelationState
    decreases events.len(),
{
    if events.len() == 0 {
        no_relation()
    } else {
        let before = relation_state(events.drop_last(), target);
        if events.last().target == target {
            apply_relation(before, events.last())
        } else {
            before
        }
    }
}

/// The services that `events` name, each once, in the order they are first named.
pub open spec fn related_services(events: Seq<RelationEvent>) -> Seq<Seq<char>>
    decreases events.len(),
{
    if events.len() == 0 {
        Seq::empty()
    } else {
        let before = related_services(events.drop_last());
        if before.contains(events.last().target) {
            before
        } else {
            before.push(events.last().target)
        }
    }
}

/// What becomes of the relations gathered for one service.
#[derive(Clone, Debug, PartialEq, Eq)]
pub enum RelationOutcome {
    /// Both `Requires=` and `Wants=` named the service; the entry of the first activation.
    Conflicting { first_entry: usize },
    /// Only `After=` named the service: ordering with no activation; its first entry.
    OrderingOnly { first_entry: usize },
    /// Only `Requires=` or `Wants=` named the service: activation with no ordering; the first
    /// activation entry.
    ActivationOnly { required: bool, first_entry: usize },
    /// A service dependency, from its activation entries followed by its ordering entries.
    Dependency { required: bool, entries: Vec<usize> },
}

/// `outcome` is what `state` becomes.
pub open spec fn outcome_of(outcome: RelationOutcome, state: RelationState) -> bool {
    if state.conflicting {
        outcome == RelationOutcome::Conflicting { first_entry: state.activations[0] }
    } else {
        match state.required {
            None => outcome == RelationOutcome::OrderingOnly { first_entry: state.afters[0] },
            Some(required) => if state.afters.len() == 0 {
                outcome == RelationOutcome::ActivationOnly { required, first_entry: state.activations[0] }
            } else {
                match outcome {
                    RelationOutcome::Dependency { required: r, entries } => r == required && entries@
                        == state.activations + state.afters,
                    _ => false,
                }
            },
        }
    }
}

/// The relations one service keeps with another, as read so far.
struct RelationRecord {
    required: Option<bool>,
    activations: Vec<usize>,
    conflicting: bool,
    afters: Vec<usize>,
}

impl RelationRecord {
    spec fn state(&self) -> RelationState {
        RelationState {
            required: self.required,
            activations: self.activations@,
            conflicting: self.conflicting,
            afters: self.afters@,
        }
    }
}

/// The relations a unit's entries state with its sibling services, gathered service by service.
pub struct DependencyRelations {
    services: Vec<String>,
    records: Vec<RelationRecord>,
    events: Ghost<Seq<RelationEvent>>,
}

impl View for DependencyRelations {
    type V = Seq<RelationEvent>;

    closed spec fn view(&self) -> Seq<RelationEvent> {
        self.events@
    }
}

proof fn lemma_state_nonempty(events: Seq<RelationEvent>, target: Seq<char>)
    requires
        related_services(events).contains(target),
    ensures
        relation_state(events, target).activations.len() > 0 || relation_state(events, target).afters.len() > 0,
        relation_state(events, target).required is Some <==> relation_state(events, target).activations.len() > 0,
        relation_state(events, target).conflicting ==> relation_state(events, target).required is Some,
    decreases events.len(),
{
    if events.len() > 0 {
        let before = related_services(events.drop_last());
        if before.contains(target) {
            lemma_state_nonempty(events.drop_last(), target);
        } else {
            assert(events.last().target == target);
            lemma_state_unrelated(events.drop_last(), target);
        }
    }
}

proof fn lemma_state_shape(events: Seq<RelationEvent>, target: Seq<char>)
    ensures
        relation_state(events, target).required is Some <==> relation_state(events, target).activations.len() > 0,
        relation_state(events, target).conflicting ==> relation_state(events, target).required is Some,
    decreases events.len(),
{
    if events.len() > 0 {
        lemma_state_shape(events.drop_last(), target);
    }
}

proof fn lemma_state_unrelated(events: Seq<RelationEvent>, target: Seq<char>)
    requires
        !related_services(events).contains(target),
    ensures
        relation_state(events, target) == no_relation(),
    decreases events.len(),
{
    if events.len() > 0 {
        let before = related_services(events.drop_last());
        assert(!before.contains(target)) by {
            if before.contains(target) {
                let j = choose|j: int| 0 <= j < before.len() && before[j] == target;
                if !before.contains(events.last().target) {
                    assert(before.push(events.last().target)[j] == before[j]);
                }
            }
        }
        if events.last().target == target {
            assert(related_services(events).contains(target)) by {
                assert(related_services(events) == before.push(target));
                assert(before.push(target)[before.len() as int] == target);
            }
        }
        lemma_state_unrelated(events.drop_last(), target);
    }
}

proof fn lemma_related_distinct(events: Seq<RelationEvent>)
    ensures
        related_services(events).no_duplicates(),
    decreases events.len(),
{
    if events.len() > 0 {
        lemma_related_distinct(events.drop_last());
    }
}

impl DependencyRelations {
    /// The gathered records match the entries read.
    pub closed spec fn wf(&self) -> bool {
        &&& self.services@.map_values(|s: String| s@) == related_services(self.events@)
        &&& self.records.len() == self.services.len()
        &&& forall|i: int|
            0 <= i < self.records.len() ==> (#[trigger] self.records@[i]).state() == relation_state(
                self.events@,
                self.services@[i]@,
            )
    }

    /// No entries read yet.
    pub fn new() -> (relations: Self)
        ensures
            relations.wf(),
            relations@ == Seq::<RelationEvent>::empty(),
    {
        let relations = DependencyRelations { services: Vec::new(), records: Vec::new(), events: Ghost(Seq::empty()) };
        assert(relations.services@.map_values(|s: String| s@) =~= Seq::<Seq<char>>::empty());
        relations
    }

    /// Reads that an entry states `relation` with service `service`.
    pub fn record(&mut self, relation: UnitRelation, service: &str, entry: usize)
        requires
            old(self).wf(),
        ensures
            final(self).wf(),
            final(self)@ == old(self)@.push(RelationEvent { relation, target: service@, entry }),
    {
        let ghost event = RelationEvent { relation, target: service@, entry };
        let ghost events = self.events@;
        let ghost names = self.services@.map_values(|s: String| s@);
        let name = service.to_string();
        let mut i: usize = 0;
        while i < self.services.len()
            invariant
                i <= self.services.len(),
                names == self.services@.map_values(|s: String| s@),
                name@ == service@,
                forall|j: int| 0 <= j < i ==> self.services@[j]@ != service@,
            ensures
                i <= self.services.len(),
                i < self.services.len() ==> self.services@[i as int]@ == service@,
                forall|j: int| 0 <= j < i ==> self.services@[j]@ != service@,
            decreases self.services.len() - i,
        {
            if self.services[i] == name {
                break;
            }
            i = i + 1;
        }
        proof {
            lemma_related_distinct(events);
            assert(events.push(event).drop_last() =~= events);
        }
        if i == self.services.len() {
            proof {
                assert(!names.contains(service@)) by {
                    if names.contains(service@) {
                        let j = choose|j: int| 0 <= j < names.len() && names[j] == service@;
                        assert(self.services@[j]@ == names[j]);
                    }
                }
                lemma_state_unrelated(events, service@);
            }
            self.services.push(name);
            self.records.push(
                RelationRecord { required: None, activations: Vec::new(), conflicting: false, afters: Vec::new() },
            );
        } else {
            proof {
                assert(names[i as int] == service@);
                assert(names.contains(service@));
            }
        }
        let ghost before = self.records@[i as int].state();
        assert(before == relation_state(events, service@));
        match relation {
            UnitRelation::After => {
                self.records[i].afters.push(entry);
            },
            _ => {
                let required = match relation {
                    UnitRelation::Requires => true,
                    _ => false,
                };
                match self.records[i].required {
                    Some(first) => {
                        if first == required {
                            self.records[i].activations.push(entry);
                        } else {
                            self.records[i].conflicting = true;
                        }
                    },
                    None => {
                        self.records[i].required = Some(required);
                        self.records[i].activations.push(entry);
                        proof {
                            lemma_state_shape(events, service@);
                        }
                        assert(self.records@[i as int].activations@ =~= seq![entry]);
                    },
                }
            },
        }
        assert(self.records@[i as int].state() =~= apply_relation(before, event));
        self.events = Ghost(events.push(event));
        proof {
            let related = related_services(events.push(event));
            assert(self.services@.map_values(|s: String| s@) =~= related);
            assert forall|j: int| 0 <= j < self.records.len() implies (#[trigger] self.records@[j]).state()
                == relation_state(self.events@, self.services@[j]@) by {
                if j != i {
                    assert(self.services@[j]@ == related[j]);
                    assert(self.services@[i as int]@ == related[i as int]);
                    lemma_related_distinct(events.push(event));
                }
            }
        }
    }
    /// What becomes of the relations with each named service, in the order the services were
    /// first named.
    pub fn outcomes(&self) -> (outcomes: Vec<(String, RelationOutcome)>)
        requires
            self.wf(),
        ensures
            outcomes.len() == related_services(self@).len(),
            forall|i: int|
                0 <= i < outcomes.len() ==> (#[trigger] outcomes@[i]).0@ == related_services(self@)[i] && outcome_of(
                    outcomes@[i].1,
                    relation_state(self@, related_services(self@)[i]),
                ),
    {
        let ghost related = related_services(self@);
        let mut outcomes: Vec<(String, RelationOutcome)> = Vec::new();
        let mut i: usize = 0;
        while i < self.services.len()
            invariant
                self.wf(),
                related == related_services(self@),
                i <= self.services.len(),
                outcomes.len() == i,
                forall|j: int|
                    0 <= j < i ==> (#[trigger] outcomes@[j]).0@ == related[j] && outcome_of(
                        outcomes@[j].1,
                        relation_state(self@, related[j]),
                    ),
            decreases self.services.len() - i,
        {
            let record = &self.records[i];
            proof {
                assert(self.services@[i as int]@ == related[i as int]);
                assert(related.contains(related[i as int]));
                lemma_state_nonempty(self@, related[i as int]);
                lemma_state_shape(self@, related[i as int]);
                assert(record.state() == relation_state(self@, related[i as int]));
            }
            let outcome = if record.conflicting {
                RelationOutcome::Conflicting { first_entry: record.activations[0] }
            } else {
                match record.required {
                    None => RelationOutcome::OrderingOnly { first_entry: record.afters[0] },
                    Some(required) => {
                        if record.afters.len() == 0 {
                            RelationOutcome::ActivationOnly { required, first_entry: record.activations[0] }
                        } else {
                            let mut entries: Vec<usize> = Vec::new();
                            let mut k: usize = 0;
                            while k < record.activations.len()
                                invariant
                                    k <= record.activations.len(),
                                    entries@ == record.activations@.take(k as int),
                                decreases record.activations.len() - k,
                            {
                                entries.push(record.activations[k]);
                                assert(entries@ =~= record.activations@.take(k + 1));
                                k = k + 1;
                            }
                            let mut k: usize = 0;
                            while k < record.afters.len()
                                invariant
                                    k <= record.afters.len(),
                                    entries@ == record.activations@ + record.afters@.take(k as int),
                                decreases record.afters.len() - k,
                            {
                                entries.push(record.afters[k]);
                                assert(entries@ =~= record.activations@ + record.afters@.take(k + 1));
                                k = k + 1;
                            }
                            assert(record.afters@.take(record.afters.len() as int) =~= record.afters@);
                            RelationOutcome::Dependency { required, entries }
                        }
                    },
                }
            };
            let name = self.services[i].clone();
            outcomes.push((name, outcome));
            i = i + 1;
        }
        outcomes
    }
}

/// Why an entry, or one service reference in it, yields no relation.
#[derive(Clone, Copy, Debug, PartialEq, Eq, Structural)]
pub enum RelationIssue {
    /// The entry names no unit.
    EmptyDirective,
    /// The reference at this index is not a sibling `.container` or `.service` unit.
    NotSibling(usize),
    /// The reference at this index names the unit's own service.
    SelfDependency(usize),
}

impl RelationIssue {
    /// Why the entry or reference was set aside.
    pub fn reason(&self) -> (reason: &'static str)
        ensures
            reason@ == match self {
                RelationIssue::EmptyDirective => "empty systemd dependency directives do not define a neutral service edge"@,
                RelationIssue::NotSibling(_) => "systemd dependency is not an unescaped reference to a sibling .container or generated .service unit"@,
                RelationIssue::SelfDependency(_) => "a service cannot depend on itself"@,
            },
    {
        match self {
            RelationIssue::EmptyDirective => "empty systemd dependency directives do not define a neutral service edge",
            RelationIssue::NotSibling(_) => "systemd dependency is not an unescaped reference to a sibling .container or generated .service unit",
            RelationIssue::SelfDependency(_) => "a service cannot depend on itself",
        }
    }
}

/// What the first `references` of an entry of service `service` state: the relations they
/// carry and the issues of those that carry none.
pub open spec fn reference_relations(
    service: Seq<char>,
    relation: UnitRelation,
    references: Seq<Seq<char>>,
    services: Seq<Seq<char>>,
    entry: usize,
) -> (Seq<RelationEvent>, Seq<RelationIssue>)
    decreases references.len(),
{
    if references.len() == 0 {
        (Seq::empty(), Seq::empty())
    } else {
        let (events, issues) = reference_relations(service, relation, references.drop_last(), services, entry);
        let index = (references.len() - 1) as usize;
        match sibling_service(references.last(), services) {
            None => (events, issues.push(RelationIssue::NotSibling(index))),
            Some(target) => if target == service {
                (events, issues.push(RelationIssue::SelfDependency(index)))
            } else {
                (events.push(RelationEvent { relation, target, entry }), issues)
            },
        }
    }
}

/// What an entry of service `service` with value `value` states: an entry naming no unit is an
/// issue of its own; otherwise each whitespace-separated reference is read in turn.
pub open spec fn entry_relations(
    service: Seq<char>,
    relation: UnitRelation,
    value: Seq<char>,
    services: Seq<Seq<char>>,
    entry: usize,
) -> (Seq<RelationEvent>, Seq<RelationIssue>) {
    let references = ascii_words(value);
    if references.len() == 0 {
        (Seq::empty(), seq![RelationIssue::EmptyDirective])
    } else {
        reference_relations(service, relation, references, services, entry)
    }
}

/// Reads entry `entry` of the unit of service `service`, a `relation` entry with value `value`,
/// into `relations`; `services` are the application's services. Returns the issues of the
/// references that carry no relation.
pub fn collect_relation_entry(
    relations: &mut DependencyRelations,
    service: &str,
    relation: UnitRelation,
    value: &str,
    entry: usize,
    services: &[String],
) -> (issues: Vec<RelationIssue>)
    requires
        old(relations).wf(),
    ensures
        final(relations).wf(),
        final(relations)@ == old(relations)@ + entry_relations(
            service@,
            relation,
            value@,
            services@.map_values(|s: String| s@),
            entry,
        ).0,
        issues@ == entry_relations(service@, relation, value@, services@.map_values(|s: String| s@), entry).1,
{
    let ghost names = services@.map_values(|s: String| s@);
    let words = ascii_words_of(value);
    let ghost references = ascii_words(value@);
    let mut issues: Vec<RelationIssue> = Vec::new();
    if words.len() == 0 {
        issues.push(RelationIssue::EmptyDirective);
        assert(old(relations)@ + Seq::<RelationEvent>::empty() =~= relations@);
        return issues;
    }
    let ghost start = relations@;
    let own = service.to_string();
    let mut k: usize = 0;
    while k < words.len()
        invariant
            k <= words@.len(),
            words@.map_values(|w: Vec<char>| w@) == references,
            names == services@.map_values(|s: String| s@),
            own@ == service@,
            relations.wf(),
            relations@ == start + reference_relations(service@, relation, references.take(k as int), names, entry).0,
            issues@ == reference_relations(service@, relation, references.take(k as int), names, entry).1,
        decreases words@.len() - k,
    {
        assert(references.take(k + 1).drop_last() =~= references.take(k as int));
        assert(words@[k as int]@ == references[k as int]);
        let reference = string_from(words[k].as_slice());
        match sibling_service_reference(reference.as_str(), services) {
            None => {
                issues.push(RelationIssue::NotSibling(k));
            },
            Some(target) => {
                if target.to_string() == own {
                    issues.push(RelationIssue::SelfDependency(k));
                } else {
                    relations.record(relation, target, entry);
                    assert(relations@ =~= start + reference_relations(
                        service@,
                        relation,
                        references.take(k + 1),
                        names,
                        entry,
                    ).0);
                }
            },
        }
        k = k + 1;
    }
    assert(references.take(words@.len() as int) =~= references);
    issues
}

/// How a dependency waits for the service it names.
#[derive(Clone, Copy, Debug, PartialEq, Eq, Structural)]
pub enum DependencyCondition {
    /// The service has started.
    Started,
    /// The service reports healthy.
    Healthy,
    /// The service ran to successful completion.
    CompletedSuccessfully,
    /// A condition particular to the source format.
    Other,
}

/// Why a dependency cannot be written as unit relations: its service is absent, or its
/// condition has no unit relation (a healthy condition has one only when the service's health
/// check can be written).
pub open spec fn dependency_issue(
    target_present: bool,
    condition: DependencyCondition,
    target_health_renderable: bool,
) -> Option<Seq<char>> {
    if !target_present {
        Some("optional service dependency is absent from the application"@)
    } else {
        match condition {
            DependencyCondition::Started => None,
            DependencyCondition::Healthy => if target_health_renderable {
                None
            } else {
                Some("healthy service dependency cannot be established for the target"@)
            },
            DependencyCondition::CompletedSuccessfully => Some(
                "successful-completion dependency has no verified Quadlet mapping"@,
            ),
            DependencyCondition::Other => Some("source-specific dependency condition has no verified Quadlet mapping"@),
        }
    }
}

/// Why a dependency cannot be written as unit relations, if it cannot.
pub fn dependency_export_issue(
    target_present: bool,
    condition: DependencyCondition,
    target_health_renderable: bool,
) -> (issue: Option<&'static str>)
    ensures
        match issue {
            Some(reason) => dependency_issue(target_present, condition, target_health_renderable) == Some(reason@),
            None => dependency_issue(target_present, condition, target_health_renderable) is None,
        },
{
    if !target_present {
        return Some("optional service dependency is absent from the application");
    }
    match condition {
        DependencyCondition::Started => None,
        DependencyCondition::Healthy => {
            if target_health_renderable {
                None
            } else {
                Some("healthy service dependency cannot be established for the target")
            }
        },
        DependencyCondition::CompletedSuccessfully => Some(
            "successful-completion dependency has no verified Quadlet mapping",
        ),
        DependencyCondition::Other => Some("source-specific dependency condition has no verified Quadlet mapping"),
    }
}

/// Why a dependency's restart setting is not written: restart propagation is not carried by
/// unit relations. `None` when the dependency sets none, or sets it off.
pub fn dependency_restart_issue(restart: Option<bool>) -> (issue: Option<&'static str>)
    ensures
        issue is Some <==> restart == Some(true),
        issue matches Some(reason) ==> reason@
            == "Compose-controlled dependency restart propagation has no verified Quadlet mapping"@,
{
    match restart {
        Some(true) => Some("Compose-controlled dependency restart propagation has no verified Quadlet mapping"),
        _ => None,
    }
}

/// The unit suffix `.service`.
pub open spec fn service_suffix() -> Seq<char> {
    seq!['.', 's', 'e', 'r', 'v', 'i', 'c', 'e']
}

/// The unit that relations with service `target` name: `<target>.service`.
pub open spec fn dependency_unit(target: Seq<char>) -> Seq<char> {
    target + service_suffix()
}

/// The activation relation of a dependency: `Requires=` when it is required, `Wants=` when not.
pub open spec fn activation_relation(required: bool) -> UnitRelation {
    if required {
        UnitRelation::Requires
    } else {
        UnitRelation::Wants
    }
}

/// The unit entries written for a dependency on service `target`: its activation, then its
/// ordering, both naming `<target>.service`.
pub fn dependency_unit_entries(target: &str, required: bool) -> (entries: Vec<(UnitRelation, String)>)
    ensures
        entries@.len() == 2,
        entries@[0].0 == activation_relation(required),
        entries@[1].0 == UnitRelation::After,
        entries@[0].1@ == dependency_unit(target@),
        entries@[1].1@ == dependency_unit(target@),
{
    let mut unit = chars_of(target);
    let suffix = vec!['.', 's', 'e', 'r', 'v', 'i', 'c', 'e'];
    let mut k: usize = 0;
    while k < suffix.len()
        invariant
            k <= suffix.len(),
            suffix@ == service_suffix(),
            unit@ == target@ + suffix@.take(k as int),
        decreases suffix.len() - k,
    {
        unit.push(suffix[k]);
        assert(unit@ =~= target@ + suffix@.take(k + 1));
        k = k + 1;
    }
    assert(suffix@.take(8) =~= suffix@);
    let activation = if required {
        UnitRelation::Requires
    } else {
        UnitRelation::Wants
    };
    let mut entries: Vec<(UnitRelation, String)> = Vec::new();
    entries.push((activation, string_from(unit.as_slice())));
    entries.push((UnitRelation::After, string_from(unit.as_slice())));
    entries
}

proof fn lemma_unit_reference(target: Seq<char>, services: Seq<Seq<char>>)
    requires
        native_atom(target),
        services.contains(target),
    ensures
        ascii_words(dependency_unit(target)) == seq![dependency_unit(target)],
        sibling_service(dependency_unit(target), services) == Some(target),
{
    let unit = dependency_unit(target);
    let suffix = service_suffix();
    assert forall|i: int| 0 <= i < unit.len() implies in_set(Charset::Atom, #[trigger] unit[i]) && !is_ascii_space(
        unit[i],
    ) by {
        if i < target.len() {
            assert(unit[i] == target[i]);
            assert(in_set(Charset::Atom, target[i]));
        } else {
            assert(unit[i] == suffix[i - target.len()]);
        }
    }
    assert(unit[0] == target[0]);
    assert(unit.last() == 'e');
    assert(native_atom(unit));
    assert(blank_to_space(unit) =~= unit);
    assert(!has_char(unit, ' ')) by {
        if has_char(unit, ' ') {
            let i = choose|i: int| 0 <= i < unit.len() && unit[i] == ' ';
            assert(is_ascii_space(unit[i]));
        }
    }
    lemma_split_single(unit, ' ');
    reveal_with_fuel(Seq::filter, 2);
    assert(seq![unit].filter(|w: Seq<char>| w.len() > 0) =~= seq![unit]);
    let container = seq!['.', 'c', 'o', 'n', 't', 'a', 'i', 'n', 'e', 'r'];
    assert(!ends_with(unit, container)) by {
        if ends_with(unit, container) {
            assert(unit.skip(unit.len() - 10)[9] == unit.last());
        }
    }
    assert(ends_with(unit, suffix)) by {
        assert(unit.skip(unit.len() - 8) =~= suffix);
    }
    assert(unit.take(unit.len() - 8) =~= target);
}

/// A dependency written as unit entries reads back as the same dependency: the activation entry
/// and the ordering entry that [`dependency_unit_entries`] writes for service `target`, read as
/// entries `activation_entry` and `after_entry` of the unit of another service `service`, raise
/// no issue and leave exactly one related service, `target`, whose relations form a dependency
/// that is required exactly when the written one is.
pub proof fn lemma_dependency_reads_back(
    service: Seq<char>,
    target: Seq<char>,
    services: Seq<Seq<char>>,
    required: bool,
    activation_entry: usize,
    after_entry: usize,
)
    requires
        native_atom(target),
        services.contains(target),
        target != service,
    ensures
        ({
            let unit = dependency_unit(target);
            let activation = entry_relations(service, activation_relation(required), unit, services, activation_entry);
            let after = entry_relations(service, UnitRelation::After, unit, services, after_entry);
            let events = activation.0 + after.0;
            &&& activation.1.len() == 0
            &&& after.1.len() == 0
            &&& related_services(events) == seq![target]
            &&& relation_state(events, target) == RelationState {
                required: Some(required),
                activations: seq![activation_entry],
                conflicting: false,
                afters: seq![after_entry],
            }
        }),
{
    let unit = dependency_unit(target);
    lemma_unit_reference(target, services);
    let references = seq![unit];
    assert(references.drop_last() =~= Seq::<Seq<char>>::empty());
    let first = RelationEvent { relation: activation_relation(required), target, entry: activation_entry };
    let second = RelationEvent { relation: UnitRelation::After, target, entry: after_entry };
    assert(references.last() == unit);
    reveal_with_fuel(reference_relations, 2);
    let activation = entry_relations(service, activation_relation(required), unit, services, activation_entry);
    assert(activation.0 =~= seq![first]);
    assert(activation.1 =~= Seq::<RelationIssue>::empty());
    let after = entry_relations(service, UnitRelation::After, unit, services, after_entry);
    assert(after.0 =~= seq![second]);
    assert(after.1 =~= Seq::<RelationIssue>::empty());
    let events = seq![first] + seq![second];
    assert(events.drop_last() =~= seq![first]);
    assert(seq![first].drop_last() =~= Seq::<RelationEvent>::empty());
    reveal_with_fuel(related_services, 3);
    reveal_with_fuel(relation_state, 3);
    assert(seq![first].last() == first);
    assert(events.last() == second);
    assert(related_services(seq![first]) =~= seq![target]);
    assert(seq![target][0] == target);
    assert(seq![target].contains(target));
    assert(related_services(events) =~= seq![target]);
    assert(relation_state(seq![first], target) =~= RelationState {
        required: Some(required),
        activations: seq![activation_entry],
        conflicting: false,
        afters: Seq::empty(),
    });
    assert(relation_state(events, target) =~= RelationState {
        required: Some(required),
        activations: seq![activation_entry],
        conflicting: false,
        afters: seq![after_entry],
    });
}

/// Some entry of `events` states `relation` with service `target`.
pub open spec fn states_relation(events: Seq<RelationEvent>, target: Seq<char>, relation: UnitRelation) -> bool {
    exists|i: int| 0 <= i < events.len() && #[trigger] events[i].target == target && events[i].relation == relation
}

/// The relations gathered for a service conflict exactly when both `Requires=` and `Wants=`
/// named it; it has an activation exactly when one of them named it, and the activation is
/// required only if `Requires=` named it and optional only if `Wants=` did.
pub proof fn lemma_conflict_is_both_activations(events: Seq<RelationEvent>, target: Seq<char>)
    ensures
        relation_state(events, target).conflicting <==> states_relation(events, target, UnitRelation::Requires)
            && states_relation(events, target, UnitRelation::Wants),
        relation_state(events, target).required is None <==> !states_relation(events, target, UnitRelation::Requires)
            && !states_relation(events, target, UnitRelation::Wants),
        relation_state(events, target).required == Some(true) ==> states_relation(events, target, UnitRelation::Requires),
        relation_state(events, target).required == Some(false) ==> states_relation(events, target, UnitRelation::Wants),
    decreases events.len(),
{
    if events.len() > 0 {
        let before = events.drop_last();
        let last = events.last();
        lemma_conflict_is_both_activations(before, target);
        assert forall|relation: UnitRelation| states_relation(events, target, relation) <==> states_relation(
            before,
            target,
            relation,
        ) || (last.target == target && last.relation == relation) by {
            if states_relation(events, target, relation) {
                let i = choose|i: int| 0 <= i < events.len() && #[trigger] events[i].target == target && events[i].relation == relation;
                if i < before.len() {
                    assert(before[i] == events[i]);
                }
            }
            if states_relation(before, target, relation) {
                let i = choose|i: int| 0 <= i < before.len() && #[trigger] before[i].target == target && before[i].relation == relation;
                assert(before[i] == events[i]);
            }
            if last.target == target && last.relation == relation {
                assert(events[events.len() - 1] == last);
            }
        }
    }
}

/// What is recorded for one service depends only on the entries that name it: entries naming
/// other services, read before or after `events`, leave that service's relations as `events`
/// alone make them.
pub proof fn lemma_relations_per_service(events: Seq<RelationEvent>, others: Seq<RelationEvent>, target: Seq<char>)
    requires
        forall|i: int| 0 <= i < others.len() ==> (#[trigger] others[i]).target != target,
    ensures
        relation_state(events + others, target) == relation_state(events, target),
        relation_state(others + events, target) == relation_state(events, target),
    decreases events.len() + others.len(),
{
    if others.len() > 0 {
        let init = others.drop_last();
        assert forall|i: int| 0 <= i < init.len() implies (#[trigger] init[i]).target != target by {
            assert(init[i] == others[i]);
        }
        lemma_relations_per_service(events, init, target);
        assert((events + others).drop_last() =~= events + init);
        assert((events + others).last() == others[others.len() - 1]);
    } else {
        assert(events + others =~= events);
    }
    if events.len() > 0 {
        let init = events.drop_last();
        lemma_relations_per_service(init, others, target);
        assert((others + events).drop_last() =~= others + init);
        assert((others + events).last() == events.last());
    } else {
        assert(others + events =~= others);
        lemma_no_relation(others, target);
    }
}

/// Entries that never name `target` say nothing of it.
proof fn lemma_no_relation(others: Seq<RelationEvent>, target: Seq<char>)
    requires
        forall|i: int| 0 <= i < others.len() ==> (#[trigger] others[i]).target != target,
    ensures
        relation_state(others, target) == no_relation(),
    decreases others.len(),
{
    if others.len() > 0 {
        let init = others.drop_last();
        assert forall|i: int| 0 <= i < init.len() implies (#[trigger] init[i]).target != target by {
            assert(init[i] == others[i]);
        }
        lemma_no_relation(init, target);
        assert(others.last() == others[others.len() - 1]);
    }
}

} // verus!
