//! Single-pod grouping: the conditions under which all of an application's services can share
//! one generated pod without changing what each service declared.

use vstd::prelude::*;
use crate::grammar::{safe_word, safe_word_chars};
use crate::export::ResourceOwnership;
use crate::port::Protocol;
use crate::text::chars_of;

verus! {

broadcast use vstd::string::group_string_axioms;

/// A network attachment of a service: the network and the aliases the service has on it.
#[derive(Clone, Debug, PartialEq, Eq)]
pub struct GroupedAttachment {
    pub network: String,
    pub aliases: Vec<String>,
}

/// A port of a service: the container port, the published host port if any, and the protocol.
#[derive(Clone, Copy, Debug, PartialEq, Eq, Structural)]
pub struct GroupedPort {
    pub container: u16,
    pub published: Option<u16>,
    pub protocol: Protocol,
}

/// What single-pod grouping looks at in one service.
#[derive(Clone, Debug, PartialEq, Eq)]
pub struct GroupedService {
    pub networks: Vec<GroupedAttachment>,
    pub host_mappings: Vec<(String, String)>,
    pub user_namespace: Option<String>,
    pub ports: Vec<GroupedPort>,
}

/// Mathematical model of a [`GroupedService`].
pub struct ServiceShape {
    pub networks: Seq<(Seq<char>, Seq<Seq<char>>)>,
    pub host_mappings: Seq<(Seq<char>, Seq<char>)>,
    pub user_namespace: Option<Seq<char>>,
    pub ports: Seq<GroupedPort>,
}

/// The views of a list of strings.
pub open spec fn strings_view(values: Seq<String>) -> Seq<Seq<char>> {
    values.map_values(|s: String| s@)
}

impl View for GroupedService {
    type V = ServiceShape;

    open spec fn view(&self) -> ServiceShape {
        ServiceShape {
            networks: self.networks@.map_values(|a: GroupedAttachment| (a.network@, strings_view(a.aliases@))),
            host_mappings: self.host_mappings@.map_values(|m: (String, String)| (m.0@, m.1@)),
            user_namespace: match self.user_namespace {
                Some(u) => Some(u@),
                None => None,
            },
            ports: self.ports@,
        }
    }
}

/// Why the services cannot share one pod.
#[derive(Clone, Copy, Debug, PartialEq, Eq, Structural)]
pub enum GroupingIssue {
    NoServices,
    DifferentNetworks,
    NetworkAliases,
    DifferentHostMappings,
    DifferentUserNamespaces,
    UnsafeUserNamespace,
    OverlappingContainerPorts,
    OverlappingPublishedPorts,
}

impl GroupingIssue {
    /// What cannot be preserved, and what to do about it.
    pub fn explanation(&self) -> (texts: (&'static str, &'static str))
        ensures
            texts.0@ == match self {
                GroupingIssue::NoServices => "single-pod grouping requires at least one service"@,
                GroupingIssue::DifferentNetworks => "single-pod grouping would change declared service networking"@,
                GroupingIssue::NetworkAliases => "single-pod grouping cannot preserve per-service network aliases"@,
                GroupingIssue::DifferentHostMappings => "single-pod grouping cannot preserve different per-service host mappings"@,
                GroupingIssue::DifferentUserNamespaces => "single-pod grouping cannot preserve different per-service user namespaces"@,
                GroupingIssue::UnsafeUserNamespace => "single-pod grouping cannot encode the shared user namespace safely"@,
                GroupingIssue::OverlappingContainerPorts => "single-pod grouping has overlapping declared container ports"@,
                GroupingIssue::OverlappingPublishedPorts => "single-pod grouping has overlapping published host ports"@,
            },
            texts.1@ == match self {
                GroupingIssue::NoServices => "the neutral application contains no services"@,
                GroupingIssue::DifferentNetworks => "all services must have the same ordered network attachments and no aliases"@,
                GroupingIssue::NetworkAliases => "remove aliases or retain separate containers"@,
                GroupingIssue::DifferentHostMappings => "all services must have the same ordered host mappings or retain separate containers"@,
                GroupingIssue::DifferentUserNamespaces => "all services must declare the same user namespace, or every service must leave it implicit"@,
                GroupingIssue::UnsafeUserNamespace => "the shared user namespace contains unsupported whitespace or control syntax"@,
                GroupingIssue::OverlappingContainerPorts => "services in one pod share a network namespace; retain separate containers or remove the overlap"@,
                GroupingIssue::OverlappingPublishedPorts => "retain separate containers or assign distinct host ports"@,
            },
    {
        match self {
            GroupingIssue::NoServices => (
                "single-pod grouping requires at least one service",
                "the neutral application contains no services",
            ),
            GroupingIssue::DifferentNetworks => (
                "single-pod grouping would change declared service networking",
                "all services must have the same ordered network attachments and no aliases",
            ),
            GroupingIssue::NetworkAliases => (
                "single-pod grouping cannot preserve per-service network aliases",
                "remove aliases or retain separate containers",
            ),
            GroupingIssue::DifferentHostMappings => (
                "single-pod grouping cannot preserve different per-service host mappings",
                "all services must have the same ordered host mappings or retain separate containers",
            ),
            GroupingIssue::DifferentUserNamespaces => (
                "single-pod grouping cannot preserve different per-service user namespaces",
                "all services must declare the same user namespace, or every service must leave it implicit",
            ),
            GroupingIssue::UnsafeUserNamespace => (
                "single-pod grouping cannot encode the shared user namespace safely",
                "the shared user namespace contains unsupported whitespace or control syntax",
            ),
            GroupingIssue::OverlappingContainerPorts => (
                "single-pod grouping has overlapping declared container ports",
                "services in one pod share a network namespace; retain separate containers or remove the overlap",
            ),
            GroupingIssue::OverlappingPublishedPorts => (
                "single-pod grouping has overlapping published host ports",
                "retain separate containers or assign distinct host ports",
            ),
        }
    }
}

/// The first issue of service `s` against the first service: other network attachments, any
/// network alias, or other host mappings.
pub open spec fn shape_issue(s: ServiceShape, first: ServiceShape) -> Option<GroupingIssue> {
    if s.networks != first.networks {
        Some(GroupingIssue::DifferentNetworks)
    } else if exists|k: int| 0 <= k < s.networks.len() && (#[trigger] s.networks[k]).1.len() > 0 {
        Some(GroupingIssue::NetworkAliases)
    } else if s.host_mappings != first.host_mappings {
        Some(GroupingIssue::DifferentHostMappings)
    } else {
        None
    }
}

/// The first issue among the first `k` services, in order.
pub open spec fn shape_issue_upto(services: Seq<ServiceShape>, k: int) -> Option<GroupingIssue>
    decreases k,
{
    if k <= 0 {
        None
    } else {
        match shape_issue_upto(services, k - 1) {
            Some(issue) => Some(issue),
            None => shape_issue(services[k - 1], services[0]),
        }
    }
}

/// The user-namespace issue: services that differ, or a shared one that is not a safe word.
pub open spec fn user_namespace_issue(services: Seq<ServiceShape>) -> Option<GroupingIssue> {
    if exists|i: int| 0 <= i < services.len() && (#[trigger] services[i]).user_namespace != services[0].user_namespace {
        Some(GroupingIssue::DifferentUserNamespaces)
    } else if services[0].user_namespace matches Some(u) && !safe_word(u, false) {
        Some(GroupingIssue::UnsafeUserNamespace)
    } else {
        None
    }
}

/// Port `b` of service `j` has a container port and protocol that an earlier service declares.
pub open spec fn container_clash(services: Seq<ServiceShape>, j: int, b: int) -> bool {
    exists|i: int, a: int|
        0 <= i < j && 0 <= a < services[i].ports.len() && (#[trigger] services[i].ports[a]).container
            == services[j].ports[b].container && services[i].ports[a].protocol == services[j].ports[b].protocol
}

/// Port `b` of service `j` publishes a host port and protocol that an earlier service publishes.
pub open spec fn published_clash(services: Seq<ServiceShape>, j: int, b: int) -> bool {
    services[j].ports[b].published is Some && exists|i: int, a: int|
        0 <= i < j && 0 <= a < services[i].ports.len() && (#[trigger] services[i].ports[a]).published
            == services[j].ports[b].published && services[i].ports[a].protocol == services[j].ports[b].protocol
}

/// Port `b` of service `j` clashes with an earlier service's port.
pub open spec fn clash(services: Seq<ServiceShape>, j: int, b: int) -> bool {
    container_clash(services, j, b) || published_clash(services, j, b)
}

/// No port before position `(j, b)`, in service order then port order, clashes.
pub open spec fn no_clash_before(services: Seq<ServiceShape>, j: int, b: int) -> bool {
    forall|i: int, a: int|
        0 <= i < services.len() && 0 <= a < services[i].ports.len() && (i < j || (i == j && a < b)) ==> !#[trigger] clash(
            services,
            i,
            a,
        )
}

/// The port issue: the first clashing port, in service order then port order, decides whether
/// container or published ports overlap.
pub open spec fn port_issue(services: Seq<ServiceShape>) -> Option<GroupingIssue> {
    if exists|j: int, b: int|
        0 <= j < services.len() && 0 <= b < services[j].ports.len() && #[trigger] clash(services, j, b)
            && no_clash_before(services, j, b) && container_clash(services, j, b) {
        Some(GroupingIssue::OverlappingContainerPorts)
    } else if exists|j: int, b: int| 0 <= j < services.len() && 0 <= b < services[j].ports.len() && #[trigger] clash(services, j, b) {
        Some(GroupingIssue::OverlappingPublishedPorts)
    } else {
        None
    }
}

/// Whether `services` can share one pod, and the first issue when they cannot: no services;
/// then, service by service, its network attachments, aliases and host mappings against the
/// first service's; then the user namespace; then overlapping ports.
pub open spec fn grouping_issue(services: Seq<ServiceShape>) -> Option<GroupingIssue> {
    if services.len() == 0 {
        Some(GroupingIssue::NoServices)
    } else if shape_issue_upto(services, services.len() as int) is Some {
        shape_issue_upto(services, services.len() as int)
    } else if user_namespace_issue(services) is Some {
        user_namespace_issue(services)
    } else {
        port_issue(services)
    }
}

/// The shapes of `services`.
pub open spec fn shapes(services: Seq<GroupedService>) -> Seq<ServiceShape> {
    services.map_values(|s: GroupedService| s@)
}

fn same_strings(a: &Vec<String>, b: &Vec<String>) -> (same: bool)
    ensures
        same == (strings_view(a@) == strings_view(b@)),
{
    if a.len() != b.len() {
        assert(strings_view(a@).len() != strings_view(b@).len());
        return false;
    }
    let mut i: usize = 0;
    while i < a.len()
        invariant
            i <= a@.len(),
            a@.len() == b@.len(),
            forall|k: int| 0 <= k < i ==> a@[k]@ == b@[k]@,
        decreases a@.len() - i,
    {
        if !(a[i] == b[i]) {
            assert(strings_view(a@)[i as int] != strings_view(b@)[i as int]);
            return false;
        }
        i = i + 1;
    }
    assert(strings_view(a@) =~= strings_view(b@));
    true
}

fn same_attachments(a: &Vec<GroupedAttachment>, b: &Vec<GroupedAttachment>) -> (same: bool)
    ensures
        same == (a@.map_values(|x: GroupedAttachment| (x.network@, strings_view(x.aliases@))) == b@.map_values(
            |x: GroupedAttachment| (x.network@, strings_view(x.aliases@)),
        )),
{
    let ghost va = a@.map_values(|x: GroupedAttachment| (x.network@, strings_view(x.aliases@)));
    let ghost vb = b@.map_values(|x: GroupedAttachment| (x.network@, strings_view(x.aliases@)));
    if a.len() != b.len() {
        assert(va.len() != vb.len());
        return false;
    }
    let mut i: usize = 0;
    while i < a.len()
        invariant
            i <= a@.len(),
            a@.len() == b@.len(),
            va == a@.map_values(|x: GroupedAttachment| (x.network@, strings_view(x.aliases@))),
            vb == b@.map_values(|x: GroupedAttachment| (x.network@, strings_view(x.aliases@))),
            forall|k: int| 0 <= k < i ==> va[k] == vb[k],
        decreases a@.len() - i,
    {
        if !(a[i].network == b[i].network) || !same_strings(&a[i].aliases, &b[i].aliases) {
            assert(va[i as int] != vb[i as int]);
            return false;
        }
        i = i + 1;
    }
    assert(va =~= vb);
    true
}

fn same_pairs(a: &Vec<(String, String)>, b: &Vec<(String, String)>) -> (same: bool)
    ensures
        same == (a@.map_values(|m: (String, String)| (m.0@, m.1@)) == b@.map_values(|m: (String, String)| (m.0@, m.1@))),
{
    let ghost va = a@.map_values(|m: (String, String)| (m.0@, m.1@));
    let ghost vb = b@.map_values(|m: (String, String)| (m.0@, m.1@));
    if a.len() != b.len() {
        assert(va.len() != vb.len());
        return false;
    }
    let mut i: usize = 0;
    while i < a.len()
        invariant
            i <= a@.len(),
            a@.len() == b@.len(),
            va == a@.map_values(|m: (String, String)| (m.0@, m.1@)),
            vb == b@.map_values(|m: (String, String)| (m.0@, m.1@)),
            forall|k: int| 0 <= k < i ==> va[k] == vb[k],
        decreases a@.len() - i,
    {
        if !(a[i].0 == b[i].0) || !(a[i].1 == b[i].1) {
            assert(va[i as int] != vb[i as int]);
            return false;
        }
        i = i + 1;
    }
    assert(va =~= vb);
    true
}

fn service_shape_issue(service: &GroupedService, first: &GroupedService) -> (issue: Option<GroupingIssue>)
    ensures
        issue == shape_issue(service@, first@),
{
    if !same_attachments(&service.networks, &first.networks) {
        return Some(GroupingIssue::DifferentNetworks);
    }
    let ghost nets = service@.networks;
    let mut k: usize = 0;
    while k < service.networks.len()
        invariant
            k <= service.networks@.len(),
            nets == service@.networks,
            service@.networks == first@.networks,
            forall|j: int| 0 <= j < k ==> (#[trigger] nets[j]).1.len() == 0,
        decreases service.networks@.len() - k,
    {
        if service.networks[k].aliases.len() > 0 {
            assert(nets[k as int].1.len() > 0);
            return Some(GroupingIssue::NetworkAliases);
        }
        k = k + 1;
    }
    if !same_pairs(&service.host_mappings, &first.host_mappings) {
        return Some(GroupingIssue::DifferentHostMappings);
    }
    None
}

fn same_user_namespace(a: &Option<String>, b: &Option<String>) -> (same: bool)
    ensures
        same == (match a {
            Some(x) => Some(x@),
            None => None,
        } == match b {
            Some(x) => Some(x@),
            None => None,
        }),
{
    match a {
        Some(x) => match b {
            Some(y) => {
                let same = *x == *y;
                same
            },
            None => false,
        },
        None => b.is_none(),
    }
}

fn earlier_container(services: &[GroupedService], j: usize, port: GroupedPort) -> (found: bool)
    requires
        j <= services@.len(),
    ensures
        found == exists|i: int, a: int|
            0 <= i < j && 0 <= a < shapes(services@)[i].ports.len() && (#[trigger] shapes(services@)[i].ports[a]).container
                == port.container && shapes(services@)[i].ports[a].protocol == port.protocol,
{
    let ghost all = shapes(services@);
    let mut i: usize = 0;
    while i < j
        invariant
            i <= j <= services@.len(),
            all == shapes(services@),
            forall|x: int, a: int|
                0 <= x < i && 0 <= a < all[x].ports.len() ==> !((#[trigger] all[x].ports[a]).container == port.container
                    && all[x].ports[a].protocol == port.protocol),
        decreases j - i,
    {
        let ports = &services[i].ports;
        assert(all[i as int].ports == ports@);
        let mut a: usize = 0;
        while a < ports.len()
            invariant
                i < j <= services@.len(),
                all == shapes(services@),
                all[i as int].ports == ports@,
                a <= ports@.len(),
                forall|x: int, b: int|
                    0 <= x < i && 0 <= b < all[x].ports.len() ==> !((#[trigger] all[x].ports[b]).container == port.container
                        && all[x].ports[b].protocol == port.protocol),
                forall|b: int| 0 <= b < a ==> !((#[trigger] ports@[b]).container == port.container && ports@[b].protocol == port.protocol),
            decreases ports@.len() - a,
        {
            if ports[a].container == port.container && ports[a].protocol == port.protocol {
                assert(all[i as int].ports[a as int] == ports@[a as int]);
                return true;
            }
            a = a + 1;
        }
        i = i + 1;
    }
    false
}

fn earlier_published(services: &[GroupedService], j: usize, port: GroupedPort) -> (found: bool)
    requires
        j <= services@.len(),
    ensures
        found == exists|i: int, a: int|
            0 <= i < j && 0 <= a < shapes(services@)[i].ports.len() && (#[trigger] shapes(services@)[i].ports[a]).published
                == port.published && shapes(services@)[i].ports[a].protocol == port.protocol,
{
    let ghost all = shapes(services@);
    let mut i: usize = 0;
    while i < j
        invariant
            i <= j <= services@.len(),
            all == shapes(services@),
            forall|x: int, a: int|
                0 <= x < i && 0 <= a < all[x].ports.len() ==> !((#[trigger] all[x].ports[a]).published == port.published
                    && all[x].ports[a].protocol == port.protocol),
        decreases j - i,
    {
        let ports = &services[i].ports;
        assert(all[i as int].ports == ports@);
        let mut a: usize = 0;
        while a < ports.len()
            invariant
                i < j <= services@.len(),
                all == shapes(services@),
                all[i as int].ports == ports@,
                a <= ports@.len(),
                forall|x: int, b: int|
                    0 <= x < i && 0 <= b < all[x].ports.len() ==> !((#[trigger] all[x].ports[b]).published == port.published
                        && all[x].ports[b].protocol == port.protocol),
                forall|b: int| 0 <= b < a ==> !((#[trigger] ports@[b]).published == port.published && ports@[b].protocol == port.protocol),
            decreases ports@.len() - a,
        {
            if ports[a].published == port.published && ports[a].protocol == port.protocol {
                assert(all[i as int].ports[a as int] == ports@[a as int]);
                return true;
            }
            a = a + 1;
        }
        i = i + 1;
    }
    false
}

/// The first clash is the only clash with no clash before it.
proof fn lemma_first_clash_unique(services: Seq<ServiceShape>, j: int, b: int, j2: int, b2: int)
    requires
        0 <= j < services.len(),
        0 <= b < services[j].ports.len(),
        0 <= j2 < services.len(),
        0 <= b2 < services[j2].ports.len(),
        clash(services, j, b),
        no_clash_before(services, j, b),
        clash(services, j2, b2),
        no_clash_before(services, j2, b2),
    ensures
        j == j2 && b == b2,
{
    if j < j2 || (j == j2 && b < b2) {
        assert(!clash(services, j, b));
    } else if j2 < j || (j == j2 && b2 < b) {
        assert(!clash(services, j2, b2));
    }
}

/// Checks whether `services` can share one pod; the first issue when they cannot.
pub fn check_single_pod_grouping(services: &[GroupedService]) -> (checked: Result<(), GroupingIssue>)
    ensures
        match checked {
            Ok(()) => grouping_issue(shapes(services@)) is None,
            Err(issue) => grouping_issue(shapes(services@)) == Some(issue),
        },
{
    let ghost all = shapes(services@);
    if services.len() == 0 {
        return Err(GroupingIssue::NoServices);
    }
    let first = &services[0];
    assert(all[0] == first@);
    let mut k: usize = 0;
    while k < services.len()
        invariant
            k <= services@.len(),
            services@.len() > 0,
            all == shapes(services@),
            all[0] == first@,
            shape_issue_upto(all, k as int) is None,
        decreases services@.len() - k,
    {
        assert(all[k as int] == services@[k as int]@);
        match service_shape_issue(&services[k], first) {
            Some(issue) => {
                assert(shape_issue_upto(all, k + 1) == Some(issue));
                proof {
                    lemma_issue_persists(all, k + 1, services@.len() as int);
                }
                return Err(issue);
            },
            None => {},
        }
        k = k + 1;
    }
    let mut i: usize = 0;
    while i < services.len()
        invariant
            i <= services@.len(),
            services@.len() > 0,
            all == shapes(services@),
            all[0] == first@,
            shape_issue_upto(all, services@.len() as int) is None,
            forall|x: int| 0 <= x < i ==> (#[trigger] all[x]).user_namespace == all[0].user_namespace,
        decreases services@.len() - i,
    {
        assert(all[i as int] == services@[i as int]@);
        if !same_user_namespace(&services[i].user_namespace, &first.user_namespace) {
            assert(all[i as int].user_namespace != all[0].user_namespace);
            return Err(GroupingIssue::DifferentUserNamespaces);
        }
        i = i + 1;
    }
    match &first.user_namespace {
        Some(u) => {
            if !safe_word_chars(chars_of(u.as_str()).as_slice(), false) {
                return Err(GroupingIssue::UnsafeUserNamespace);
            }
        },
        None => {},
    }
    assert(user_namespace_issue(all) is None);
    let mut j: usize = 0;
    while j < services.len()
        invariant
            j <= services@.len(),
            all == shapes(services@),
            services@.len() > 0,
            shape_issue_upto(all, services@.len() as int) is None,
            user_namespace_issue(all) is None,
            no_clash_before(all, j as int, 0),
        decreases services@.len() - j,
    {
        let ports = &services[j].ports;
        assert(all[j as int].ports == ports@);
        let mut b: usize = 0;
        while b < ports.len()
            invariant
                j < services@.len(),
                all == shapes(services@),
                shape_issue_upto(all, services@.len() as int) is None,
                user_namespace_issue(all) is None,
                all[j as int].ports == ports@,
                b <= ports@.len(),
                no_clash_before(all, j as int, b as int),
            decreases ports@.len() - b,
        {
            let port = ports[b];
            let container = earlier_container(services, j, port);
            let published = port.published.is_some() && earlier_published(services, j, port);
            assert(container == container_clash(all, j as int, b as int));
            assert(published == published_clash(all, j as int, b as int));
            if container {
                assert(clash(all, j as int, b as int));
                return Err(GroupingIssue::OverlappingContainerPorts);
            }
            if published {
                assert(clash(all, j as int, b as int));
                proof {
                    assert forall|j2: int, b2: int|
                        0 <= j2 < all.len() && 0 <= b2 < all[j2].ports.len() && #[trigger] clash(all, j2, b2)
                            && no_clash_before(all, j2, b2) implies !container_clash(all, j2, b2) by {
                        lemma_first_clash_unique(all, j as int, b as int, j2, b2);
                    }
                }
                return Err(GroupingIssue::OverlappingPublishedPorts);
            }
            proof {
                assert forall|x: int, a: int|
                    0 <= x < all.len() && 0 <= a < all[x].ports.len() && (x < j || (x == j && a < b + 1)) implies !#[trigger] clash(
                    all,
                    x,
                    a,
                ) by {
                    if !(x == j && a == b) {
                        assert(x < j || (x == j && a < b));
                    }
                }
            }
            b = b + 1;
        }
        proof {
            assert forall|x: int, a: int|
                0 <= x < all.len() && 0 <= a < all[x].ports.len() && (x < j + 1 || (x == j + 1 && a < 0)) implies !#[trigger] clash(
                all,
                x,
                a,
            ) by {
                if x < j {
                } else {
                    assert(x == j && a < ports@.len());
                }
            }
        }
        j = j + 1;
    }
    proof {
        assert forall|x: int, a: int| 0 <= x < all.len() && 0 <= a < all[x].ports.len() implies !#[trigger] clash(all, x, a) by {
            assert(x < all.len());
        }
    }
    Ok(())
}

proof fn lemma_issue_persists(services: Seq<ServiceShape>, k: int, n: int)
    requires
        0 <= k <= n,
        shape_issue_upto(services, k) is Some,
    ensures
        shape_issue_upto(services, n) == shape_issue_upto(services, k),
    decreases n - k,
{
    if k < n {
        lemma_issue_persists(services, k, n - 1);
    }
}

/// Why the application's one service group cannot be preserved as its pod.
#[derive(Clone, Copy, Debug, PartialEq, Eq, Structural)]
pub enum PreservedGroupIssue {
    /// The application has no service group.
    NoGroup,
    /// The application has several service groups.
    SeveralGroups,
    /// The group is not owned by the application.
    NotApplicationOwned,
    /// The group does not hold every service exactly once.
    IncompleteMembership,
    /// The group has no runtime settings of its own, and its services cannot share one pod.
    Grouping(GroupingIssue),
}

impl PreservedGroupIssue {
    /// What cannot be preserved, and what to do about it.
    pub fn explanation(&self) -> (texts: (&'static str, &'static str))
        ensures
            match self {
                PreservedGroupIssue::NoGroup => texts.0@ == "preserving a neutral service group requires exactly one group"@
                    && texts.1@ == "the application contains no service group"@,
                PreservedGroupIssue::SeveralGroups => texts.0@
                    == "preserving a neutral service group requires exactly one group"@ && texts.1@
                    == "the application contains multiple service groups"@,
                PreservedGroupIssue::NotApplicationOwned => texts.0@
                    == "only an application-owned service group can be generated as a Quadlet pod"@ && texts.1@
                    == "resolve the group lifecycle as application-owned before selecting preserve-single-group"@,
                PreservedGroupIssue::IncompleteMembership => texts.0@
                    == "preserved Quadlet pod membership must cover the complete application"@ && texts.1@
                    == "the single service group does not contain every application service exactly once"@,
                PreservedGroupIssue::Grouping(issue) => {
                    let (what, how) = issue_texts(*issue);
                    texts.0@ == what && texts.1@ == how
                },
            },
    {
        match self {
            PreservedGroupIssue::NoGroup => (
                "preserving a neutral service group requires exactly one group",
                "the application contains no service group",
            ),
            PreservedGroupIssue::SeveralGroups => (
                "preserving a neutral service group requires exactly one group",
                "the application contains multiple service groups",
            ),
            PreservedGroupIssue::NotApplicationOwned => (
                "only an application-owned service group can be generated as a Quadlet pod",
                "resolve the group lifecycle as application-owned before selecting preserve-single-group",
            ),
            PreservedGroupIssue::IncompleteMembership => (
                "preserved Quadlet pod membership must cover the complete application",
                "the single service group does not contain every application service exactly once",
            ),
            PreservedGroupIssue::Grouping(issue) => issue.explanation(),
        }
    }
}

/// The explanation texts of a grouping issue.
pub open spec fn issue_texts(issue: GroupingIssue) -> (Seq<char>, Seq<char>) {
    match issue {
        GroupingIssue::NoServices => (
            "single-pod grouping requires at least one service"@,
            "the neutral application contains no services"@,
        ),
        GroupingIssue::DifferentNetworks => (
            "single-pod grouping would change declared service networking"@,
            "all services must have the same ordered network attachments and no aliases"@,
        ),
        GroupingIssue::NetworkAliases => (
            "single-pod grouping cannot preserve per-service network aliases"@,
            "remove aliases or retain separate containers"@,
        ),
        GroupingIssue::DifferentHostMappings => (
            "single-pod grouping cannot preserve different per-service host mappings"@,
            "all services must have the same ordered host mappings or retain separate containers"@,
        ),
        GroupingIssue::DifferentUserNamespaces => (
            "single-pod grouping cannot preserve different per-service user namespaces"@,
            "all services must declare the same user namespace, or every service must leave it implicit"@,
        ),
        GroupingIssue::UnsafeUserNamespace => (
            "single-pod grouping cannot encode the shared user namespace safely"@,
            "the shared user namespace contains unsupported whitespace or control syntax"@,
        ),
        GroupingIssue::OverlappingContainerPorts => (
            "single-pod grouping has overlapping declared container ports"@,
            "services in one pod share a network namespace; retain separate containers or remove the overlap"@,
        ),
        GroupingIssue::OverlappingPublishedPorts => (
            "single-pod grouping has overlapping published host ports"@,
            "retain separate containers or assign distinct host ports"@,
        ),
    }
}

/// Whether the application's one service group can be preserved as its pod: the application
/// has exactly `group_count == 1` group, owned by the application, whose `members` name exactly
/// the services `service_names`, as many as there are services; a group with no runtime
/// settings of its own must also meet single-pod grouping for `services`.
pub open spec fn preserved_group_issue(
    group_count: nat,
    ownership: ResourceOwnership,
    members: Seq<Seq<char>>,
    service_names: Seq<Seq<char>>,
    has_runtime: bool,
    services: Seq<ServiceShape>,
) -> Option<PreservedGroupIssue> {
    if group_count == 0 {
        Some(PreservedGroupIssue::NoGroup)
    } else if group_count > 1 {
        Some(PreservedGroupIssue::SeveralGroups)
    } else if ownership != ResourceOwnership::Application {
        Some(PreservedGroupIssue::NotApplicationOwned)
    } else if members.to_set() != service_names.to_set() || members.len() != service_names.len() {
        Some(PreservedGroupIssue::IncompleteMembership)
    } else if !has_runtime && grouping_issue(services) is Some {
        Some(PreservedGroupIssue::Grouping(grouping_issue(services)->Some_0))
    } else {
        None
    }
}

fn contains_string(values: &[String], value: &String) -> (found: bool)
    ensures
        found == strings_view(values@).contains(value@),
{
    let mut i: usize = 0;
    while i < values.len()
        invariant
            i <= values@.len(),
            forall|j: int| 0 <= j < i ==> values@[j]@ != value@,
        decreases values@.len() - i,
    {
        if values[i] == *value {
            assert(strings_view(values@)[i as int] == value@);
            return true;
        }
        i = i + 1;
    }
    assert(!strings_view(values@).contains(value@)) by {
        if strings_view(values@).contains(value@) {
            let j = choose|j: int| 0 <= j < strings_view(values@).len() && strings_view(values@)[j] == value@;
            assert(values@[j]@ == value@);
        }
    }
    false
}

fn all_contained(values: &[String], within: &[String]) -> (contained: bool)
    ensures
        contained == forall|i: int| 0 <= i < values@.len() ==> strings_view(within@).contains(#[trigger] values@[i]@),
{
    let mut i: usize = 0;
    while i < values.len()
        invariant
            i <= values@.len(),
            forall|j: int| 0 <= j < i ==> strings_view(within@).contains(#[trigger] values@[j]@),
        decreases values@.len() - i,
    {
        if !contains_string(within, &values[i]) {
            return false;
        }
        i = i + 1;
    }
    true
}

/// Checks whether the application's one service group can be preserved as its pod.
pub fn check_preserved_group(
    group_count: usize,
    ownership: ResourceOwnership,
    members: &[String],
    service_names: &[String],
    has_runtime: bool,
    services: &[GroupedService],
) -> (checked: Result<(), PreservedGroupIssue>)
    ensures
        match checked {
            Ok(()) => preserved_group_issue(
                group_count as nat,
                ownership,
                strings_view(members@),
                strings_view(service_names@),
                has_runtime,
                shapes(services@),
            ) is None,
            Err(issue) => preserved_group_issue(
                group_count as nat,
                ownership,
                strings_view(members@),
                strings_view(service_names@),
                has_runtime,
                shapes(services@),
            ) == Some(issue),
        },
{
    if group_count == 0 {
        return Err(PreservedGroupIssue::NoGroup);
    }
    if group_count > 1 {
        return Err(PreservedGroupIssue::SeveralGroups);
    }
    if ownership != ResourceOwnership::Application {
        return Err(PreservedGroupIssue::NotApplicationOwned);
    }
    let ghost m = strings_view(members@);
    let ghost n = strings_view(service_names@);
    let covers = all_contained(members, service_names) && all_contained(service_names, members);
    proof {
        if covers {
            assert forall|x: Seq<char>| m.to_set().contains(x) <==> n.to_set().contains(x) by {
                if m.contains(x) {
                    let i = choose|i: int| 0 <= i < m.len() && m[i] == x;
                    assert(members@[i]@ == x);
                }
                if n.contains(x) {
                    let i = choose|i: int| 0 <= i < n.len() && n[i] == x;
                    assert(service_names@[i]@ == x);
                }
            }
            assert(m.to_set() =~= n.to_set());
        } else {
            assert(m.to_set() != n.to_set()) by {
                if m.to_set() == n.to_set() {
                    assert forall|i: int| 0 <= i < members@.len() implies n.contains(#[trigger] members@[i]@) by {
                        assert(m[i] == members@[i]@);
                        assert(m.to_set().contains(m[i]));
                    }
                    assert forall|i: int| 0 <= i < service_names@.len() implies m.contains(#[trigger] service_names@[i]@) by {
                        assert(n[i] == service_names@[i]@);
                        assert(n.to_set().contains(n[i]));
                    }
                }
            }
        }
    }
    if !covers || members.len() != service_names.len() {
        return Err(PreservedGroupIssue::IncompleteMembership);
    }
    if !has_runtime {
        match check_single_pod_grouping(services) {
            Err(issue) => {
                return Err(PreservedGroupIssue::Grouping(issue));
            },
            Ok(()) => {},
        }
    }
    Ok(())
}

} // verus!
