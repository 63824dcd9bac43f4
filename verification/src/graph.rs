//! The service dependency graph: required dependencies must name a service, and services must
//! admit a start order in which every service comes after the services it depends on.

use vstd::prelude::*;

verus! {

/// One dependency of a service: the service it names and whether it is required.
#[derive(Clone, Copy, Debug, PartialEq, Eq, Structural)]
pub struct ServiceDependency {
    /// Index of the service depended on. `None`, or an index not below the number of services,
    /// names no service of the application.
    pub target: Option<usize>,
    /// Whether the dependency must be satisfied.
    pub required: bool,
}

/// What checking the dependency graph found.
#[derive(Clone, Debug, PartialEq, Eq)]
pub enum DependencyCheck {
    /// Required dependencies that name no service, as `(service, dependency index)` pairs.
    MissingRequired(Vec<(usize, usize)>),
    /// The services that no start order can reach, in increasing order.
    Cycle(Vec<usize>),
    /// Every service can be started after the services it depends on.
    Ordered,
}

/// The dependency lists of the services, service by service.
pub open spec fn dependency_lists(dependencies: Seq<Vec<ServiceDependency>>) -> Seq<Seq<ServiceDependency>> {
    dependencies.map_values(|list: Vec<ServiceDependency>| list@)
}

/// Whether `dependency` names one of the `n` services.
pub open spec fn names_service(dependency: ServiceDependency, n: int) -> bool {
    dependency.target is Some && (dependency.target->Some_0 as int) < n
}

/// The required dependencies of `list` (the dependencies of service `s`, out of `n`) that name
/// no service.
pub open spec fn missing_in(list: Seq<ServiceDependency>, s: int, n: int) -> Seq<(usize, usize)>
    decreases list.len(),
{
    if list.len() == 0 {
        Seq::empty()
    } else {
        missing_in(list.drop_last(), s, n) + if list.last().required && !names_service(list.last(), n) {
            seq![(s as usize, (list.len() - 1) as usize)]
        } else {
            Seq::empty()
        }
    }
}

/// The required dependencies of the first `m` services that name no service.
pub open spec fn missing_upto(deps: Seq<Seq<ServiceDependency>>, m: int) -> Seq<(usize, usize)>
    decreases m,
{
    if m <= 0 {
        Seq::empty()
    } else {
        missing_upto(deps, m - 1) + missing_in(deps[m - 1], m - 1, deps.len() as int)
    }
}

/// The required dependencies that name no service, service by service.
pub open spec fn missing_required(deps: Seq<Seq<ServiceDependency>>) -> Seq<(usize, usize)> {
    missing_upto(deps, deps.len() as int)
}

/// The number of dependencies in `list` that name one of the `n` services outside `done`.
pub open spec fn pending(list: Seq<ServiceDependency>, done: Set<usize>, n: int) -> nat
    decreases list.len(),
{
    if list.len() == 0 {
        0
    } else {
        pending(list.drop_last(), done, n) + if names_service(list.last(), n) && !done.contains(
            list.last().target->Some_0,
        ) {
            1nat
        } else {
            0nat
        }
    }
}

/// The number of dependencies in `list` that name service `t`.
pub open spec fn naming(list: Seq<ServiceDependency>, t: usize) -> nat
    decreases list.len(),
{
    if list.len() == 0 {
        0
    } else {
        naming(list.drop_last(), t) + if list.last().target == Some(t) {
            1nat
        } else {
            0nat
        }
    }
}

/// The number of occurrences of `v` in `s`.
pub open spec fn occurrences(s: Seq<usize>, v: usize) -> nat
    decreases s.len(),
{
    if s.len() == 0 {
        0
    } else {
        occurrences(s.drop_last(), v) + if s.last() == v {
            1nat
        } else {
            0nat
        }
    }
}

/// `order` lists services, each once, and each after every service that it names.
pub open spec fn ordered_prefix(deps: Seq<Seq<ServiceDependency>>, order: Seq<usize>) -> bool {
    &&& order.no_duplicates()
    &&& forall|i: int| 0 <= i < order.len() ==> (#[trigger] order[i] as int) < deps.len()
    &&& forall|i: int, k: int|
        0 <= i < order.len() && 0 <= k < deps[order[i] as int].len() && names_service(
            #[trigger] deps[order[i] as int][k],
            deps.len() as int,
        ) ==> exists|j: int| 0 <= j < i && #[trigger] order[j] == deps[order[i] as int][k].target->Some_0
}

/// `order` is an ordered prefix that lists every service.
pub open spec fn start_order(deps: Seq<Seq<ServiceDependency>>, order: Seq<usize>) -> bool {
    &&& ordered_prefix(deps, order)
    &&& forall|x: usize| (x as int) < deps.len() ==> #[trigger] order.contains(x)
}

/// Some start order exists.
pub open spec fn startable(deps: Seq<Seq<ServiceDependency>>) -> bool {
    exists|order: Seq<usize>| start_order(deps, order)
}

/// Service `x` can be started: some ordered prefix lists it.
pub open spec fn orderable(deps: Seq<Seq<ServiceDependency>>, x: usize) -> bool {
    exists|order: Seq<usize>| ordered_prefix(deps, order) && #[trigger] order.contains(x)
}

/// The services below `n` as a set.
spec fn services_below(n: usize) -> Set<usize> {
    Set::new(|x: usize| x < n)
}

proof fn lemma_services_below(n: usize)
    ensures
        services_below(n).finite(),
        services_below(n).len() == n,
    decreases n,
{
    if n == 0 {
        assert(services_below(n) =~= Set::empty());
    } else {
        lemma_services_below((n - 1) as usize);
        assert(services_below((n - 1) as usize).insert((n - 1) as usize) =~= services_below(n));
    }
}

/// Distinct services below `n` are at most `n`.
proof fn lemma_distinct_bounded(s: Seq<usize>, n: usize)
    requires
        s.no_duplicates(),
        forall|i: int| 0 <= i < s.len() ==> s[i] < n,
    ensures
        s.len() <= n,
{
    s.unique_seq_to_set();
    lemma_services_below(n);
    assert(s.to_set().subset_of(services_below(n)));
    vstd::set_lib::lemma_len_subset(s.to_set(), services_below(n));
}

proof fn lemma_pending_step(list: Seq<ServiceDependency>, done: Set<usize>, n: int, x: usize)
    requires
        !done.contains(x),
        (x as int) < n,
    ensures
        pending(list, done, n) == pending(list, done.insert(x), n) + naming(list, x),
    decreases list.len(),
{
    if list.len() > 0 {
        lemma_pending_step(list.drop_last(), done, n, x);
    }
}

proof fn lemma_pending_zero(list: Seq<ServiceDependency>, done: Set<usize>, n: int, k: int)
    requires
        pending(list, done, n) == 0,
        0 <= k < list.len(),
        names_service(list[k], n),
    ensures
        done.contains(list[k].target->Some_0),
    decreases list.len(),
{
    if k < list.len() - 1 {
        assert(list.drop_last()[k] == list[k]);
        lemma_pending_zero(list.drop_last(), done, n, k);
    }
}

proof fn lemma_pending_none(list: Seq<ServiceDependency>, done: Set<usize>, n: int)
    requires
        forall|k: int|
            0 <= k < list.len() && names_service(#[trigger] list[k], n) ==> done.contains(list[k].target->Some_0),
    ensures
        pending(list, done, n) == 0,
    decreases list.len(),
{
    if list.len() > 0 {
        assert forall|k: int|
            0 <= k < list.drop_last().len() && names_service(#[trigger] list.drop_last()[k], n) implies done.contains(
            list.drop_last()[k].target->Some_0,
        ) by {
            assert(list.drop_last()[k] == list[k]);
        }
        lemma_pending_none(list.drop_last(), done, n);
        assert(list.last() == list[list.len() - 1]);
    }
}

proof fn lemma_occurrences_push(s: Seq<usize>, v: usize, y: usize)
    ensures
        occurrences(s.push(v), y) == occurrences(s, y) + if v == y {
            1nat
        } else {
            0nat
        },
{
    assert(s.push(v).drop_last() =~= s);
}

proof fn lemma_occurrences_prefix(s: Seq<usize>, i: int, y: usize)
    requires
        0 <= i < s.len(),
    ensures
        occurrences(s.take(i + 1), y) == occurrences(s.take(i), y) + if s[i] == y {
            1nat
        } else {
            0nat
        },
        occurrences(s.take(i + 1), y) <= occurrences(s, y),
    decreases s.len(),
{
    assert(s.take(i + 1).drop_last() =~= s.take(i));
    if i + 1 < s.len() {
        lemma_occurrences_prefix(s.drop_last(), i, y);
        assert(s.drop_last().take(i + 1) =~= s.take(i + 1));
    } else {
        assert(s.take(i + 1) =~= s);
    }
}

/// Every ordered prefix stays inside a set of services that holds each service whose named
/// services it already holds.
proof fn lemma_prefix_within(deps: Seq<Seq<ServiceDependency>>, order: Seq<usize>, done: Set<usize>)
    requires
        ordered_prefix(deps, order),
        forall|x: usize|
            (x as int) < deps.len() && pending(#[trigger] deps[x as int], done, deps.len() as int) == 0 ==> done.contains(x),
    ensures
        forall|i: int| 0 <= i < order.len() ==> done.contains(#[trigger] order[i]),
    decreases order.len(),
{
    if order.len() > 0 {
        let rest = order.drop_last();
        assert forall|i: int, k: int|
            0 <= i < rest.len() && 0 <= k < deps[rest[i] as int].len() && names_service(
                #[trigger] deps[rest[i] as int][k],
                deps.len() as int,
            ) implies exists|j: int| 0 <= j < i && #[trigger] rest[j] == deps[rest[i] as int][k].target->Some_0 by {
            assert(rest[i] == order[i]);
            let j = choose|j: int| 0 <= j < i && #[trigger] order[j] == deps[order[i] as int][k].target->Some_0;
            assert(rest[j] == order[j]);
        }
        assert forall|i: int| 0 <= i < rest.len() implies (#[trigger] rest[i] as int) < deps.len() by {
            assert(rest[i] == order[i]);
        }
        lemma_prefix_within(deps, rest, done);
        let last = order.len() - 1;
        let x = order[last];
        assert forall|k: int|
            0 <= k < deps[x as int].len() && names_service(#[trigger] deps[x as int][k], deps.len() as int) implies done.contains(
            deps[x as int][k].target->Some_0,
        ) by {
            let j = choose|j: int| 0 <= j < last && #[trigger] order[j] == deps[order[last] as int][k].target->Some_0;
            assert(rest[j] == order[j]);
        }
        lemma_pending_none(deps[x as int], done, deps.len() as int);
        assert forall|i: int| 0 <= i < order.len() implies done.contains(#[trigger] order[i]) by {
            if i < last {
                assert(rest[i] == order[i]);
            }
        }
    }
}

/// The required dependencies that name no service, in service order.
fn collect_missing(dependencies: &Vec<Vec<ServiceDependency>>) -> (missing: Vec<(usize, usize)>)
    ensures
        missing@ == missing_required(dependency_lists(dependencies@)),
{
    let ghost lists = dependency_lists(dependencies@);
    let n = dependencies.len();
    let mut missing: Vec<(usize, usize)> = Vec::new();
    let mut s: usize = 0;
    while s < n
        invariant
            n == dependencies.len(),
            lists == dependency_lists(dependencies@),
            s <= n,
            missing@ == missing_upto(lists, s as int),
        decreases n - s,
    {
        let list = &dependencies[s];
        let ghost before = missing@;
        let mut k: usize = 0;
        while k < list.len()
            invariant
                n == dependencies.len(),
                lists == dependency_lists(dependencies@),
                s < n,
                list@ == lists[s as int],
                k <= list.len(),
                missing@ == before + missing_in(list@.take(k as int), s as int, n as int),
            decreases list.len() - k,
        {
            let dependency = list[k];
            assert(list@.take(k as int + 1).drop_last() =~= list@.take(k as int));
            let names = match dependency.target {
                Some(t) => t < n,
                None => false,
            };
            if dependency.required && !names {
                missing.push((s, k));
            }
            proof {
                assert(missing@ =~= before + missing_in(list@.take(k as int + 1), s as int, n as int));
            }
            k = k + 1;
        }
        assert(list@.take(list.len() as int) =~= list@);
        s = s + 1;
    }
    missing
}

/// The number of dependencies of each service that name a service.
fn count_named(dependencies: &Vec<Vec<ServiceDependency>>) -> (counts: Vec<usize>)
    ensures
        counts.len() == dependencies.len(),
        forall|x: int|
            0 <= x < counts.len() ==> #[trigger] counts@[x] == pending(
                dependency_lists(dependencies@)[x],
                Set::empty(),
                dependencies.len() as int,
            ),
{
    let ghost lists = dependency_lists(dependencies@);
    let n = dependencies.len();
    let mut counts: Vec<usize> = Vec::new();
    let mut x: usize = 0;
    while x < n
        invariant
            n == dependencies.len(),
            lists == dependency_lists(dependencies@),
            x <= n,
            counts.len() == x,
            forall|z: int| 0 <= z < x ==> #[trigger] counts@[z] == pending(lists[z], Set::empty(), n as int),
        decreases n - x,
    {
        let list = &dependencies[x];
        let mut c: usize = 0;
        let mut k: usize = 0;
        while k < list.len()
            invariant
                x < n,
                list@ == lists[x as int],
                k <= list.len(),
                c <= k,
                c == pending(list@.take(k as int), Set::empty(), n as int),
            decreases list.len() - k,
        {
            assert(list@.take(k as int + 1).drop_last() =~= list@.take(k as int));
            match list[k].target {
                Some(t) => {
                    if t < n {
                        c = c + 1;
                    }
                },
                None => {},
            }
            k = k + 1;
        }
        assert(list@.take(list.len() as int) =~= list@);
        counts.push(c);
        x = x + 1;
    }
    counts
}

/// For each service, the services that name it, each as often as it names it.
fn collect_dependents(dependencies: &Vec<Vec<ServiceDependency>>) -> (dependents: Vec<Vec<usize>>)
    ensures
        dependents.len() == dependencies.len(),
        forall|t: usize, y: usize|
            (t as int) < dependencies.len() && (y as int) < dependencies.len() ==> #[trigger] occurrences(
                dependents@[t as int]@,
                y,
            ) == naming(dependency_lists(dependencies@)[y as int], t),
        forall|t: int, i: int|
            0 <= t < dependents.len() && 0 <= i < dependents@[t]@.len() ==> (#[trigger] dependents@[t]@[i] as int)
                < dependencies.len(),
{
    let ghost lists = dependency_lists(dependencies@);
    let n = dependencies.len();
    let mut dependents: Vec<Vec<usize>> = Vec::new();
    let mut t: usize = 0;
    while t < n
        invariant
            t <= n,
            dependents.len() == t,
            forall|u: int| 0 <= u < t ==> (#[trigger] dependents@[u])@.len() == 0,
        decreases n - t,
    {
        dependents.push(Vec::new());
        t = t + 1;
    }
    let mut x: usize = 0;
    while x < n
        invariant
            n == dependencies.len(),
            lists == dependency_lists(dependencies@),
            x <= n,
            dependents.len() == n,
            forall|t: usize, y: usize|
                (t as int) < n && (y as int) < n ==> #[trigger] occurrences(dependents@[t as int]@, y) == if y < x {
                    naming(lists[y as int], t)
                } else {
                    0
                },
            forall|t: int, i: int|
                0 <= t < n && 0 <= i < dependents@[t]@.len() ==> (#[trigger] dependents@[t]@[i] as int) < x,
        decreases n - x,
    {
        let list = &dependencies[x];
        let mut k: usize = 0;
        while k < list.len()
            invariant
                n == dependencies.len(),
                lists == dependency_lists(dependencies@),
                x < n,
                list@ == lists[x as int],
                k <= list.len(),
                dependents.len() == n,
                forall|t: usize, y: usize|
                    (t as int) < n && (y as int) < n ==> #[trigger] occurrences(dependents@[t as int]@, y) == if y < x {
                        naming(lists[y as int], t)
                    } else if y == x {
                        naming(list@.take(k as int), t)
                    } else {
                        0
                    },
                forall|t: int, i: int|
                    0 <= t < n && 0 <= i < dependents@[t]@.len() ==> (#[trigger] dependents@[t]@[i] as int) <= x,
            decreases list.len() - k,
        {
            assert(list@.take(k as int + 1).drop_last() =~= list@.take(k as int));
            let dependency = list[k];
            match dependency.target {
                Some(u) => {
                    if u < n {
                        let ghost old_dependents = dependents@;
                        dependents[u].push(x);
                        proof {
                            assert forall|t: usize, y: usize| (t as int) < n && (y as int) < n implies #[trigger] occurrences(
                                dependents@[t as int]@,
                                y,
                            ) == if y < x {
                                naming(lists[y as int], t)
                            } else if y == x {
                                naming(list@.take(k as int + 1), t)
                            } else {
                                0
                            } by {
                                if t == u {
                                    lemma_occurrences_push(old_dependents[t as int]@, x, y);
                                } else {
                                    assert(dependents@[t as int] == old_dependents[t as int]);
                                }
                            }
                            assert forall|t: int, i: int|
                                0 <= t < n && 0 <= i < dependents@[t]@.len() implies (#[trigger] dependents@[t]@[i] as int)
                                <= x by {
                                if t != u {
                                    assert(dependents@[t] == old_dependents[t]);
                                } else if i < old_dependents[t]@.len() {
                                    assert(dependents@[t]@[i] == old_dependents[t]@[i]);
                                }
                            }
                        }
                    }
                },
                None => {},
            }
            k = k + 1;
        }
        assert(list@.take(list.len() as int) =~= list@);
        x = x + 1;
    }
    dependents
}

/// The facts about `dependents` that the walk relies on.
spec fn dependents_of(lists: Seq<Seq<ServiceDependency>>, dependents: Seq<Vec<usize>>) -> bool {
    &&& dependents.len() == lists.len()
    &&& forall|t: usize, y: usize|
        (t as int) < lists.len() && (y as int) < lists.len() ==> #[trigger] occurrences(dependents[t as int]@, y)
            == naming(lists[y as int], t)
    &&& forall|t: int, i: int|
        0 <= t < dependents.len() && 0 <= i < dependents[t]@.len() ==> (#[trigger] dependents[t]@[i] as int)
            < lists.len()
}

/// The state of the walk: `counts` holds, for each service, how many of its named services are
/// not yet started, and every service that waits for none is started or ready.
spec fn walk_state(
    lists: Seq<Seq<ServiceDependency>>,
    counts: Seq<usize>,
    order: Seq<usize>,
    ready: Seq<usize>,
) -> bool {
    let n = lists.len() as int;
    &&& counts.len() == n
    &&& ordered_prefix(lists, order)
    &&& forall|x: int| 0 <= x < n ==> #[trigger] counts[x] == pending(lists[x], order.to_set(), n)
    &&& forall|x: usize| (x as int) < n && order.to_set().contains(x) ==> pending(#[trigger] lists[x as int], order.to_set(), n) == 0
    &&& ready.no_duplicates()
    &&& forall|i: int|
        0 <= i < ready.len() ==> (#[trigger] ready[i] as int) < n && !order.to_set().contains(ready[i])
            && counts[ready[i] as int] == 0
    &&& forall|x: usize| (x as int) < n && #[trigger] counts[x as int] == 0 ==> order.to_set().contains(x) || ready.contains(x)
}

/// Starts `x`, ready and waiting for nothing: every service that names it waits for one
/// service less, and those that now wait for none become ready.
fn release(
    dependencies: &Vec<Vec<ServiceDependency>>,
    dependents: &Vec<Vec<usize>>,
    counts: &mut Vec<usize>,
    ready: &mut Vec<usize>,
    x: usize,
    Ghost(order): Ghost<Seq<usize>>,
)
    requires
        dependents_of(dependency_lists(dependencies@), dependents@),
        walk_state(dependency_lists(dependencies@), old(counts)@, order, old(ready)@.push(x)),
    ensures
        walk_state(dependency_lists(dependencies@), final(counts)@, order.push(x), final(ready)@),
{
    let ghost lists = dependency_lists(dependencies@);
    let ghost n = lists.len() as int;
    let ghost done = order.to_set();
    let ghost started = order.push(x).to_set();
    let ghost waiting = old(ready)@.push(x);
    let ghost before = counts@;
    proof {
        assert(waiting[waiting.len() - 1] == x);
        assert forall|a: usize| started.contains(a) <==> done.insert(x).contains(a) by {
            vstd::seq_lib::lemma_seq_contains_after_push(order, x, a);
        }
        assert(started =~= done.insert(x));
        assert forall|i: int| 0 <= i < ready@.len() implies waiting[i] == ready@[i] by {}
        assert forall|i: int, j: int| 0 <= i < ready@.len() && 0 <= j < ready@.len() && i != j implies ready@[i]
            != ready@[j] by {
            assert(waiting[i] == ready@[i] && waiting[j] == ready@[j]);
        }
        assert forall|j: int| 0 <= j < ready@.len() implies (#[trigger] ready@[j] as int) < n && !started.contains(
            ready@[j],
        ) && counts@[ready@[j] as int] == 0 by {
            assert(waiting[j] == ready@[j]);
            assert(waiting[j] != waiting[waiting.len() - 1]);
        }
        assert forall|z: usize| (z as int) < n && #[trigger] counts@[z as int] == 0 implies started.contains(z)
            || ready@.contains(z) by {
            if !done.contains(z) && z != x {
                assert(waiting.contains(z));
                let j = choose|j: int| 0 <= j < waiting.len() && waiting[j] == z;
                assert(j != waiting.len() - 1);
                assert(ready@[j] == z);
            }
        }
        // `x` waits for nothing, so each service it names has started before it.
        assert forall|k: int|
            0 <= k < lists[x as int].len() && names_service(#[trigger] lists[x as int][k], n) implies exists|j: int|
            0 <= j < order.len() && #[trigger] order[j] == lists[x as int][k].target->Some_0 by {
            lemma_pending_zero(lists[x as int], done, n, k);
        }
        assert forall|i: int, k: int|
            0 <= i < order.push(x).len() && 0 <= k < lists[order.push(x)[i] as int].len() && names_service(
                #[trigger] lists[order.push(x)[i] as int][k],
                n,
            ) implies exists|j: int| 0 <= j < i && #[trigger] order.push(x)[j] == lists[order.push(x)[i] as int][k].target->Some_0 by {
            if i < order.len() {
                assert(order.push(x)[i] == order[i]);
                let j = choose|j: int| 0 <= j < i && #[trigger] order[j] == lists[order[i] as int][k].target->Some_0;
                assert(order.push(x)[j] == order[j]);
            } else {
                let j = choose|j: int| 0 <= j < order.len() && #[trigger] order[j] == lists[x as int][k].target->Some_0;
                assert(order.push(x)[j] == order[j]);
            }
        }
        assert forall|i: int| 0 <= i < order.push(x).len() implies (#[trigger] order.push(x)[i] as int) < n by {
            if i < order.len() {
                assert(order.push(x)[i] == order[i]);
            }
        }
        assert(!order.contains(x));
        assert(order.push(x).no_duplicates());
        assert forall|z: usize| (z as int) < n implies pending(lists[z as int], done, n) == pending(lists[z as int], started, n)
            + naming(lists[z as int], x) by {
            lemma_pending_step(lists[z as int], done, n, x);
        }
    }
    let names_x = &dependents[x];
    let mut i: usize = 0;
    while i < names_x.len()
        invariant
            lists == dependency_lists(dependencies@),
            n == lists.len(),
            dependents_of(lists, dependents@),
            names_x@ == dependents@[x as int]@,
            (x as int) < n,
            started == order.push(x).to_set(),
            started.contains(x),
            i <= names_x.len(),
            counts.len() == n,
            forall|z: int|
                0 <= z < n ==> #[trigger] counts@[z] == pending(lists[z], done, n) - occurrences(
                    names_x@.take(i as int),
                    z as usize,
                ),
            forall|z: usize|
                (z as int) < n ==> pending(lists[z as int], done, n) == pending(lists[z as int], started, n) + naming(
                    #[trigger] lists[z as int],
                    x,
                ),
            forall|z: usize|
                (z as int) < n && done.contains(z) ==> pending(#[trigger] lists[z as int], done, n) == 0,
            pending(lists[x as int], done, n) == 0,
            done == order.to_set(),
            started == done.insert(x),
            ready@.no_duplicates(),
            forall|j: int|
                0 <= j < ready@.len() ==> (#[trigger] ready@[j] as int) < n && !started.contains(ready@[j])
                    && counts@[ready@[j] as int] == 0,
            forall|z: usize| (z as int) < n && #[trigger] counts@[z as int] == 0 ==> started.contains(z) || ready@.contains(z),
        decreases names_x.len() - i,
    {
        let y = names_x[i];
        proof {
            lemma_occurrences_prefix(names_x@, i as int, y);
            assert(occurrences(dependents@[x as int]@, y) == naming(lists[y as int], x));
            assert forall|z: usize| z != y implies occurrences(names_x@.take(i as int + 1), z) == occurrences(
                names_x@.take(i as int),
                z,
            ) by {
                lemma_occurrences_prefix(names_x@, i as int, z);
            }
        }
        let ghost ready_before = ready@;
        let ghost counts_before = counts@;
        let c = counts[y] - 1;
        counts.set(y, c);
        if c == 0 {
            proof {
                assert(!done.contains(y));
                assert(y != x);
                assert(!ready@.contains(y));
            }
            ready.push(y);
        }
        proof {
            assert forall|z: usize| (z as int) < n && #[trigger] counts@[z as int] == 0 implies started.contains(z)
                || ready@.contains(z) by {
                if z == y {
                    if c == 0 {
                        assert(ready@[ready@.len() - 1] == y);
                    }
                } else {
                    assert(counts_before[z as int] == 0);
                    if ready_before.contains(z) {
                        let j = choose|j: int| 0 <= j < ready_before.len() && ready_before[j] == z;
                        assert(ready@[j] == z);
                    }
                }
            }
            assert forall|z: int| 0 <= z < n implies #[trigger] counts@[z] == pending(lists[z], done, n) - occurrences(
                names_x@.take(i as int + 1),
                z as usize,
            ) by {
                if z != y as int {
                    assert(occurrences(names_x@.take(i as int + 1), z as usize) == occurrences(
                        names_x@.take(i as int),
                        z as usize,
                    ));
                }
            }
        }
        i = i + 1;
    }
    proof {
        assert(names_x@.take(names_x.len() as int) =~= names_x@);
        assert forall|z: int| 0 <= z < n implies #[trigger] counts@[z] == pending(lists[z], started, n) by {
            assert(occurrences(dependents@[x as int]@, z as usize) == naming(lists[z as usize as int], x));
            assert(pending(lists[z as usize as int], done, n) == pending(lists[z as usize as int], started, n) + naming(
                lists[z as usize as int],
                x,
            ));
        }
        assert forall|z: usize| (z as int) < n && started.contains(z) implies pending(#[trigger] lists[z as int], started, n)
            == 0 by {
            assert(pending(lists[z as int], done, n) == pending(lists[z as int], started, n) + naming(lists[z as int], x));
        }
    }
}

/// Starts services until none is ready, beginning from the services that wait for none.
fn walk(
    dependencies: &Vec<Vec<ServiceDependency>>,
    dependents: &Vec<Vec<usize>>,
    counts: &mut Vec<usize>,
) -> (order: Ghost<Seq<usize>>)
    requires
        dependents_of(dependency_lists(dependencies@), dependents@),
        old(counts).len() == dependencies.len(),
        forall|x: int|
            0 <= x < dependencies.len() ==> #[trigger] old(counts)@[x] == pending(
                dependency_lists(dependencies@)[x],
                Set::empty(),
                dependencies.len() as int,
            ),
    ensures
        walk_state(dependency_lists(dependencies@), final(counts)@, order@, Seq::empty()),
{
    let ghost lists = dependency_lists(dependencies@);
    let n = counts.len();
    let mut ready: Vec<usize> = Vec::new();
    let mut x: usize = 0;
    while x < n
        invariant
            n == counts.len(),
            x <= n,
            forall|i: int| 0 <= i < ready@.len() ==> (#[trigger] ready@[i]) < x && counts@[ready@[i] as int] == 0,
            forall|i: int, j: int| 0 <= i < j < ready@.len() ==> ready@[i] < ready@[j],
            forall|z: usize| z < x && #[trigger] counts@[z as int] == 0 ==> ready@.contains(z),
        decreases n - x,
    {
        if counts[x] == 0 {
            let ghost before = ready@;
            ready.push(x);
            proof {
                assert forall|z: usize| z < x + 1 && #[trigger] counts@[z as int] == 0 implies ready@.contains(z) by {
                    if z == x {
                        assert(ready@[ready@.len() - 1] == x);
                    } else {
                        let j = choose|j: int| 0 <= j < before.len() && before[j] == z;
                        assert(ready@[j] == z);
                    }
                }
            }
        }
        x = x + 1;
    }
    let ghost mut order: Seq<usize> = Seq::empty();
    proof {
        assert(order.to_set() =~= Set::<usize>::empty());
        assert(ready@.no_duplicates());
    }
    while ready.len() > 0
        invariant
            lists == dependency_lists(dependencies@),
            n == lists.len(),
            dependents_of(lists, dependents@),
            walk_state(lists, counts@, order, ready@),
            order.len() <= n,
        decreases n - order.len(),
    {
        let ghost waiting = ready@;
        let x = ready.pop().unwrap();
        proof {
            assert(waiting =~= ready@.push(x));
        }
        release(dependencies, dependents, counts, &mut ready, x, Ghost(order));
        proof {
            order = order.push(x);
            lemma_distinct_bounded(order, n);
        }
    }
    proof {
        assert(ready@ =~= Seq::<usize>::empty());
    }
    Ghost(order)
}

/// Once the walk is over, a service is started exactly when some ordered prefix lists it, and a
/// start order exists exactly when every service is started.
proof fn lemma_walk_outcome(lists: Seq<Seq<ServiceDependency>>, counts: Seq<usize>, order: Seq<usize>)
    requires
        walk_state(lists, counts, order, Seq::empty()),
        lists.len() <= usize::MAX,
    ensures
        forall|x: usize| (x as int) < lists.len() ==> (counts[x as int] == 0 <==> #[trigger] orderable(lists, x)),
        (forall|x: int| 0 <= x < lists.len() ==> #[trigger] counts[x] == 0) <==> startable(lists),
{
    let n = lists.len() as int;
    let done = order.to_set();
    assert forall|x: usize| (x as int) < n && pending(#[trigger] lists[x as int], done, n) == 0 implies done.contains(x) by {
        assert(counts[x as int] == 0);
        assert(!Seq::<usize>::empty().contains(x));
    }
    assert forall|x: usize| (x as int) < n implies (counts[x as int] == 0 <==> #[trigger] orderable(lists, x)) by {
        if counts[x as int] == 0 {
            assert(!Seq::<usize>::empty().contains(x));
            assert(order.contains(x));
        }
        if orderable(lists, x) {
            let p = choose|p: Seq<usize>| ordered_prefix(lists, p) && #[trigger] p.contains(x);
            lemma_prefix_within(lists, p, done);
            let i = choose|i: int| 0 <= i < p.len() && p[i] == x;
            assert(done.contains(p[i]));
        }
    }
    if forall|x: int| 0 <= x < n ==> #[trigger] counts[x] == 0 {
        assert forall|x: usize| (x as int) < n implies #[trigger] order.contains(x) by {
            assert(counts[x as int] == 0);
            assert(!Seq::<usize>::empty().contains(x));
        }
        assert(start_order(lists, order));
    }
    if startable(lists) {
        let p = choose|p: Seq<usize>| start_order(lists, p);
        lemma_prefix_within(lists, p, done);
        assert forall|x: int| 0 <= x < n implies #[trigger] counts[x] == 0 by {
            assert(p.contains(x as usize));
            let i = choose|i: int| 0 <= i < p.len() && p[i] == x as usize;
            assert(done.contains(p[i]));
            let y = x as usize;
            assert(pending(lists[y as int], done, n) == 0);
            assert(counts[y as int] == pending(lists[y as int], done, n));
        }
    }
}

/// Checks the dependency graph of an application's services.
///
/// Required dependencies that name no service are reported first, every one of them. Otherwise
/// the services are walked in dependency order; the services that the walk cannot reach, each
/// waiting on a service in a cycle, are reported.
pub fn check_dependency_graph(dependencies: &Vec<Vec<ServiceDependency>>) -> (check: DependencyCheck)
    ensures
        ({
            let lists = dependency_lists(dependencies@);
            match check {
                DependencyCheck::MissingRequired(missing) => missing_required(lists).len() > 0 && missing@
                    == missing_required(lists),
                DependencyCheck::Cycle(services) => {
                    &&& missing_required(lists).len() == 0
                    &&& !startable(lists)
                    &&& services@.len() > 0
                    &&& forall|i: int| 0 <= i < services@.len() ==> (#[trigger] services@[i] as int) < lists.len()
                    &&& forall|i: int, j: int| 0 <= i < j < services@.len() ==> services@[i] < services@[j]
                    &&& forall|x: usize|
                        (x as int) < lists.len() ==> (services@.contains(x) <==> !#[trigger] orderable(lists, x))
                },
                DependencyCheck::Ordered => missing_required(lists).len() == 0 && startable(lists),
            }
        }),
{
    let ghost lists = dependency_lists(dependencies@);
    let missing = collect_missing(dependencies);
    if missing.len() > 0 {
        return DependencyCheck::MissingRequired(missing);
    }
    let n = dependencies.len();
    let mut counts = count_named(dependencies);
    let dependents = collect_dependents(dependencies);
    let Ghost(order) = walk(dependencies, &dependents, &mut counts);
    proof {
        lemma_walk_outcome(lists, counts@, order);
    }
    let mut remaining: Vec<usize> = Vec::new();
    let mut x: usize = 0;
    while x < n
        invariant
            n == counts.len(),
            x <= n,
            forall|i: int| 0 <= i < remaining@.len() ==> (#[trigger] remaining@[i]) < x,
            forall|i: int, j: int| 0 <= i < j < remaining@.len() ==> remaining@[i] < remaining@[j],
            forall|z: usize| z < x ==> (#[trigger] remaining@.contains(z) <==> counts@[z as int] > 0),
        decreases n - x,
    {
        let ghost before = remaining@;
        if counts[x] > 0 {
            remaining.push(x);
        }
        proof {
            assert forall|z: usize| z < x + 1 implies (#[trigger] remaining@.contains(z) <==> counts@[z as int] > 0) by {
                if remaining@.contains(z) {
                    let j = choose|j: int| 0 <= j < remaining@.len() && remaining@[j] == z;
                    if j < before.len() {
                        assert(before[j] == z);
                    }
                }
                if z < x && before.contains(z) {
                    let j = choose|j: int| 0 <= j < before.len() && before[j] == z;
                    assert(remaining@[j] == z);
                }
                if z == x && counts@[z as int] > 0 {
                    assert(remaining@[remaining@.len() - 1] == z);
                }
            }
        }
        x = x + 1;
    }
    if remaining.len() == 0 {
        proof {
            assert forall|x: int| 0 <= x < n implies #[trigger] counts@[x] == 0 by {
                if counts@[x] > 0 {
                    assert(remaining@.contains(x as usize));
                }
            }
        }
        DependencyCheck::Ordered
    } else {
        proof {
            let z = remaining@[0];
            assert(remaining@.contains(z));
        }
        DependencyCheck::Cycle(remaining)
    }
}

} // verus!
