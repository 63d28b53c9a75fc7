//! What a resolution is: the steps that turn a project's locked packages
//! and a list of requests into a locked set that is closed under
//! dependencies, and what holds of the result.
//!
//! Resolution is a single forward pass. The locked packages of the project
//! seed the working set. Each request is looked up and takes its place in
//! the working set; then the dependencies of what was looked up are worked
//! off in the order in which they were first seen. A dependency on a package
//! that is in the working set keeps that package's version, and fails where
//! the version is outside the dependency's range. Nothing is looked up twice
//! and no version is changed to make another one fit.

use crate::environment::{find_index, finds, is_candidate};
use crate::manifest::{DependencyView, ManifestView};
use crate::range::{range_matches, ComparatorView, SelectorKindView, SelectorView};
use crate::version::VersionView;
use vstd::prelude::*;

verus! {

/// One package of the working set: its name and version, and its manifest
/// where the package was looked up in this resolution.
pub struct EntryView {
    pub name: Seq<char>,
    pub version: VersionView,
    pub manifest: Option<ManifestView>,
}

/// Why a resolution failed.
pub enum FailureView {
    /// No repository holds a version of the package that the selector names.
    PackageNotFound { name: Seq<char>, selector: SelectorView },
    /// The package is in the working set with a version outside the range.
    VersionConflict { name: Seq<char>, range: Seq<Seq<ComparatorView>>, locked: VersionView },
    /// The resolution ended and leaves the project as it is.
    NoChangesNeeded,
}

/// A request for one package.
pub struct RequestView {
    pub name: Seq<char>,
    pub selector: SelectorView,
}

/// The state of a resolution.
pub struct ResolveState {
    /// The working set.
    pub entries: Seq<EntryView>,
    /// The dependencies that are still to be worked off, oldest first.
    pub queue: Seq<DependencyView>,
    /// The requests that were looked up, each as a dependency of the
    /// project.
    pub added: Seq<DependencyView>,
    /// Why the resolution failed, once it has.
    pub failure: Option<FailureView>,
}

/// Whether `entries` holds the package `name`.
pub open spec fn has_entry(entries: Seq<EntryView>, name: Seq<char>) -> bool {
    exists|i: int| 0 <= i < entries.len() && (#[trigger] entries[i]).name == name
}

/// The position of the package `name` in `entries`.
pub open spec fn position_of_entry(entries: Seq<EntryView>, name: Seq<char>) -> int {
    choose|i: int| 0 <= i < entries.len() && (#[trigger] entries[i]).name == name
}

/// The entry of a package that was looked up.
pub open spec fn resolved_entry(manifest: ManifestView) -> EntryView {
    EntryView { name: manifest.name, version: manifest.version, manifest: Some(manifest) }
}

/// The working set that a project's locked packages seed: each with its
/// version and without a manifest.
pub open spec fn seed_entries(locked: Seq<(Seq<char>, VersionView)>) -> Seq<EntryView> {
    Seq::new(
        locked.len(),
        |i: int| EntryView { name: locked[i].0, version: locked[i].1, manifest: None },
    )
}

/// The selector by which a dependency is looked up.
pub open spec fn dependency_selector(range: Seq<Seq<ComparatorView>>, include_prerelease: bool) -> SelectorView {
    SelectorView { kind: SelectorKindView::Range(range), include_prerelease }
}

/// The state after one request was taken in. A package that an earlier
/// request has brought in is kept where the selector names its version, and
/// is a conflict where it does not. Any other package is looked up: it
/// takes the place of a locked package of its name or goes last, and its
/// dependencies join the queue.
pub open spec fn request_step(
    packages: Seq<ManifestView>,
    state: ResolveState,
    request: RequestView,
) -> ResolveState {
    if state.failure is Some {
        state
    } else if has_entry(state.entries, request.name) && state.entries[position_of_entry(
        state.entries,
        request.name,
    )].manifest is Some {
        let entry = state.entries[position_of_entry(state.entries, request.name)];
        if request.selector.matches(entry.version) {
            state
        } else {
            ResolveState {
                failure: Some(
                    FailureView::VersionConflict {
                        name: request.name,
                        range: request.selector.as_range(),
                        locked: entry.version,
                    },
                ),
                ..state
            }
        }
    } else {
        match find_index(packages, request.name, request.selector) {
            None => ResolveState {
                failure: Some(
                    FailureView::PackageNotFound { name: request.name, selector: request.selector },
                ),
                ..state
            },
            Some(k) => ResolveState {
                entries: if has_entry(state.entries, request.name) {
                    state.entries.update(
                        position_of_entry(state.entries, request.name),
                        resolved_entry(packages[k]),
                    )
                } else {
                    state.entries.push(resolved_entry(packages[k]))
                },
                queue: state.queue + packages[k].dependencies,
                added: state.added.push(
                    DependencyView { name: request.name, range: request.selector.as_range() },
                ),
                failure: None,
            },
        }
    }
}

/// The state after the first `n` of `requests` were taken in, starting from
/// `start`.
pub open spec fn after_requests(
    packages: Seq<ManifestView>,
    start: ResolveState,
    requests: Seq<RequestView>,
    n: int,
) -> ResolveState
    decreases n,
{
    if n <= 0 {
        start
    } else {
        request_step(packages, after_requests(packages, start, requests, n - 1), requests[n - 1])
    }
}

/// The state after the oldest dependency of the queue was worked off. A
/// package of the working set is kept where its version is within the
/// dependency's range, and is a conflict where it is not. A package that
/// the working set lacks is looked up and goes last, and its dependencies
/// join the queue. A state that has failed, or whose queue is empty, stays
/// as it is.
pub open spec fn dependency_step(
    packages: Seq<ManifestView>,
    include_prerelease: bool,
    state: ResolveState,
) -> ResolveState {
    if state.failure is Some || state.queue.len() == 0 {
        state
    } else {
        let dependency = state.queue[0];
        let rest = state.queue.subrange(1, state.queue.len() as int);
        if has_entry(state.entries, dependency.name) {
            let entry = state.entries[position_of_entry(state.entries, dependency.name)];
            if range_matches(dependency.range, entry.version) {
                ResolveState { queue: rest, ..state }
            } else {
                ResolveState {
                    failure: Some(
                        FailureView::VersionConflict {
                            name: dependency.name,
                            range: dependency.range,
                            locked: entry.version,
                        },
                    ),
                    ..state
                }
            }
        } else {
            let selector = dependency_selector(dependency.range, include_prerelease);
            match find_index(packages, dependency.name, selector) {
                None => ResolveState {
                    failure: Some(
                        FailureView::PackageNotFound { name: dependency.name, selector },
                    ),
                    ..state
                },
                Some(k) => ResolveState {
                    entries: state.entries.push(resolved_entry(packages[k])),
                    queue: rest + packages[k].dependencies,
                    ..state
                },
            }
        }
    }
}

/// The state after `steps` dependencies were worked off, starting from
/// `start`.
pub open spec fn run(
    packages: Seq<ManifestView>,
    include_prerelease: bool,
    start: ResolveState,
    steps: nat,
) -> ResolveState
    decreases steps,
{
    if steps == 0 {
        start
    } else {
        dependency_step(
            packages,
            include_prerelease,
            run(packages, include_prerelease, start, (steps - 1) as nat),
        )
    }
}

/// Whether nothing is left to do in `state`: it has failed or its queue is
/// empty.
pub open spec fn is_settled(state: ResolveState) -> bool {
    state.failure is Some || state.queue.len() == 0
}

/// Whether some package of `entries` meets `dependency`.
pub open spec fn satisfied(entries: Seq<EntryView>, dependency: DependencyView) -> bool {
    exists|i: int|
        0 <= i < entries.len() && (#[trigger] entries[i]).name == dependency.name && range_matches(
            dependency.range,
            entries[i].version,
        )
}

/// Whether `dependency` is declared by a package of `entries` that was
/// looked up.
pub open spec fn declared(entries: Seq<EntryView>, dependency: DependencyView) -> bool {
    exists|i: int, j: int|
        0 <= i < entries.len() && (#[trigger] entries[i]).manifest is Some && 0 <= j
            < entries[i].manifest->Some_0.dependencies.len()
            && #[trigger] entries[i].manifest->Some_0.dependencies[j] == dependency
}

/// Whether `entries` is closed under dependencies: every dependency that
/// one of its manifests declares is met by a package of `entries`.
pub open spec fn closed(entries: Seq<EntryView>) -> bool {
    forall|i: int, j: int|
        0 <= i < entries.len() && (#[trigger] entries[i]).manifest is Some && 0 <= j
            < entries[i].manifest->Some_0.dependencies.len() ==> satisfied(
            entries,
            #[trigger] entries[i].manifest->Some_0.dependencies[j],
        )
}

/// Whether no name occurs twice in `entries`, and each manifest is that of
/// its entry's name and version.
pub open spec fn consistent(entries: Seq<EntryView>) -> bool {
    &&& forall|i: int, j: int|
        0 <= i < j < entries.len() ==> (#[trigger] entries[i]).name != (#[trigger] entries[j]).name
    &&& forall|i: int|
        0 <= i < entries.len() && (#[trigger] entries[i]).manifest is Some ==> entries[i]
            == resolved_entry(entries[i].manifest->Some_0)
}

/// Whether every declared dependency of `state` is still in the queue.
pub open spec fn all_queued(state: ResolveState) -> bool {
    forall|i: int, j: int|
        0 <= i < state.entries.len() && (#[trigger] state.entries[i]).manifest is Some && 0 <= j
            < state.entries[i].manifest->Some_0.dependencies.len() ==> state.queue.contains(
            #[trigger] state.entries[i].manifest->Some_0.dependencies[j],
        )
}

/// Whether every declared dependency of `state` is met or still in the
/// queue.
pub open spec fn covered(state: ResolveState) -> bool {
    forall|i: int, j: int|
        0 <= i < state.entries.len() && (#[trigger] state.entries[i]).manifest is Some && 0 <= j
            < state.entries[i].manifest->Some_0.dependencies.len() ==> satisfied(
            state.entries,
            #[trigger] state.entries[i].manifest->Some_0.dependencies[j],
        ) || state.queue.contains(state.entries[i].manifest->Some_0.dependencies[j])
}

/// The state that a resolution starts from.
pub open spec fn start_state(locked: Seq<(Seq<char>, VersionView)>) -> ResolveState {
    ResolveState {
        entries: seed_entries(locked),
        queue: Seq::empty(),
        added: Seq::empty(),
        failure: None,
    }
}

/// Whether no name occurs twice in `locked`.
pub open spec fn distinct_locked(locked: Seq<(Seq<char>, VersionView)>) -> bool {
    forall|i: int, j: int|
        0 <= i < j < locked.len() ==> (#[trigger] locked[i]).0 != (#[trigger] locked[j]).0
}

/// In a consistent working set a package is at one position only.
pub proof fn lemma_position_unique(entries: Seq<EntryView>, name: Seq<char>, i: int)
    requires
        consistent(entries),
        0 <= i < entries.len(),
        entries[i].name == name,
    ensures
        has_entry(entries, name),
        position_of_entry(entries, name) == i,
{
    let p = position_of_entry(entries, name);
    if p < i {
        assert(entries[p].name != entries[i].name);
    } else if i < p {
        assert(entries[i].name != entries[p].name);
    }
}

/// Taking in a request keeps the working set consistent and every declared
/// dependency in the queue.
pub proof fn lemma_request_step_keeps(
    packages: Seq<ManifestView>,
    state: ResolveState,
    request: RequestView,
)
    requires
        consistent(state.entries),
        all_queued(state),
    ensures
        consistent(request_step(packages, state, request).entries),
        all_queued(request_step(packages, state, request)),
{
    let next = request_step(packages, state, request);
    if next.entries != state.entries {
        let k = find_index(packages, request.name, request.selector)->Some_0;
        assert(finds(packages, request.name, request.selector, k));
        let new_entry = resolved_entry(packages[k]);
        assert(new_entry.name == request.name);
        if has_entry(state.entries, request.name) {
            let p = position_of_entry(state.entries, request.name);
            assert forall|i: int, j: int| 0 <= i < j < next.entries.len() implies (
            #[trigger] next.entries[i]).name != (#[trigger] next.entries[j]).name by {
                assert(next.entries[i].name == state.entries[i].name);
                assert(next.entries[j].name == state.entries[j].name);
            }
            assert forall|i: int, j: int|
                0 <= i < next.entries.len() && (#[trigger] next.entries[i]).manifest is Some && 0
                    <= j < next.entries[i].manifest->Some_0.dependencies.len()
                    implies next.queue.contains(
                #[trigger] next.entries[i].manifest->Some_0.dependencies[j],
            ) by {
                let d = next.entries[i].manifest->Some_0.dependencies[j];
                if i == p {
                    assert(next.queue[state.queue.len() + j] == d);
                } else {
                    assert(next.entries[i] == state.entries[i]);
                    assert(state.queue.contains(state.entries[i].manifest->Some_0.dependencies[j]));
                    let q = choose|q: int| 0 <= q < state.queue.len() && state.queue[q] == d;
                    assert(next.queue[q] == d);
                }
            }
        } else {
            assert forall|i: int, j: int| 0 <= i < j < next.entries.len() implies (
            #[trigger] next.entries[i]).name != (#[trigger] next.entries[j]).name by {
                if j == state.entries.len() {
                    assert(next.entries[i] == state.entries[i]);
                    assert(state.entries[i].name != request.name);
                } else {
                    assert(next.entries[i] == state.entries[i]);
                    assert(next.entries[j] == state.entries[j]);
                }
            }
            assert forall|i: int, j: int|
                0 <= i < next.entries.len() && (#[trigger] next.entries[i]).manifest is Some && 0
                    <= j < next.entries[i].manifest->Some_0.dependencies.len()
                    implies next.queue.contains(
                #[trigger] next.entries[i].manifest->Some_0.dependencies[j],
            ) by {
                let d = next.entries[i].manifest->Some_0.dependencies[j];
                if i == state.entries.len() {
                    assert(next.queue[state.queue.len() + j] == d);
                } else {
                    assert(next.entries[i] == state.entries[i]);
                    assert(state.queue.contains(state.entries[i].manifest->Some_0.dependencies[j]));
                    let q = choose|q: int| 0 <= q < state.queue.len() && state.queue[q] == d;
                    assert(next.queue[q] == d);
                }
            }
        }
    }
}

/// After any number of requests the working set is consistent, and every
/// declared dependency is in the queue.
pub proof fn lemma_after_requests_keeps(
    packages: Seq<ManifestView>,
    start: ResolveState,
    requests: Seq<RequestView>,
    n: int,
)
    requires
        consistent(start.entries),
        all_queued(start),
    ensures
        consistent(after_requests(packages, start, requests, n).entries),
        all_queued(after_requests(packages, start, requests, n)),
    decreases n,
{
    if n > 0 {
        lemma_after_requests_keeps(packages, start, requests, n - 1);
        lemma_request_step_keeps(
            packages,
            after_requests(packages, start, requests, n - 1),
            requests[n - 1],
        );
    }
}

/// A failure stays: later requests do not change a state that has failed.
pub proof fn lemma_failure_stays(
    packages: Seq<ManifestView>,
    start: ResolveState,
    requests: Seq<RequestView>,
    failed_at: int,
    n: int,
)
    requires
        0 <= failed_at <= n,
        after_requests(packages, start, requests, failed_at).failure is Some,
    ensures
        after_requests(packages, start, requests, n) == after_requests(
            packages,
            start,
            requests,
            failed_at,
        ),
    decreases n - failed_at,
{
    if failed_at < n {
        lemma_failure_stays(packages, start, requests, failed_at, n - 1);
    }
}

/// Working off a dependency keeps the working set consistent and every
/// declared dependency met or in the queue.
pub proof fn lemma_dependency_step_keeps(
    packages: Seq<ManifestView>,
    include_prerelease: bool,
    state: ResolveState,
)
    requires
        consistent(state.entries),
        covered(state),
    ensures
        consistent(dependency_step(packages, include_prerelease, state).entries),
        covered(dependency_step(packages, include_prerelease, state)),
{
    let next = dependency_step(packages, include_prerelease, state);
    if state.failure is None && state.queue.len() > 0 {
        let dependency = state.queue[0];
        let rest = state.queue.subrange(1, state.queue.len() as int);
        if has_entry(state.entries, dependency.name) {
            let p = position_of_entry(state.entries, dependency.name);
            if range_matches(dependency.range, state.entries[p].version) {
                assert(satisfied(state.entries, dependency));
                assert forall|i: int, j: int|
                    0 <= i < next.entries.len() && (#[trigger] next.entries[i]).manifest is Some
                        && 0 <= j < next.entries[i].manifest->Some_0.dependencies.len()
                        implies satisfied(
                    next.entries,
                    #[trigger] next.entries[i].manifest->Some_0.dependencies[j],
                ) || next.queue.contains(next.entries[i].manifest->Some_0.dependencies[j]) by {
                    let d = state.entries[i].manifest->Some_0.dependencies[j];
                    if !satisfied(state.entries, d) {
                        assert(state.queue.contains(d));
                        let q = choose|q: int| 0 <= q < state.queue.len() && state.queue[q] == d;
                        assert(q > 0);
                        assert(rest[q - 1] == d);
                    }
                }
            }
        } else {
            let selector = dependency_selector(dependency.range, include_prerelease);
            if let Some(k) = find_index(packages, dependency.name, selector) {
                assert(finds(packages, dependency.name, selector, k));
                let new_entry = resolved_entry(packages[k]);
                let last = state.entries.len() as int;
                assert(next.entries[last] == new_entry);
                assert forall|i: int, j: int| 0 <= i < j < next.entries.len() implies (
                #[trigger] next.entries[i]).name != (#[trigger] next.entries[j]).name by {
                    if j == last {
                        assert(next.entries[i] == state.entries[i]);
                        assert(state.entries[i].name != dependency.name);
                    } else {
                        assert(next.entries[i] == state.entries[i]);
                        assert(next.entries[j] == state.entries[j]);
                    }
                }
                assert forall|i: int, j: int|
                    0 <= i < next.entries.len() && (#[trigger] next.entries[i]).manifest is Some
                        && 0 <= j < next.entries[i].manifest->Some_0.dependencies.len()
                        implies satisfied(
                    next.entries,
                    #[trigger] next.entries[i].manifest->Some_0.dependencies[j],
                ) || next.queue.contains(next.entries[i].manifest->Some_0.dependencies[j]) by {
                    let d = next.entries[i].manifest->Some_0.dependencies[j];
                    if i == last {
                        assert(next.queue[rest.len() + j] == d);
                    } else {
                        assert(next.entries[i] == state.entries[i]);
                        if satisfied(state.entries, d) {
                            let w = choose|w: int|
                                0 <= w < state.entries.len() && (#[trigger] state.entries[w]).name
                                    == d.name && range_matches(d.range, state.entries[w].version);
                            assert(next.entries[w] == state.entries[w]);
                        } else {
                            assert(state.queue.contains(d));
                            let q = choose|q: int|
                                0 <= q < state.queue.len() && state.queue[q] == d;
                            if q == 0 {
                                assert(next.entries[last].name == d.name);
                                assert(range_matches(d.range, next.entries[last].version));
                            } else {
                                assert(next.queue[q - 1] == d);
                            }
                        }
                    }
                }
            }
        }
    }
}

/// Any number of steps keeps the working set consistent and every declared
/// dependency met or in the queue.
pub proof fn lemma_run_keeps(
    packages: Seq<ManifestView>,
    include_prerelease: bool,
    start: ResolveState,
    steps: nat,
)
    requires
        consistent(start.entries),
        covered(start),
    ensures
        consistent(run(packages, include_prerelease, start, steps).entries),
        covered(run(packages, include_prerelease, start, steps)),
    decreases steps,
{
    if steps > 0 {
        lemma_run_keeps(packages, include_prerelease, start, (steps - 1) as nat);
        lemma_dependency_step_keeps(
            packages,
            include_prerelease,
            run(packages, include_prerelease, start, (steps - 1) as nat),
        );
    }
}

/// Once nothing is left to do, further steps change nothing.
pub proof fn lemma_settled_stays(
    packages: Seq<ManifestView>,
    include_prerelease: bool,
    start: ResolveState,
    settled_at: nat,
    steps: nat,
)
    requires
        settled_at <= steps,
        is_settled(run(packages, include_prerelease, start, settled_at)),
    ensures
        run(packages, include_prerelease, start, steps) == run(
            packages,
            include_prerelease,
            start,
            settled_at,
        ),
    decreases steps - settled_at,
{
    if settled_at < steps {
        lemma_settled_stays(packages, include_prerelease, start, settled_at, (steps - 1) as nat);
    }
}

/// The state in which a resolution ends does not depend on how many steps
/// were counted for it: two runs from one start that both have nothing left
/// to do are in the same state.
pub proof fn lemma_run_deterministic(
    packages: Seq<ManifestView>,
    include_prerelease: bool,
    start: ResolveState,
    a: nat,
    b: nat,
)
    requires
        is_settled(run(packages, include_prerelease, start, a)),
        is_settled(run(packages, include_prerelease, start, b)),
    ensures
        run(packages, include_prerelease, start, a) == run(packages, include_prerelease, start, b),
{
    if a <= b {
        lemma_settled_stays(packages, include_prerelease, start, a, b);
    } else {
        lemma_settled_stays(packages, include_prerelease, start, b, a);
    }
}

/// A working set whose declared dependencies are all met or queued, and
/// whose queue is empty, is closed under dependencies.
pub proof fn lemma_covered_closed(state: ResolveState)
    requires
        covered(state),
        state.queue.len() == 0,
    ensures
        closed(state.entries),
{
    assert forall|i: int, j: int|
        0 <= i < state.entries.len() && (#[trigger] state.entries[i]).manifest is Some && 0 <= j
            < state.entries[i].manifest->Some_0.dependencies.len() implies satisfied(
        state.entries,
        #[trigger] state.entries[i].manifest->Some_0.dependencies[j],
    ) by {
        let d = state.entries[i].manifest->Some_0.dependencies[j];
        if state.queue.contains(d) {
            let q = choose|q: int| 0 <= q < state.queue.len() && state.queue[q] == d;
            assert(false);
        }
    }
}

/// The working set that a project's locked packages seed is consistent and
/// declares no dependency.
pub proof fn lemma_start_keeps(locked: Seq<(Seq<char>, VersionView)>)
    requires
        distinct_locked(locked),
    ensures
        consistent(start_state(locked).entries),
        all_queued(start_state(locked)),
{
}

/// The state in which the resolution of `requests` is after `steps`
/// dependencies were worked off.
pub open spec fn resolve_state(
    packages: Seq<ManifestView>,
    locked: Seq<(Seq<char>, VersionView)>,
    requests: Seq<RequestView>,
    include_prerelease: bool,
    steps: nat,
) -> ResolveState {
    run(
        packages,
        include_prerelease,
        after_requests(packages, start_state(locked), requests, requests.len() as int),
        steps,
    )
}

/// Transitive closure: a resolution that has ended without a failure has a
/// working set in which no name occurs twice and every dependency that a
/// looked-up manifest declares is met by a package of the set with a
/// version in the dependency's range.
pub proof fn lemma_resolution_closed(
    packages: Seq<ManifestView>,
    locked: Seq<(Seq<char>, VersionView)>,
    requests: Seq<RequestView>,
    include_prerelease: bool,
    steps: nat,
)
    requires
        distinct_locked(locked),
        is_settled(resolve_state(packages, locked, requests, include_prerelease, steps)),
        resolve_state(packages, locked, requests, include_prerelease, steps).failure is None,
    ensures
        consistent(resolve_state(packages, locked, requests, include_prerelease, steps).entries),
        closed(resolve_state(packages, locked, requests, include_prerelease, steps).entries),
{
    let start = start_state(locked);
    lemma_start_keeps(locked);
    lemma_after_requests_keeps(packages, start, requests, requests.len() as int);
    let seeded = after_requests(packages, start, requests, requests.len() as int);
    assert(covered(seeded));
    lemma_run_keeps(packages, include_prerelease, seeded, steps);
    lemma_covered_closed(run(packages, include_prerelease, seeded, steps));
}

/// Determinism: the state in which the resolution of given requests
/// against given repositories ends is one and the same, however it was
/// reached.
pub proof fn lemma_resolution_deterministic(
    packages: Seq<ManifestView>,
    locked: Seq<(Seq<char>, VersionView)>,
    requests: Seq<RequestView>,
    include_prerelease: bool,
    a: nat,
    b: nat,
)
    requires
        is_settled(resolve_state(packages, locked, requests, include_prerelease, a)),
        is_settled(resolve_state(packages, locked, requests, include_prerelease, b)),
    ensures
        resolve_state(packages, locked, requests, include_prerelease, a) == resolve_state(
            packages,
            locked,
            requests,
            include_prerelease,
            b,
        ),
{
    lemma_run_deterministic(
        packages,
        include_prerelease,
        after_requests(packages, start_state(locked), requests, requests.len() as int),
        a,
        b,
    );
}

/// The state in which the resolution of `requests` ends: the state after as
/// many steps as it takes until nothing is left to do.
pub open spec fn final_state(
    packages: Seq<ManifestView>,
    locked: Seq<(Seq<char>, VersionView)>,
    requests: Seq<RequestView>,
    include_prerelease: bool,
) -> ResolveState {
    resolve_state(
        packages,
        locked,
        requests,
        include_prerelease,
        choose|steps: nat|
            is_settled(resolve_state(packages, locked, requests, include_prerelease, steps)),
    )
}

/// A state of the resolution in which nothing is left to do is the state in
/// which the resolution ends.
pub proof fn lemma_final_state(
    packages: Seq<ManifestView>,
    locked: Seq<(Seq<char>, VersionView)>,
    requests: Seq<RequestView>,
    include_prerelease: bool,
    steps: nat,
)
    requires
        is_settled(resolve_state(packages, locked, requests, include_prerelease, steps)),
    ensures
        final_state(packages, locked, requests, include_prerelease) == resolve_state(
            packages,
            locked,
            requests,
            include_prerelease,
            steps,
        ),
        is_settled(final_state(packages, locked, requests, include_prerelease)),
{
    let chosen = choose|n: nat|
        is_settled(resolve_state(packages, locked, requests, include_prerelease, n));
    lemma_resolution_deterministic(packages, locked, requests, include_prerelease, chosen, steps);
}

/// The step of a state of the queue `queue` and of the working set
/// `entries`, seen from the state that the step leads to: the steps that
/// lead on from there are counted one less.
pub proof fn lemma_run_from_next(
    packages: Seq<ManifestView>,
    include_prerelease: bool,
    start: ResolveState,
    steps: nat,
)
    ensures
        run(packages, include_prerelease, dependency_step(packages, include_prerelease, start), steps)
            == run(packages, include_prerelease, start, steps + 1),
    decreases steps,
{
    let next = dependency_step(packages, include_prerelease, start);
    if steps > 0 {
        lemma_run_from_next(packages, include_prerelease, start, (steps - 1) as nat);
        assert(run(packages, include_prerelease, next, steps) == dependency_step(
            packages,
            include_prerelease,
            run(packages, include_prerelease, next, (steps - 1) as nat),
        ));
        assert(run(packages, include_prerelease, start, steps + 1) == dependency_step(
            packages,
            include_prerelease,
            run(packages, include_prerelease, start, steps),
        ));
    } else {
        assert(run(packages, include_prerelease, start, 0) == start);
        assert(run(packages, include_prerelease, start, 1) == dependency_step(
            packages,
            include_prerelease,
            run(packages, include_prerelease, start, 0),
        ));
    }
}

/// The names of the packages of `entries`.
pub open spec fn entry_names(entries: Seq<EntryView>) -> Set<Seq<char>> {
    entries.map_values(|e: EntryView| e.name).to_set()
}

/// The names of the packages that the repositories hold.
pub open spec fn package_names(packages: Seq<ManifestView>) -> Set<Seq<char>> {
    packages.map_values(|m: ManifestView| m.name).to_set()
}

/// The names of the repositories' packages are finitely many, and the name
/// of each package is among them.
pub proof fn lemma_package_names(packages: Seq<ManifestView>)
    ensures
        package_names(packages).finite(),
        forall|k: int|
            0 <= k < packages.len() ==> package_names(packages).contains(
                (#[trigger] packages[k]).name,
            ),
{
    let names = packages.map_values(|m: ManifestView| m.name);
    vstd::seq_lib::seq_to_set_is_finite(names);
    assert forall|k: int| 0 <= k < packages.len() implies package_names(packages).contains(
        (#[trigger] packages[k]).name,
    ) by {
        assert(names[k] == packages[k].name);
        assert(names.contains(packages[k].name));
    }
}

/// The names of the repositories' packages that the working set lacks.
pub open spec fn missing_names(packages: Seq<ManifestView>, entries: Seq<EntryView>) -> Set<
    Seq<char>,
> {
    package_names(packages).difference(entry_names(entries))
}

/// A name is among the names of a working set exactly when the set holds a
/// package of that name.
pub proof fn lemma_entry_names(entries: Seq<EntryView>, name: Seq<char>)
    ensures
        entry_names(entries).contains(name) <==> has_entry(entries, name),
{
    let names = entries.map_values(|e: EntryView| e.name);
    if has_entry(entries, name) {
        let i = position_of_entry(entries, name);
        assert(names[i] == name);
        assert(names.contains(name));
    }
    if entry_names(entries).contains(name) {
        assert(names.contains(name));
        let i = choose|i: int| 0 <= i < names.len() && names[i] == name;
        assert(entries[i].name == name);
    }
}

/// Every resolution ends: from any state, after finitely many steps nothing
/// is left to do. Each step either takes a dependency off the queue or
/// brings in a package that the working set lacked, and the repositories
/// hold packages of finitely many names.
pub proof fn lemma_run_ends(
    packages: Seq<ManifestView>,
    include_prerelease: bool,
    start: ResolveState,
) -> (steps: nat)
    ensures
        is_settled(run(packages, include_prerelease, start, steps)),
    decreases missing_names(packages, start.entries).len(), start.queue.len(),
{
    let next = dependency_step(packages, include_prerelease, start);
    if is_settled(start) {
        0
    } else if is_settled(next) {
        assert(run(packages, include_prerelease, start, 1) == next) by {
            assert(run(packages, include_prerelease, start, 0) == start);
        }
        1
    } else {
        let dependency = start.queue[0];
        lemma_package_names(packages);
        let before = missing_names(packages, start.entries);
        let after = missing_names(packages, next.entries);
        assert(before.finite()) by {
            vstd::set_lib::lemma_len_subset(before, package_names(packages));
        }
        if has_entry(start.entries, dependency.name) {
            assert(next.entries == start.entries);
            assert(next.queue.len() < start.queue.len());
        } else {
            let selector = dependency_selector(dependency.range, include_prerelease);
            let k = find_index(packages, dependency.name, selector)->Some_0;
            assert(finds(packages, dependency.name, selector, k));
            assert(is_candidate(packages, dependency.name, selector, k));
            assert(package_names(packages).contains(dependency.name));
            lemma_entry_names(start.entries, dependency.name);
            assert(before.contains(dependency.name));
            assert(next.entries[start.entries.len() as int].name == dependency.name);
            lemma_entry_names(next.entries, dependency.name);
            assert(!after.contains(dependency.name));
            assert forall|name: Seq<char>| after.contains(name) implies before.remove(
                dependency.name,
            ).contains(name) by {
                lemma_entry_names(start.entries, name);
                lemma_entry_names(next.entries, name);
                if has_entry(start.entries, name) {
                    let i = position_of_entry(start.entries, name);
                    assert(next.entries[i].name == name);
                }
            }
            vstd::set_lib::lemma_len_subset(after, before.remove(dependency.name));
        }
        let rest = lemma_run_ends(packages, include_prerelease, next);
        lemma_run_from_next(packages, include_prerelease, start, rest);
        rest + 1
    }
}

/// Every resolution ends, whatever is asked for.
pub proof fn lemma_resolution_ends(
    packages: Seq<ManifestView>,
    locked: Seq<(Seq<char>, VersionView)>,
    requests: Seq<RequestView>,
    include_prerelease: bool,
)
    ensures
        is_settled(final_state(packages, locked, requests, include_prerelease)),
{
    let steps = lemma_run_ends(
        packages,
        include_prerelease,
        after_requests(packages, start_state(locked), requests, requests.len() as int),
    );
    lemma_final_state(packages, locked, requests, include_prerelease, steps);
}

/// Whether `entries` holds a package `name` that was looked up.
pub open spec fn looked_up(entries: Seq<EntryView>, name: Seq<char>) -> bool {
    exists|i: int|
        0 <= i < entries.len() && (#[trigger] entries[i]).name == name && entries[i].manifest
            is Some
}

/// Whether the requests that were looked up name each package once, and
/// each names a package of the working set that was looked up.
pub open spec fn added_once(state: ResolveState) -> bool {
    &&& forall|a: int, b: int|
        0 <= a < b < state.added.len() ==> (#[trigger] state.added[a]).name != (
        #[trigger] state.added[b]).name
    &&& forall|a: int|
        0 <= a < state.added.len() ==> looked_up(state.entries, (#[trigger] state.added[a]).name)
}

/// Taking in a request keeps the looked-up requests to one for each
/// package.
pub proof fn lemma_request_step_added(
    packages: Seq<ManifestView>,
    state: ResolveState,
    request: RequestView,
)
    requires
        consistent(state.entries),
        added_once(state),
    ensures
        added_once(request_step(packages, state, request)),
{
    let next = request_step(packages, state, request);
    if next.added != state.added {
        let k = find_index(packages, request.name, request.selector)->Some_0;
        assert(finds(packages, request.name, request.selector, k));
        let last = state.added.len() as int;
        assert(next.added[last].name == request.name);
        assert forall|a: int| 0 <= a < next.added.len() implies looked_up(
            next.entries,
            (#[trigger] next.added[a]).name,
        ) by {
            if a < last {
                assert(next.added[a] == state.added[a]);
                let i = choose|i: int|
                    0 <= i < state.entries.len() && (#[trigger] state.entries[i]).name
                        == state.added[a].name && state.entries[i].manifest is Some;
                assert(next.entries[i].name == state.entries[i].name);
                assert(next.entries[i].manifest is Some);
            } else if has_entry(state.entries, request.name) {
                let p = position_of_entry(state.entries, request.name);
                assert(next.entries[p].name == request.name);
            } else {
                assert(next.entries[state.entries.len() as int].name == request.name);
            }
        }
        assert forall|a: int, b: int| 0 <= a < b < next.added.len() implies (
        #[trigger] next.added[a]).name != (#[trigger] next.added[b]).name by {
            assert(next.added[a] == state.added[a]);
            if b == last {
                if state.added[a].name == request.name {
                    let i = choose|i: int|
                        0 <= i < state.entries.len() && (#[trigger] state.entries[i]).name
                            == request.name && state.entries[i].manifest is Some;
                    lemma_position_unique(state.entries, request.name, i);
                }
            } else {
                assert(next.added[b] == state.added[b]);
            }
        }
    }
}

/// Working off a dependency keeps the looked-up requests to one for each
/// package.
pub proof fn lemma_dependency_step_added(
    packages: Seq<ManifestView>,
    include_prerelease: bool,
    state: ResolveState,
)
    requires
        added_once(state),
    ensures
        added_once(dependency_step(packages, include_prerelease, state)),
{
    let next = dependency_step(packages, include_prerelease, state);
    assert forall|a: int| 0 <= a < next.added.len() implies looked_up(
        next.entries,
        (#[trigger] next.added[a]).name,
    ) by {
        let i = choose|i: int|
            0 <= i < state.entries.len() && (#[trigger] state.entries[i]).name
                == state.added[a].name && state.entries[i].manifest is Some;
        assert(next.entries[i] == state.entries[i]);
    }
}

/// No package is among the looked-up requests of a resolution twice,
/// however often it was asked for.
pub proof fn lemma_resolution_added(
    packages: Seq<ManifestView>,
    locked: Seq<(Seq<char>, VersionView)>,
    requests: Seq<RequestView>,
    include_prerelease: bool,
    steps: nat,
)
    requires
        distinct_locked(locked),
    ensures
        added_once(resolve_state(packages, locked, requests, include_prerelease, steps)),
{
    lemma_start_keeps(locked);
    lemma_requests_added(packages, start_state(locked), requests, requests.len() as int);
    lemma_run_added(
        packages,
        include_prerelease,
        after_requests(packages, start_state(locked), requests, requests.len() as int),
        steps,
    );
}

/// Any number of requests keeps the looked-up requests to one for each
/// package.
pub proof fn lemma_requests_added(
    packages: Seq<ManifestView>,
    start: ResolveState,
    requests: Seq<RequestView>,
    n: int,
)
    requires
        consistent(start.entries),
        all_queued(start),
        added_once(start),
    ensures
        added_once(after_requests(packages, start, requests, n)),
    decreases n,
{
    if n > 0 {
        lemma_requests_added(packages, start, requests, n - 1);
        lemma_after_requests_keeps(packages, start, requests, n - 1);
        lemma_request_step_added(
            packages,
            after_requests(packages, start, requests, n - 1),
            requests[n - 1],
        );
    }
}

/// Whether `entries` meets `request`: it holds the package that the request
/// names, looked up, in a version that the request's selector names.
pub open spec fn meets(entries: Seq<EntryView>, request: RequestView) -> bool {
    exists|i: int|
        0 <= i < entries.len() && (#[trigger] entries[i]).name == request.name
            && entries[i].manifest is Some && request.selector.matches(entries[i].version)
}

/// Whether `entries` meets the first `n` of `requests`.
pub open spec fn requests_met(entries: Seq<EntryView>, requests: Seq<RequestView>, n: int) -> bool {
    forall|r: int| 0 <= r < n ==> meets(entries, #[trigger] requests[r])
}

/// Whether every manifest of `entries` is one of `packages`.
pub open spec fn from_packages(packages: Seq<ManifestView>, entries: Seq<EntryView>) -> bool {
    forall|i: int|
        0 <= i < entries.len() && (#[trigger] entries[i]).manifest is Some ==> packages.contains(
            entries[i].manifest->Some_0,
        )
}

/// Whether `after` holds every looked-up package of `before` as it was, at
/// its place.
pub open spec fn keeps_looked_up(before: Seq<EntryView>, after: Seq<EntryView>) -> bool {
    &&& before.len() <= after.len()
    &&& forall|i: int|
        0 <= i < before.len() && (#[trigger] before[i]).manifest is Some ==> after[i] == before[i]
}

/// A request that was met stays met while looked-up packages are kept.
pub proof fn lemma_meets_kept(before: Seq<EntryView>, after: Seq<EntryView>, request: RequestView)
    requires
        keeps_looked_up(before, after),
        meets(before, request),
    ensures
        meets(after, request),
{
    let i = choose|i: int|
        0 <= i < before.len() && (#[trigger] before[i]).name == request.name
            && before[i].manifest is Some && request.selector.matches(before[i].version);
    assert(after[i] == before[i]);
}

/// Taking in a request keeps what was looked up, takes manifests from the
/// repositories only, and meets the request unless it fails.
pub proof fn lemma_request_step_meets(
    packages: Seq<ManifestView>,
    state: ResolveState,
    request: RequestView,
)
    requires
        consistent(state.entries),
        from_packages(packages, state.entries),
        state.failure is None,
    ensures
        keeps_looked_up(state.entries, request_step(packages, state, request).entries),
        from_packages(packages, request_step(packages, state, request).entries),
        request_step(packages, state, request).failure is None ==> meets(
            request_step(packages, state, request).entries,
            request,
        ),
{
    let next = request_step(packages, state, request);
    if has_entry(state.entries, request.name) && state.entries[position_of_entry(
        state.entries,
        request.name,
    )].manifest is Some {
        let p = position_of_entry(state.entries, request.name);
        if next.failure is None {
            assert(next.entries[p].name == request.name);
        }
    } else if let Some(k) = find_index(packages, request.name, request.selector) {
        assert(finds(packages, request.name, request.selector, k));
        assert(is_candidate(packages, request.name, request.selector, k));
        let added = resolved_entry(packages[k]);
        if has_entry(state.entries, request.name) {
            let p = position_of_entry(state.entries, request.name);
            assert(next.entries[p] == added);
            assert forall|i: int|
                0 <= i < next.entries.len() && (#[trigger] next.entries[i]).manifest
                    is Some implies packages.contains(next.entries[i].manifest->Some_0) by {
                if i != p {
                    assert(next.entries[i] == state.entries[i]);
                }
            }
        } else {
            let p = state.entries.len() as int;
            assert(next.entries[p] == added);
            assert forall|i: int|
                0 <= i < next.entries.len() && (#[trigger] next.entries[i]).manifest
                    is Some implies packages.contains(next.entries[i].manifest->Some_0) by {
                if i != p {
                    assert(next.entries[i] == state.entries[i]);
                }
            }
        }
    }
}

/// Working off a dependency keeps what was looked up and takes manifests
/// from the repositories only.
pub proof fn lemma_dependency_step_meets(
    packages: Seq<ManifestView>,
    include_prerelease: bool,
    state: ResolveState,
)
    requires
        from_packages(packages, state.entries),
    ensures
        keeps_looked_up(
            state.entries,
            dependency_step(packages, include_prerelease, state).entries,
        ),
        from_packages(packages, dependency_step(packages, include_prerelease, state).entries),
{
    let next = dependency_step(packages, include_prerelease, state);
    if next.entries != state.entries {
        let dependency = state.queue[0];
        let selector = dependency_selector(dependency.range, include_prerelease);
        let k = find_index(packages, dependency.name, selector)->Some_0;
        assert(finds(packages, dependency.name, selector, k));
        assert(is_candidate(packages, dependency.name, selector, k));
        let p = state.entries.len() as int;
        assert forall|i: int|
            0 <= i < next.entries.len() && (#[trigger] next.entries[i]).manifest
                is Some implies packages.contains(next.entries[i].manifest->Some_0) by {
            if i != p {
                assert(next.entries[i] == state.entries[i]);
            }
        }
    }
}

/// After any number of requests that did not fail, each of them is met,
/// and every manifest is one of the repositories'.
pub proof fn lemma_requests_met(
    packages: Seq<ManifestView>,
    start: ResolveState,
    requests: Seq<RequestView>,
    n: int,
)
    requires
        0 <= n <= requests.len(),
        consistent(start.entries),
        all_queued(start),
        from_packages(packages, start.entries),
        after_requests(packages, start, requests, n).failure is None,
    ensures
        requests_met(after_requests(packages, start, requests, n).entries, requests, n),
        from_packages(packages, after_requests(packages, start, requests, n).entries),
    decreases n,
{
    if n > 0 {
        let before = after_requests(packages, start, requests, n - 1);
        let after = after_requests(packages, start, requests, n);
        assert(before.failure is None);
        lemma_requests_met(packages, start, requests, n - 1);
        lemma_after_requests_keeps(packages, start, requests, n - 1);
        lemma_request_step_meets(packages, before, requests[n - 1]);
        assert forall|r: int| 0 <= r < n implies meets(after.entries, #[trigger] requests[r]) by {
            if r < n - 1 {
                lemma_meets_kept(before.entries, after.entries, requests[r]);
            }
        }
    }
}

/// Any number of steps keeps the requests met that were met, and takes
/// manifests from the repositories only.
pub proof fn lemma_run_met(
    packages: Seq<ManifestView>,
    include_prerelease: bool,
    start: ResolveState,
    requests: Seq<RequestView>,
    steps: nat,
)
    requires
        requests_met(start.entries, requests, requests.len() as int),
        from_packages(packages, start.entries),
    ensures
        requests_met(
            run(packages, include_prerelease, start, steps).entries,
            requests,
            requests.len() as int,
        ),
        from_packages(packages, run(packages, include_prerelease, start, steps).entries),
    decreases steps,
{
    if steps > 0 {
        let before = run(packages, include_prerelease, start, (steps - 1) as nat);
        let after = run(packages, include_prerelease, start, steps);
        lemma_run_met(packages, include_prerelease, start, requests, (steps - 1) as nat);
        lemma_dependency_step_meets(packages, include_prerelease, before);
        assert forall|r: int| 0 <= r < requests.len() implies meets(
            after.entries,
            #[trigger] requests[r],
        ) by {
            lemma_meets_kept(before.entries, after.entries, requests[r]);
        }
    }
}

/// A failure of the requests stays through the steps that follow.
pub proof fn lemma_run_keeps_failure(
    packages: Seq<ManifestView>,
    include_prerelease: bool,
    start: ResolveState,
    steps: nat,
)
    requires
        start.failure is Some,
    ensures
        run(packages, include_prerelease, start, steps) == start,
    decreases steps,
{
    if steps > 0 {
        lemma_run_keeps_failure(packages, include_prerelease, start, (steps - 1) as nat);
    }
}

/// A resolution that has not failed meets every request, with manifests of
/// the repositories.
pub proof fn lemma_resolution_met(
    packages: Seq<ManifestView>,
    locked: Seq<(Seq<char>, VersionView)>,
    requests: Seq<RequestView>,
    include_prerelease: bool,
    steps: nat,
)
    requires
        distinct_locked(locked),
        resolve_state(packages, locked, requests, include_prerelease, steps).failure is None,
    ensures
        requests_met(
            resolve_state(packages, locked, requests, include_prerelease, steps).entries,
            requests,
            requests.len() as int,
        ),
        from_packages(
            packages,
            resolve_state(packages, locked, requests, include_prerelease, steps).entries,
        ),
{
    let start = start_state(locked);
    let seeded = after_requests(packages, start, requests, requests.len() as int);
    lemma_start_keeps(locked);
    if seeded.failure is Some {
        lemma_run_keeps_failure(packages, include_prerelease, seeded, steps);
    }
    lemma_requests_met(packages, start, requests, requests.len() as int);
    lemma_run_met(packages, include_prerelease, seeded, requests, steps);
}

/// Whether one of the first `n` of `requests` names the package `name`.
pub open spec fn asked_for(requests: Seq<RequestView>, n: int, name: Seq<char>) -> bool {
    exists|r: int| 0 <= r < n && (#[trigger] requests[r]).name == name
}

/// Whether `entries` keeps the packages that the project holds: each at its
/// place, with its version and without a manifest, unless one of the first
/// `n` of `requests` names it, in which case it was looked up.
pub open spec fn keeps_locked(
    locked: Seq<(Seq<char>, VersionView)>,
    entries: Seq<EntryView>,
    requests: Seq<RequestView>,
    n: int,
) -> bool {
    &&& locked.len() <= entries.len()
    &&& forall|i: int|
        0 <= i < locked.len() ==> (#[trigger] entries[i]).name == locked[i].0 && (if asked_for(
            requests,
            n,
            locked[i].0,
        ) {
            entries[i].manifest is Some || entries[i].version == locked[i].1
        } else {
            entries[i].manifest is None && entries[i].version == locked[i].1
        })
}

/// After any number of requests that did not fail, the packages that the
/// project holds are kept.
pub proof fn lemma_requests_keep_locked(
    packages: Seq<ManifestView>,
    locked: Seq<(Seq<char>, VersionView)>,
    requests: Seq<RequestView>,
    n: int,
)
    requires
        0 <= n <= requests.len(),
    ensures
        keeps_locked(
            locked,
            after_requests(packages, start_state(locked), requests, n).entries,
            requests,
            n,
        ),
    decreases n,
{
    let start = start_state(locked);
    if n > 0 {
        let before = after_requests(packages, start, requests, n - 1);
        let after = after_requests(packages, start, requests, n);
        let request = requests[n - 1];
        lemma_requests_keep_locked(packages, locked, requests, n - 1);
        assert forall|i: int| 0 <= i < locked.len() implies (#[trigger] after.entries[i]).name
            == locked[i].0 && (if asked_for(requests, n, locked[i].0) {
            after.entries[i].manifest is Some || after.entries[i].version == locked[i].1
        } else {
            after.entries[i].manifest is None && after.entries[i].version == locked[i].1
        }) by {
            assert(before.entries[i].name == locked[i].0);
            if asked_for(requests, n - 1, locked[i].0) {
                let r = choose|r: int| 0 <= r < n - 1 && (#[trigger] requests[r]).name == locked[i].0;
                assert(requests[r].name == locked[i].0);
            }
            if after.entries != before.entries {
                let k = find_index(packages, request.name, request.selector)->Some_0;
                assert(finds(packages, request.name, request.selector, k));
                if has_entry(before.entries, request.name) {
                    let p = position_of_entry(before.entries, request.name);
                    if i == p {
                        assert(requests[n - 1].name == locked[i].0);
                    } else {
                        assert(after.entries[i] == before.entries[i]);
                    }
                } else {
                    assert(after.entries[i] == before.entries[i]);
                }
            }
            if asked_for(requests, n, locked[i].0) && !asked_for(requests, n - 1, locked[i].0) {
                let r = choose|r: int| 0 <= r < n && (#[trigger] requests[r]).name == locked[i].0;
                assert(r == n - 1);
            }
        }
    }
}

/// Any number of steps keeps the packages that the project holds.
pub proof fn lemma_run_keeps_locked(
    packages: Seq<ManifestView>,
    locked: Seq<(Seq<char>, VersionView)>,
    requests: Seq<RequestView>,
    include_prerelease: bool,
    steps: nat,
)
    ensures
        keeps_locked(
            locked,
            resolve_state(packages, locked, requests, include_prerelease, steps).entries,
            requests,
            requests.len() as int,
        ),
    decreases steps,
{
    let seeded = after_requests(packages, start_state(locked), requests, requests.len() as int);
    if steps == 0 {
        lemma_requests_keep_locked(packages, locked, requests, requests.len() as int);
    } else {
        lemma_run_keeps_locked(packages, locked, requests, include_prerelease, (steps - 1) as nat);
        let before = run(packages, include_prerelease, seeded, (steps - 1) as nat);
        let after = run(packages, include_prerelease, seeded, steps);
        assert forall|i: int| 0 <= i < locked.len() implies #[trigger] after.entries[i]
            == before.entries[i] by {}
    }
}

/// Any number of steps keeps the looked-up requests to one for each
/// package.
pub proof fn lemma_run_added(
    packages: Seq<ManifestView>,
    include_prerelease: bool,
    start: ResolveState,
    steps: nat,
)
    requires
        added_once(start),
    ensures
        added_once(run(packages, include_prerelease, start, steps)),
    decreases steps,
{
    if steps > 0 {
        lemma_run_added(packages, include_prerelease, start, (steps - 1) as nat);
        lemma_dependency_step_added(
            packages,
            include_prerelease,
            run(packages, include_prerelease, start, (steps - 1) as nat),
        );
    }
}

} // verus!
