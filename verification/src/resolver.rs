//! The resolver: from a project's locked packages and a list of requests to
//! the plan of what the project is to hold, before anything is written.
//!
//! The plan holds the packages that the project holds already, without
//! manifests unless a request named them, and behind them the packages that
//! are new to it. A package of the plan is new when it was looked up and the
//! project does not hold this version of it. The legacy folders and files of
//! the new packages are removed where they exist and no package of the plan
//! claims them: a package claims the folder `Packages/` and its name, and
//! what lies in it. A plan that would change nothing is no plan.

use crate::environment::{find_index, finds, is_candidate, Environment};
use crate::manifest::{
    contains_string, dependency_views, distinct_dependencies, string_views, Dependency,
    DependencyView, ManifestView, PackageManifest,
};
use crate::range::{VersionRange, VersionSelector};
use crate::resolution::{
    after_requests, all_queued, closed, consistent, covered, dependency_selector,
    dependency_step, distinct_locked, final_state, has_entry, is_settled, lemma_covered_closed,
    lemma_dependency_step_keeps, lemma_failure_stays, lemma_final_state, lemma_package_names,
    lemma_position_unique, lemma_request_step_keeps, lemma_resolution_added,
    lemma_resolution_closed, lemma_resolution_ends, lemma_resolution_met,
    lemma_run_keeps_locked, lemma_start_keeps, meets, package_names, request_step,
    requests_met, from_packages, keeps_locked, resolve_state,
    resolved_entry, run, seed_entries, start_state, EntryView, FailureView, RequestView,
    ResolveState,
};
use crate::text::has_prefix;
use crate::version::{VersionNumber, VersionView};
use vstd::prelude::*;
use vstd::string::*;

verus! {

/// A package that a project holds, with the version that it holds.
#[derive(Debug)]
pub struct LockedPackage {
    pub name: String,
    pub version: VersionNumber,
}

impl View for LockedPackage {
    type V = (Seq<char>, VersionView);

    open spec fn view(&self) -> (Seq<char>, VersionView) {
        (self.name@, self.version@)
    }
}

/// The views of a list of locked packages, in order.
pub open spec fn locked_views(locked: Seq<LockedPackage>) -> Seq<(Seq<char>, VersionView)> {
    Seq::new(locked.len(), |i: int| locked[i]@)
}

/// The project that packages are installed into.
#[derive(Debug)]
pub struct UnityProject {
    /// The packages that are installed, each named once.
    pub(crate) locked_packages: Vec<LockedPackage>,
    /// The packages that the project asks for itself.
    pub(crate) direct_dependencies: Vec<Dependency>,
    /// Where the project lies.
    pub(crate) root_path: String,
}

/// What a [`UnityProject`] stands for.
pub struct ProjectView {
    pub locked: Seq<(Seq<char>, VersionView)>,
    pub direct_dependencies: Seq<DependencyView>,
    pub root_path: Seq<char>,
}

impl View for UnityProject {
    type V = ProjectView;

    open(crate) spec fn view(&self) -> ProjectView {
        ProjectView {
            locked: locked_views(self.locked_packages@),
            direct_dependencies: dependency_views(self.direct_dependencies@),
            root_path: self.root_path@,
        }
    }
}

/// A request for one package.
#[derive(Debug)]
pub struct PackageRequest {
    pub name: String,
    pub selector: VersionSelector,
}

impl View for PackageRequest {
    type V = RequestView;

    open spec fn view(&self) -> RequestView {
        RequestView { name: self.name@, selector: self.selector@ }
    }
}

/// The views of a list of requests, in order.
pub open spec fn request_views(requests: Seq<PackageRequest>) -> Seq<RequestView> {
    Seq::new(requests.len(), |i: int| requests[i]@)
}

/// One package of a plan: its name and version, and its manifest where the
/// package was looked up for the plan.
#[derive(Debug)]
pub struct PlannedPackage<'a> {
    pub name: &'a String,
    pub version: &'a VersionNumber,
    pub manifest: Option<&'a PackageManifest>,
}

impl<'a> View for PlannedPackage<'a> {
    type V = EntryView;

    open spec fn view(&self) -> EntryView {
        EntryView {
            name: self.name@,
            version: self.version@,
            manifest: match self.manifest {
                Some(m) => Some(m@),
                None => None,
            },
        }
    }
}

/// The views of a list of planned packages, in order.
pub open spec fn planned_views(entries: Seq<PlannedPackage>) -> Seq<EntryView> {
    Seq::new(entries.len(), |i: int| entries[i]@)
}

/// The views of a list of dependencies that are held by reference, in
/// order.
pub open spec fn dependency_ref_views(dependencies: Seq<&Dependency>) -> Seq<DependencyView> {
    Seq::new(dependencies.len(), |i: int| dependencies[i]@)
}

/// The views of a list of strings that are held by reference, in order.
pub open spec fn string_ref_views(strings: Seq<&String>) -> Seq<Seq<char>> {
    Seq::new(strings.len(), |i: int| strings[i]@)
}

/// Why no plan was made.
#[derive(Debug)]
pub enum AddPackageErr {
    /// No repository holds a version of the package that the selector names.
    PackageNotFound { name: String, selector: VersionSelector },
    /// The package is locked with a version outside the range that is asked
    /// of it.
    VersionConflict { name: String, range: VersionRange, locked: VersionNumber },
    /// The project holds all that was asked for: there is nothing to do.
    NoChangesNeeded,
}

impl View for AddPackageErr {
    type V = FailureView;

    open spec fn view(&self) -> FailureView {
        match self {
            AddPackageErr::PackageNotFound { name, selector } => FailureView::PackageNotFound {
                name: name@,
                selector: selector@,
            },
            AddPackageErr::VersionConflict { name, range, locked } => FailureView::VersionConflict {
                name: name@,
                range: range@,
                locked: locked@,
            },
            AddPackageErr::NoChangesNeeded => FailureView::NoChangesNeeded,
        }
    }
}

/// The plan of a change to a project: what it is to hold, and what is to be
/// removed from it.
#[derive(Debug)]
pub struct AddPackageRequest<'a> {
    /// The packages that the project is to hold: those it holds already,
    /// in their order, with new versions where they were asked for, then
    /// the packages that are new to it.
    pub locked: Vec<PlannedPackage<'a>>,
    /// The requests that were looked up, each as a dependency of the
    /// project.
    pub added_dependencies: Vec<Dependency>,
    /// The folders of older forms of the new packages that are to be
    /// removed.
    pub legacy_folders: Vec<String>,
    /// The files of older forms of the new packages that are to be removed.
    pub legacy_files: Vec<String>,
}

/// What an [`AddPackageRequest`] stands for.
pub struct PlanView {
    pub locked: Seq<EntryView>,
    pub added_dependencies: Seq<DependencyView>,
    pub legacy_folders: Seq<Seq<char>>,
    pub legacy_files: Seq<Seq<char>>,
}

impl<'a> View for AddPackageRequest<'a> {
    type V = PlanView;

    open spec fn view(&self) -> PlanView {
        PlanView {
            locked: planned_views(self.locked@),
            added_dependencies: dependency_views(self.added_dependencies@),
            legacy_folders: string_views(self.legacy_folders@),
            legacy_files: string_views(self.legacy_files@),
        }
    }
}

/// The view of what a resolution returns.
pub open spec fn result_view(result: Result<AddPackageRequest, AddPackageErr>) -> Result<
    PlanView,
    FailureView,
> {
    match result {
        Ok(plan) => Ok(plan@),
        Err(e) => Err(e@),
    }
}

/// Whether the project holds the package `name` with the version `version`.
pub open spec fn locks(locked: Seq<(Seq<char>, VersionView)>, name: Seq<char>, version: VersionView) -> bool {
    exists|i: int| 0 <= i < locked.len() && #[trigger] locked[i] == (name, version)
}

/// Whether `entry` is new to the project: it was looked up, and the project
/// does not hold this version of it.
pub open spec fn is_new(locked: Seq<(Seq<char>, VersionView)>, entry: EntryView) -> bool {
    entry.manifest is Some && !locks(locked, entry.name, entry.version)
}

/// The legacy paths that the manifest of `entry` lists: its folders, or its
/// files.
pub open spec fn legacy_paths(entry: EntryView, folders: bool) -> Seq<Seq<char>> {
    if folders {
        entry.manifest->Some_0.legacy_folders
    } else {
        entry.manifest->Some_0.legacy_files
    }
}

/// The legacy paths that the new packages among the first `n` of `entries`
/// list, in order.
pub open spec fn legacy_candidates(
    entries: Seq<EntryView>,
    locked: Seq<(Seq<char>, VersionView)>,
    folders: bool,
    n: int,
) -> Seq<Seq<char>>
    decreases n,
{
    if n <= 0 {
        Seq::empty()
    } else if is_new(locked, entries[n - 1]) {
        legacy_candidates(entries, locked, folders, n - 1) + legacy_paths(entries[n - 1], folders)
    } else {
        legacy_candidates(entries, locked, folders, n - 1)
    }
}

/// Whether `path` is the folder into which the package `name` is installed,
/// or lies in it.
pub open spec fn owns(name: Seq<char>, path: Seq<char>) -> bool {
    path == "Packages/"@ + name || ("Packages/"@ + name + "/"@).is_prefix_of(path)
}

/// Whether a package of `entries` claims `path` as its own.
pub open spec fn claimed(entries: Seq<EntryView>, path: Seq<char>) -> bool {
    exists|i: int| 0 <= i < entries.len() && owns((#[trigger] entries[i]).name, path)
}

/// Whether `path` is to be removed: it exists and no package that stays
/// claims it.
pub open spec fn removable(entries: Seq<EntryView>, existing: Seq<Seq<char>>, path: Seq<char>) -> bool {
    existing.contains(path) && !claimed(entries, path)
}

/// The paths among the first `n` of `candidates` that are to be removed,
/// each once, in the order in which they first occur.
pub open spec fn selected_paths(
    candidates: Seq<Seq<char>>,
    entries: Seq<EntryView>,
    existing: Seq<Seq<char>>,
    n: int,
) -> Seq<Seq<char>>
    decreases n,
{
    if n <= 0 {
        Seq::empty()
    } else {
        let before = selected_paths(candidates, entries, existing, n - 1);
        if removable(entries, existing, candidates[n - 1]) && !before.contains(candidates[n - 1]) {
            before.push(candidates[n - 1])
        } else {
            before
        }
    }
}

/// The legacy paths of the new packages of `entries` that are to be
/// removed.
pub open spec fn removals(
    entries: Seq<EntryView>,
    locked: Seq<(Seq<char>, VersionView)>,
    existing: Seq<Seq<char>>,
    folders: bool,
) -> Seq<Seq<char>> {
    let candidates = legacy_candidates(entries, locked, folders, entries.len() as int);
    selected_paths(candidates, entries, existing, candidates.len() as int)
}

/// Whether `entries` is what the project holds already: the same packages
/// with the same versions.
pub open spec fn unchanged(entries: Seq<EntryView>, locked: Seq<(Seq<char>, VersionView)>) -> bool {
    forall|i: int|
        0 <= i < entries.len() ==> locks(locked, (#[trigger] entries[i]).name, entries[i].version)
}

/// What a resolution that ended in `state` returns: its failure; or that
/// nothing is to be done, where the working set is what the project holds
/// and nothing is to be removed; or the plan.
pub open spec fn outcome(
    state: ResolveState,
    locked: Seq<(Seq<char>, VersionView)>,
    existing: Seq<Seq<char>>,
) -> Result<PlanView, FailureView> {
    match state.failure {
        Some(failure) => Err(failure),
        None => {
            let legacy_folders = removals(state.entries, locked, existing, true);
            let legacy_files = removals(state.entries, locked, existing, false);
            if unchanged(state.entries, locked) && legacy_folders.len() == 0 && legacy_files.len()
                == 0 {
                Err(FailureView::NoChangesNeeded)
            } else {
                Ok(
                    PlanView {
                        locked: state.entries,
                        added_dependencies: state.added,
                        legacy_folders,
                        legacy_files,
                    },
                )
            }
        },
    }
}

/// What is selected is to be removed, is a candidate, and occurs once; and
/// every candidate that is to be removed is selected.
pub proof fn lemma_selected_paths(
    candidates: Seq<Seq<char>>,
    entries: Seq<EntryView>,
    existing: Seq<Seq<char>>,
    n: int,
)
    requires
        0 <= n <= candidates.len(),
    ensures
        selected_paths(candidates, entries, existing, n).no_duplicates(),
        forall|path: Seq<char>| #[trigger]
            selected_paths(candidates, entries, existing, n).contains(path) <==> removable(
                entries,
                existing,
                path,
            ) && candidates.subrange(0, n).contains(path),
    decreases n,
{
    let selected = selected_paths(candidates, entries, existing, n);
    if n > 0 {
        lemma_selected_paths(candidates, entries, existing, n - 1);
        let before = selected_paths(candidates, entries, existing, n - 1);
        let last = candidates[n - 1];
        let shorter = candidates.subrange(0, n - 1);
        let longer = candidates.subrange(0, n);
        assert(longer[n - 1] == last);
        assert forall|path: Seq<char>| #[trigger]
            selected.contains(path) <==> removable(entries, existing, path) && longer.contains(
                path,
            ) by {
            if selected.contains(path) {
                let w = choose|w: int| 0 <= w < selected.len() && selected[w] == path;
                if w < before.len() {
                    assert(before[w] == path);
                    assert(before.contains(path));
                    let c = choose|c: int| 0 <= c < shorter.len() && shorter[c] == path;
                    assert(longer[c] == path);
                }
            }
            if removable(entries, existing, path) && longer.contains(path) {
                let c = choose|c: int| 0 <= c < longer.len() && longer[c] == path;
                if c < n - 1 {
                    assert(shorter[c] == path);
                    assert(before.contains(path));
                    let w = choose|w: int| 0 <= w < before.len() && before[w] == path;
                    assert(selected[w] == path);
                } else if before.contains(path) {
                    let w = choose|w: int| 0 <= w < before.len() && before[w] == path;
                    assert(selected[w] == path);
                } else {
                    assert(selected[before.len() as int] == path);
                }
            }
        }
    }
}

/// Every legacy path of a new package is a candidate.
pub proof fn lemma_candidates_hold(
    entries: Seq<EntryView>,
    locked: Seq<(Seq<char>, VersionView)>,
    folders: bool,
    n: int,
    i: int,
    j: int,
)
    requires
        0 <= i < n <= entries.len(),
        is_new(locked, entries[i]),
        0 <= j < legacy_paths(entries[i], folders).len(),
    ensures
        legacy_candidates(entries, locked, folders, n).contains(
            legacy_paths(entries[i], folders)[j],
        ),
    decreases n,
{
    let before = legacy_candidates(entries, locked, folders, n - 1);
    let all = legacy_candidates(entries, locked, folders, n);
    let path = legacy_paths(entries[i], folders)[j];
    if i == n - 1 {
        assert(all[before.len() + j] == path);
    } else {
        lemma_candidates_hold(entries, locked, folders, n - 1, i, j);
        let w = choose|w: int| 0 <= w < before.len() && before[w] == path;
        assert(all[w] == path);
    }
}

/// A legacy folder or file that a new package of the plan lists, that
/// exists, and that no package of the plan claims, is among the removals.
pub proof fn lemma_legacy_removed(
    entries: Seq<EntryView>,
    locked: Seq<(Seq<char>, VersionView)>,
    existing: Seq<Seq<char>>,
    folders: bool,
    i: int,
    j: int,
)
    requires
        0 <= i < entries.len(),
        is_new(locked, entries[i]),
        0 <= j < legacy_paths(entries[i], folders).len(),
        removable(entries, existing, legacy_paths(entries[i], folders)[j]),
    ensures
        removals(entries, locked, existing, folders).contains(legacy_paths(entries[i], folders)[j]),
{
    let candidates = legacy_candidates(entries, locked, folders, entries.len() as int);
    lemma_candidates_hold(entries, locked, folders, entries.len() as int, i, j);
    lemma_selected_paths(candidates, entries, existing, candidates.len() as int);
    assert(candidates.subrange(0, candidates.len() as int) =~= candidates);
}

/// Whether a new package of `entries` lists `path` among its legacy
/// folders, or files.
pub open spec fn listed(
    entries: Seq<EntryView>,
    locked: Seq<(Seq<char>, VersionView)>,
    folders: bool,
    path: Seq<char>,
) -> bool {
    exists|i: int, j: int|
        0 <= i < entries.len() && is_new(locked, #[trigger] entries[i]) && 0 <= j < legacy_paths(
            entries[i],
            folders,
        ).len() && #[trigger] legacy_paths(entries[i], folders)[j] == path
}

/// Every candidate is a legacy path of a new package.
pub proof fn lemma_candidates_listed(
    entries: Seq<EntryView>,
    locked: Seq<(Seq<char>, VersionView)>,
    folders: bool,
    n: int,
    path: Seq<char>,
)
    requires
        0 <= n <= entries.len(),
        legacy_candidates(entries, locked, folders, n).contains(path),
    ensures
        listed(entries, locked, folders, path),
    decreases n,
{
    let all = legacy_candidates(entries, locked, folders, n);
    let w = choose|w: int| 0 <= w < all.len() && all[w] == path;
    if n > 0 {
        let before = legacy_candidates(entries, locked, folders, n - 1);
        if w < before.len() {
            assert(before[w] == path);
            lemma_candidates_listed(entries, locked, folders, n - 1, path);
        } else {
            assert(is_new(locked, entries[n - 1]));
            assert(legacy_paths(entries[n - 1], folders)[w - before.len()] == path);
        }
    }
}

/// What is removed, exactly: the removals hold no path twice, and a path is
/// among them if and only if a new package of the plan lists it as a legacy
/// folder, or file, it exists, and no package of the plan claims it.
pub proof fn lemma_removals_exact(
    entries: Seq<EntryView>,
    locked: Seq<(Seq<char>, VersionView)>,
    existing: Seq<Seq<char>>,
    folders: bool,
)
    ensures
        removals(entries, locked, existing, folders).no_duplicates(),
        forall|path: Seq<char>| #[trigger]
            removals(entries, locked, existing, folders).contains(path) <==> listed(
                entries,
                locked,
                folders,
                path,
            ) && removable(entries, existing, path),
{
    let candidates = legacy_candidates(entries, locked, folders, entries.len() as int);
    lemma_selected_paths(candidates, entries, existing, candidates.len() as int);
    assert(candidates.subrange(0, candidates.len() as int) =~= candidates);
    assert forall|path: Seq<char>| #[trigger]
        removals(entries, locked, existing, folders).contains(path) <==> listed(
            entries,
            locked,
            folders,
            path,
        ) && removable(entries, existing, path) by {
        if removals(entries, locked, existing, folders).contains(path) {
            lemma_candidates_listed(entries, locked, folders, entries.len() as int, path);
        }
        if listed(entries, locked, folders, path) && removable(entries, existing, path) {
            let (i, j) = choose|i: int, j: int|
                0 <= i < entries.len() && is_new(locked, #[trigger] entries[i]) && 0 <= j
                    < legacy_paths(entries[i], folders).len() && #[trigger] legacy_paths(
                    entries[i],
                    folders,
                )[j] == path;
            lemma_legacy_removed(entries, locked, existing, folders, i, j);
        }
    }
}

/// The position of the package `name` in `entries`, if it is there.
fn find_entry(entries: &Vec<PlannedPackage>, name: &String) -> (r: Option<usize>)
    ensures
        match r {
            Some(i) => i < entries@.len() && planned_views(entries@)[i as int].name == name@,
            None => !has_entry(planned_views(entries@), name@),
        },
{
    let mut i: usize = 0;
    while i < entries.len()
        invariant
            i <= entries.len(),
            forall|k: int| 0 <= k < i ==> (#[trigger] planned_views(entries@)[k]).name != name@,
        decreases entries.len() - i,
    {
        if *entries[i].name == *name {
            return Some(i);
        }
        i += 1;
    }
    None
}

/// Whether the project holds the package `name` with the version `version`.
fn is_locked(locked: &Vec<LockedPackage>, name: &String, version: &VersionNumber) -> (r: bool)
    ensures
        r == locks(locked_views(locked@), name@, version@),
{
    let mut i: usize = 0;
    while i < locked.len()
        invariant
            i <= locked.len(),
            forall|k: int| 0 <= k < i ==> (#[trigger] locked_views(locked@)[k]) != (name@, version@),
        decreases locked.len() - i,
    {
        if locked[i].name == *name && locked[i].version.equals(version) {
            assert(locked_views(locked@)[i as int] == (name@, version@));
            return true;
        }
        i += 1;
    }
    false
}

/// Whether `path` is the folder into which the package `name` is installed,
/// or lies in it.
fn owns_path(name: &String, path: &String) -> (r: bool)
    ensures
        r == owns(name@, path@),
{
    let mut root = "Packages/".to_owned();
    root.append(name.as_str());
    if *path == root {
        return true;
    }
    root.append("/");
    has_prefix(path.as_str(), root.as_str())
}

/// Whether a package of `entries` claims `path` as its own.
fn is_claimed(entries: &Vec<PlannedPackage>, path: &String) -> (r: bool)
    ensures
        r == claimed(planned_views(entries@), path@),
{
    let mut i: usize = 0;
    while i < entries.len()
        invariant
            i <= entries.len(),
            forall|k: int| 0 <= k < i ==> !owns((#[trigger] planned_views(entries@)[k]).name, path@),
        decreases entries.len() - i,
    {
        if owns_path(entries[i].name, path) {
            assert(owns(planned_views(entries@)[i as int].name, path@));
            return true;
        }
        i += 1;
    }
    false
}

/// The legacy paths that the new packages of `entries` list, in order.
fn collect_legacy<'a>(
    entries: &Vec<PlannedPackage<'a>>,
    locked: &Vec<LockedPackage>,
    folders: bool,
) -> (r: Vec<&'a String>)
    ensures
        string_ref_views(r@) == legacy_candidates(
            planned_views(entries@),
            locked_views(locked@),
            folders,
            entries@.len() as int,
        ),
{
    let ghost views = planned_views(entries@);
    let ghost held = locked_views(locked@);
    let mut r: Vec<&'a String> = Vec::new();
    assert(string_ref_views(r@) =~= Seq::empty());
    let mut i: usize = 0;
    while i < entries.len()
        invariant
            i <= entries.len(),
            views == planned_views(entries@),
            held == locked_views(locked@),
            string_ref_views(r@) == legacy_candidates(views, held, folders, i as int),
        decreases entries.len() - i,
    {
        let entry = &entries[i];
        assert(views[i as int] == entry@);
        if let Some(manifest) = entry.manifest {
            if !is_locked(locked, entry.name, entry.version) {
                let paths: &'a Vec<String> = if folders {
                    &manifest.legacy_folders
                } else {
                    &manifest.legacy_files
                };
                let ghost before = string_ref_views(r@);
                assert(string_views(paths@) == legacy_paths(views[i as int], folders));
                let mut j: usize = 0;
                while j < paths.len()
                    invariant
                        j <= paths.len(),
                        string_ref_views(r@) == before + string_views(paths@).subrange(0, j as int),
                    decreases paths.len() - j,
                {
                    let ghost prev = string_ref_views(r@);
                    r.push(&paths[j]);
                    assert(string_ref_views(r@) =~= prev.push(paths@[j as int]@));
                    assert(string_views(paths@)[j as int] == paths@[j as int]@);
                    assert(prev.push(paths@[j as int]@) =~= before + string_views(paths@).subrange(
                        0,
                        j + 1,
                    ));
                    j += 1;
                }
                assert(string_views(paths@).subrange(0, paths.len() as int) =~= string_views(
                    paths@,
                ));
            }
        }
        i += 1;
    }
    r
}

/// The paths of `candidates` that are to be removed, each once, in the
/// order in which they first occur.
fn select_paths(
    candidates: &Vec<&String>,
    entries: &Vec<PlannedPackage>,
    existing: &Vec<String>,
) -> (r: Vec<String>)
    ensures
        string_views(r@) == selected_paths(
            string_ref_views(candidates@),
            planned_views(entries@),
            string_views(existing@),
            candidates@.len() as int,
        ),
{
    let ghost paths = string_ref_views(candidates@);
    let ghost views = planned_views(entries@);
    let ghost found = string_views(existing@);
    let mut r: Vec<String> = Vec::new();
    assert(string_views(r@) =~= Seq::empty());
    let mut i: usize = 0;
    while i < candidates.len()
        invariant
            i <= candidates.len(),
            paths == string_ref_views(candidates@),
            views == planned_views(entries@),
            found == string_views(existing@),
            string_views(r@) == selected_paths(paths, views, found, i as int),
        decreases candidates.len() - i,
    {
        let path: &String = candidates[i];
        assert(paths[i as int] == path@);
        if contains_string(existing, path) && !is_claimed(entries, path) && !contains_string(
            &r,
            path,
        ) {
            let ghost before = string_views(r@);
            r.push(path.clone());
            assert(string_views(r@) =~= before.push(path@));
        }
        i += 1;
    }
    r
}

/// Whether `entries` is what the project holds already.
fn is_unchanged(entries: &Vec<PlannedPackage>, locked: &Vec<LockedPackage>) -> (r: bool)
    ensures
        r == unchanged(planned_views(entries@), locked_views(locked@)),
{
    let ghost views = planned_views(entries@);
    let mut i: usize = 0;
    while i < entries.len()
        invariant
            i <= entries.len(),
            views == planned_views(entries@),
            forall|k: int|
                0 <= k < i ==> locks(
                    locked_views(locked@),
                    (#[trigger] views[k]).name,
                    views[k].version,
                ),
        decreases entries.len() - i,
    {
        if !is_locked(locked, entries[i].name, entries[i].version) {
            assert(!locks(locked_views(locked@), views[i as int].name, views[i as int].version));
            return false;
        }
        i += 1;
    }
    true
}

/// Puts the dependencies of `manifest` at the end of `work`.
fn push_dependencies<'a>(work: &mut Vec<&'a Dependency>, manifest: &'a PackageManifest)
    ensures
        dependency_ref_views(final(work)@) == dependency_ref_views(old(work)@)
            + manifest@.dependencies,
        final(work)@.len() == old(work)@.len() + manifest@.dependencies.len(),
        forall|k: int| 0 <= k < old(work)@.len() ==> final(work)@[k] == old(work)@[k],
{
    let ghost before = dependency_ref_views(work@);
    let ghost start = work@;
    let mut j: usize = 0;
    while j < manifest.dependencies.len()
        invariant
            j <= manifest.dependencies.len(),
            work@.len() == start.len() + j,
            forall|k: int| 0 <= k < start.len() ==> work@[k] == start[k],
            dependency_ref_views(work@) == before + manifest@.dependencies.subrange(0, j as int),
        decreases manifest.dependencies.len() - j,
    {
        let ghost prev = dependency_ref_views(work@);
        work.push(&manifest.dependencies[j]);
        assert(dependency_ref_views(work@) =~= prev.push(manifest.dependencies@[j as int]@));
        assert(manifest@.dependencies[j as int] == manifest.dependencies@[j as int]@);
        assert(prev.push(manifest.dependencies@[j as int]@) =~= before
            + manifest@.dependencies.subrange(0, j + 1));
        j += 1;
    }
    assert(manifest@.dependencies.subrange(0, manifest.dependencies.len() as int)
        =~= manifest@.dependencies);
}

/// The state of a resolution that holds `entries`, has the dependencies of
/// `work` from `head` on still to work off, and has looked up `added`.
pub open spec fn state_of(
    entries: Seq<PlannedPackage>,
    work: Seq<&Dependency>,
    head: int,
    added: Seq<Dependency>,
) -> ResolveState {
    ResolveState {
        entries: planned_views(entries),
        queue: dependency_ref_views(work).subrange(head, work.len() as int),
        added: dependency_views(added),
        failure: None,
    }
}

/// What the resolution of `requests` returns: the outcome of the state in
/// which it ends.
pub open spec fn resolution(
    packages: Seq<ManifestView>,
    locked: Seq<(Seq<char>, VersionView)>,
    requests: Seq<RequestView>,
    include_prerelease: bool,
    existing: Seq<Seq<char>>,
) -> Result<PlanView, FailureView> {
    outcome(final_state(packages, locked, requests, include_prerelease), locked, existing)
}

/// Determinism: what a resolution returns is the outcome of any state of it
/// in which nothing is left to do, however many steps were counted to reach
/// it. The same requests against the same repositories give the same plan.
pub proof fn lemma_plan_deterministic(
    packages: Seq<ManifestView>,
    locked: Seq<(Seq<char>, VersionView)>,
    requests: Seq<RequestView>,
    include_prerelease: bool,
    existing: Seq<Seq<char>>,
    steps: nat,
)
    requires
        is_settled(resolve_state(packages, locked, requests, include_prerelease, steps)),
    ensures
        resolution(packages, locked, requests, include_prerelease, existing) == outcome(
            resolve_state(packages, locked, requests, include_prerelease, steps),
            locked,
            existing,
        ),
{
    lemma_final_state(packages, locked, requests, include_prerelease, steps);
}

/// Transitive closure: the plan that a resolution returns holds no package
/// twice, and every dependency that one of its manifests declares is met by
/// a package of the plan with a version in the dependency's range.
pub proof fn lemma_plan_closed(
    packages: Seq<ManifestView>,
    locked: Seq<(Seq<char>, VersionView)>,
    requests: Seq<RequestView>,
    include_prerelease: bool,
    existing: Seq<Seq<char>>,
)
    requires
        distinct_locked(locked),
    ensures
        resolution(packages, locked, requests, include_prerelease, existing) matches Ok(plan)
            ==> consistent(plan.locked) && closed(plan.locked) && distinct_dependencies(
            plan.added_dependencies,
        ),
{
    lemma_resolution_ends(packages, locked, requests, include_prerelease);
    let steps = choose|steps: nat|
        is_settled(resolve_state(packages, locked, requests, include_prerelease, steps));
    if final_state(packages, locked, requests, include_prerelease).failure is None {
        lemma_resolution_closed(packages, locked, requests, include_prerelease, steps);
        lemma_resolution_added(packages, locked, requests, include_prerelease, steps);
    }
}

/// Every request is met: the plan that a resolution returns holds, for each
/// request, the package that it names, looked up in the repositories, in a
/// version that its selector names.
pub proof fn lemma_plan_meets_requests(
    packages: Seq<ManifestView>,
    locked: Seq<(Seq<char>, VersionView)>,
    requests: Seq<RequestView>,
    include_prerelease: bool,
    existing: Seq<Seq<char>>,
)
    requires
        distinct_locked(locked),
    ensures
        resolution(packages, locked, requests, include_prerelease, existing) matches Ok(plan)
            ==> requests_met(plan.locked, requests, requests.len() as int) && from_packages(
            packages,
            plan.locked,
        ),
{
    let steps = choose|steps: nat|
        is_settled(resolve_state(packages, locked, requests, include_prerelease, steps));
    if final_state(packages, locked, requests, include_prerelease).failure is None {
        lemma_resolution_met(packages, locked, requests, include_prerelease, steps);
    }
}

/// What the project holds is kept: the plan that a resolution returns
/// starts with the packages that the project holds, each with its version
/// and without a manifest unless a request names it.
pub proof fn lemma_plan_keeps_locked(
    packages: Seq<ManifestView>,
    locked: Seq<(Seq<char>, VersionView)>,
    requests: Seq<RequestView>,
    include_prerelease: bool,
    existing: Seq<Seq<char>>,
)
    ensures
        resolution(packages, locked, requests, include_prerelease, existing) matches Ok(plan)
            ==> keeps_locked(locked, plan.locked, requests, requests.len() as int),
{
    let steps = choose|steps: nat|
        is_settled(resolve_state(packages, locked, requests, include_prerelease, steps));
    lemma_run_keeps_locked(packages, locked, requests, include_prerelease, steps);
}

/// A request for what no repository holds fails the resolution: where the
/// selector of a request names no version of its package in any repository,
/// there is no plan.
pub proof fn lemma_unmet_request_fails(
    packages: Seq<ManifestView>,
    locked: Seq<(Seq<char>, VersionView)>,
    requests: Seq<RequestView>,
    include_prerelease: bool,
    existing: Seq<Seq<char>>,
    r: int,
)
    requires
        distinct_locked(locked),
        0 <= r < requests.len(),
        forall|k: int| !is_candidate(packages, requests[r].name, requests[r].selector, k),
    ensures
        resolution(packages, locked, requests, include_prerelease, existing) is Err,
{
    lemma_plan_meets_requests(packages, locked, requests, include_prerelease, existing);
    lemma_plan_closed(packages, locked, requests, include_prerelease, existing);
    if let Ok(plan) = resolution(packages, locked, requests, include_prerelease, existing) {
        let request = requests[r];
        assert(meets(plan.locked, request));
        let i = choose|i: int|
            0 <= i < plan.locked.len() && (#[trigger] plan.locked[i]).name == request.name
                && plan.locked[i].manifest is Some && request.selector.matches(
                plan.locked[i].version,
            );
        let manifest = plan.locked[i].manifest->Some_0;
        assert(packages.contains(manifest));
        let k = choose|k: int| 0 <= k < packages.len() && packages[k] == manifest;
        assert(is_candidate(packages, request.name, request.selector, k));
    }
}

impl UnityProject {
    /// What holds of every project: no package is locked twice.
    #[verifier::type_invariant]
    pub open spec fn wf(&self) -> bool {
        distinct_locked(self@.locked)
    }

    /// The packages that are installed.
    pub fn locked_packages(&self) -> (r: &Vec<LockedPackage>)
        ensures
            locked_views(r@) == self@.locked,
    {
        &self.locked_packages
    }

    /// The packages that the project asks for itself.
    pub fn direct_dependencies(&self) -> (r: &Vec<Dependency>)
        ensures
            dependency_views(r@) == self@.direct_dependencies,
    {
        &self.direct_dependencies
    }

    /// Where the project lies.
    pub fn root_path(&self) -> (r: &String)
        ensures
            r@ == self@.root_path,
    {
        &self.root_path
    }

    /// The project of the given parts; `None` where a package is locked
    /// twice.
    pub fn new(
        locked_packages: Vec<LockedPackage>,
        direct_dependencies: Vec<Dependency>,
        root_path: String,
    ) -> (r: Option<UnityProject>)
        ensures
            r is Some <==> distinct_locked(locked_views(locked_packages@)),
            r matches Some(project) ==> project@ == (ProjectView {
                locked: locked_views(locked_packages@),
                direct_dependencies: dependency_views(direct_dependencies@),
                root_path: root_path@,
            }),
    {
        let ghost views = locked_views(locked_packages@);
        let mut j: usize = 0;
        while j < locked_packages.len()
            invariant
                j <= locked_packages.len(),
                views == locked_views(locked_packages@),
                forall|a: int, b: int| 0 <= a < b < j ==> (#[trigger] views[a]).0 != (#[trigger] views[b]).0,
            decreases locked_packages.len() - j,
        {
            let mut i: usize = 0;
            while i < j
                invariant
                    i <= j < locked_packages.len(),
                    views == locked_views(locked_packages@),
                    forall|a: int| 0 <= a < i ==> (#[trigger] views[a]).0 != views[j as int].0,
                decreases j - i,
            {
                if locked_packages[i].name == locked_packages[j].name {
                    assert(views[i as int].0 == views[j as int].0);
                    return None;
                }
                i += 1;
            }
            j += 1;
        }
        Some(UnityProject { locked_packages, direct_dependencies, root_path })
    }

    /// The working set that the locked packages of the project seed.
    fn seed<'a>(&'a self) -> (r: Vec<PlannedPackage<'a>>)
        ensures
            planned_views(r@) == seed_entries(locked_views(self.locked_packages@)),
    {
        let mut r: Vec<PlannedPackage<'a>> = Vec::new();
        let mut i: usize = 0;
        while i < self.locked_packages.len()
            invariant
                i <= self.locked_packages.len(),
                r@.len() == i,
                forall|k: int|
                    0 <= k < i ==> (#[trigger] r@[k])@ == seed_entries(
                        locked_views(self.locked_packages@),
                    )[k],
            decreases self.locked_packages.len() - i,
        {
            let held = &self.locked_packages[i];
            r.push(PlannedPackage { name: &held.name, version: &held.version, manifest: None });
            i += 1;
        }
        assert(planned_views(r@) =~= seed_entries(locked_views(self.locked_packages@)));
        r
    }

    /// Resolves `requests` against the repositories of `env` and plans the
    /// change to the project. `existing_paths` are the legacy paths that
    /// exist in the project; `include_prerelease` says whether a dependency
    /// may be met by a prerelease.
    ///
    /// The plan holds the packages that the project holds already and, behind
    /// them, the packages that are new to it: each request, looked up, and
    /// every dependency of what was looked up, as far as the project lacks
    /// it. It fails where a package cannot be found, or where a package of
    /// the working set has a version outside a range that is asked of it.
    /// Where the plan would leave the project as it is, there is no plan,
    /// and the error says that nothing is to be done.
    pub fn add_package_request<'a>(
        &'a self,
        env: &'a Environment,
        requests: &'a Vec<PackageRequest>,
        include_prerelease: bool,
        existing_paths: &Vec<String>,
    ) -> (r: Result<AddPackageRequest<'a>, AddPackageErr>)
        ensures
            result_view(r) == resolution(
                env@.packages(),
                self@.locked,
                request_views(requests@),
                include_prerelease,
                string_views(existing_paths@),
            ),
            r matches Ok(plan) ==> consistent(plan@.locked) && closed(plan@.locked),
            r matches Ok(plan) ==> distinct_dependencies(plan@.added_dependencies),
            r matches Ok(plan) ==> requests_met(
                plan@.locked,
                request_views(requests@),
                requests@.len() as int,
            ) && from_packages(env@.packages(), plan@.locked),
            r matches Ok(plan) ==> keeps_locked(
                self@.locked,
                plan@.locked,
                request_views(requests@),
                requests@.len() as int,
            ),
    {
        proof {
            use_type_invariant(self);
        }
        let ghost packages = env@.packages();
        let ghost locked = locked_views(self.locked_packages@);
        let ghost asked = request_views(requests@);
        let ghost existing = string_views(existing_paths@);
        let ghost start = start_state(locked);
        let mut entries = self.seed();
        let mut work: Vec<&'a Dependency> = Vec::new();
        let mut added: Vec<Dependency> = Vec::new();
        proof {
            lemma_start_keeps(locked);
            assert(state_of(entries@, work@, 0, added@).queue =~= start.queue);
            assert(state_of(entries@, work@, 0, added@).added =~= start.added);
        }
        let mut i: usize = 0;
        while i < requests.len()
            invariant
                i <= requests.len(),
                packages == env@.packages(),
                locked == locked_views(self.locked_packages@),
                asked == request_views(requests@),
                existing == string_views(existing_paths@),
                start == start_state(locked),
                state_of(entries@, work@, 0, added@) == after_requests(
                    packages,
                    start,
                    asked,
                    i as int,
                ),
                consistent(planned_views(entries@)),
                all_queued(state_of(entries@, work@, 0, added@)),
            decreases requests.len() - i,
        {
            let request = &requests[i];
            let ghost state = state_of(entries@, work@, 0, added@);
            let ghost next = request_step(packages, state, asked[i as int]);
            proof {
                assert(asked[i as int] == request@);
                lemma_request_step_keeps(packages, state, request@);
                assert(after_requests(packages, start, asked, i + 1) == next);
            }
            let found = find_entry(&entries, &request.name);
            let earlier = match found {
                Some(p) => entries[p].manifest.is_some(),
                None => false,
            };
            proof {
                if let Some(p) = found {
                    lemma_position_unique(planned_views(entries@), request.name@, p as int);
                }
            }
            if earlier {
                let p = found.unwrap();
                if !request.selector.matches(entries[p].version) {
                    let failure = AddPackageErr::VersionConflict {
                        name: request.name.clone(),
                        range: request.selector.to_range(),
                        locked: entries[p].version.clone(),
                    };
                    proof {
                        assert(next.failure == Some(failure@));
                        lemma_failure_stays(packages, start, asked, i + 1, asked.len() as int);
                        assert(resolve_state(packages, locked, asked, include_prerelease, 0)
                            == next);
                        lemma_final_state(packages, locked, asked, include_prerelease, 0);
                    }
                    return Err(failure);
                }
                assert(next == state);
            } else {
                match env.find_package_by_name(&request.name, &request.selector) {
                    None => {
                        let failure = AddPackageErr::PackageNotFound {
                            name: request.name.clone(),
                            selector: request.selector.clone(),
                        };
                        proof {
                            assert(next.failure == Some(failure@));
                            lemma_failure_stays(packages, start, asked, i + 1, asked.len() as int);
                            assert(resolve_state(packages, locked, asked, include_prerelease, 0)
                                == next);
                            lemma_final_state(packages, locked, asked, include_prerelease, 0);
                        }
                        return Err(failure);
                    },
                    Some(manifest) => {
                        let ghost old_entries = planned_views(entries@);
                        let ghost old_added = dependency_views(added@);
                        let entry = PlannedPackage {
                            name: &manifest.name,
                            version: &manifest.version,
                            manifest: Some(manifest),
                        };
                        assert(entry@ == resolved_entry(manifest@));
                        match found {
                            Some(p) => {
                                entries[p] = entry;
                                assert(planned_views(entries@) =~= old_entries.update(
                                    p as int,
                                    resolved_entry(manifest@),
                                ));
                            },
                            None => {
                                entries.push(entry);
                                assert(planned_views(entries@) =~= old_entries.push(
                                    resolved_entry(manifest@),
                                ));
                            },
                        }
                        push_dependencies(&mut work, manifest);
                        added.push(Dependency::new(request.name.clone(), request.selector.to_range()));
                        proof {
                            assert(dependency_views(added@) =~= old_added.push(
                                DependencyView {
                                    name: request@.name,
                                    range: request@.selector.as_range(),
                                },
                            ));
                            assert(state_of(entries@, work@, 0, added@).queue =~= state.queue
                                + manifest@.dependencies);
                            assert(state_of(entries@, work@, 0, added@) == next);
                        }
                    },
                }
            }
            i += 1;
        }
        let ghost seeded = after_requests(packages, start, asked, asked.len() as int);
        let ghost universe = package_names(packages);
        let ghost mut looked_up: Set<Seq<char>> = Set::empty();
        let ghost mut steps: nat = 0;
        proof {
            lemma_package_names(packages);
        }
        let mut head: usize = 0;
        while head < work.len()
            invariant
                head <= work.len(),
                packages == env@.packages(),
                locked == locked_views(self.locked_packages@),
                asked == request_views(requests@),
                existing == string_views(existing_paths@),
                seeded == after_requests(packages, start_state(locked), asked, asked.len() as int),
                state_of(entries@, work@, head as int, added@) == run(
                    packages,
                    include_prerelease,
                    seeded,
                    steps,
                ),
                consistent(planned_views(entries@)),
                covered(state_of(entries@, work@, head as int, added@)),
                universe == package_names(packages),
                universe.finite(),
                looked_up.finite(),
                looked_up.subset_of(universe),
                forall|name: Seq<char>|
                    looked_up.contains(name) ==> has_entry(planned_views(entries@), name),
            decreases universe.len() - looked_up.len(), work.len() - head,
        {
            let dependency: &'a Dependency = work[head];
            let ghost state = state_of(entries@, work@, head as int, added@);
            let ghost next = dependency_step(packages, include_prerelease, state);
            proof {
                assert(state.queue[0] == dependency@);
                lemma_dependency_step_keeps(packages, include_prerelease, state);
                assert(run(packages, include_prerelease, seeded, steps + 1) == next);
                vstd::set_lib::lemma_len_subset(looked_up, universe);
            }
            match find_entry(&entries, &dependency.name) {
                Some(p) => {
                    proof {
                        lemma_position_unique(planned_views(entries@), dependency.name@, p as int);
                    }
                    if !dependency.range.matches(entries[p].version) {
                        let failure = AddPackageErr::VersionConflict {
                            name: dependency.name.clone(),
                            range: dependency.range.clone(),
                            locked: entries[p].version.clone(),
                        };
                        proof {
                            assert(next.failure == Some(failure@));
                            assert(resolve_state(
                                packages,
                                locked,
                                asked,
                                include_prerelease,
                                steps + 1,
                            ) == next);
                            lemma_final_state(
                                packages,
                                locked,
                                asked,
                                include_prerelease,
                                steps + 1,
                            );
                        }
                        return Err(failure);
                    }
                    head += 1;
                    proof {
                        steps = steps + 1;
                        assert(state_of(entries@, work@, head as int, added@).queue =~= next.queue);
                    }
                },
                None => {
                    let selector = VersionSelector::range(
                        dependency.range.clone(),
                        include_prerelease,
                    );
                    assert(selector@ == dependency_selector(dependency@.range, include_prerelease));
                    match env.find_package_by_name(&dependency.name, &selector) {
                        None => {
                            let failure = AddPackageErr::PackageNotFound {
                                name: dependency.name.clone(),
                                selector,
                            };
                            proof {
                                assert(next.failure == Some(failure@));
                                assert(resolve_state(
                                    packages,
                                    locked,
                                    asked,
                                    include_prerelease,
                                    steps + 1,
                                ) == next);
                                lemma_final_state(
                                    packages,
                                    locked,
                                    asked,
                                    include_prerelease,
                                    steps + 1,
                                );
                            }
                            return Err(failure);
                        },
                        Some(manifest) => {
                            let ghost old_entries = planned_views(entries@);
                            let ghost k = find_index(packages, dependency@.name, selector@)->Some_0;
                            proof {
                                assert(finds(packages, dependency@.name, selector@, k));
                                assert(is_candidate(packages, dependency@.name, selector@, k));
                                lemma_package_names(packages);
                                assert(universe.contains(packages[k].name));
                                assert(!looked_up.contains(dependency@.name));
                            }
                            entries.push(
                                PlannedPackage {
                                    name: &manifest.name,
                                    version: &manifest.version,
                                    manifest: Some(manifest),
                                },
                            );
                            push_dependencies(&mut work, manifest);
                            head += 1;
                            proof {
                                steps = steps + 1;
                                assert(planned_views(entries@) =~= old_entries.push(
                                    resolved_entry(manifest@),
                                ));
                                assert(state_of(entries@, work@, head as int, added@).queue
                                    =~= next.queue);
                                let grown = looked_up.insert(dependency@.name);
                                vstd::set_lib::lemma_len_subset(grown, universe);
                                assert forall|name: Seq<char>| grown.contains(name) implies has_entry(
                                    planned_views(entries@),
                                    name,
                                ) by {
                                    if name == dependency@.name {
                                        assert(planned_views(entries@)[old_entries.len() as int].name
                                            == name);
                                    } else {
                                        let w = choose|w: int|
                                            0 <= w < old_entries.len() && (
                                            #[trigger] old_entries[w]).name == name;
                                        assert(planned_views(entries@)[w].name == name);
                                    }
                                }
                                looked_up = grown;
                            }
                        },
                    }
                },
            }
        }
        let ghost state = state_of(entries@, work@, head as int, added@);
        proof {
            assert(state == resolve_state(packages, locked, asked, include_prerelease, steps));
            assert(state.queue.len() == 0);
            lemma_covered_closed(state);
            lemma_final_state(packages, locked, asked, include_prerelease, steps);
            lemma_resolution_added(packages, locked, asked, include_prerelease, steps);
            lemma_resolution_met(packages, locked, asked, include_prerelease, steps);
            lemma_run_keeps_locked(packages, locked, asked, include_prerelease, steps);
        }
        let folder_candidates = collect_legacy(&entries, &self.locked_packages, true);
        let legacy_folders = select_paths(&folder_candidates, &entries, existing_paths);
        let file_candidates = collect_legacy(&entries, &self.locked_packages, false);
        let legacy_files = select_paths(&file_candidates, &entries, existing_paths);
        if is_unchanged(&entries, &self.locked_packages) && legacy_folders.len() == 0
            && legacy_files.len() == 0 {
            return Err(AddPackageErr::NoChangesNeeded);
        }
        Ok(AddPackageRequest { locked: entries, added_dependencies: added, legacy_folders, legacy_files })
    }
}

/// The new packages among the first `n` of `entries`, in order.
pub open spec fn new_entries(
    entries: Seq<EntryView>,
    locked: Seq<(Seq<char>, VersionView)>,
    n: int,
) -> Seq<EntryView>
    decreases n,
{
    if n <= 0 {
        Seq::empty()
    } else if is_new(locked, entries[n - 1]) {
        new_entries(entries, locked, n - 1).push(entries[n - 1])
    } else {
        new_entries(entries, locked, n - 1)
    }
}

/// The views of a list of planned packages that are held by reference, in
/// order.
pub open spec fn planned_ref_views(entries: Seq<&PlannedPackage>) -> Seq<EntryView> {
    Seq::new(entries.len(), |i: int| entries[i]@)
}

impl<'a> AddPackageRequest<'a> {
    /// The packages that the project is to hold.
    pub fn locked(&self) -> (r: &Vec<PlannedPackage<'a>>)
        ensures
            planned_views(r@) == self@.locked,
    {
        &self.locked
    }

    /// The packages of the plan that are new to `project`, in order: those
    /// that are to be fetched and unpacked.
    pub fn new_packages<'b>(&'b self, project: &UnityProject) -> (r: Vec<&'b PlannedPackage<'a>>)
        ensures
            planned_ref_views(r@) == new_entries(
                self@.locked,
                project@.locked,
                self@.locked.len() as int,
            ),
    {
        let ghost entries = self@.locked;
        let ghost locked = project@.locked;
        let mut r: Vec<&'b PlannedPackage<'a>> = Vec::new();
        assert(planned_ref_views(r@) =~= Seq::empty());
        let mut i: usize = 0;
        while i < self.locked.len()
            invariant
                i <= self.locked.len(),
                entries == self@.locked,
                locked == project@.locked,
                planned_ref_views(r@) == new_entries(entries, locked, i as int),
            decreases self.locked.len() - i,
        {
            let entry = &self.locked[i];
            assert(entries[i as int] == entry@);
            if entry.manifest.is_some() && !is_locked(
                &project.locked_packages,
                entry.name,
                entry.version,
            ) {
                let ghost before = planned_ref_views(r@);
                r.push(entry);
                assert(planned_ref_views(r@) =~= before.push(entry@));
            }
            i += 1;
        }
        r
    }

    /// The requests that were looked up, each as a dependency of the
    /// project.
    pub fn dependencies(&self) -> (r: &Vec<Dependency>)
        ensures
            dependency_views(r@) == self@.added_dependencies,
    {
        &self.added_dependencies
    }

    /// The folders that are to be removed.
    pub fn legacy_folders(&self) -> (r: &Vec<String>)
        ensures
            string_views(r@) == self@.legacy_folders,
    {
        &self.legacy_folders
    }

    /// The files that are to be removed.
    pub fn legacy_files(&self) -> (r: &Vec<String>)
        ensures
            string_views(r@) == self@.legacy_files,
    {
        &self.legacy_files
    }
}

} // verus!
