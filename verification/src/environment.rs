//! The environment: the configured repository sources, the repositories
//! that are loaded from them, and the lookup of packages across all of them.
//!
//! A package is looked up in all loaded repositories at once. Of the
//! versions that a selector names the greatest is chosen. Where several
//! repositories publish that version, the repository that is searched first
//! wins: repositories are searched in the order in which they were first
//! loaded, and the manifests of one repository in the order of its index.

use crate::headers::Headers;
use crate::http::{Client, Url};
use crate::manifest::{ManifestView, PackageManifest};
use crate::order::Precedence;
use crate::range::{SelectorView, VersionSelector};
use crate::repo_holder::{
    first_failure, loaded_views, with_repositories, with_repository, LoadError, LoadedSource,
    RepoHolder,
};
use crate::repository::{
    LocalCachedRepository, RepoSource, RepositoryView, SourceView, UserDefinedSource,
};
use vstd::prelude::*;

verus! {

/// The manifests of the first `n` of `repositories`, in the order in which
/// they are searched.
pub open spec fn packages_upto(repositories: Seq<(Seq<char>, RepositoryView)>, n: int) -> Seq<
    ManifestView,
>
    decreases n,
{
    if n <= 0 {
        Seq::empty()
    } else {
        packages_upto(repositories, n - 1) + repositories[n - 1].1.packages
    }
}

/// All manifests of `repositories`, in the order in which they are
/// searched.
pub open spec fn all_packages(repositories: Seq<(Seq<char>, RepositoryView)>) -> Seq<ManifestView> {
    packages_upto(repositories, repositories.len() as int)
}

/// Whether the manifest at position `k` of `packages` is a version of the
/// package `name` that `selector` names.
pub open spec fn is_candidate(
    packages: Seq<ManifestView>,
    name: Seq<char>,
    selector: SelectorView,
    k: int,
) -> bool {
    0 <= k < packages.len() && packages[k].name == name && selector.matches(packages[k].version)
}

/// Whether the manifest at position `k` of `packages` is the one to find
/// for `name` and `selector`: a candidate that no other candidate's version
/// sorts after, and the first of those with its version.
pub open spec fn finds(
    packages: Seq<ManifestView>,
    name: Seq<char>,
    selector: SelectorView,
    k: int,
) -> bool {
    &&& is_candidate(packages, name, selector, k)
    &&& forall|j: int| #[trigger]
        is_candidate(packages, name, selector, j) ==> !packages[k].version.before(
            packages[j].version,
        )
    &&& forall|j: int|
        0 <= j < k && #[trigger] is_candidate(packages, name, selector, j)
            ==> packages[j].version.before(packages[k].version)
}

/// The position in `packages` of the manifest to find for `name` and
/// `selector`, if there is one.
pub open spec fn find_index(packages: Seq<ManifestView>, name: Seq<char>, selector: SelectorView) -> Option<
    int,
> {
    if exists|k: int| finds(packages, name, selector, k) {
        Some(choose|k: int| finds(packages, name, selector, k))
    } else {
        None
    }
}

/// At most one manifest is the one to find.
pub proof fn lemma_finds_unique(
    packages: Seq<ManifestView>,
    name: Seq<char>,
    selector: SelectorView,
    a: int,
    b: int,
)
    requires
        finds(packages, name, selector, a),
        finds(packages, name, selector, b),
    ensures
        a == b,
{
    if a < b {
        assert(is_candidate(packages, name, selector, a));
        assert(packages[a].version.before(packages[b].version));
        assert(is_candidate(packages, name, selector, b));
    } else if b < a {
        assert(is_candidate(packages, name, selector, b));
        assert(packages[b].version.before(packages[a].version));
        assert(is_candidate(packages, name, selector, a));
    }
}

/// Where there is a candidate, there is a manifest to find.
pub proof fn lemma_finds_exists(
    packages: Seq<ManifestView>,
    name: Seq<char>,
    selector: SelectorView,
    n: int,
) -> (k: int)
    requires
        0 <= n <= packages.len(),
        exists|j: int| 0 <= j < n && is_candidate(packages, name, selector, j),
    ensures
        0 <= k < n,
        is_candidate(packages, name, selector, k),
        forall|j: int|
            0 <= j < n && #[trigger] is_candidate(packages, name, selector, j)
                ==> !packages[k].version.before(packages[j].version),
        forall|j: int|
            0 <= j < k && #[trigger] is_candidate(packages, name, selector, j)
                ==> packages[j].version.before(packages[k].version),
    decreases n,
{
    let last = n - 1;
    if exists|j: int| 0 <= j < last && is_candidate(packages, name, selector, j) {
        let best = lemma_finds_exists(packages, name, selector, last);
        if is_candidate(packages, name, selector, last) && packages[best].version.before(
            packages[last].version,
        ) {
            assert forall|j: int|
                0 <= j < n && #[trigger] is_candidate(
                    packages,
                    name,
                    selector,
                    j,
                ) implies !packages[last].version.before(packages[j].version) by {
                crate::version::VersionView::lemma_irreflexive(packages[last].version);
                if j < last && packages[last].version.before(packages[j].version) {
                    crate::version::VersionView::lemma_transitive(
                        packages[best].version,
                        packages[last].version,
                        packages[j].version,
                    );
                }
            }
            assert forall|j: int|
                0 <= j < last && #[trigger] is_candidate(
                    packages,
                    name,
                    selector,
                    j,
                ) implies packages[j].version.before(packages[last].version) by {
                crate::version::VersionView::lemma_total(
                    packages[j].version,
                    packages[best].version,
                );
                if packages[j].version.before(packages[best].version) {
                    crate::version::VersionView::lemma_transitive(
                        packages[j].version,
                        packages[best].version,
                        packages[last].version,
                    );
                }
            }
            last
        } else {
            best
        }
    } else {
        crate::version::VersionView::lemma_irreflexive(packages[last].version);
        last
    }
}

/// There is a manifest to find exactly where there is a candidate: a
/// lookup comes back empty only where the selector names no version of the
/// package in any repository.
pub proof fn lemma_find_index(packages: Seq<ManifestView>, name: Seq<char>, selector: SelectorView)
    ensures
        find_index(packages, name, selector) is Some <==> exists|k: int|
            is_candidate(packages, name, selector, k),
        find_index(packages, name, selector) matches Some(k) ==> finds(packages, name, selector, k),
{
    if exists|k: int| is_candidate(packages, name, selector, k) {
        let best = lemma_finds_exists(packages, name, selector, packages.len() as int);
        assert(finds(packages, name, selector, best));
    }
    if let Some(k) = find_index(packages, name, selector) {
        assert(finds(packages, name, selector, k));
        assert(is_candidate(packages, name, selector, k));
    }
}

/// What the environment is made from: the well-known repositories, the
/// repositories that the user has added, and those added in this session
/// that are not saved yet.
#[derive(Debug)]
pub struct Environment {
    /// The well-known repositories.
    pub predefined_sources: Vec<RepoSource>,
    /// The sources of the saved configuration.
    pub repository_sources: Vec<RepoSource>,
    /// The sources added in this session, not saved yet.
    pub pending_repository_sources: Vec<RepoSource>,
    /// The loaded repositories, with the network-fetch capability.
    pub repo_holder: RepoHolder,
}

/// The views of a list of sources, in order.
pub open spec fn source_views(sources: Seq<RepoSource>) -> Seq<SourceView> {
    Seq::new(sources.len(), |i: int| sources[i]@)
}

/// Whether one of `sources` has its origin at `url`.
pub open spec fn has_url(sources: Seq<SourceView>, url: Seq<char>) -> bool {
    exists|i: int| 0 <= i < sources.len() && (#[trigger] sources[i]).remote_url == Some(url)
}

/// What an [`Environment`] stands for.
pub struct EnvironmentView {
    pub predefined: Seq<SourceView>,
    pub saved: Seq<SourceView>,
    pub pending: Seq<SourceView>,
    pub repositories: Seq<(Seq<char>, RepositoryView)>,
}

impl EnvironmentView {
    /// Whether a source of the environment, saved or not, has its origin at
    /// `url`.
    pub open spec fn knows_url(self, url: Seq<char>) -> bool {
        has_url(self.predefined, url) || has_url(self.saved, url) || has_url(self.pending, url)
    }

    /// All manifests of the loaded repositories, in the order in which they
    /// are searched.
    pub open spec fn packages(self) -> Seq<ManifestView> {
        all_packages(self.repositories)
    }

    /// The environment after the repository at `url` was added for this
    /// session, with `repository` as its content: nothing changes where a
    /// source with that origin is known already.
    pub open spec fn with_pending(
        self,
        url: Seq<char>,
        headers: Seq<(Seq<char>, Seq<char>)>,
        cache_path: Seq<char>,
        repository: RepositoryView,
    ) -> EnvironmentView {
        if self.knows_url(url) {
            self
        } else {
            EnvironmentView {
                pending: self.pending.push(
                    SourceView { cache_path, remote_url: Some(url), headers, id: None },
                ),
                repositories: with_repository(self.repositories, cache_path, repository),
                ..self
            }
        }
    }

    /// The environment after the sources of this session were saved: they
    /// follow the saved ones, in the order in which they were added.
    pub open spec fn with_pending_saved(self) -> EnvironmentView {
        EnvironmentView { saved: self.saved + self.pending, pending: Seq::empty(), ..self }
    }
}

/// Adding a repository a second time changes nothing: the environment holds
/// one source for its URL, not two.
pub proof fn lemma_add_pending_idempotent(
    env: EnvironmentView,
    url: Seq<char>,
    headers: Seq<(Seq<char>, Seq<char>)>,
    cache_path: Seq<char>,
    repository: RepositoryView,
    headers2: Seq<(Seq<char>, Seq<char>)>,
    cache_path2: Seq<char>,
    repository2: RepositoryView,
)
    ensures
        env.with_pending(url, headers, cache_path, repository).knows_url(url),
        env.with_pending(url, headers, cache_path, repository).with_pending(
            url,
            headers2,
            cache_path2,
            repository2,
        ) == env.with_pending(url, headers, cache_path, repository),
{
    let once = env.with_pending(url, headers, cache_path, repository);
    if !env.knows_url(url) {
        assert(once.pending[env.pending.len() as int].remote_url == Some(url));
        assert(has_url(once.pending, url));
    }
}

impl View for Environment {
    type V = EnvironmentView;

    open spec fn view(&self) -> EnvironmentView {
        EnvironmentView {
            predefined: source_views(self.predefined_sources@),
            saved: source_views(self.repository_sources@),
            pending: source_views(self.pending_repository_sources@),
            repositories: self.repo_holder@,
        }
    }
}

/// Whether one of `sources` has its origin at `url`.
fn sources_have_url(sources: &Vec<RepoSource>, url: &Url) -> (r: bool)
    ensures
        r == has_url(source_views(sources@), url@),
{
    let mut i: usize = 0;
    while i < sources.len()
        invariant
            i <= sources.len(),
            forall|k: int|
                0 <= k < i ==> (#[trigger] source_views(sources@)[k]).remote_url != Some(url@),
        decreases sources.len() - i,
    {
        if let Some(known) = sources[i].remote_url() {
            if known.equals(url) {
                assert(source_views(sources@)[i as int].remote_url == Some(url@));
                return true;
            }
        }
        i += 1;
    }
    false
}

impl Environment {
    /// The environment of the given sources, with nothing loaded and nothing
    /// pending.
    pub fn new(
        http: Option<Client>,
        predefined_sources: Vec<RepoSource>,
        repository_sources: Vec<RepoSource>,
    ) -> (r: Environment)
        ensures
            r@ == (EnvironmentView {
                predefined: source_views(predefined_sources@),
                saved: source_views(repository_sources@),
                pending: Seq::empty(),
                repositories: Seq::empty(),
            }),
            r.repo_holder.client() == http,
    {
        let r = Environment {
            predefined_sources,
            repository_sources,
            pending_repository_sources: Vec::new(),
            repo_holder: RepoHolder::new(http),
        };
        assert(r@.pending =~= Seq::empty());
        r
    }

    /// The sources whose repositories are to be loaded: the well-known ones,
    /// then the saved ones.
    pub fn sources(&self) -> (r: Vec<&RepoSource>)
        ensures
            r@.len() == self@.predefined.len() + self@.saved.len(),
            forall|i: int|
                0 <= i < self@.predefined.len() ==> *(#[trigger] r@[i])
                    == self.predefined_sources@[i],
            forall|i: int|
                0 <= i < self@.saved.len() ==> *(#[trigger] r@[self@.predefined.len() + i])
                    == self.repository_sources@[i],
    {
        let mut r: Vec<&RepoSource> = Vec::new();
        let mut i: usize = 0;
        while i < self.predefined_sources.len()
            invariant
                i <= self.predefined_sources.len(),
                r@.len() == i,
                forall|k: int| 0 <= k < i ==> *(#[trigger] r@[k]) == self.predefined_sources@[k],
            decreases self.predefined_sources.len() - i,
        {
            r.push(&self.predefined_sources[i]);
            i += 1;
        }
        let n = self.predefined_sources.len();
        let mut j: usize = 0;
        while j < self.repository_sources.len()
            invariant
                j <= self.repository_sources.len(),
                n == self.predefined_sources.len(),
                r@.len() == n + j,
                forall|k: int| 0 <= k < n ==> *(#[trigger] r@[k]) == self.predefined_sources@[k],
                forall|k: int|
                    0 <= k < j ==> *(#[trigger] r@[n + k]) == self.repository_sources@[k],
            decreases self.repository_sources.len() - j,
        {
            r.push(&self.repository_sources[j]);
            j += 1;
        }
        r
    }

    /// Takes in the outcomes of loading the sources of the environment: all
    /// of the repositories, or none and the first failure.
    pub fn load_package_infos(&mut self, loaded: Vec<LoadedSource>) -> (r: Result<(), LoadError>)
        ensures
            final(self)@.predefined == old(self)@.predefined,
            final(self)@.saved == old(self)@.saved,
            final(self)@.pending == old(self)@.pending,
            match r {
                Ok(()) => {
                    &&& forall|i: int| 0 <= i < loaded@.len() ==> (#[trigger] loaded@[i]).result is Ok
                    &&& final(self)@.repositories == with_repositories(
                        old(self)@.repositories,
                        loaded_views(loaded@),
                        loaded@.len() as int,
                    )
                },
                Err(e) => {
                    &&& final(self)@ == old(self)@
                    &&& exists|i: int|
                        first_failure(loaded@, i) && e@ == (#[trigger] loaded@[i]).result->Err_0@
                },
            },
    {
        self.repo_holder.load_repos(loaded)
    }

    /// Whether a source of the environment, saved or not, has its origin at
    /// `url`.
    pub fn knows_url(&self, url: &Url) -> (r: bool)
        ensures
            r == self@.knows_url(url@),
    {
        sources_have_url(&self.predefined_sources, url) || sources_have_url(
            &self.repository_sources,
            url,
        ) || sources_have_url(&self.pending_repository_sources, url)
    }

    /// Adds the repository at `url` for this session. `loaded` is what
    /// loading it gave. Where a source with that origin is known already,
    /// nothing changes and the answer is `false`. Where the load failed,
    /// nothing changes and its error is handed on. Else the source is noted
    /// as pending and its repository takes part in lookups from now on.
    pub fn add_pending_repository(
        &mut self,
        url: Url,
        headers: Headers,
        cache_path: String,
        loaded: Result<LocalCachedRepository, LoadError>,
    ) -> (r: Result<bool, LoadError>)
        ensures
            match r {
                Ok(added) => {
                    &&& added == !old(self)@.knows_url(url@)
                    &&& added ==> loaded is Ok
                    &&& final(self)@ == if added {
                        old(self)@.with_pending(url@, headers@, cache_path@, loaded->Ok_0@)
                    } else {
                        old(self)@
                    }
                },
                Err(e) => {
                    &&& !old(self)@.knows_url(url@)
                    &&& loaded matches Err(failure) && failure@ == e@
                    &&& final(self)@ == old(self)@
                },
            },
    {
        if self.knows_url(&url) {
            return Ok(false);
        }
        match loaded {
            Err(e) => Err(e),
            Ok(repository) => {
                let ghost before = self@;
                let path = cache_path.clone();
                self.pending_repository_sources.push(
                    RepoSource::UserDefined(
                        UserDefinedSource { remote_url: Some(url), headers, cache_path },
                    ),
                );
                self.repo_holder.insert(path, repository);
                assert(self@.pending =~= before.pending.push(
                    SourceView {
                        cache_path: cache_path@,
                        remote_url: Some(url@),
                        headers: headers@,
                        id: None,
                    },
                ));
                Ok(true)
            },
        }
    }

    /// The sources added in this session that are not saved yet.
    pub fn pending_repositories(&self) -> (r: &Vec<RepoSource>)
        ensures
            source_views(r@) == self@.pending,
    {
        &self.pending_repository_sources
    }

    /// Moves the sources of this session to the saved ones, behind those
    /// that are there, and hands back how many were moved. None is lost:
    /// each is saved or still pending.
    pub fn save_pending_repositories(&mut self) -> (moved: usize)
        ensures
            final(self)@ == old(self)@.with_pending_saved(),
            moved == old(self)@.pending.len(),
    {
        let ghost before = self@;
        let moved = self.pending_repository_sources.len();
        self.repository_sources.append(&mut self.pending_repository_sources);
        assert(self@.saved =~= before.saved + before.pending);
        assert(self@.pending =~= Seq::empty());
        moved
    }

    /// The manifest of the package `name` that `selector` picks among all
    /// loaded repositories: of the versions that the selector names the
    /// greatest, and of several manifests with that version the one that is
    /// searched first. `None` where the selector names no version of the
    /// package in any repository.
    pub fn find_package_by_name(&self, name: &String, selector: &VersionSelector) -> (r: Option<
        &PackageManifest,
    >)
        ensures
            match r {
                Some(m) => find_index(self@.packages(), name@, selector@) matches Some(k) && m@
                    == self@.packages()[k],
                None => find_index(self@.packages(), name@, selector@) is None,
            },
            r is Some <==> exists|k: int| is_candidate(self@.packages(), name@, selector@, k),
    {
        let ghost repos = self@.repositories;
        let ghost total = all_packages(repos);
        let mut best: Option<&PackageManifest> = None;
        let ghost mut best_k: int = 0;
        let mut i: usize = 0;
        while i < self.repo_holder.cached_repos_new.len()
            invariant
                i <= self.repo_holder.cached_repos_new.len(),
                repos == self@.repositories,
                total == all_packages(repos),
                packages_upto(repos, i as int).len() <= total.len(),
                forall|k: int|
                    0 <= k < packages_upto(repos, i as int).len() ==> packages_upto(
                        repos,
                        i as int,
                    )[k] == total[k],
                search_state(total, name@, selector@, packages_upto(repos, i as int).len() as int, best, best_k),
            decreases self.repo_holder.cached_repos_new.len() - i,
        {
            let repository = &self.repo_holder.cached_repos_new[i].repository;
            let ghost base = packages_upto(repos, i as int).len() as int;
            proof {
                lemma_packages_prefix(repos, i as int + 1);
                assert(repos[i as int].1.packages == repository@.packages);
                assert(packages_upto(repos, i as int + 1) == packages_upto(repos, i as int)
                    + repository@.packages);
            }
            let mut j: usize = 0;
            while j < repository.packages.len()
                invariant
                    j <= repository.packages.len(),
                    0 <= base,
                    base + repository.packages.len() <= total.len(),
                    forall|k: int|
                        0 <= k < repository.packages.len() ==> (
                        #[trigger] repository.packages@[k])@ == total[base + k],
                    search_state(total, name@, selector@, base + j, best, best_k),
                decreases repository.packages.len() - j,
            {
                let candidate = &repository.packages[j];
                let ghost k = base + j;
                assert(candidate@ == total[k]);
                if candidate.name == *name && selector.matches(&candidate.version) {
                    let better = match best {
                        None => true,
                        Some(b) => b.version.precedes(&candidate.version),
                    };
                    if better {
                        proof {
                            lemma_new_best(total, name@, selector@, k, best is Some, best_k);
                        }
                        best = Some(candidate);
                        proof {
                            best_k = k;
                        }
                    }
                }
                j += 1;
            }
            i += 1;
        }
        proof {
            assert(packages_upto(repos, i as int) == total);
            match best {
                Some(m) => {
                    assert(finds(total, name@, selector@, best_k));
                    let k = choose|k: int| finds(total, name@, selector@, k);
                    lemma_finds_unique(total, name@, selector@, k, best_k);
                    assert(is_candidate(total, name@, selector@, best_k));
                },
                None => {
                    assert forall|k: int| !finds(total, name@, selector@, k) by {
                        if finds(total, name@, selector@, k) {
                            assert(is_candidate(total, name@, selector@, k));
                        }
                    }
                },
            }
        }
        best
    }
}

/// What a search that has looked at the first `n` of `packages` knows: the
/// best candidate among them, at position `best_k`, or that there is none.
pub open spec fn search_state(
    packages: Seq<ManifestView>,
    name: Seq<char>,
    selector: SelectorView,
    n: int,
    best: Option<&PackageManifest>,
    best_k: int,
) -> bool {
    match best {
        Some(m) => {
            &&& 0 <= best_k < n
            &&& m@ == packages[best_k]
            &&& is_candidate(packages, name, selector, best_k)
            &&& forall|j: int|
                0 <= j < n && #[trigger] is_candidate(packages, name, selector, j)
                    ==> !packages[best_k].version.before(packages[j].version)
            &&& forall|j: int|
                0 <= j < best_k && #[trigger] is_candidate(packages, name, selector, j)
                    ==> packages[j].version.before(packages[best_k].version)
        },
        None => forall|j: int| 0 <= j < n ==> !#[trigger] is_candidate(packages, name, selector, j),
    }
}

/// The manifests of the first `n` repositories start the manifests of all,
/// and end with those of the last of them.
pub proof fn lemma_packages_prefix(repositories: Seq<(Seq<char>, RepositoryView)>, n: int)
    requires
        0 <= n <= repositories.len(),
    ensures
        packages_upto(repositories, n).len() <= all_packages(repositories).len(),
        forall|k: int|
            0 <= k < packages_upto(repositories, n).len() ==> packages_upto(repositories, n)[k]
                == all_packages(repositories)[k],
    decreases repositories.len() - n,
{
    if n < repositories.len() {
        lemma_packages_prefix(repositories, n + 1);
    }
}

/// A candidate at position `k` that the best candidate before it sorts
/// before is the best of the first `k + 1`.
proof fn lemma_new_best(
    packages: Seq<ManifestView>,
    name: Seq<char>,
    selector: SelectorView,
    k: int,
    had_best: bool,
    best_k: int,
)
    requires
        is_candidate(packages, name, selector, k),
        had_best ==> {
            &&& 0 <= best_k < k
            &&& is_candidate(packages, name, selector, best_k)
            &&& packages[best_k].version.before(packages[k].version)
            &&& forall|j: int|
                0 <= j < k && #[trigger] is_candidate(packages, name, selector, j)
                    ==> !packages[best_k].version.before(packages[j].version)
        },
        !had_best ==> forall|j: int|
            0 <= j < k ==> !#[trigger] is_candidate(packages, name, selector, j),
    ensures
        forall|j: int|
            0 <= j < k + 1 && #[trigger] is_candidate(packages, name, selector, j)
                ==> !packages[k].version.before(packages[j].version),
        forall|j: int|
            0 <= j < k && #[trigger] is_candidate(packages, name, selector, j)
                ==> packages[j].version.before(packages[k].version),
{
    let new_best = packages[k].version;
    crate::version::VersionView::lemma_irreflexive(new_best);
    if had_best {
        let old_best = packages[best_k].version;
        assert forall|j: int|
            0 <= j < k + 1 && #[trigger] is_candidate(
                packages,
                name,
                selector,
                j,
            ) implies !new_best.before(packages[j].version) by {
            if j < k && new_best.before(packages[j].version) {
                crate::version::VersionView::lemma_transitive(
                    old_best,
                    new_best,
                    packages[j].version,
                );
            }
        }
        assert forall|j: int|
            0 <= j < k && #[trigger] is_candidate(
                packages,
                name,
                selector,
                j,
            ) implies packages[j].version.before(new_best) by {
            crate::version::VersionView::lemma_total(packages[j].version, old_best);
            if packages[j].version.before(old_best) {
                crate::version::VersionView::lemma_transitive(
                    packages[j].version,
                    old_best,
                    new_best,
                );
            }
        }
    }
}

} // verus!
