//! The repositories that are loaded, each under the path of its cache, and
//! the decisions of loading one: what to do once the cache file was read,
//! and what to make of the origin's answer.

use crate::headers::Headers;
use crate::http::{
    first_named, is_error_status, Client, Error, ErrorView, Request, RequestParts, RequestView,
    Response, Url,
};
use crate::manifest::PackageManifest;
use crate::repository::{
    manifest_views, text_view, unique_versions, LocalCachedRepository, RemoteUpdate, RepoSource,
    RepositoryView,
};
use vstd::prelude::*;

verus! {

/// Why a repository could not be loaded.
#[derive(Debug)]
pub enum LoadError {
    /// There is no cache of the repository and no network to fetch it with.
    NetworkUnavailable,
    /// The cache file is there and is no index.
    InvalidCacheData,
    /// There is no cache of a repository that has no origin.
    CacheMissing,
    /// What the origin sent is no index.
    InvalidRemoteData,
    /// The request to the origin failed.
    Transport(Error),
}

/// What a [`LoadError`] stands for.
pub enum LoadErrorView {
    NetworkUnavailable,
    InvalidCacheData,
    CacheMissing,
    InvalidRemoteData,
    Transport(ErrorView),
}

impl View for LoadError {
    type V = LoadErrorView;

    open spec fn view(&self) -> LoadErrorView {
        match self {
            LoadError::NetworkUnavailable => LoadErrorView::NetworkUnavailable,
            LoadError::InvalidCacheData => LoadErrorView::InvalidCacheData,
            LoadError::CacheMissing => LoadErrorView::CacheMissing,
            LoadError::InvalidRemoteData => LoadErrorView::InvalidRemoteData,
            LoadError::Transport(e) => LoadErrorView::Transport(e@),
        }
    }
}

/// What reading the cache file of a repository gave.
#[derive(Debug)]
pub enum CacheRead {
    /// There is no such file.
    Missing,
    /// The file is there and is no index.
    Invalid,
    /// The index that the file holds.
    Loaded(LocalCachedRepository),
}

/// A request to the origin that is to be made, and what the load falls back
/// on.
#[derive(Debug)]
pub struct PendingFetch {
    /// What to ask the origin.
    pub request: RequestParts,
    /// The repository as the cache file has it, if it has it.
    pub cached: Option<LocalCachedRepository>,
    /// The headers to keep with a repository that is fetched for the first
    /// time.
    pub origin_headers: Headers,
}

/// What is to happen next in the load of one repository.
#[derive(Debug)]
pub enum LoadStep {
    /// The load is over, and this is the repository.
    Done(LocalCachedRepository),
    /// The origin is to be asked.
    Fetch(PendingFetch),
    /// The load has failed.
    Failed(LoadError),
}

/// A repository that was loaded, and whether its cache file is to be
/// written anew.
#[derive(Debug)]
pub struct Loaded {
    pub repository: LocalCachedRepository,
    pub persist: bool,
}

/// The view of an optional repository.
pub open spec fn repository_view(repository: Option<LocalCachedRepository>) -> Option<
    RepositoryView,
> {
    match repository {
        Some(r) => Some(r@),
        None => None,
    }
}

/// The headers of the request that asks an origin for its index: the token
/// of the cached index as a condition, where there is one, then the headers
/// of the origin.
pub open spec fn refresh_headers(etag: Option<Seq<char>>, origin: Seq<(Seq<char>, Seq<char>)>) -> Seq<
    (Seq<char>, Seq<char>),
> {
    match etag {
        Some(token) => seq![("If-None-Match"@, token)] + origin,
        None => origin,
    }
}

/// The request that asks the origin at `url` for its index.
pub fn refresh_request(client: &Client, url: &Url, headers: &Headers, etag: &Option<String>) -> (r:
    Request)
    ensures
        r@ == if url.wf() {
            Ok::<RequestView, ErrorView>(
                RequestView { url: url@, headers: refresh_headers(text_view(*etag), headers@) },
            )
        } else {
            Err::<RequestView, ErrorView>(ErrorView::ParseUrlError)
        },
{
    let mut request = client.get(url.as_str());
    if let Some(token) = etag {
        request = request.header("If-None-Match", token.as_str());
    }
    let ghost start: Seq<(Seq<char>, Seq<char>)> = match text_view(*etag) {
        Some(token) => seq![("If-None-Match"@, token)],
        None => Seq::empty(),
    };
    assert(url.wf() ==> request@ == Ok::<RequestView, ErrorView>(
        RequestView { url: url@, headers: start },
    )) by {
        if url.wf() {
            assert(Seq::<(Seq<char>, Seq<char>)>::empty().push(("If-None-Match"@, start[0].1))
                =~= seq![("If-None-Match"@, start[0].1)]);
        }
    }
    let n = headers.len();
    let mut i: usize = 0;
    while i < n
        invariant
            i <= n,
            n == headers@.len(),
            request@ == if url.wf() {
                Ok::<RequestView, ErrorView>(
                    RequestView { url: url@, headers: start + headers@.subrange(0, i as int) },
                )
            } else {
                Err::<RequestView, ErrorView>(ErrorView::ParseUrlError)
            },
        decreases n - i,
    {
        if let Some((name, value)) = headers.get_index(i) {
            request = request.header(name.as_str(), value.as_str());
            assert((start + headers@.subrange(0, i as int)).push((name@, value@)) =~= start
                + headers@.subrange(0, i + 1));
        }
        i += 1;
    }
    assert(headers@.subrange(0, n as int) =~= headers@);
    assert(start + headers@ =~= refresh_headers(text_view(*etag), headers@));
    request
}

/// What the load of a repository does once its cache file was read.
pub open spec fn load_step(
    online: bool,
    remote_url: Option<Seq<char>>,
    source_headers: Seq<(Seq<char>, Seq<char>)>,
    cache: CacheRead,
) -> LoadStepView {
    match cache {
        CacheRead::Invalid => LoadStepView::Failed(LoadErrorView::InvalidCacheData),
        CacheRead::Loaded(repository) => match remote_url {
            Some(url) if online && crate::http::is_http_url(url) => LoadStepView::Fetch(
                RequestView {
                    url,
                    headers: refresh_headers(repository@.etag, repository@.origin_headers),
                },
                Some(repository@),
                repository@.origin_headers,
            ),
            _ => LoadStepView::Done(repository@),
        },
        CacheRead::Missing => match remote_url {
            None => LoadStepView::Failed(LoadErrorView::CacheMissing),
            Some(url) => if !online {
                LoadStepView::Failed(LoadErrorView::NetworkUnavailable)
            } else if !crate::http::is_http_url(url) {
                LoadStepView::Failed(LoadErrorView::Transport(ErrorView::ParseUrlError))
            } else {
                LoadStepView::Fetch(
                    RequestView { url, headers: source_headers },
                    None,
                    source_headers,
                )
            },
        },
    }
}

/// What a [`LoadStep`] stands for.
pub enum LoadStepView {
    Done(RepositoryView),
    Fetch(RequestView, Option<RepositoryView>, Seq<(Seq<char>, Seq<char>)>),
    Failed(LoadErrorView),
}

impl View for LoadStep {
    type V = LoadStepView;

    open spec fn view(&self) -> LoadStepView {
        match self {
            LoadStep::Done(repository) => LoadStepView::Done(repository@),
            LoadStep::Fetch(pending) => LoadStepView::Fetch(
                pending.request@,
                repository_view(pending.cached),
                pending.origin_headers@,
            ),
            LoadStep::Failed(e) => LoadStepView::Failed(e@),
        }
    }
}


/// The token that a response names for its body: the value of its first
/// `Etag` header, letter case ignored.
pub open spec fn response_etag(headers: Seq<(Seq<char>, Seq<char>)>) -> Option<Seq<char>> {
    if exists|i: int| first_named(headers, "Etag"@, i) {
        Some(headers[choose|i: int| first_named(headers, "Etag"@, i)].1)
    } else {
        None
    }
}

/// What a fetch that the origin answered, or failed to answer, makes of the
/// load.
pub open spec fn fetch_outcome(
    cached: Option<RepositoryView>,
    origin_headers: Seq<(Seq<char>, Seq<char>)>,
    answer: Result<Response, Error>,
    index: Option<Vec<PackageManifest>>,
) -> Result<(RepositoryView, bool), LoadErrorView> {
    let failure: Option<ErrorView> = match answer {
        Err(e) => Some(e@),
        Ok(response) => if is_error_status(response@.status) {
            Some(ErrorView::ErrorStatusCode(response@.status))
        } else {
            None
        },
    };
    match failure {
        Some(e) => match cached {
            Some(repository) => Ok((repository, false)),
            None => Err(LoadErrorView::Transport(e)),
        },
        None => {
            let response = answer->Ok_0@;
            let not_modified = response.status == 304 && cached is Some && cached->Some_0.etag
                is Some;
            if not_modified {
                Ok((cached->Some_0, false))
            } else {
                match index {
                    Some(packages) if unique_versions(manifest_views(packages@)) => Ok(
                        (
                            RepositoryView {
                                packages: manifest_views(packages@),
                                etag: response_etag(response.headers),
                                origin_headers: match cached {
                                    Some(repository) => repository.origin_headers,
                                    None => origin_headers,
                                },
                            },
                            true,
                        ),
                    ),
                    _ => match cached {
                        Some(repository) => Ok((repository, false)),
                        None => Err(LoadErrorView::InvalidRemoteData),
                    },
                }
            }
        },
    }
}

/// A refresh that the origin answers with "not modified" leaves the
/// repository as it was: the same manifests, the same token, and nothing to
/// write.
pub proof fn lemma_not_modified_keeps(
    cached: RepositoryView,
    origin_headers: Seq<(Seq<char>, Seq<char>)>,
    answer: Result<Response, Error>,
    index: Option<Vec<PackageManifest>>,
)
    requires
        answer matches Ok(response) && response@.status == 304,
        cached.etag is Some,
    ensures
        fetch_outcome(Some(cached), origin_headers, answer, index) == Ok::<
            (RepositoryView, bool),
            LoadErrorView,
        >((cached, false)),
{
}

/// A refresh that brings new content replaces the index as a whole: the
/// repository holds the versions of the new index and no others, and its
/// token is that of the answer.
pub proof fn lemma_new_content_replaces(
    cached: Option<RepositoryView>,
    origin_headers: Seq<(Seq<char>, Seq<char>)>,
    answer: Result<Response, Error>,
    index: Option<Vec<PackageManifest>>,
)
    requires
        answer matches Ok(response) && !is_error_status(response@.status) && !(response@.status
            == 304 && cached is Some && cached->Some_0.etag is Some),
        index matches Some(packages) && unique_versions(manifest_views(packages@)),
    ensures
        fetch_outcome(cached, origin_headers, answer, index) matches Ok((repository, persist)) && {
            &&& persist
            &&& repository.packages == manifest_views(index->Some_0@)
            &&& repository.etag == response_etag(answer->Ok_0@.headers)
            &&& forall|name: Seq<char>, version: crate::version::VersionView|
                crate::repository::has_version(repository.packages, name, version)
                    <==> crate::repository::has_version(
                    manifest_views(index->Some_0@),
                    name,
                    version,
                )
        },
{
}

/// One repository with the path of its cache.
#[derive(Debug)]
pub struct CachedEntry {
    pub path: String,
    pub repository: LocalCachedRepository,
}

impl View for CachedEntry {
    type V = (Seq<char>, RepositoryView);

    open spec fn view(&self) -> (Seq<char>, RepositoryView) {
        (self.path@, self.repository@)
    }
}

/// The views of a list of cached repositories, in order.
pub open spec fn entry_views(entries: Seq<CachedEntry>) -> Seq<(Seq<char>, RepositoryView)> {
    Seq::new(entries.len(), |i: int| entries[i]@)
}

/// Whether no path occurs twice among `entries`.
pub open spec fn distinct_paths(entries: Seq<(Seq<char>, RepositoryView)>) -> bool {
    forall|i: int, j: int|
        0 <= i < j < entries.len() ==> (#[trigger] entries[i]).0 != (#[trigger] entries[j]).0
}

/// Whether `entries` holds a repository under `path`.
pub open spec fn has_path(entries: Seq<(Seq<char>, RepositoryView)>, path: Seq<char>) -> bool {
    exists|i: int| 0 <= i < entries.len() && (#[trigger] entries[i]).0 == path
}

/// The position of the repository under `path` in `entries`.
pub open spec fn position_of_path(entries: Seq<(Seq<char>, RepositoryView)>, path: Seq<char>) -> int {
    choose|i: int| 0 <= i < entries.len() && (#[trigger] entries[i]).0 == path
}

/// `entries` after `repository` was put under `path`: it takes the place of
/// the repository that was under that path, or goes last.
pub open spec fn with_repository(
    entries: Seq<(Seq<char>, RepositoryView)>,
    path: Seq<char>,
    repository: RepositoryView,
) -> Seq<(Seq<char>, RepositoryView)> {
    if has_path(entries, path) {
        entries.update(position_of_path(entries, path), (path, repository))
    } else {
        entries.push((path, repository))
    }
}

/// `entries` after the first `n` of `loaded` were put in, one after the
/// other.
pub open spec fn with_repositories(
    entries: Seq<(Seq<char>, RepositoryView)>,
    loaded: Seq<(Seq<char>, RepositoryView)>,
    n: int,
) -> Seq<(Seq<char>, RepositoryView)>
    decreases n,
{
    if n <= 0 {
        entries
    } else {
        with_repository(with_repositories(entries, loaded, n - 1), loaded[n - 1].0, loaded[n - 1].1)
    }
}

/// The outcome of the load of one source.
#[derive(Debug)]
pub struct LoadedSource {
    /// The path of the source's cache.
    pub path: String,
    /// The repository, or why it could not be loaded.
    pub result: Result<LocalCachedRepository, LoadError>,
}

/// Whether `i` is the position of the first load in `loaded` that failed.
pub open spec fn first_failure(loaded: Seq<LoadedSource>, i: int) -> bool {
    &&& 0 <= i < loaded.len()
    &&& loaded[i].result is Err
    &&& forall|k: int| 0 <= k < i ==> (#[trigger] loaded[k]).result is Ok
}

/// The paths and repositories of loads that all went well.
pub open spec fn loaded_views(loaded: Seq<LoadedSource>) -> Seq<(Seq<char>, RepositoryView)> {
    Seq::new(loaded.len(), |i: int| (loaded[i].path@, loaded[i].result->Ok_0@))
}

/// The repositories that are loaded, each under the path of its cache, in
/// the order in which they are searched.
#[derive(Debug)]
pub struct RepoHolder {
    /// The network-fetch capability; without one the holder works offline.
    pub(crate) http: Option<Client>,
    /// The repositories, no two under one path.
    pub(crate) cached_repos_new: Vec<CachedEntry>,
}

impl View for RepoHolder {
    type V = Seq<(Seq<char>, RepositoryView)>;

    open(crate) spec fn view(&self) -> Seq<(Seq<char>, RepositoryView)> {
        entry_views(self.cached_repos_new@)
    }
}

impl RepoHolder {
    /// What holds of every holder: no two repositories are held under one
    /// path.
    #[verifier::type_invariant]
    pub open spec fn wf(&self) -> bool {
        distinct_paths(self@)
    }

    /// The network-fetch capability, where the holder has it.
    pub open(crate) spec fn client(&self) -> Option<Client> {
        self.http
    }

    /// The repositories, in the order in which they are searched.
    pub open(crate) spec fn repositories(&self) -> Seq<LocalCachedRepository> {
        Seq::new(self.cached_repos_new@.len(), |i: int| self.cached_repos_new@[i].repository)
    }

    /// The paths of the repositories' caches, in the order in which the
    /// repositories are searched.
    pub open(crate) spec fn paths(&self) -> Seq<String> {
        Seq::new(self.cached_repos_new@.len(), |i: int| self.cached_repos_new@[i].path)
    }

    /// The network-fetch capability, where the holder has it.
    pub fn http(&self) -> (r: Option<&Client>)
        ensures
            match r {
                Some(client) => self.client() == Some(*client),
                None => self.client() is None,
            },
    {
        self.http.as_ref()
    }

    /// A holder of no repositories.
    pub fn new(http: Option<Client>) -> (r: RepoHolder)
        ensures
            r@ == Seq::<(Seq<char>, RepositoryView)>::empty(),
            r.client() == http,
    {
        let cached_repos_new: Vec<CachedEntry> = Vec::new();
        assert(entry_views(cached_repos_new@) =~= Seq::empty());
        RepoHolder { http, cached_repos_new }
    }

    /// The position of the repository under `path`, if one is held.
    fn position(&self, path: &String) -> (r: Option<usize>)
        ensures
            match r {
                Some(i) => i < self@.len() && self@[i as int].0 == path@,
                None => !has_path(self@, path@),
            },
    {
        let mut i: usize = 0;
        while i < self.cached_repos_new.len()
            invariant
                i <= self.cached_repos_new.len(),
                forall|k: int| 0 <= k < i ==> (#[trigger] self@[k]).0 != path@,
            decreases self.cached_repos_new.len() - i,
        {
            if self.cached_repos_new[i].path == *path {
                return Some(i);
            }
            i += 1;
        }
        None
    }

    /// Puts `repository` under `path`, in the place of the one that was
    /// there or else last.
    pub fn insert(&mut self, path: String, repository: LocalCachedRepository)
        ensures
            final(self)@ == with_repository(old(self)@, path@, repository@),
            final(self).client() == old(self).client(),
    {
        proof {
            use_type_invariant(&*self);
        }
        let ghost before = self@;
        let found = self.position(&path);
        let mut entries: Vec<CachedEntry> = Vec::new();
        assert(entry_views(entries@) =~= Seq::empty());
        std::mem::swap(&mut entries, &mut self.cached_repos_new);
        let ghost after = with_repository(before, path@, repository@);
        match found {
            Some(i) => {
                proof {
                    assert(has_path(before, path@));
                    let p = position_of_path(before, path@);
                    assert(p == i) by {
                        if p < i {
                            assert(before[p].0 != before[i as int].0);
                        } else if i < p {
                            assert(before[i as int].0 != before[p].0);
                        }
                    }
                }
                entries[i] = CachedEntry { path, repository };
                proof {
                    assert(entry_views(entries@) =~= after);
                    assert forall|a: int, b: int| 0 <= a < b < after.len() implies (
                    #[trigger] after[a]).0 != (#[trigger] after[b]).0 by {
                        assert(after[a].0 == before[a].0);
                        assert(after[b].0 == before[b].0);
                    }
                }
            },
            None => {
                entries.push(CachedEntry { path, repository });
                proof {
                    assert(entry_views(entries@) =~= after);
                    assert forall|a: int, b: int| 0 <= a < b < after.len() implies (
                    #[trigger] after[a]).0 != (#[trigger] after[b]).0 by {
                        assert(after[a] == before[a]);
                        if b < before.len() {
                            assert(after[b] == before[b]);
                        }
                    }
                }
            },
        }
        self.cached_repos_new = entries;
    }

    /// Takes in the outcomes of the loads of several sources. Where one of
    /// them failed the whole operation fails with the first failure, and the
    /// holder stays as it is. Else each repository is put under its path,
    /// in the order given, in the place of the one that was there.
    pub fn load_repos(&mut self, loaded: Vec<LoadedSource>) -> (r: Result<(), LoadError>)
        ensures
            final(self).client() == old(self).client(),
            match r {
                Ok(()) => {
                    &&& forall|i: int| 0 <= i < loaded@.len() ==> (#[trigger] loaded@[i]).result is Ok
                    &&& final(self)@ == with_repositories(
                        old(self)@,
                        loaded_views(loaded@),
                        loaded@.len() as int,
                    )
                },
                Err(e) => {
                    &&& final(self)@ == old(self)@
                    &&& exists|i: int|
                        first_failure(loaded@, i) && e@ == (#[trigger] loaded@[i]).result->Err_0@
                },
            },
    {
        let mut rest = loaded;
        let ghost all = loaded@;
        let mut i: usize = 0;
        while i < rest.len()
            invariant
                i <= rest.len(),
                rest@ == all,
                all == loaded@,
                *self == *old(self),
                forall|k: int| 0 <= k < i ==> (#[trigger] all[k]).result is Ok,
            decreases rest.len() - i,
        {
            if rest[i].result.is_err() {
                let failed = rest.swap_remove(i);
                assert(failed == all[i as int]);
                assert(first_failure(all, i as int));
                match failed.result {
                    Err(e) => {
                        assert(e@ == loaded@[i as int].result->Err_0@);
                        return Err(e);
                    },
                    Ok(_) => {
                        assert(false);
                    },
                }
            }
            i += 1;
        }
        let ghost views = loaded_views(all);
        let ghost before = self@;
        let mut done: usize = 0;
        while rest.len() > 0
            invariant
                self.http == old(self).http,
                views == loaded_views(all),
                done + rest.len() == all.len(),
                all.len() <= usize::MAX,
                rest@ == all.subrange(done as int, all.len() as int),
                forall|k: int| 0 <= k < all.len() ==> (#[trigger] all[k]).result is Ok,
                self@ == with_repositories(before, views, done as int),
            decreases rest.len(),
        {
            let next = rest.remove(0);
            assert(next == all[done as int]);
            assert(rest@ =~= all.subrange(done + 1, all.len() as int));
            match next.result {
                Ok(repository) => {
                    assert(views[done as int] == (next.path@, repository@));
                    self.insert(next.path, repository);
                },
                Err(_) => {
                    assert(false);
                },
            }
            done += 1;
        }
        Ok(())
    }

    /// What the load of `source` does once its cache file was read: it
    /// ends with the cached repository, asks the origin, or fails.
    pub fn load_repo_from_source(client: Option<&Client>, source: &RepoSource, cache: CacheRead) -> (r:
        LoadStep)
        ensures
            r@ == load_step(client is Some, source@.remote_url, source@.headers, cache),
    {
        match source {
            RepoSource::PreDefined(predefined) => {
                RepoHolder::load_remote_repo(client, None, &predefined.url, cache)
            },
            RepoSource::UserDefined(user) => {
                if let Some(url) = &user.remote_url {
                    RepoHolder::load_remote_repo(client, Some(&user.headers), url, cache)
                } else {
                    RepoHolder::load_local_repo(cache)
                }
            },
            RepoSource::Undefined(_) => RepoHolder::load_local_repo(cache),
        }
    }

    /// The load of a repository that has an origin at `remote_url`.
    fn load_remote_repo(
        client: Option<&Client>,
        headers: Option<&Headers>,
        remote_url: &Url,
        cache: CacheRead,
    ) -> (r: LoadStep)
        ensures
            r@ == load_step(
                client is Some,
                Some(remote_url@),
                match headers {
                    Some(h) => h@,
                    None => Seq::empty(),
                },
                cache,
            ),
    {
        let origin_headers = match headers {
            Some(h) => h.clone(),
            None => Headers::new(),
        };
        RepoHolder::load_repo(client, Some(remote_url), origin_headers, cache)
    }

    /// The load of a repository that has no origin.
    fn load_local_repo(cache: CacheRead) -> (r: LoadStep)
        ensures
            r@ == load_step(false, None, Seq::empty(), cache),
            r@ == load_step(true, None, Seq::empty(), cache),
    {
        RepoHolder::load_repo(None, None, Headers::new(), cache)
    }

    /// The load of a repository, with or without an origin.
    fn load_repo(
        client: Option<&Client>,
        remote_url: Option<&Url>,
        source_headers: Headers,
        cache: CacheRead,
    ) -> (r: LoadStep)
        ensures
            r@ == load_step(
                client is Some,
                match remote_url {
                    Some(url) => Some(url@),
                    None => None,
                },
                source_headers@,
                cache,
            ),
            remote_url is None ==> r@ == load_step(true, None, source_headers@, cache) && r@
                == load_step(false, None, source_headers@, cache),
    {
        match cache {
            CacheRead::Invalid => LoadStep::Failed(LoadError::InvalidCacheData),
            CacheRead::Loaded(repository) => {
                match (client, remote_url) {
                    (Some(http), Some(url)) => {
                        let request = refresh_request(
                            http,
                            url,
                            &repository.origin_headers,
                            &repository.etag,
                        );
                        match request.send() {
                            Ok(parts) => {
                                let origin_headers = repository.origin_headers.clone();
                                LoadStep::Fetch(
                                    PendingFetch {
                                        request: parts,
                                        cached: Some(repository),
                                        origin_headers,
                                    },
                                )
                            },
                            Err(_) => LoadStep::Done(repository),
                        }
                    },
                    _ => LoadStep::Done(repository),
                }
            },
            CacheRead::Missing => {
                match remote_url {
                    None => LoadStep::Failed(LoadError::CacheMissing),
                    Some(url) => match client {
                        None => LoadStep::Failed(LoadError::NetworkUnavailable),
                        Some(http) => {
                            let request = refresh_request(http, url, &source_headers, &None);
                            match request.send() {
                                Ok(parts) => LoadStep::Fetch(
                                    PendingFetch {
                                        request: parts,
                                        cached: None,
                                        origin_headers: source_headers,
                                    },
                                ),
                                Err(e) => LoadStep::Failed(LoadError::Transport(e)),
                            }
                        },
                    },
                }
            },
        }
    }

    /// What the origin's answer makes of the load. A request that failed,
    /// or an answer whose status reports an error, leaves the cached
    /// repository in use, and fails the load where there is none. An answer
    /// of "not modified" to a request that carried a token keeps the cached
    /// repository as it is. Any other answer brings a new index: `index` is
    /// what the body holds, `None` where it holds no index. The new index
    /// takes the place of the old one as a whole, with the token of the
    /// answer, and the cache file is to be written.
    pub fn complete_fetch(
        pending: PendingFetch,
        answer: Result<Response, Error>,
        index: Option<Vec<PackageManifest>>,
    ) -> (r: Result<Loaded, LoadError>)
        ensures
            match r {
                Ok(loaded) => fetch_outcome(
                    repository_view(pending.cached),
                    pending.origin_headers@,
                    answer,
                    index,
                ) == Ok::<(RepositoryView, bool), LoadErrorView>(
                    (loaded.repository@, loaded.persist),
                ),
                Err(e) => fetch_outcome(
                    repository_view(pending.cached),
                    pending.origin_headers@,
                    answer,
                    index,
                ) == Err::<(RepositoryView, bool), LoadErrorView>(e@),
            },
    {
        let checked = match answer {
            Err(e) => Err(e),
            Ok(response) => response.error_for_status(),
        };
        let response = match checked {
            Err(e) => {
                return match pending.cached {
                    Some(repository) => Ok(Loaded { repository, persist: false }),
                    None => Err(LoadError::Transport(e)),
                };
            },
            Ok(response) => response,
        };
        let etag = new_etag(&response);
        match pending.cached {
            Some(mut repository) => {
                if response.status() == 304 && repository.etag.is_some() {
                    return Ok(Loaded { repository, persist: false });
                }
                match index {
                    Some(packages) => {
                        let changed = repository.refresh(RemoteUpdate::Replaced { packages, etag });
                        Ok(Loaded { repository, persist: changed })
                    },
                    None => Ok(Loaded { repository, persist: false }),
                }
            },
            None => {
                match index {
                    Some(packages) => {
                        match LocalCachedRepository::new(packages, etag, pending.origin_headers) {
                            Some(repository) => Ok(Loaded { repository, persist: true }),
                            None => Err(LoadError::InvalidRemoteData),
                        }
                    },
                    None => Err(LoadError::InvalidRemoteData),
                }
            },
        }
    }

    /// The repositories, in the order in which they are searched.
    pub fn get_repos(&self) -> (r: Vec<&LocalCachedRepository>)
        ensures
            r@.len() == self@.len(),
            forall|i: int| 0 <= i < r@.len() ==> *(#[trigger] r@[i]) == self.repositories()[i],
            forall|i: int| 0 <= i < r@.len() ==> (#[trigger] r@[i])@ == self@[i].1,
    {
        let mut r: Vec<&LocalCachedRepository> = Vec::new();
        let mut i: usize = 0;
        while i < self.cached_repos_new.len()
            invariant
                i <= self.cached_repos_new.len(),
                r@.len() == i,
                forall|k: int|
                    0 <= k < i ==> *(#[trigger] r@[k]) == self.cached_repos_new@[k].repository,
            decreases self.cached_repos_new.len() - i,
        {
            r.push(&self.cached_repos_new[i].repository);
            i += 1;
        }
        r
    }

    /// The repositories with the paths of their caches, in the order in
    /// which they are searched.
    pub fn get_repo_with_path(&self) -> (r: Vec<(&String, &LocalCachedRepository)>)
        ensures
            r@.len() == self@.len(),
            forall|i: int|
                0 <= i < r@.len() ==> *(#[trigger] r@[i]).0 == self.paths()[i] && *r@[i].1
                    == self.repositories()[i],
            forall|i: int|
                0 <= i < r@.len() ==> ((#[trigger] r@[i]).0@, r@[i].1@) == self@[i],
    {
        let mut r: Vec<(&String, &LocalCachedRepository)> = Vec::new();
        let mut i: usize = 0;
        while i < self.cached_repos_new.len()
            invariant
                i <= self.cached_repos_new.len(),
                r@.len() == i,
                forall|k: int|
                    0 <= k < i ==> *(#[trigger] r@[k]).0 == self.cached_repos_new@[k].path && *r@[k].1
                        == self.cached_repos_new@[k].repository,
            decreases self.cached_repos_new.len() - i,
        {
            r.push((&self.cached_repos_new[i].path, &self.cached_repos_new[i].repository));
            i += 1;
        }
        r
    }

    /// The repository under `path`, if one is held.
    pub fn get_repo(&self, path: &String) -> (r: Option<&LocalCachedRepository>)
        ensures
            match r {
                Some(repository) => exists|i: int|
                    0 <= i < self@.len() && (#[trigger] self@[i]) == (path@, repository@)
                        && *repository == self.repositories()[i],
                None => !has_path(self@, path@),
            },
    {
        match self.position(path) {
            Some(i) => {
                assert(self@[i as int].0 == path@);
                Some(&self.cached_repos_new[i].repository)
            },
            None => None,
        }
    }
}

/// The token that `response` names for its body.
fn new_etag(response: &Response) -> (r: Option<String>)
    ensures
        text_view(r) == response_etag(response@.headers),
{
    match response.headers().get("Etag") {
        Some(value) => {
            proof {
                let headers = response@.headers;
                let i = choose|i: int|
                    first_named(headers, "Etag"@, i) && value@ == (#[trigger] headers[i]).1;
                let j = choose|j: int| first_named(headers, "Etag"@, j);
                assert(i == j) by {
                    if i < j {
                        assert(!crate::text::same_ignoring_case(headers[i].0, "Etag"@));
                    } else if j < i {
                        assert(!crate::text::same_ignoring_case(headers[j].0, "Etag"@));
                    }
                }
            }
            match value.to_string() {
                Ok(text) => Some(text),
                Err(_) => None,
            }
        },
        None => {
            proof {
                let headers = response@.headers;
                assert forall|i: int| !first_named(headers, "Etag"@, i) by {
                    if first_named(headers, "Etag"@, i) {
                        assert(!crate::text::same_ignoring_case(headers[i].0, "Etag"@));
                    }
                }
            }
            None
        },
    }
}

} // verus!
