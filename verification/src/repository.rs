//! One repository's package index with the token of its freshness, and the
//! sources that repositories are loaded from.

use crate::headers::Headers;
use crate::http::Url;
use crate::manifest::{ManifestView, PackageManifest};
use crate::version::VersionNumber;
use vstd::prelude::*;

verus! {

/// The views of a list of manifests, in order.
pub open spec fn manifest_views(manifests: Seq<PackageManifest>) -> Seq<ManifestView> {
    Seq::new(manifests.len(), |i: int| manifests[i]@)
}

/// Whether no two of `packages` have both the same name and the same
/// version.
pub open spec fn unique_versions(packages: Seq<ManifestView>) -> bool {
    forall|i: int, j: int|
        0 <= i < j < packages.len() ==> !((#[trigger] packages[i]).name == (
        #[trigger] packages[j]).name && packages[i].version == packages[j].version)
}

/// Whether `packages` holds the version `version` of the package `name`.
pub open spec fn has_version(
    packages: Seq<ManifestView>,
    name: Seq<char>,
    version: crate::version::VersionView,
) -> bool {
    exists|i: int|
        0 <= i < packages.len() && (#[trigger] packages[i]).name == name && packages[i].version
            == version
}

/// Whether the manifests of `packages` are one per name and version.
pub fn is_index(packages: &Vec<PackageManifest>) -> (r: bool)
    ensures
        r == unique_versions(manifest_views(packages@)),
{
    let ghost views = manifest_views(packages@);
    let mut j: usize = 0;
    while j < packages.len()
        invariant
            j <= packages.len(),
            views == manifest_views(packages@),
            forall|a: int, b: int|
                0 <= a < b < j ==> !((#[trigger] views[a]).name == (#[trigger] views[b]).name
                    && views[a].version == views[b].version),
        decreases packages.len() - j,
    {
        let mut i: usize = 0;
        while i < j
            invariant
                i <= j < packages.len(),
                views == manifest_views(packages@),
                forall|a: int|
                    0 <= a < i ==> !((#[trigger] views[a]).name == views[j as int].name
                        && views[a].version == views[j as int].version),
            decreases j - i,
        {
            if packages[i].name == packages[j].name && packages[i].version.equals(
                &packages[j].version,
            ) {
                assert(views[i as int].name == views[j as int].name && views[i as int].version
                    == views[j as int].version);
                return false;
            }
            i += 1;
        }
        j += 1;
    }
    true
}

/// The package index of one repository as it is held in memory, with the
/// token that the origin gave for it.
#[derive(Debug)]
pub struct LocalCachedRepository {
    /// The manifests of the index, one per name and version.
    pub(crate) packages: Vec<PackageManifest>,
    /// The token of the index's freshness, where the origin gave one.
    pub(crate) etag: Option<String>,
    /// The headers that go with every request to the origin.
    pub(crate) origin_headers: Headers,
}

/// What a [`LocalCachedRepository`] stands for.
pub struct RepositoryView {
    pub packages: Seq<ManifestView>,
    pub etag: Option<Seq<char>>,
    pub origin_headers: Seq<(Seq<char>, Seq<char>)>,
}

/// The view of an optional text.
pub open spec fn text_view(text: Option<String>) -> Option<Seq<char>> {
    match text {
        Some(t) => Some(t@),
        None => None,
    }
}

impl View for LocalCachedRepository {
    type V = RepositoryView;

    open(crate) spec fn view(&self) -> RepositoryView {
        RepositoryView {
            packages: manifest_views(self.packages@),
            etag: text_view(self.etag),
            origin_headers: self.origin_headers@,
        }
    }
}

/// What a refresh from the origin brought.
#[derive(Debug)]
pub enum RemoteUpdate {
    /// The origin said that the index has not changed.
    NotModified,
    /// The origin sent a new index, with its token where it gave one.
    Replaced { packages: Vec<PackageManifest>, etag: Option<String> },
}

impl LocalCachedRepository {
    /// What holds of every repository: its index holds one manifest per
    /// name and version.
    #[verifier::type_invariant]
    pub open spec fn wf(&self) -> bool {
        unique_versions(self@.packages)
    }

    /// The repository of the given index; `None` where `packages` holds two
    /// manifests of one name and version.
    pub fn new(packages: Vec<PackageManifest>, etag: Option<String>, origin_headers: Headers) -> (r:
        Option<LocalCachedRepository>)
        ensures
            r is Some <==> unique_versions(manifest_views(packages@)),
            r matches Some(repo) ==> repo@ == (RepositoryView {
                packages: manifest_views(packages@),
                etag: text_view(etag),
                origin_headers: origin_headers@,
            }),
    {
        if is_index(&packages) {
            Some(LocalCachedRepository { packages, etag, origin_headers })
        } else {
            None
        }
    }

    /// Takes in what a refresh brought. An unchanged index leaves the
    /// repository as it is, token included. A new index takes the place of
    /// the old one as a whole, and its token that of the old token; where
    /// the new index holds two manifests of one name and version it is
    /// refused, and the repository stays as it is. Says whether the
    /// repository changed.
    pub fn refresh(&mut self, update: RemoteUpdate) -> (changed: bool)
        ensures
            unique_versions(final(self)@.packages),
            final(self)@.origin_headers == old(self)@.origin_headers,
            match update {
                RemoteUpdate::NotModified => !changed && final(self)@ == old(self)@,
                RemoteUpdate::Replaced { packages, etag } => if unique_versions(
                    manifest_views(packages@),
                ) {
                    &&& changed
                    &&& final(self)@.packages == manifest_views(packages@)
                    &&& final(self)@.etag == text_view(etag)
                } else {
                    !changed && final(self)@ == old(self)@
                },
            },
    {
        proof {
            use_type_invariant(&*self);
        }
        match update {
            RemoteUpdate::NotModified => false,
            RemoteUpdate::Replaced { packages, etag } => {
                if is_index(&packages) {
                    self.packages = packages;
                    self.etag = etag;
                    true
                } else {
                    false
                }
            },
        }
    }

    /// The manifest of the version `version` of the package `name`, if the
    /// index holds it.
    pub fn find(&self, name: &String, version: &VersionNumber) -> (r: Option<&PackageManifest>)
        ensures
            match r {
                Some(m) => exists|i: int|
                    0 <= i < self@.packages.len() && m@ == #[trigger] self@.packages[i] && m@.name
                        == name@ && m@.version == version@,
                None => !has_version(self@.packages, name@, version@),
            },
    {
        let mut i: usize = 0;
        while i < self.packages.len()
            invariant
                i <= self.packages.len(),
                forall|k: int|
                    0 <= k < i ==> !((#[trigger] self@.packages[k]).name == name@
                        && self@.packages[k].version == version@),
            decreases self.packages.len() - i,
        {
            if self.packages[i].name == *name && self.packages[i].version.equals(version) {
                assert(self@.packages[i as int] == self.packages@[i as int]@);
                return Some(&self.packages[i]);
            }
            i += 1;
        }
        None
    }

    /// The token of the index's freshness.
    pub fn etag(&self) -> (r: &Option<String>)
        ensures
            text_view(*r) == self@.etag,
    {
        &self.etag
    }

    /// The headers that go with every request to the origin.
    pub fn origin_headers(&self) -> (r: &Headers)
        ensures
            r@ == self@.origin_headers,
    {
        &self.origin_headers
    }

    /// The manifests of the index.
    pub fn packages(&self) -> (r: &Vec<PackageManifest>)
        ensures
            manifest_views(r@) == self@.packages,
    {
        &self.packages
    }
}

/// A well-known repository.
#[derive(Debug)]
pub struct PreDefinedSource {
    pub id: String,
    pub url: Url,
    pub cache_path: String,
}

/// A repository that the user added. Without a URL it is kept locally only
/// and never refreshed.
#[derive(Debug)]
pub struct UserDefinedSource {
    pub remote_url: Option<Url>,
    pub headers: Headers,
    pub cache_path: String,
}

/// How the cache of a repository maps to its origin.
#[derive(Debug)]
pub enum RepoSource {
    /// A curated repository with a fixed URL.
    PreDefined(PreDefinedSource),
    /// A repository that the user added.
    UserDefined(UserDefinedSource),
    /// An index file of no known origin.
    Undefined(String),
}

/// What a [`RepoSource`] stands for.
pub struct SourceView {
    pub cache_path: Seq<char>,
    pub remote_url: Option<Seq<char>>,
    pub headers: Seq<(Seq<char>, Seq<char>)>,
    pub id: Option<Seq<char>>,
}

impl View for RepoSource {
    type V = SourceView;

    open spec fn view(&self) -> SourceView {
        match self {
            RepoSource::PreDefined(source) => SourceView {
                cache_path: source.cache_path@,
                remote_url: Some(source.url@),
                headers: Seq::empty(),
                id: Some(source.id@),
            },
            RepoSource::UserDefined(source) => SourceView {
                cache_path: source.cache_path@,
                remote_url: match source.remote_url {
                    Some(url) => Some(url@),
                    None => None,
                },
                headers: source.headers@,
                id: None,
            },
            RepoSource::Undefined(path) => SourceView {
                cache_path: path@,
                remote_url: None,
                headers: Seq::empty(),
                id: None,
            },
        }
    }
}

impl RepoSource {
    /// Where the cache of the repository is kept.
    pub fn cache_path(&self) -> (r: &String)
        ensures
            r@ == self@.cache_path,
    {
        match self {
            RepoSource::PreDefined(source) => &source.cache_path,
            RepoSource::UserDefined(source) => &source.cache_path,
            RepoSource::Undefined(path) => path,
        }
    }

    /// The URL of the origin, where the source has one.
    pub fn remote_url(&self) -> (r: Option<&Url>)
        ensures
            match r {
                Some(url) => self@.remote_url == Some(url@),
                None => self@.remote_url is None,
            },
    {
        match self {
            RepoSource::PreDefined(source) => Some(&source.url),
            RepoSource::UserDefined(source) => source.remote_url.as_ref(),
            RepoSource::Undefined(_) => None,
        }
    }

    /// The headers that go with every request to the origin.
    pub fn headers(&self) -> (r: Headers)
        ensures
            r@ == self@.headers,
    {
        match self {
            RepoSource::UserDefined(source) => source.headers.clone(),
            _ => Headers::new(),
        }
    }
}

} // verus!
