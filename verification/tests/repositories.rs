use vpai::environment::Environment;
use vpai::headers::Headers;
use vpai::http::{Client, Error, HeaderField, HeaderMap, Inner, Response, Url};
use vpai::manifest::PackageManifest;
use vpai::repo_holder::{
    refresh_request, CacheRead, LoadError, LoadStep, LoadedSource, PendingFetch, RepoHolder,
};
use vpai::repository::{
    is_index, LocalCachedRepository, PreDefinedSource, RemoteUpdate, RepoSource, UserDefinedSource,
};
use vpai::version::VersionNumber;

fn manifest(name: &str, major: u64, minor: u64) -> PackageManifest {
    PackageManifest::new(
        name.to_string(),
        VersionNumber::new(major, minor, 0),
        vec![],
        vec![],
        vec![],
        format!("https://example.com/{}-{}.{}.zip", name, major, minor),
    )
    .unwrap()
}

fn listing(repo: &LocalCachedRepository) -> Vec<String> {
    repo.packages()
        .iter()
        .map(|m| format!("{}@{}", m.name(), m.version().to_text()))
        .collect()
}

fn repo(packages: Vec<PackageManifest>, etag: Option<&str>) -> LocalCachedRepository {
    LocalCachedRepository::new(packages, etag.map(|s| s.to_string()), Headers::new()).unwrap()
}

fn headers(pairs: &[(&str, &str)]) -> Headers {
    let mut h = Headers::new();
    for (name, value) in pairs {
        h.insert(name.to_string(), value.to_string());
    }
    h
}

fn response(status: u32, fields: &[(&str, &str)]) -> Response {
    let fields = fields
        .iter()
        .map(|(n, v)| HeaderField { name: n.to_string(), value: v.to_string() })
        .collect();
    Response::new(status, HeaderMap::new(fields), b"{}".to_vec())
}

fn user_source(url: Option<&str>, path: &str, pairs: &[(&str, &str)]) -> RepoSource {
    RepoSource::UserDefined(UserDefinedSource {
        remote_url: url.map(|u| Url::parse(u).unwrap()),
        headers: headers(pairs),
        cache_path: path.to_string(),
    })
}

fn sent(parts: &vpai::http::RequestParts) -> Vec<(String, String)> {
    parts.headers.iter().map(|f| (f.name.clone(), f.value.clone())).collect()
}

fn pair(a: &str, b: &str) -> (String, String) {
    (a.to_string(), b.to_string())
}

#[test]
fn an_index_holds_one_manifest_per_name_and_version() {
    assert!(is_index(&vec![manifest("A", 1, 0), manifest("A", 1, 1), manifest("B", 1, 0)]));
    assert!(!is_index(&vec![manifest("A", 1, 0), manifest("B", 1, 0), manifest("A", 1, 0)]));
    assert!(is_index(&vec![]));
    assert!(LocalCachedRepository::new(
        vec![manifest("A", 1, 0), manifest("A", 1, 0)],
        None,
        Headers::new()
    )
    .is_none());
}

#[test]
fn not_modified_leaves_packages_and_etag_as_they_were() {
    let mut r = repo(vec![manifest("A", 1, 0), manifest("B", 2, 0)], Some("\"v1\""));
    let before = format!("{:?}", r);
    let changed = r.refresh(RemoteUpdate::NotModified);
    assert!(!changed);
    assert_eq!(format!("{:?}", r), before);
    assert_eq!(r.etag(), &Some("\"v1\"".to_string()));
    assert_eq!(listing(&r), vec!["A@1.0.0", "B@2.0.0"]);
}

#[test]
fn new_content_replaces_the_index_as_a_whole() {
    let mut r = repo(vec![manifest("A", 1, 0), manifest("B", 2, 0)], Some("\"v1\""));
    let changed = r.refresh(RemoteUpdate::Replaced {
        packages: vec![manifest("A", 1, 1), manifest("C", 1, 0)],
        etag: Some("\"v2\"".to_string()),
    });
    assert!(changed);
    assert_eq!(listing(&r), vec!["A@1.1.0", "C@1.0.0"]);
    assert_eq!(r.etag(), &Some("\"v2\"".to_string()));
    assert!(r.find(&"B".to_string(), &VersionNumber::new(2, 0, 0)).is_none());
    assert!(r.find(&"A".to_string(), &VersionNumber::new(1, 0, 0)).is_none());
    assert!(r.find(&"A".to_string(), &VersionNumber::new(1, 1, 0)).is_some());
    // a new index without a token clears the token
    let changed = r.refresh(RemoteUpdate::Replaced { packages: vec![], etag: None });
    assert!(changed);
    assert!(listing(&r).is_empty());
    assert_eq!(r.etag(), &None);
}

#[test]
fn an_index_with_a_version_twice_is_refused() {
    let mut r = repo(vec![manifest("A", 1, 0)], Some("t"));
    let changed = r.refresh(RemoteUpdate::Replaced {
        packages: vec![manifest("B", 1, 0), manifest("B", 1, 0)],
        etag: Some("u".to_string()),
    });
    assert!(!changed);
    assert_eq!(listing(&r), vec!["A@1.0.0"]);
    assert_eq!(r.etag(), &Some("t".to_string()));
}

#[test]
fn a_refresh_request_carries_the_token_and_the_headers() {
    let client = Client::new();
    let url = Url::parse("https://example.com/index.json").unwrap();
    let request = refresh_request(
        &client,
        &url,
        &headers(&[("Authorization", "Bearer x"), ("X-Other", "1")]),
        &Some("\"abc\"".to_string()),
    );
    let parts = request.send().unwrap();
    assert_eq!(parts.url.as_str(), "https://example.com/index.json");
    assert_eq!(
        sent(&parts),
        vec![pair("If-None-Match", "\"abc\""), pair("Authorization", "Bearer x"), pair("X-Other", "1")]
    );
    let request = refresh_request(&client, &url, &Headers::new(), &None);
    assert!(sent(&request.send().unwrap()).is_empty());
    let bad = Url { url: "ftp://example.com".to_string() };
    let request = refresh_request(&client, &bad, &Headers::new(), &None);
    assert_eq!(request.send().unwrap_err().message(), "http/https url expected");
}

#[test]
fn a_cached_repository_with_an_origin_asks_the_origin_when_online() {
    let client = Client::new();
    let source = user_source(Some("https://example.com/r.json"), "Repos/r.json", &[("X", "src")]);
    let cached = LocalCachedRepository::new(
        vec![manifest("A", 1, 0)],
        Some("tok".to_string()),
        headers(&[("X", "cached")]),
    )
    .unwrap();
    match RepoHolder::load_repo_from_source(Some(&client), &source, CacheRead::Loaded(cached)) {
        LoadStep::Fetch(pending) => {
            assert_eq!(pending.request.url.as_str(), "https://example.com/r.json");
            assert_eq!(sent(&pending.request), vec![pair("If-None-Match", "tok"), pair("X", "cached")]);
            assert_eq!(listing(pending.cached.as_ref().unwrap()), vec!["A@1.0.0"]);
        }
        other => panic!("expected a fetch, got {:?}", other),
    }
    // offline: the cache is all there is
    let cached = repo(vec![manifest("A", 1, 0)], Some("tok"));
    match RepoHolder::load_repo_from_source(None, &source, CacheRead::Loaded(cached)) {
        LoadStep::Done(r) => assert_eq!(listing(&r), vec!["A@1.0.0"]),
        other => panic!("expected the cache, got {:?}", other),
    }
}

#[test]
fn a_local_repository_is_never_fetched() {
    let client = Client::new();
    let local = user_source(None, "Repos/local.json", &[]);
    let cached = repo(vec![manifest("A", 1, 0)], Some("tok"));
    assert!(matches!(
        RepoHolder::load_repo_from_source(Some(&client), &local, CacheRead::Loaded(cached)),
        LoadStep::Done(_)
    ));
    assert!(matches!(
        RepoHolder::load_repo_from_source(Some(&client), &local, CacheRead::Missing),
        LoadStep::Failed(LoadError::CacheMissing)
    ));
    let undefined = RepoSource::Undefined("some/index.json".to_string());
    assert_eq!(undefined.cache_path(), "some/index.json");
    assert!(undefined.remote_url().is_none());
    assert!(matches!(
        RepoHolder::load_repo_from_source(None, &undefined, CacheRead::Missing),
        LoadStep::Failed(LoadError::CacheMissing)
    ));
    assert!(matches!(
        RepoHolder::load_repo_from_source(None, &undefined, CacheRead::Invalid),
        LoadStep::Failed(LoadError::InvalidCacheData)
    ));
}

#[test]
fn without_cache_and_network_the_load_fails() {
    let source = RepoSource::PreDefined(PreDefinedSource {
        id: "official".to_string(),
        url: Url::parse("https://example.com/official").unwrap(),
        cache_path: "Repos/official.json".to_string(),
    });
    assert_eq!(source.cache_path(), "Repos/official.json");
    assert_eq!(source.remote_url().unwrap().as_str(), "https://example.com/official");
    assert_eq!(source.headers().len(), 0);
    assert!(matches!(
        RepoHolder::load_repo_from_source(None, &source, CacheRead::Missing),
        LoadStep::Failed(LoadError::NetworkUnavailable)
    ));
    let client = Client::new();
    match RepoHolder::load_repo_from_source(Some(&client), &source, CacheRead::Missing) {
        LoadStep::Fetch(pending) => {
            assert!(pending.cached.is_none());
            assert!(sent(&pending.request).is_empty());
        }
        other => panic!("expected a fetch, got {:?}", other),
    }
    let with_headers = user_source(Some("http://example.com/u"), "Repos/u.json", &[("K", "V")]);
    match RepoHolder::load_repo_from_source(Some(&client), &with_headers, CacheRead::Missing) {
        LoadStep::Fetch(pending) => {
            assert_eq!(sent(&pending.request), vec![pair("K", "V")]);
            assert_eq!(pending.origin_headers.len(), 1);
        }
        other => panic!("expected a fetch, got {:?}", other),
    }
    assert!(matches!(
        RepoHolder::load_repo_from_source(Some(&client), &with_headers, CacheRead::Invalid),
        LoadStep::Failed(LoadError::InvalidCacheData)
    ));
}

fn pending(cached: Option<LocalCachedRepository>) -> PendingFetch {
    let client = Client::new();
    let parts = client.get("https://example.com/r.json").send().unwrap();
    PendingFetch { request: parts, cached, origin_headers: headers(&[("K", "V")]) }
}

#[test]
fn an_answer_of_not_modified_keeps_the_cache() {
    let cached = repo(vec![manifest("A", 1, 0)], Some("tok"));
    let before = format!("{:?}", cached);
    let loaded = RepoHolder::complete_fetch(
        pending(Some(cached)),
        Ok(response(304, &[("ETag", "other")])),
        Some(vec![manifest("B", 1, 0)]),
    )
    .unwrap();
    assert!(!loaded.persist);
    assert_eq!(format!("{:?}", loaded.repository), before);
}

#[test]
fn an_answer_with_a_body_replaces_the_cache() {
    let cached = repo(vec![manifest("A", 1, 0), manifest("Old", 1, 0)], Some("tok"));
    let loaded = RepoHolder::complete_fetch(
        pending(Some(cached)),
        Ok(response(200, &[("Content-Type", "application/json"), ("etag", "\"new\""), ("ETag", "late")])),
        Some(vec![manifest("A", 2, 0)]),
    )
    .unwrap();
    assert!(loaded.persist);
    assert_eq!(listing(&loaded.repository), vec!["A@2.0.0"]);
    assert_eq!(loaded.repository.etag(), &Some("\"new\"".to_string()));
    // the first load of a repository keeps the headers of its source
    let loaded = RepoHolder::complete_fetch(
        pending(None),
        Ok(response(200, &[])),
        Some(vec![manifest("A", 2, 0)]),
    )
    .unwrap();
    assert!(loaded.persist);
    assert_eq!(loaded.repository.etag(), &None);
    assert_eq!(loaded.repository.origin_headers().len(), 1);
    assert_eq!(listing(&loaded.repository), vec!["A@2.0.0"]);
}

#[test]
fn a_failed_fetch_falls_back_on_the_cache_or_fails() {
    let cached = repo(vec![manifest("A", 1, 0)], Some("tok"));
    let loaded = RepoHolder::complete_fetch(
        pending(Some(cached)),
        Err(Error::cs("connection reset".to_string())),
        None,
    )
    .unwrap();
    assert!(!loaded.persist);
    assert_eq!(listing(&loaded.repository), vec!["A@1.0.0"]);
    match RepoHolder::complete_fetch(pending(None), Err(Error::cs("connection reset".to_string())), None) {
        Err(LoadError::Transport(e)) => assert_eq!(e.message(), "connection reset"),
        other => panic!("expected a transport error, got {:?}", other),
    }
    match RepoHolder::complete_fetch(pending(None), Ok(response(503, &[])), Some(vec![])) {
        Err(LoadError::Transport(e)) => {
            assert!(matches!(*e.inner, Inner::ErrorStatusCode(503)));
            assert_eq!(e.message(), "HTTP status server error (503)");
        }
        other => panic!("expected a status error, got {:?}", other),
    }
    let cached = repo(vec![manifest("A", 1, 0)], None);
    let loaded =
        RepoHolder::complete_fetch(pending(Some(cached)), Ok(response(404, &[])), Some(vec![])).unwrap();
    assert_eq!(listing(&loaded.repository), vec!["A@1.0.0"]);
    assert!(!loaded.persist);
}

#[test]
fn a_body_that_is_no_index_is_not_taken_in() {
    assert!(matches!(
        RepoHolder::complete_fetch(pending(None), Ok(response(200, &[])), None),
        Err(LoadError::InvalidRemoteData)
    ));
    assert!(matches!(
        RepoHolder::complete_fetch(
            pending(None),
            Ok(response(200, &[])),
            Some(vec![manifest("A", 1, 0), manifest("A", 1, 0)])
        ),
        Err(LoadError::InvalidRemoteData)
    ));
    let cached = repo(vec![manifest("A", 1, 0)], Some("t"));
    let loaded = RepoHolder::complete_fetch(pending(Some(cached)), Ok(response(200, &[])), None).unwrap();
    assert!(!loaded.persist);
    assert_eq!(loaded.repository.etag(), &Some("t".to_string()));
    // a 304 to a request that carried no token is no "not modified"
    let cached = repo(vec![manifest("A", 1, 0)], None);
    let loaded = RepoHolder::complete_fetch(
        pending(Some(cached)),
        Ok(response(304, &[("Etag", "x")])),
        Some(vec![manifest("B", 1, 0)]),
    )
    .unwrap();
    assert!(loaded.persist);
    assert_eq!(listing(&loaded.repository), vec!["B@1.0.0"]);
    assert_eq!(loaded.repository.etag(), &Some("x".to_string()));
}

fn ok(path: &str, packages: Vec<PackageManifest>) -> LoadedSource {
    LoadedSource { path: path.to_string(), result: Ok(repo(packages, None)) }
}

#[test]
fn the_holder_takes_all_repositories_or_none() {
    let mut holder = RepoHolder::new(None);
    assert!(holder.get_repos().is_empty());
    holder
        .load_repos(vec![ok("a.json", vec![manifest("A", 1, 0)]), ok("b.json", vec![manifest("B", 1, 0)])])
        .unwrap();
    assert_eq!(holder.get_repos().len(), 2);
    let failed = holder.load_repos(vec![
        ok("c.json", vec![manifest("C", 1, 0)]),
        LoadedSource { path: "d.json".to_string(), result: Err(LoadError::NetworkUnavailable) },
        LoadedSource { path: "e.json".to_string(), result: Err(LoadError::CacheMissing) },
    ]);
    assert!(matches!(failed, Err(LoadError::NetworkUnavailable)));
    let paths: Vec<String> = holder.get_repo_with_path().iter().map(|(p, _)| (*p).clone()).collect();
    assert_eq!(paths, vec!["a.json", "b.json"]);
    assert!(holder.get_repo(&"c.json".to_string()).is_none());
}

#[test]
fn a_repository_takes_the_place_of_the_one_under_its_path() {
    let mut holder = RepoHolder::new(Some(Client::new()));
    holder
        .load_repos(vec![
            ok("a.json", vec![manifest("A", 1, 0)]),
            ok("b.json", vec![manifest("B", 1, 0)]),
            ok("a.json", vec![manifest("A", 2, 0)]),
            ok("c.json", vec![manifest("C", 1, 0)]),
        ])
        .unwrap();
    let held: Vec<(String, Vec<String>)> = holder
        .get_repo_with_path()
        .iter()
        .map(|(p, r)| ((*p).clone(), listing(r)))
        .collect();
    assert_eq!(
        held,
        vec![
            ("a.json".to_string(), vec!["A@2.0.0".to_string()]),
            ("b.json".to_string(), vec!["B@1.0.0".to_string()]),
            ("c.json".to_string(), vec!["C@1.0.0".to_string()]),
        ]
    );
    assert_eq!(listing(holder.get_repo(&"b.json".to_string()).unwrap()), vec!["B@1.0.0"]);
    assert_eq!(listing(holder.get_repos()[0]), vec!["A@2.0.0"]);
    assert!(holder.http().is_some());
}

#[test]
fn adding_a_repository_twice_gives_one_entry() {
    let mut env = Environment::new(Some(Client::new()), vec![], vec![]);
    let url = Url::parse("https://example.com/extra.json").unwrap();
    let first = env
        .add_pending_repository(
            url.clone(),
            headers(&[("K", "V")]),
            "Repos/one.json".to_string(),
            Ok(repo(vec![manifest("A", 1, 0)], None)),
        )
        .unwrap();
    assert!(first);
    let second = env
        .add_pending_repository(
            url.clone(),
            Headers::new(),
            "Repos/two.json".to_string(),
            Ok(repo(vec![manifest("B", 1, 0)], None)),
        )
        .unwrap();
    assert!(!second);
    assert_eq!(env.pending_repositories().len(), 1);
    assert_eq!(env.pending_repositories()[0].cache_path(), "Repos/one.json");
    assert_eq!(env.repo_holder.get_repos().len(), 1);
    assert!(env.knows_url(&url));
    assert!(env.repo_holder.get_repo(&"Repos/two.json".to_string()).is_none());
    // a second add that would have failed to load is still no error
    let third = env.add_pending_repository(
        url.clone(),
        Headers::new(),
        "Repos/three.json".to_string(),
        Err(LoadError::NetworkUnavailable),
    );
    assert!(matches!(third, Ok(false)));
}

#[test]
fn a_repository_that_fails_to_load_is_not_added() {
    let mut env = Environment::new(None, vec![], vec![]);
    let url = Url::parse("https://example.com/extra.json").unwrap();
    let r = env.add_pending_repository(
        url.clone(),
        Headers::new(),
        "Repos/x.json".to_string(),
        Err(LoadError::NetworkUnavailable),
    );
    assert!(matches!(r, Err(LoadError::NetworkUnavailable)));
    assert!(env.pending_repositories().is_empty());
    assert!(!env.knows_url(&url));
}

#[test]
fn a_url_of_a_saved_source_is_known() {
    let saved = user_source(Some("https://example.com/saved.json"), "Repos/s.json", &[]);
    let predefined = RepoSource::PreDefined(PreDefinedSource {
        id: "official".to_string(),
        url: Url::parse("https://example.com/official").unwrap(),
        cache_path: "Repos/official.json".to_string(),
    });
    let mut env = Environment::new(None, vec![predefined], vec![saved]);
    assert_eq!(env.sources().len(), 2);
    assert_eq!(env.sources()[0].cache_path(), "Repos/official.json");
    assert_eq!(env.sources()[1].cache_path(), "Repos/s.json");
    for known in ["https://example.com/saved.json", "https://example.com/official"] {
        let r = env
            .add_pending_repository(
                Url::parse(known).unwrap(),
                Headers::new(),
                "Repos/again.json".to_string(),
                Ok(repo(vec![], None)),
            )
            .unwrap();
        assert!(!r);
    }
    assert!(env.pending_repositories().is_empty());
    assert!(env.repo_holder.get_repos().is_empty());
}

#[test]
fn saving_moves_pending_sources_behind_the_saved_ones() {
    let saved = user_source(Some("https://example.com/saved.json"), "Repos/s.json", &[]);
    let mut env = Environment::new(None, vec![], vec![saved]);
    for (i, u) in ["https://example.com/1", "https://example.com/2"].iter().enumerate() {
        env.add_pending_repository(
            Url::parse(u).unwrap(),
            Headers::new(),
            format!("Repos/{}.json", i),
            Ok(repo(vec![], None)),
        )
        .unwrap();
    }
    assert_eq!(env.save_pending_repositories(), 2);
    assert!(env.pending_repositories().is_empty());
    let paths: Vec<String> = env.repository_sources.iter().map(|s| s.cache_path().clone()).collect();
    assert_eq!(paths, vec!["Repos/s.json", "Repos/0.json", "Repos/1.json"]);
    assert_eq!(env.save_pending_repositories(), 0);
    assert_eq!(env.repository_sources.len(), 3);
}

#[test]
fn loading_package_infos_fills_the_holder() {
    let mut env = Environment::new(None, vec![], vec![]);
    env.load_package_infos(vec![ok("a.json", vec![manifest("A", 1, 0), manifest("A", 1, 1)])])
        .unwrap();
    let found = env
        .find_package_by_name(&"A".to_string(), &vpai::range::VersionSelector::latest(false))
        .unwrap();
    assert_eq!(found.version().to_text(), "1.1.0");
    let failed = env.load_package_infos(vec![LoadedSource {
        path: "b.json".to_string(),
        result: Err(LoadError::InvalidCacheData),
    }]);
    assert!(matches!(failed, Err(LoadError::InvalidCacheData)));
    assert_eq!(env.repo_holder.get_repos().len(), 1);
}
