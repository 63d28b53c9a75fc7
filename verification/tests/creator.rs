use vpai::creator::{
    config_json, content_disposition, ends_with, file_name, is_config_asset, read_prerelease,
    read_query, text_equal, CreatorQuery, QueryPair,
};

fn pairs(list: &[(&str, &str)]) -> Vec<QueryPair> {
    list.iter()
        .map(|(k, v)| QueryPair { key: k.to_string(), value: v.to_string() })
        .collect()
}

#[test]
fn the_configuration_entry_is_told_by_its_path() {
    assert!(is_config_asset(b"9028b92d14f444e2b8c389be130d573f/asset"));
    assert!(is_config_asset(b"./9028b92d14f444e2b8c389be130d573f/asset"));
    assert!(!is_config_asset(b"././9028b92d14f444e2b8c389be130d573f/asset"));
    assert!(!is_config_asset(b"/9028b92d14f444e2b8c389be130d573f/asset"));
    assert!(!is_config_asset(b"9028b92d14f444e2b8c389be130d573f/asset.meta"));
    assert!(!is_config_asset(b"9028b92d14f444e2b8c389be130d573f/pathname"));
    assert!(!is_config_asset(b"9028b92d14f444e2b8c389be130d573f/asse"));
    assert!(!is_config_asset(b"9028b92d14f444e2b8c389be130d573e/asset"));
    assert!(!is_config_asset(b""));
    assert!(!is_config_asset(b"./"));
    assert!(!is_config_asset(b"."));
}

#[test]
fn the_prerelease_parameter_says_yes_or_no() {
    assert_eq!(read_prerelease("true"), Some(true));
    assert_eq!(read_prerelease("1"), Some(true));
    assert_eq!(read_prerelease(""), Some(true));
    assert_eq!(read_prerelease("false"), Some(false));
    assert_eq!(read_prerelease("0"), Some(false));
    assert_eq!(read_prerelease("yes"), None);
    assert_eq!(read_prerelease("TRUE"), None);
    assert_eq!(read_prerelease("true "), None);
    assert!(text_equal("abc", "abc"));
    assert!(!text_equal("abc", "abd"));
    assert!(!text_equal("abc", "ab"));
    assert!(!text_equal("ab", "abc"));
    assert!(text_equal("", ""));
}

#[test]
fn a_request_is_read_from_its_parameters() {
    let query = read_query(
        false,
        &pairs(&[
            ("repo", "https://a.example/index.json"),
            ("package", "com.old"),
            ("unknown", "x"),
            ("repos[]", "https://b.example/index.json"),
            ("version", "1.0.0"),
            ("prerelease", "1"),
            ("package", "com.example"),
            ("name", "my-{}"),
            ("prerelease", "false"),
            ("prerelease", ""),
        ]),
    )
    .unwrap();
    assert_eq!(query.repo_urls, vec!["https://a.example/index.json", "https://b.example/index.json"]);
    assert_eq!(query.package, "com.example");
    assert_eq!(query.version, "1.0.0");
    assert!(query.prerelease);
    assert_eq!(query.name, "my-{}");
    let plain = read_query(false, &pairs(&[("version", "2"), ("package", "p")])).unwrap();
    assert!(plain.repo_urls.is_empty());
    assert!(!plain.prerelease);
    assert_eq!(plain.name, "");
}

#[test]
fn a_request_that_cannot_be_served_is_turned_down() {
    let e = read_query(true, &pairs(&[("package", "p"), ("version", "1")])).unwrap_err();
    assert_eq!((e.message.as_str(), e.status), ("Method Not Allowed", 405));
    let e = read_query(false, &pairs(&[("version", "1")])).unwrap_err();
    assert_eq!((e.message.as_str(), e.status), ("get param package is required", 400));
    let e = read_query(false, &pairs(&[("package", "p")])).unwrap_err();
    assert_eq!((e.message.as_str(), e.status), ("get param version is required", 400));
    let e = read_query(false, &pairs(&[])).unwrap_err();
    assert_eq!((e.message.as_str(), e.status), ("get param package is required", 400));
    let e = read_query(false, &pairs(&[("prerelease", "maybe"), ("prerelease", "1")])).unwrap_err();
    assert_eq!((e.message.as_str(), e.status), ("bad prerelease param. true|false|1|0 expected", 400));
    let e = read_query(true, &pairs(&[("prerelease", "maybe")])).unwrap_err();
    assert_eq!(e.status, 405);
}

#[test]
fn the_configuration_is_written_as_json() {
    let query = CreatorQuery {
        repo_urls: vec!["https://a.example/i.json".to_string(), "https://b.example/\"q\"".to_string()],
        package: "com.example".to_string(),
        version: ">=1.0.0 <2.0.0".to_string(),
        prerelease: true,
        name: String::new(),
    };
    let text = config_json(&query);
    assert_eq!(
        text,
        "{\"includePrerelease\":true,\"vpmDependencies\":{\"com.example\":\">=1.0.0 <2.0.0\"},\
         \"vpmRepositories\":[\"https://a.example/i.json\",\"https://b.example/\\\"q\\\"\"]}"
    );
    let value: serde_json::Value = serde_json::from_str(&text).unwrap();
    assert_eq!(value["vpmDependencies"]["com.example"], ">=1.0.0 <2.0.0");
    assert_eq!(value["vpmRepositories"][1], "https://b.example/\"q\"");
    assert_eq!(value["includePrerelease"], true);
    let none = CreatorQuery {
        repo_urls: vec![],
        package: "tab\there".to_string(),
        version: "1".to_string(),
        prerelease: false,
        name: String::new(),
    };
    assert_eq!(
        config_json(&none),
        "{\"includePrerelease\":false,\"vpmDependencies\":{\"tab\\there\":\"1\"},\"vpmRepositories\":[]}"
    );
}

#[test]
fn the_package_file_is_named_after_the_request() {
    assert_eq!(file_name("", "1.0.0"), "installer.unitypackage");
    assert_eq!(file_name("foo", "1.0.0"), "foo.unitypackage");
    assert_eq!(file_name("foo.unitypackage", "1.0.0"), "foo.unitypackage");
    assert_eq!(file_name(".unitypackage", "1.0.0"), ".unitypackage");
    assert_eq!(file_name("unitypackage", "1.0.0"), "unitypackage.unitypackage");
    assert_eq!(file_name("pkg-{}", "1.2.3"), "pkg-1.2.3.unitypackage");
    assert_eq!(file_name("{}{}.unitypackage", "v"), "vv.unitypackage");
    assert_eq!(file_name("{{}}", "x"), "{x}.unitypackage");
    assert_eq!(file_name("{", "x"), "{.unitypackage");
    assert_eq!(file_name("a}{b", "x"), "a}{b.unitypackage");
    assert_eq!(file_name("{}", "{}"), "{}.unitypackage");
    assert_eq!(file_name("é{}", ""), "é.unitypackage");
    let a: Vec<char> = "abc".chars().collect();
    let b: Vec<char> = "bc".chars().collect();
    assert!(ends_with(&a, &b));
    assert!(!ends_with(&b, &a));
    assert!(ends_with(&a, &vec![]));
    assert!(!ends_with(&a, &"ab".chars().collect()));
}

#[test]
fn the_download_is_offered_under_an_encoded_name() {
    assert_eq!(
        content_disposition("installer.unitypackage"),
        "attachment; filename*=utf8''installer%2Eunitypackage"
    );
    assert_eq!(content_disposition("foo bar?"), "attachment; filename*=utf8''foo%20bar%3F");
    assert_eq!(content_disposition("é"), "attachment; filename*=utf8''%C3%A9");
    assert_eq!(content_disposition("aZ09"), "attachment; filename*=utf8''aZ09");
    assert_eq!(content_disposition("_-~/"), "attachment; filename*=utf8''%5F%2D%7E%2F");
    assert_eq!(content_disposition(""), "attachment; filename*=utf8''");
}
