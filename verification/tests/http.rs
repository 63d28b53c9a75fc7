use vpai::headers::Headers;
use vpai::http::{
    AsStream, Client, Error, HeaderField, HeaderMap, HeaderValue, Inner, IntoUrl, Response, Url,
};
use vpai::text::{chars_match, eq_ignoring_case, has_prefix};

fn fields(pairs: &[(&str, &str)]) -> Vec<HeaderField> {
    pairs
        .iter()
        .map(|(n, v)| HeaderField { name: n.to_string(), value: v.to_string() })
        .collect()
}

#[test]
fn a_url_is_http_or_https() {
    assert_eq!(Url::parse("https://example.com/a?b=c").unwrap().as_str(), "https://example.com/a?b=c");
    assert_eq!(Url::parse("http://example.com").unwrap().as_str(), "http://example.com");
    for bad in ["", "example.com", "ftp://example.com", "https:/example.com", "HTTP", " http://x"] {
        match Url::parse(bad) {
            Err(e) => {
                assert!(matches!(*e.inner, Inner::ParseUrlError));
                assert_eq!(e.message(), "http/https url expected");
            }
            Ok(u) => panic!("{:?} was taken for a URL: {:?}", bad, u),
        }
    }
    let a = Url::parse("https://example.com/a").unwrap();
    assert!(a.equals(&a.clone()));
    assert!(!a.equals(&Url::parse("https://example.com/b").unwrap()));
}

#[test]
fn texts_and_urls_turn_into_urls() {
    assert_eq!("https://example.com".into_url().unwrap().as_str(), "https://example.com");
    let owned = "http://example.com/x".to_string();
    assert_eq!((&owned).into_url().unwrap().as_str(), "http://example.com/x");
    let url = Url::parse("https://example.com").unwrap();
    assert_eq!(url.into_url().unwrap().as_str(), "https://example.com");
    assert!("nope".into_url().is_err());
    assert!(Url { url: "nope".to_string() }.into_url().is_err());
}

#[test]
fn a_request_collects_headers_in_order() {
    let client = Client::new();
    let request = client
        .get("https://example.com/r")
        .header("A", "1")
        .header("B", "2")
        .header("A", "3");
    let parts = request.send().unwrap();
    assert_eq!(parts.url.as_str(), "https://example.com/r");
    let sent: Vec<(String, String)> =
        parts.headers.iter().map(|f| (f.name.clone(), f.value.clone())).collect();
    assert_eq!(
        sent,
        vec![
            ("A".to_string(), "1".to_string()),
            ("B".to_string(), "2".to_string()),
            ("A".to_string(), "3".to_string())
        ]
    );
}

#[test]
fn a_request_to_a_bad_url_fails_when_sent() {
    let client = Client::new();
    let request = client.get("gopher://example.com").header("A", "1");
    let e = request.send().unwrap_err();
    assert_eq!(e.message(), "http/https url expected");
}

#[test]
fn error_statuses_are_errors() {
    for status in [400u32, 404, 499, 500, 503, 599] {
        let e = Response::new(status, HeaderMap::new(vec![]), vec![]).error_for_status().unwrap_err();
        assert!(matches!(*e.inner, Inner::ErrorStatusCode(s) if s == status));
    }
    for status in [0u32, 100, 200, 204, 301, 304, 399, 600, 1000] {
        let r = Response::new(status, HeaderMap::new(vec![]), b"x".to_vec()).error_for_status().unwrap();
        assert_eq!(r.status(), status);
        assert_eq!(r.bytes().unwrap(), b"x".to_vec());
    }
}

#[test]
fn error_messages() {
    assert_eq!(Error::status_code(404).message(), "HTTP status client error (404)");
    assert_eq!(Error::status_code(400).message(), "HTTP status client error (400)");
    assert_eq!(Error::status_code(499).message(), "HTTP status client error (499)");
    assert_eq!(Error::status_code(500).message(), "HTTP status server error (500)");
    assert_eq!(Error::status_code(7).message(), "HTTP status server error (7)");
    assert_eq!(Error::cs("boom".to_string()).message(), "boom");
    assert_eq!(Error::json("expected value".to_string()).message(), "expected value");
    assert_eq!(Error::parse_err().message(), "http/https url expected");
    let bad = Error::url_bad_scheme(Url::parse("http://x").unwrap());
    assert_eq!(bad.message(), "URL scheme is not allowed");
    assert_eq!(bad.clone().message(), "URL scheme is not allowed");
    assert_eq!(Error::status_code(404).clone().message(), "HTTP status client error (404)");
}

#[test]
fn headers_are_found_whatever_the_case() {
    let map = HeaderMap::new(fields(&[
        ("Content-Type", "text/plain"),
        ("ETag", "\"one\""),
        ("etag", "\"two\""),
        ("Etagx", "no"),
    ]));
    assert_eq!(map.get("Etag").unwrap().to_string().unwrap(), "\"one\"");
    assert_eq!(map.get("ETAG").unwrap().to_string().unwrap(), "\"one\"");
    assert_eq!(map.get("content-type").unwrap().to_string().unwrap(), "text/plain");
    assert!(map.get("Eta").is_none());
    assert!(map.get("Missing").is_none());
    assert!(HeaderMap::new(vec![]).get("Etag").is_none());
    assert_eq!(HeaderValue { text: "v".to_string() }.to_string().unwrap(), "v");
}

#[test]
fn what_the_host_reports_decides_what_was_received() {
    let r = Response::received(Response::new(200, HeaderMap::new(vec![]), b"ok".to_vec()), String::new())
        .unwrap();
    assert_eq!(r.status(), 200);
    assert_eq!(r.headers().fields.len(), 0);
    let e = Response::received(
        Response::new(200, HeaderMap::new(vec![]), vec![]),
        "timed out".to_string(),
    )
    .unwrap_err();
    assert!(matches!(&*e.inner, Inner::CSharpError(m) if m == "timed out"));
}

#[test]
fn a_stream_ends_with_an_empty_piece() {
    assert!(AsStream::item(Ok(vec![])).is_none());
    assert_eq!(AsStream::item(Ok(vec![1, 2])).unwrap().unwrap(), vec![1, 2]);
    let e = AsStream::item(Err(Error::cs("x".to_string()))).unwrap().unwrap_err();
    assert_eq!(e.message(), "x");
    let mut stream = Response::new(200, HeaderMap::new(vec![]), b"body".to_vec()).bytes_stream();
    assert_eq!(stream.next().unwrap().unwrap(), b"body".to_vec());
    assert!(stream.next().is_none());
    assert!(stream.next().is_none());
    let mut empty = Response::new(200, HeaderMap::new(vec![]), vec![]).bytes_stream();
    assert!(empty.next().is_none());
}

#[test]
fn prefixes_and_letter_case() {
    assert!(has_prefix("https://x", "https://"));
    assert!(has_prefix("abc", ""));
    assert!(has_prefix("abc", "abc"));
    assert!(!has_prefix("ab", "abc"));
    assert!(!has_prefix("abd", "abc"));
    assert!(has_prefix("héllo", "hé"));
    assert!(chars_match('a', 'A'));
    assert!(chars_match('Z', 'z'));
    assert!(chars_match('-', '-'));
    assert!(!chars_match('a', 'b'));
    assert!(!chars_match('@', '`'));
    assert!(!chars_match('[', '{'));
    assert!(!chars_match('1', 'Q'));
    assert!(eq_ignoring_case("ETag", "etag"));
    assert!(eq_ignoring_case("", ""));
    assert!(!eq_ignoring_case("etag", "etags"));
    assert!(!eq_ignoring_case("e-tag", "e_tag"));
}

#[test]
fn headers_keep_their_order_and_one_value_per_name() {
    let mut h = Headers::new();
    assert_eq!(h.len(), 0);
    assert!(h.get_index(0).is_none());
    h.insert("A".to_string(), "1".to_string());
    h.insert("B".to_string(), "2".to_string());
    h.insert("C".to_string(), "3".to_string());
    h.insert("A".to_string(), "4".to_string());
    assert_eq!(h.len(), 3);
    let all: Vec<(String, String)> = (0..h.len())
        .map(|i| {
            let (k, v) = h.get_index(i).unwrap();
            (k.clone(), v.clone())
        })
        .collect();
    assert_eq!(
        all,
        vec![
            ("A".to_string(), "4".to_string()),
            ("B".to_string(), "2".to_string()),
            ("C".to_string(), "3".to_string())
        ]
    );
    assert!(h.get_index(3).is_none());
    assert_eq!(h.get(&"B".to_string()), Some(&"2".to_string()));
    assert_eq!(h.get(&"b".to_string()), None);
    let copy = h.clone();
    h.insert("D".to_string(), "5".to_string());
    assert_eq!(copy.len(), 3);
    assert_eq!(h.len(), 4);
    assert_eq!(copy.get(&"A".to_string()), Some(&"4".to_string()));
}
