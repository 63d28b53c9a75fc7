//! The rules by which an installer package is made: which entry of the
//! package template holds the configuration, how a request for a package is
//! read, what the configuration says, and how the package file is named.

use crate::text::{has_prefix, push_char};
use percent_encoding::{utf8_percent_encode, NON_ALPHANUMERIC};
use vstd::prelude::*;
use vstd::string::*;

verus! {

/// The path of the entry that holds the configuration.
pub open spec fn asset_path() -> Seq<u8> {
    "9028b92d14f444e2b8c389be130d573f/asset".spec_bytes()
}

/// `path` without a leading `./`.
pub open spec fn entry_path(path: Seq<u8>) -> Seq<u8> {
    if path.len() >= 2 && path[0] == 46 && path[1] == 47 {
        path.skip(2)
    } else {
        path
    }
}

/// Whether the entry at `path` of a package template is the one that holds
/// the configuration. A leading `./` does not count.
pub fn is_config_asset(path: &[u8]) -> (r: bool)
    ensures
        r == (entry_path(path@) == asset_path()),
{
    let asset = "9028b92d14f444e2b8c389be130d573f/asset".as_bytes();
    let skip: usize = if path.len() >= 2 && path[0] == 46 && path[1] == 47 {
        2
    } else {
        0
    };
    let ghost entry = entry_path(path@);
    assert(entry.len() == path@.len() - skip);
    if path.len() - skip != asset.len() {
        return false;
    }
    let n = asset.len();
    let m = path.len();
    let mut i: usize = 0;
    while i < n
        invariant
            i <= n,
            n == asset@.len(),
            m == path@.len(),
            n + skip == m,
            asset@ == asset_path(),
            entry == entry_path(path@),
            entry.len() == asset@.len(),
            forall|k: int| 0 <= k < entry.len() ==> entry[k] == path@[k + skip],
            forall|k: int| 0 <= k < i ==> entry[k] == asset@[k],
        decreases n - i,
    {
        if path[i + skip] != asset[i] {
            assert(entry[i as int] != asset@[i as int]);
            return false;
        }
        i += 1;
    }
    assert(entry =~= asset@);
    true
}

/// Whether `a` and `b` are the same text.
pub fn text_equal(a: &str, b: &str) -> (r: bool)
    ensures
        r == (a@ == b@),
{
    if a.unicode_len() != b.unicode_len() {
        return false;
    }
    let r = has_prefix(a, b);
    proof {
        if r {
            assert(a@ =~= a@.subrange(0, b@.len() as int));
        }
    }
    r
}

/// What the parameter `prerelease` of a request says: `true`, `1` or
/// nothing for yes; `false` or `0` for no.
pub open spec fn prerelease_of(value: Seq<char>) -> Option<bool> {
    if value == "true"@ || value == "1"@ || value == ""@ {
        Some(true)
    } else if value == "false"@ || value == "0"@ {
        Some(false)
    } else {
        None
    }
}

/// What the parameter `prerelease` of a request says.
pub fn read_prerelease(value: &str) -> (r: Option<bool>)
    ensures
        r == prerelease_of(value@),
{
    if text_equal(value, "true") || text_equal(value, "1") || text_equal(value, "") {
        Some(true)
    } else if text_equal(value, "false") || text_equal(value, "0") {
        Some(false)
    } else {
        None
    }
}

/// One parameter of a request.
#[derive(Debug)]
pub struct QueryPair {
    pub key: String,
    pub value: String,
}

impl View for QueryPair {
    type V = (Seq<char>, Seq<char>);

    open spec fn view(&self) -> (Seq<char>, Seq<char>) {
        (self.key@, self.value@)
    }
}

/// The views of a list of parameters, in order.
pub open spec fn pair_views(pairs: Seq<QueryPair>) -> Seq<(Seq<char>, Seq<char>)> {
    Seq::new(pairs.len(), |i: int| pairs[i]@)
}

/// What a request for an installer package asks for.
#[derive(Debug)]
pub struct CreatorQuery {
    /// The repositories that the installer is to add.
    pub repo_urls: Vec<String>,
    /// The package that the installer is to install.
    pub package: String,
    /// The version of the package, as the request wrote it.
    pub version: String,
    /// Whether prereleases may be chosen.
    pub prerelease: bool,
    /// The name for the package file; empty where the request gave none.
    pub name: String,
}

/// What a [`CreatorQuery`] stands for.
pub struct QueryView {
    pub repo_urls: Seq<Seq<char>>,
    pub package: Seq<char>,
    pub version: Seq<char>,
    pub prerelease: bool,
    pub name: Seq<char>,
}

impl View for CreatorQuery {
    type V = QueryView;

    open spec fn view(&self) -> QueryView {
        QueryView {
            repo_urls: crate::manifest::string_views(self.repo_urls@),
            package: self.package@,
            version: self.version@,
            prerelease: self.prerelease,
            name: self.name@,
        }
    }
}

/// Why a request is turned down: the message and the status of the answer.
#[derive(Debug)]
pub struct QueryError {
    pub message: String,
    pub status: u16,
}

/// What has been read of the parameters of a request.
pub struct QueryState {
    pub repo_urls: Seq<Seq<char>>,
    pub package: Option<Seq<char>>,
    pub version: Option<Seq<char>>,
    pub prerelease: bool,
    pub name: Seq<char>,
    /// Whether a parameter `prerelease` said neither yes nor no.
    pub failed: bool,
}

/// What has been read once the parameter `pair` was taken in. Of a
/// parameter that is given several times the last one counts, but for the
/// repositories, which are all kept. Other parameters are passed over.
pub open spec fn query_step(state: QueryState, pair: (Seq<char>, Seq<char>)) -> QueryState {
    if state.failed {
        state
    } else if pair.0 == "repo"@ || pair.0 == "repos[]"@ {
        QueryState { repo_urls: state.repo_urls.push(pair.1), ..state }
    } else if pair.0 == "package"@ {
        QueryState { package: Some(pair.1), ..state }
    } else if pair.0 == "version"@ {
        QueryState { version: Some(pair.1), ..state }
    } else if pair.0 == "prerelease"@ {
        match prerelease_of(pair.1) {
            Some(flag) => QueryState { prerelease: flag, ..state },
            None => QueryState { failed: true, ..state },
        }
    } else if pair.0 == "name"@ {
        QueryState { name: pair.1, ..state }
    } else {
        state
    }
}

/// What has been read of the first `n` of `pairs`.
pub open spec fn query_state(pairs: Seq<(Seq<char>, Seq<char>)>, n: int) -> QueryState
    decreases n,
{
    if n <= 0 {
        QueryState {
            repo_urls: Seq::empty(),
            package: None,
            version: None,
            prerelease: false,
            name: Seq::empty(),
            failed: false,
        }
    } else {
        query_step(query_state(pairs, n - 1), pairs[n - 1])
    }
}

/// What a request with the parameters `pairs` asks for, or the message and
/// status with which it is turned down.
pub open spec fn query_of(post: bool, pairs: Seq<(Seq<char>, Seq<char>)>) -> Result<
    QueryView,
    (Seq<char>, u16),
> {
    let state = query_state(pairs, pairs.len() as int);
    if post {
        Err(("Method Not Allowed"@, 405u16))
    } else if state.failed {
        Err(("bad prerelease param. true|false|1|0 expected"@, 400u16))
    } else if state.package is None {
        Err(("get param package is required"@, 400u16))
    } else if state.version is None {
        Err(("get param version is required"@, 400u16))
    } else {
        Ok(
            QueryView {
                repo_urls: state.repo_urls,
                package: state.package->Some_0,
                version: state.version->Some_0,
                prerelease: state.prerelease,
                name: state.name,
            },
        )
    }
}

/// Once a parameter could not be read, later parameters change nothing.
proof fn lemma_failed_stays(pairs: Seq<(Seq<char>, Seq<char>)>, failed_at: int, n: int)
    requires
        0 <= failed_at <= n,
        query_state(pairs, failed_at).failed,
    ensures
        query_state(pairs, n) == query_state(pairs, failed_at),
    decreases n - failed_at,
{
    if failed_at < n {
        lemma_failed_stays(pairs, failed_at, n - 1);
    }
}

/// Reads a request for an installer package. `post` says whether the
/// request was made with the method POST, which is not allowed.
pub fn read_query(post: bool, pairs: &Vec<QueryPair>) -> (r: Result<CreatorQuery, QueryError>)
    ensures
        match r {
            Ok(query) => query_of(post, pair_views(pairs@)) == Ok::<QueryView, (Seq<char>, u16)>(
                query@,
            ),
            Err(e) => query_of(post, pair_views(pairs@)) == Err::<QueryView, (Seq<char>, u16)>(
                (e.message@, e.status),
            ),
        },
{
    if post {
        return Err(QueryError { message: "Method Not Allowed".to_owned(), status: 405 });
    }
    let ghost views = pair_views(pairs@);
    let mut repo_urls: Vec<String> = Vec::new();
    let mut package: Option<String> = None;
    let mut version: Option<String> = None;
    let mut prerelease = false;
    let mut name = String::new();
    assert(crate::manifest::string_views(repo_urls@) =~= Seq::empty());
    let mut i: usize = 0;
    while i < pairs.len()
        invariant
            i <= pairs.len(),
            !post,
            views == pair_views(pairs@),
            query_state(views, i as int) == (QueryState {
                repo_urls: crate::manifest::string_views(repo_urls@),
                package: crate::repository::text_view(package),
                version: crate::repository::text_view(version),
                prerelease,
                name: name@,
                failed: false,
            }),
        decreases pairs.len() - i,
    {
        let key = pairs[i].key.as_str();
        let value = &pairs[i].value;
        assert(views[i as int] == (key@, value@));
        let ghost before = crate::manifest::string_views(repo_urls@);
        if text_equal(key, "repo") || text_equal(key, "repos[]") {
            repo_urls.push(value.clone());
            assert(crate::manifest::string_views(repo_urls@) =~= before.push(value@));
        } else if text_equal(key, "package") {
            package = Some(value.clone());
        } else if text_equal(key, "version") {
            version = Some(value.clone());
        } else if text_equal(key, "prerelease") {
            match read_prerelease(value.as_str()) {
                Some(flag) => {
                    prerelease = flag;
                },
                None => {
                    proof {
                        assert(query_state(views, i + 1).failed);
                        lemma_failed_stays(views, i + 1, views.len() as int);
                    }
                    return Err(
                        QueryError {
                            message: "bad prerelease param. true|false|1|0 expected".to_owned(),
                            status: 400,
                        },
                    );
                },
            }
        } else if text_equal(key, "name") {
            name = value.clone();
        }
        i += 1;
    }
    let package = match package {
        Some(package) => package,
        None => {
            return Err(
                QueryError { message: "get param package is required".to_owned(), status: 400 },
            );
        },
    };
    let version = match version {
        Some(version) => version,
        None => {
            return Err(
                QueryError { message: "get param version is required".to_owned(), status: 400 },
            );
        },
    };
    Ok(CreatorQuery { repo_urls, package, version, prerelease, name })
}

/// The text of `text` as a JSON string, quotes included.
pub uninterp spec fn json_text(text: Seq<char>) -> Seq<char>;

/// `serde_json::to_string` on a text: the text as a JSON string.
#[verifier::external_body]
fn json_string(text: &str) -> (r: String)
    ensures
        r@ == json_text(text@),
{
    serde_json::to_string(text).unwrap_or_default()
}

/// The JSON strings of the first `n` of `texts`, with commas between them.
pub open spec fn json_list(texts: Seq<Seq<char>>, n: int) -> Seq<char>
    decreases n,
{
    if n <= 0 {
        Seq::empty()
    } else if n == 1 {
        json_text(texts[0])
    } else {
        json_list(texts, n - 1) + seq![','] + json_text(texts[n - 1])
    }
}

/// The configuration that an installer for `query` carries, as JSON: whether
/// prereleases may be chosen, the package with its version, and the
/// repositories.
pub open spec fn config_text(query: QueryView) -> Seq<char> {
    "{\"includePrerelease\":"@ + (if query.prerelease {
        "true"@
    } else {
        "false"@
    }) + ",\"vpmDependencies\":{"@ + json_text(query.package) + seq![':'] + json_text(
        query.version,
    ) + "},\"vpmRepositories\":["@ + json_list(query.repo_urls, query.repo_urls.len() as int)
        + "]}"@
}

/// The configuration that an installer for `query` carries, as JSON.
pub fn config_json(query: &CreatorQuery) -> (r: String)
    ensures
        r@ == config_text(query@),
{
    let mut out = "{\"includePrerelease\":".to_owned();
    if query.prerelease {
        out.append("true");
    } else {
        out.append("false");
    }
    out.append(",\"vpmDependencies\":{");
    out.append(json_string(query.package.as_str()).as_str());
    push_char(&mut out, ':');
    out.append(json_string(query.version.as_str()).as_str());
    out.append("},\"vpmRepositories\":[");
    let ghost head = out@;
    let ghost urls = query@.repo_urls;
    let mut i: usize = 0;
    assert(out@ =~= head + json_list(urls, 0));
    while i < query.repo_urls.len()
        invariant
            i <= query.repo_urls.len(),
            urls == query@.repo_urls,
            out@ == head + json_list(urls, i as int),
        decreases query.repo_urls.len() - i,
    {
        if i > 0 {
            push_char(&mut out, ',');
        }
        out.append(json_string(query.repo_urls[i].as_str()).as_str());
        proof {
            assert(urls[i as int] == query.repo_urls@[i as int]@);
            if i > 0 {
                assert(out@ =~= head + (json_list(urls, i as int) + seq![','] + json_text(
                    urls[i as int],
                )));
            } else {
                assert(out@ =~= head + json_text(urls[0]));
            }
        }
        i += 1;
    }
    out.append("]}");
    assert(out@ =~= config_text(query@));
    out
}

/// `text` from `from` on, with `with` in the place of every `{}`.
pub open spec fn braces_replaced(text: Seq<char>, with: Seq<char>, from: int) -> Seq<char>
    decreases text.len() - from,
{
    if from < 0 || from >= text.len() {
        Seq::empty()
    } else if from + 1 < text.len() && text[from] == '{' && text[from + 1] == '}' {
        with + braces_replaced(text, with, from + 2)
    } else {
        seq![text[from]] + braces_replaced(text, with, from + 1)
    }
}

/// Whether `text` ends with `suffix`.
pub open spec fn has_suffix(text: Seq<char>, suffix: Seq<char>) -> bool {
    suffix.len() <= text.len() && text.subrange(text.len() - suffix.len(), text.len() as int)
        == suffix
}

/// The name of the package file before the version is filled in: the name
/// that was asked for, with the ending `.unitypackage` where it lacks it,
/// or `installer.unitypackage` where none was asked for.
pub open spec fn base_name(name: Seq<char>) -> Seq<char> {
    if name.len() == 0 {
        "installer.unitypackage"@
    } else if !has_suffix(name, ".unitypackage"@) {
        name + ".unitypackage"@
    } else {
        name
    }
}

/// The name of the package file: the base name with the version in the
/// place of every `{}`.
pub open spec fn package_file_name(name: Seq<char>, version: Seq<char>) -> Seq<char> {
    braces_replaced(base_name(name), version, 0)
}

/// Whether `text` ends with `suffix`.
pub fn ends_with(text: &Vec<char>, suffix: &Vec<char>) -> (r: bool)
    ensures
        r == has_suffix(text@, suffix@),
{
    if suffix.len() > text.len() {
        return false;
    }
    let offset = text.len() - suffix.len();
    let mut i: usize = 0;
    while i < suffix.len()
        invariant
            i <= suffix.len(),
            offset + suffix.len() == text.len(),
            forall|k: int| 0 <= k < i ==> text@[offset + k] == suffix@[k],
        decreases suffix.len() - i,
    {
        if text[offset + i] != suffix[i] {
            assert(text@.subrange(offset as int, text.len() as int)[i as int] != suffix@[i as int]);
            return false;
        }
        i += 1;
    }
    assert(text@.subrange(offset as int, text.len() as int) =~= suffix@);
    true
}

/// The name of the package file for a request that asked for the name
/// `name`, or for none with the empty text, and for the version `version`.
pub fn file_name(name: &str, version: &str) -> (r: String)
    ensures
        r@ == package_file_name(name@, version@),
{
    let mut base = crate::parse::chars_of(name);
    let ending = crate::parse::chars_of(".unitypackage");
    if base.len() == 0 {
        base = crate::parse::chars_of("installer.unitypackage");
    } else if !ends_with(&base, &ending) {
        let ghost before = base@;
        let mut j: usize = 0;
        while j < ending.len()
            invariant
                j <= ending.len(),
                base@ == before + ending@.subrange(0, j as int),
            decreases ending.len() - j,
        {
            base.push(ending[j]);
            assert(base@ =~= before + ending@.subrange(0, j + 1));
            j += 1;
        }
        assert(ending@.subrange(0, ending.len() as int) =~= ending@);
    }
    assert(base@ == base_name(name@));
    let mut out = String::new();
    let mut i: usize = 0;
    let ghost whole = braces_replaced(base@, version@, 0);
    assert(out@ + braces_replaced(base@, version@, 0) =~= whole);
    while i < base.len()
        invariant
            i <= base.len(),
            out@ + braces_replaced(base@, version@, i as int) == whole,
        decreases base.len() - i,
    {
        let ghost before = out@;
        if base[i] == '{' && i + 1 < base.len() && base[i + 1] == '}' {
            out.append(version);
            assert(out@ + braces_replaced(base@, version@, i + 2) =~= before + (version@
                + braces_replaced(base@, version@, i + 2)));
            i += 2;
        } else {
            push_char(&mut out, base[i]);
            assert(out@ + braces_replaced(base@, version@, i + 1) =~= before + (seq![base@[i as int]]
                + braces_replaced(base@, version@, i + 1)));
            i += 1;
        }
    }
    assert(out@ + Seq::<char>::empty() =~= out@);
    out
}

/// Whether `byte` is a letter or a digit of the basic alphabet.
pub open spec fn is_alphanumeric(byte: u8) -> bool {
    (48 <= byte <= 57) || (65 <= byte <= 90) || (97 <= byte <= 122)
}

/// The character that writes `n` as one digit of base sixteen, with capital
/// letters.
pub open spec fn hex_digit(n: int) -> char {
    if n < 10 {
        (48 + n) as u8 as char
    } else {
        (55 + n) as u8 as char
    }
}

/// The first `n` of `bytes`, percent-encoded: letters and digits stand for
/// themselves, and any other byte is written `%` and its two digits of base
/// sixteen.
pub open spec fn percent_encoded(bytes: Seq<u8>, n: int) -> Seq<char>
    decreases n,
{
    if n <= 0 {
        Seq::empty()
    } else if is_alphanumeric(bytes[n - 1]) {
        percent_encoded(bytes, n - 1) + seq![bytes[n - 1] as char]
    } else {
        percent_encoded(bytes, n - 1) + seq![
            '%',
            hex_digit(bytes[n - 1] as int / 16),
            hex_digit(bytes[n - 1] as int % 16),
        ]
    }
}

/// `percent_encoding::utf8_percent_encode` with the set `NON_ALPHANUMERIC`:
/// the bytes of the text in UTF-8, each letter and digit of the basic
/// alphabet as itself and every other byte as `%` and two capital digits of
/// base sixteen.
#[verifier::external_body]
fn percent_encode_text(text: &str) -> (r: String)
    ensures
        r@ == percent_encoded(text.spec_bytes(), text.spec_bytes().len() as int),
{
    utf8_percent_encode(text, NON_ALPHANUMERIC).to_string()
}

/// The header that offers a download under the name `name`.
pub fn content_disposition(name: &str) -> (r: String)
    ensures
        r@ == "attachment; filename*=utf8''"@ + percent_encoded(
            name.spec_bytes(),
            name.spec_bytes().len() as int,
        ),
{
    let mut out = "attachment; filename*=utf8''".to_owned();
    out.append(percent_encode_text(name).as_str());
    out
}

} // verus!
