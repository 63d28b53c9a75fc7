//! The network-fetch capability as plain values: what a request asks for,
//! what a response carries, and the decisions made on them. Performing a
//! request is left to the caller.

use crate::text::{decimal, eq_ignoring_case, has_prefix, push_decimal, same_ignoring_case};
use vstd::prelude::*;
use vstd::string::*;

verus! {

/// Whether `text` is the text of an http or https URL.
pub open spec fn is_http_url(text: Seq<char>) -> bool {
    "http://"@.is_prefix_of(text) || "https://"@.is_prefix_of(text)
}

/// An http or https URL.
#[derive(Debug)]
pub struct Url {
    pub url: String,
}

impl View for Url {
    type V = Seq<char>;

    open spec fn view(&self) -> Seq<char> {
        self.url@
    }
}

impl Url {
    /// Whether the text is that of an http or https URL.
    pub open spec fn wf(&self) -> bool {
        is_http_url(self@)
    }

    /// The URL that `text` writes; an error where `text` is no http or
    /// https URL.
    pub fn parse(text: &str) -> (r: Result<Url, Error>)
        ensures
            match r {
                Ok(url) => is_http_url(text@) && url@ == text@ && url.wf(),
                Err(e) => !is_http_url(text@) && e@ == ErrorView::ParseUrlError,
            },
    {
        if has_prefix(text, "http://") || has_prefix(text, "https://") {
            Ok(Url { url: text.to_owned() })
        } else {
            Err(Error::parse_err())
        }
    }

    /// The URL as text.
    pub fn as_str(&self) -> (r: &str)
        ensures
            r@ == self@,
    {
        self.url.as_str()
    }

    /// Whether `self` and `other` are the same URL.
    pub fn equals(&self, other: &Url) -> (r: bool)
        ensures
            r == (self@ == other@),
    {
        self.url == other.url
    }
}

impl Clone for Url {
    fn clone(&self) -> (r: Self)
        ensures
            r@ == self@,
    {
        Url { url: self.url.clone() }
    }
}

/// Why a request was not made or not answered as hoped.
#[derive(Debug)]
pub enum Inner {
    /// The URL's scheme is not allowed.
    BadScheme(Url),
    /// The response carried a status that reports an error.
    ErrorStatusCode(u32),
    /// The host reported an error, in its own words.
    CSharpError(String),
    /// The body was not the JSON that was expected; the text says why.
    JsonError(String),
    /// The text is no http or https URL.
    ParseUrlError,
}

/// An error of the network-fetch capability.
#[derive(Debug)]
pub struct Error {
    pub inner: Box<Inner>,
}

/// What an [`Error`] stands for.
pub enum ErrorView {
    BadScheme(Seq<char>),
    ErrorStatusCode(u32),
    CSharpError(Seq<char>),
    JsonError(Seq<char>),
    ParseUrlError,
}

impl View for Error {
    type V = ErrorView;

    open spec fn view(&self) -> ErrorView {
        match *self.inner {
            Inner::BadScheme(url) => ErrorView::BadScheme(url@),
            Inner::ErrorStatusCode(code) => ErrorView::ErrorStatusCode(code),
            Inner::CSharpError(message) => ErrorView::CSharpError(message@),
            Inner::JsonError(message) => ErrorView::JsonError(message@),
            Inner::ParseUrlError => ErrorView::ParseUrlError,
        }
    }
}

impl ErrorView {
    /// The error in words.
    pub open spec fn message(self) -> Seq<char> {
        match self {
            ErrorView::BadScheme(_) => "URL scheme is not allowed"@,
            ErrorView::ErrorStatusCode(code) => if 400 <= code <= 499 {
                "HTTP status client error ("@ + decimal(code as nat) + ")"@
            } else {
                "HTTP status server error ("@ + decimal(code as nat) + ")"@
            },
            ErrorView::CSharpError(message) => message,
            ErrorView::JsonError(message) => message,
            ErrorView::ParseUrlError => "http/https url expected"@,
        }
    }
}

impl Error {
    fn new(inner: Inner) -> (e: Error)
        ensures
            *e.inner == inner,
    {
        Error { inner: Box::new(inner) }
    }

    /// The error of a URL whose scheme is not allowed.
    pub fn url_bad_scheme(url: Url) -> (e: Error)
        ensures
            e@ == ErrorView::BadScheme(url@),
    {
        Error::new(Inner::BadScheme(url))
    }

    /// The error of a response with the status `code`.
    pub fn status_code(code: u32) -> (e: Error)
        ensures
            e@ == ErrorView::ErrorStatusCode(code),
    {
        Error::new(Inner::ErrorStatusCode(code))
    }

    /// The error that the host reported as `message`.
    pub fn cs(message: String) -> (e: Error)
        ensures
            e@ == ErrorView::CSharpError(message@),
    {
        Error::new(Inner::CSharpError(message))
    }

    /// The error of a body that is not the expected JSON.
    pub fn json(message: String) -> (e: Error)
        ensures
            e@ == ErrorView::JsonError(message@),
    {
        Error::new(Inner::JsonError(message))
    }

    /// The error of a text that is no http or https URL.
    pub fn parse_err() -> (e: Error)
        ensures
            e@ == ErrorView::ParseUrlError,
    {
        Error::new(Inner::ParseUrlError)
    }

    /// The error in words.
    pub fn message(&self) -> (r: String)
        ensures
            r@ == self@.message(),
    {
        match &*self.inner {
            Inner::BadScheme(_) => "URL scheme is not allowed".to_owned(),
            Inner::ErrorStatusCode(code) => {
                let mut out = if 400 <= *code && *code <= 499 {
                    "HTTP status client error (".to_owned()
                } else {
                    "HTTP status server error (".to_owned()
                };
                push_decimal(&mut out, *code as u64);
                out.append(")");
                out
            },
            Inner::CSharpError(message) => message.clone(),
            Inner::JsonError(message) => message.clone(),
            Inner::ParseUrlError => "http/https url expected".to_owned(),
        }
    }
}

impl Clone for Error {
    fn clone(&self) -> (r: Self)
        ensures
            r@ == self@,
    {
        match &*self.inner {
            Inner::BadScheme(url) => Error::url_bad_scheme(url.clone()),
            Inner::ErrorStatusCode(code) => Error::status_code(*code),
            Inner::CSharpError(message) => Error::cs(message.clone()),
            Inner::JsonError(message) => Error::json(message.clone()),
            Inner::ParseUrlError => Error::parse_err(),
        }
    }
}

/// What can be turned into a URL.
pub trait IntoUrl: Sized {
    /// The text that is to be read as a URL.
    spec fn url_text(&self) -> Seq<char>;

    /// The URL that the value stands for; an error where its text is no
    /// http or https URL.
    fn into_url(self) -> (r: Result<Url, Error>)
        ensures
            match r {
                Ok(url) => is_http_url(self.url_text()) && url@ == self.url_text() && url.wf(),
                Err(e) => !is_http_url(self.url_text()) && e@ == ErrorView::ParseUrlError,
            },
    ;
}

impl IntoUrl for Url {
    open spec fn url_text(&self) -> Seq<char> {
        self@
    }

    fn into_url(self) -> (r: Result<Url, Error>) {
        Url::parse(self.url.as_str())
    }
}

impl IntoUrl for &str {
    open spec fn url_text(&self) -> Seq<char> {
        self@
    }

    fn into_url(self) -> (r: Result<Url, Error>) {
        Url::parse(self)
    }
}

impl IntoUrl for &String {
    open spec fn url_text(&self) -> Seq<char> {
        self@
    }

    fn into_url(self) -> (r: Result<Url, Error>) {
        Url::parse(self.as_str())
    }
}

/// One header of a request or a response.
#[derive(Debug)]
pub struct HeaderField {
    pub name: String,
    pub value: String,
}

impl View for HeaderField {
    type V = (Seq<char>, Seq<char>);

    open spec fn view(&self) -> (Seq<char>, Seq<char>) {
        (self.name@, self.value@)
    }
}

/// The views of a list of headers, in order.
pub open spec fn field_views(fields: Seq<HeaderField>) -> Seq<(Seq<char>, Seq<char>)> {
    Seq::new(fields.len(), |i: int| fields[i]@)
}

/// The network-fetch capability. Where there is none, the caller works
/// offline.
#[derive(Debug)]
pub struct Client {
    /// The version of the program, by which it names itself to servers.
    pub version: String,
}

/// What a request asks for.
#[derive(Debug)]
pub struct RequestParts {
    pub url: Url,
    pub headers: Vec<HeaderField>,
}

/// What a [`RequestParts`] stands for.
pub struct RequestView {
    pub url: Seq<char>,
    pub headers: Seq<(Seq<char>, Seq<char>)>,
}

impl View for RequestParts {
    type V = RequestView;

    open spec fn view(&self) -> RequestView {
        RequestView { url: self.url@, headers: field_views(self.headers@) }
    }
}

/// A request under construction: what it asks for, or why it cannot be
/// made.
#[derive(Debug)]
pub struct Request {
    pub parts: Result<RequestParts, Error>,
}

impl View for Request {
    type V = Result<RequestView, ErrorView>;

    open spec fn view(&self) -> Result<RequestView, ErrorView> {
        match self.parts {
            Ok(parts) => Ok(parts@),
            Err(e) => Err(e@),
        }
    }
}

impl Client {
    /// The client of this version of the program.
    pub fn new() -> (c: Client)
        ensures
            c.version@ == "0.1.0"@,
    {
        Client { version: "0.1.0".to_owned() }
    }

    /// A request to get `url`, without headers. Where `url` is no http or
    /// https URL the request holds that error, and sending it fails.
    pub fn get<U: IntoUrl>(&self, url: U) -> (r: Request)
        ensures
            r@ == if is_http_url(url.url_text()) {
                Ok::<RequestView, ErrorView>(
                    RequestView { url: url.url_text(), headers: Seq::empty() },
                )
            } else {
                Err::<RequestView, ErrorView>(ErrorView::ParseUrlError)
            },
    {
        match url.into_url() {
            Ok(url) => {
                let parts = RequestParts { url, headers: Vec::new() };
                assert(parts@.headers =~= Seq::empty());
                Request { parts: Ok(parts) }
            },
            Err(err) => Request { parts: Err(err) },
        }
    }
}

impl Request {
    /// The request with the header `name: value` added after those it has.
    /// A request that holds an error is left as it is.
    pub fn header(self, name: &str, value: &str) -> (r: Request)
        ensures
            r@ == match self@ {
                Ok(parts) => Ok::<RequestView, ErrorView>(
                    RequestView { url: parts.url, headers: parts.headers.push((name@, value@)) },
                ),
                Err(e) => Err::<RequestView, ErrorView>(e),
            },
    {
        match self.parts {
            Ok(parts) => {
                let ghost before = parts@;
                let mut headers = parts.headers;
                headers.push(HeaderField { name: name.to_owned(), value: value.to_owned() });
                let after = RequestParts { url: parts.url, headers };
                assert(after@.headers =~= before.headers.push((name@, value@)));
                Request { parts: Ok(after) }
            },
            Err(e) => Request { parts: Err(e) },
        }
    }

    /// What is to be sent: the request's parts, or at once the error that
    /// the request holds, in which case nothing is sent.
    pub fn send(self) -> (r: Result<RequestParts, Error>)
        ensures
            match r {
                Ok(parts) => self@ == Ok::<RequestView, ErrorView>(parts@),
                Err(e) => self@ == Err::<RequestView, ErrorView>(e@),
            },
    {
        self.parts
    }
}

/// The headers of a response, in the order in which they came.
#[derive(Debug)]
pub struct HeaderMap {
    pub fields: Vec<HeaderField>,
}

impl View for HeaderMap {
    type V = Seq<(Seq<char>, Seq<char>)>;

    open spec fn view(&self) -> Seq<(Seq<char>, Seq<char>)> {
        field_views(self.fields@)
    }
}

/// The value of one header.
#[derive(Debug)]
pub struct HeaderValue {
    pub text: String,
}

impl View for HeaderValue {
    type V = Seq<char>;

    open spec fn view(&self) -> Seq<char> {
        self.text@
    }
}

/// Whether `i` is the position of the first header of `fields` whose name
/// reads `name`, letter case ignored.
pub open spec fn first_named(fields: Seq<(Seq<char>, Seq<char>)>, name: Seq<char>, i: int) -> bool {
    &&& 0 <= i < fields.len()
    &&& same_ignoring_case(fields[i].0, name)
    &&& forall|k: int| 0 <= k < i ==> !same_ignoring_case((#[trigger] fields[k]).0, name)
}

impl HeaderMap {
    /// The headers `fields`.
    pub fn new(fields: Vec<HeaderField>) -> (h: HeaderMap)
        ensures
            h@ == field_views(fields@),
    {
        HeaderMap { fields }
    }

    /// The value of the first header named `name`, letter case ignored;
    /// `None` where no header has that name.
    pub fn get(&self, name: &str) -> (r: Option<HeaderValue>)
        ensures
            match r {
                Some(value) => exists|i: int|
                    first_named(self@, name@, i) && value@ == (#[trigger] self@[i]).1,
                None => forall|i: int|
                    0 <= i < self@.len() ==> !same_ignoring_case((#[trigger] self@[i]).0, name@),
            },
    {
        let mut i: usize = 0;
        while i < self.fields.len()
            invariant
                i <= self.fields.len(),
                forall|k: int| 0 <= k < i ==> !same_ignoring_case((#[trigger] self@[k]).0, name@),
            decreases self.fields.len() - i,
        {
            if eq_ignoring_case(self.fields[i].name.as_str(), name) {
                let value = HeaderValue { text: self.fields[i].value.clone() };
                assert(first_named(self@, name@, i as int) && value@ == self@[i as int].1);
                return Some(value);
            }
            i += 1;
        }
        None
    }
}

impl HeaderValue {
    /// The value as text.
    pub fn to_string(&self) -> (r: Result<String, Error>)
        ensures
            r matches Ok(text) && text@ == self@,
    {
        Ok(self.text.clone())
    }
}

/// The answer to a request.
#[derive(Debug)]
pub struct Response {
    pub status: u32,
    pub headers: HeaderMap,
    pub body: Vec<u8>,
}

/// What a [`Response`] stands for.
pub struct ResponseView {
    pub status: u32,
    pub headers: Seq<(Seq<char>, Seq<char>)>,
    pub body: Seq<u8>,
}

impl View for Response {
    type V = ResponseView;

    open spec fn view(&self) -> ResponseView {
        ResponseView { status: self.status, headers: self.headers@, body: self.body@ }
    }
}

/// Whether `status` reports an error of the client or of the server.
pub open spec fn is_error_status(status: u32) -> bool {
    400 <= status <= 599
}

impl Response {
    /// The response of the given parts.
    pub fn new(status: u32, headers: HeaderMap, body: Vec<u8>) -> (r: Response)
        ensures
            r@ == (ResponseView { status, headers: headers@, body: body@ }),
    {
        Response { status, headers, body }
    }

    /// What came of a request that was sent: the error that the host
    /// reported, where `host_error` is not empty, else the response.
    pub fn received(response: Response, host_error: String) -> (r: Result<Response, Error>)
        ensures
            match r {
                Ok(got) => host_error@.len() == 0 && got@ == response@,
                Err(e) => host_error@.len() > 0 && e@ == ErrorView::CSharpError(host_error@),
            },
    {
        if host_error.as_str().unicode_len() != 0 {
            Err(Error::cs(host_error))
        } else {
            Ok(response)
        }
    }

    /// The status of the response.
    pub fn status(&self) -> (r: u32)
        ensures
            r == self@.status,
    {
        self.status
    }

    /// The response itself, unless its status reports an error of the
    /// client or of the server.
    pub fn error_for_status(self) -> (r: Result<Response, Error>)
        ensures
            match r {
                Ok(same) => !is_error_status(self@.status) && same@ == self@,
                Err(e) => is_error_status(self@.status) && e@ == ErrorView::ErrorStatusCode(
                    self@.status,
                ),
            },
    {
        let status = self.status();
        if 400 <= status && status <= 599 {
            Err(Error::status_code(status))
        } else {
            Ok(self)
        }
    }

    /// The headers of the response.
    pub fn headers(&self) -> (r: &HeaderMap)
        ensures
            r@ == self@.headers,
    {
        &self.headers
    }

    /// The body of the response.
    pub fn bytes(self) -> (r: Result<Vec<u8>, Error>)
        ensures
            r matches Ok(body) && body@ == self@.body,
    {
        Ok(self.body)
    }

    /// The body of the response as a stream of one piece.
    pub fn bytes_stream(self) -> (r: AsStream)
        ensures
            r.pending@ == self@.body,
            !r.ended,
    {
        AsStream { pending: self.body, ended: false }
    }
}

/// The body of a response, handed out piece by piece.
#[derive(Debug)]
pub struct AsStream {
    /// What has not been handed out yet.
    pub pending: Vec<u8>,
    /// Whether the end of the stream was reported.
    pub ended: bool,
}

impl AsStream {
    /// What the stream yields for one piece that was read: the end of the
    /// stream for an empty piece, else the piece or the error.
    pub fn item(read: Result<Vec<u8>, Error>) -> (r: Option<Result<Vec<u8>, Error>>)
        ensures
            match read {
                Ok(piece) => if piece@.len() == 0 {
                    r is None
                } else {
                    r matches Some(Ok(same)) && same@ == piece@
                },
                Err(e) => r matches Some(Err(same)) && same@ == e@,
            },
    {
        match read {
            Ok(piece) => {
                if piece.len() == 0 {
                    None
                } else {
                    Some(Ok(piece))
                }
            },
            Err(e) => Some(Err(e)),
        }
    }

    /// The next piece of the body: all that is pending, once; then the end.
    pub fn next(&mut self) -> (r: Option<Result<Vec<u8>, Error>>)
        ensures
            final(self).pending@.len() == 0,
            final(self).ended == (old(self).ended || old(self).pending@.len() == 0),
            match r {
                Some(Ok(piece)) => !old(self).ended && piece@ == old(self).pending@ && piece@.len()
                    > 0,
                Some(Err(_)) => false,
                None => old(self).ended || old(self).pending@.len() == 0,
            },
    {
        if self.ended {
            self.pending = Vec::new();
            return None;
        }
        let mut piece: Vec<u8> = Vec::new();
        std::mem::swap(&mut piece, &mut self.pending);
        let r = AsStream::item(Ok(piece));
        if r.is_none() {
            self.ended = true;
        }
        r
    }
}

} // verus!
