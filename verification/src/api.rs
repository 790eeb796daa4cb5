use vstd::prelude::*;
use vstd::string::StringExecFns;
use crate::chars::chars_of;
use crate::digits::{int_json, int_string};
use crate::errors::ApiError;
use crate::parse::{parse_joke_doc, parse_search_doc, parse_succ_doc};
use crate::responses::{Joke, JokeV, SearchResponse, SearchResponseV, SuccessfulResponse,
    SuccessfulResponseV};
use crate::wire::{joke_json, joke_wf, search_json, search_wf, succ_json, succ_wf};

verus! {

/// Accumulates configuration (currently just the endpoint base URL) and
/// produces a validated `Client`.
#[derive(Debug)]
pub struct ClientBuilder {
    endpoint: Option<String>,
}

/// A validated client for the joke service: it holds the resolved endpoint
/// and translates domain parameters into request URLs. The HTTP transfers
/// themselves happen outside this crate; their status codes and bodies come
/// back here for classification and decoding.
#[derive(Debug)]
pub struct Client {
    endpoint: String,
}

impl ClientBuilder {
    /// The endpoint currently configured, as a mathematical value.
    pub closed spec fn endpoint_view(&self) -> Option<Seq<char>> {
        match self.endpoint {
            Some(e) => Some(e@),
            None => None,
        }
    }

    /// Whether `create` will succeed: an endpoint is present and non-empty.
    pub open spec fn creatable(&self) -> bool {
        match self.endpoint_view() {
            Some(e) => e.len() > 0,
            None => false,
        }
    }

    /// Sets the base URL to use, overwriting any previous value, and
    /// returns the builder for chaining.
    pub fn endpoint(self, endpoint: &str) -> (r: Self)
        ensures
            r.endpoint_view() == Some(endpoint@),
    {
        ClientBuilder { endpoint: Some(String::from_str(endpoint)) }
    }

    /// Validates the configuration and produces a client.
    ///
    /// Fails with `ConfigurationError` exactly when the endpoint was
    /// cleared to empty or unset; with the default configuration it always
    /// succeeds.
    pub fn create(&self) -> (r: Result<Client, ApiError>)
        ensures
            self.creatable() ==> (r matches Ok(c) && Some(c.endpoint_view())
                == self.endpoint_view()),
            !self.creatable() ==> r == Err::<Client, ApiError>(ApiError::ConfigurationError),
    {
        match &self.endpoint {
            Some(e) if e.as_str().unicode_len() > 0 => {
                Ok(Client { endpoint: e.clone() })
            },
            _ => Err(ApiError::ConfigurationError),
        }
    }
}

impl Default for ClientBuilder {
    /// The default configuration: the fixed public endpoint of the joke
    /// service. It is non-empty, so `create` never fails on it.
    fn default() -> (r: Self)
        ensures
            r.endpoint_view() == Some("https://icanhazdadjoke.com"@),
            r.creatable(),
    {
        proof {
            reveal_strlit("https://icanhazdadjoke.com");
        }
        ClientBuilder { endpoint: Some(String::from_str("https://icanhazdadjoke.com")) }
    }
}

impl Client {
    /// The endpoint this client was built with, as a mathematical value.
    pub closed spec fn endpoint_view(&self) -> Seq<char> {
        self.endpoint@
    }

    /// A fresh builder carrying the default configuration.
    pub fn builder() -> (r: ClientBuilder)
        ensures
            r.endpoint_view() == Some("https://icanhazdadjoke.com"@),
            r.creatable(),
    {
        ClientBuilder::default()
    }

    /// URL of the random-joke operation: the endpoint root, no query string.
    pub fn random_url(&self) -> (r: String)
        ensures
            r@ == self.endpoint_view(),
    {
        self.endpoint.clone()
    }

    /// URL of the fetch-by-id operation: `{endpoint}/j/{joke_id}`.
    ///
    /// The id is interpolated verbatim, as the service expects literal
    /// alphanumeric ids; no escaping is applied.
    pub fn fetch_url(&self, joke_id: &str) -> (r: String)
        ensures
            r@ == self.endpoint_view() + "/j/"@ + joke_id@,
    {
        let mut url = self.endpoint.clone();
        url.append("/j/");
        url.append(joke_id);
        url
    }
}

/// Name of the header every request carries.
pub fn accept_header_name() -> (r: &'static str)
    ensures
        r@ == "Accept"@,
{
    "Accept"
}

/// Value of the header every request carries.
pub fn accept_header_value() -> (r: &'static str)
    ensures
        r@ == "application/json"@,
{
    "application/json"
}

/// Whether an HTTP status counts as success: the 2xx range.
pub open spec fn status_is_success(status: u16) -> bool {
    200 <= status < 300
}

/// The limit actually sent to the service: the given value clamped to
/// [1, 30], or 20 when none was given.
pub open spec fn effective_limit_spec(limit: Option<i32>) -> int {
    match limit {
        Some(l) => if l < 1 {
            1
        } else if l > 30 {
            30
        } else {
            l as int
        },
        None => 20,
    }
}

/// The page actually sent to the service: the given value, or 1 when none
/// was given.
pub open spec fn effective_page_spec(page: Option<i32>) -> int {
    match page {
        Some(p) => p as int,
        None => 1,
    }
}

/// The limit actually sent: clamped to [1, 30] when given, 20 when not.
pub fn effective_limit(limit: Option<i32>) -> (r: i32)
    ensures
        r as int == effective_limit_spec(limit),
{
    match limit {
        Some(l) => if l < 1 {
            1
        } else if l > 30 {
            30
        } else {
            l
        },
        None => 20,
    }
}

/// The page actually sent: the given value when given, 1 when not.
pub fn effective_page(page: Option<i32>) -> (r: i32)
    ensures
        r as int == effective_page_spec(page),
{
    match page {
        Some(p) => p,
        None => 1,
    }
}

/// The URL of a search operation, as a mathematical value.
pub open spec fn search_url_spec(
    endpoint: Seq<char>,
    term: Seq<char>,
    limit: Option<i32>,
    page: Option<i32>,
) -> Seq<char> {
    endpoint + "/search?term="@ + term + "&limit="@ + int_json(effective_limit_spec(limit))
        + "&page="@ + int_json(effective_page_spec(page))
}

impl Client {
    /// URL of the search operation:
    /// `{endpoint}/search?term={term}&limit={limit}&page={page}`, with the
    /// effective limit and page filled in.
    ///
    /// The term is interpolated verbatim, as the service expects literal
    /// alphanumeric terms; no escaping is applied.
    pub fn search_url(&self, term: &str, limit: Option<i32>, page: Option<i32>) -> (r: String)
        ensures
            r@ == search_url_spec(self.endpoint_view(), term@, limit, page),
    {
        let mut url = self.endpoint.clone();
        url.append("/search?term=");
        url.append(term);
        url.append("&limit=");
        let l = int_string(effective_limit(limit));
        url.append(l.as_str());
        url.append("&page=");
        let p = int_string(effective_page(page));
        url.append(p.as_str());
        url
    }
}

/// Decodes the outcome of the random-joke operation from the HTTP status
/// and the body text. A non-2xx status is a request failure whatever the
/// body holds; a 2xx body decodes exactly when it is the wire form of a
/// well-formed random-joke response, and fails with `DecodeError`
/// otherwise.
pub fn decode_random(status: u16, body: &str) -> (r: Result<SuccessfulResponse, ApiError>)
    ensures
        !status_is_success(status) ==> r == Err::<SuccessfulResponse, ApiError>(
            ApiError::RequestFailedError,
        ),
        status_is_success(status) ==> match r {
            Ok(x) => succ_wf(x@) && body@ == succ_json(x@),
            Err(e) => e == ApiError::DecodeError && (forall|v: SuccessfulResponseV|
                succ_wf(v) ==> body@ != succ_json(v)),
        },
        forall|v: SuccessfulResponseV|
            status_is_success(status) && succ_wf(v) && body@ == succ_json(v) ==> (r matches Ok(x)
                && x@ == v),
{
    if !(status >= 200 && status < 300) {
        return Err(ApiError::RequestFailedError);
    }
    let cs = chars_of(body);
    let pr = parse_succ_doc(&cs);
    proof {
        assert forall|v: SuccessfulResponseV|
            succ_wf(v) && body@ == succ_json(v) implies (pr matches Some(x) && x@ == v) by {
            assert(crate::parse::succ_doc(cs@, v));
        }
    }
    match pr {
        Some(x) => Ok(x),
        None => Err(ApiError::DecodeError),
    }
}

/// Decodes the outcome of the fetch-by-id operation, as `decode_random`
/// does for its shape.
pub fn decode_fetch(status: u16, body: &str) -> (r: Result<Joke, ApiError>)
    ensures
        !status_is_success(status) ==> r == Err::<Joke, ApiError>(ApiError::RequestFailedError),
        status_is_success(status) ==> match r {
            Ok(x) => joke_wf(x@) && body@ == joke_json(x@),
            Err(e) => e == ApiError::DecodeError && (forall|j: JokeV|
                joke_wf(j) ==> body@ != joke_json(j)),
        },
        forall|j: JokeV|
            status_is_success(status) && joke_wf(j) && body@ == joke_json(j) ==> (r matches Ok(x)
                && x@ == j),
{
    if !(status >= 200 && status < 300) {
        return Err(ApiError::RequestFailedError);
    }
    let cs = chars_of(body);
    let pr = parse_joke_doc(&cs);
    proof {
        assert forall|j: JokeV|
            joke_wf(j) && body@ == joke_json(j) implies (pr matches Some(x) && x@ == j) by {
            assert(crate::parse::joke_doc(cs@, j));
        }
    }
    match pr {
        Some(x) => Ok(x),
        None => Err(ApiError::DecodeError),
    }
}

/// Decodes the outcome of the search operation, as `decode_random` does
/// for its shape.
pub fn decode_search(status: u16, body: &str) -> (r: Result<SearchResponse, ApiError>)
    ensures
        !status_is_success(status) ==> r == Err::<SearchResponse, ApiError>(
            ApiError::RequestFailedError,
        ),
        status_is_success(status) ==> match r {
            Ok(x) => search_wf(x@) && body@ == search_json(x@),
            Err(e) => e == ApiError::DecodeError && (forall|v: SearchResponseV|
                search_wf(v) ==> body@ != search_json(v)),
        },
        forall|v: SearchResponseV|
            status_is_success(status) && search_wf(v) && body@ == search_json(v) ==> (r matches Ok(
                x,
            ) && x@ == v),
{
    if !(status >= 200 && status < 300) {
        return Err(ApiError::RequestFailedError);
    }
    let cs = chars_of(body);
    let pr = parse_search_doc(&cs);
    proof {
        assert forall|v: SearchResponseV|
            search_wf(v) && body@ == search_json(v) implies (pr matches Some(x) && x@ == v) by {
            assert(crate::parse::search_doc(cs@, v));
        }
    }
    match pr {
        Some(x) => Ok(x),
        None => Err(ApiError::DecodeError),
    }
}

} // verus!
