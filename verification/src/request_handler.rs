//! What is decided while a page is fetched: whether the cache serves it, where
//! a redirect leads and when to stop following, and what goes into the cache.
//!
//! Nothing here reads a file, a clock or a socket. The caller does that and
//! hands over what it got.

use crate::chars::ascii_lowercase;
use crate::headers::{value_of, with_field, HeaderList};
use crate::number::{decimal, decimal_string, lemma_decimal, lemma_parse_decimal, parse_number,
    parse_unsigned};
use crate::request::{Request, RequestView};
use crate::response::{max_age_of, Response, ResponseView};
use crate::text::{chars_of, find_chars, lemma_find_from_is, occurs_at, split_once, string_of};
use crate::url::{format_url, parse_url, Url, UrlError, UrlView};
use std::collections::hash_map::DefaultHasher;
use std::hash::Hasher;
use vstd::prelude::*;
use vstd::std_specs::hash::DefaultHasherAdditionalSpecFns;
use vstd::string::StringExecFns;
use vstd::utf8::encode_utf8;

verus! {

/// The number of redirects that are followed for one request.
pub const MAX_REDIRECTS: u8 = 5;

/// Why a redirect could not be followed.
#[derive(Clone, Copy, Debug, PartialEq, Eq, Structural)]
pub enum RedirectError {
    /// The response names no location.
    MissingLocation,
    /// The location is neither a path nor a URL.
    InvalidLocation(UrlError),
}

/// The state of a fetch: the URL to ask next, and the number of redirects
/// that led to it.
#[derive(Debug)]
pub struct RequestHandler2 {
    pub url: Url,
    pub redirect_count: u8,
}

/// What a `RequestHandler2` stands for.
pub struct FetchView {
    pub url: UrlView,
    pub redirect_count: nat,
}

impl View for RequestHandler2 {
    type V = FetchView;

    open spec fn view(&self) -> FetchView {
        FetchView { url: self.url@, redirect_count: self.redirect_count as nat }
    }
}

/// What follows from a response.
#[derive(Debug)]
pub enum Hop {
    /// The response redirects, and the fetch goes on with this state.
    Follow(RequestHandler2),
    /// The fetch ends with this response.
    Done(Response),
    /// The response redirects, and does not say where to.
    Failed(RedirectError),
}

/// What a `Hop` stands for.
pub enum HopView {
    Follow(FetchView),
    Done(ResponseView),
    Failed(RedirectError),
}

impl View for Hop {
    type V = HopView;

    open spec fn view(&self) -> HopView {
        match self {
            Hop::Follow(state) => HopView::Follow(state@),
            Hop::Done(response) => HopView::Done(response@),
            Hop::Failed(e) => HopView::Failed(*e),
        }
    }
}

/// The state in which the fetch of `url` starts.
pub open spec fn start(url: UrlView) -> FetchView {
    FetchView { url, redirect_count: 0 }
}

/// The URL that `location` names for a response to a request of `current`: a
/// location that starts with `/` is a path on the same server, any other is a
/// URL of its own.
pub open spec fn next_url(current: UrlView, location: Seq<char>) -> Result<UrlView, UrlError> {
    if location.len() > 0 && location[0] == '/' {
        Ok(
            UrlView {
                scheme: current.scheme,
                host: current.host,
                port: current.port,
                path: location,
            },
        )
    } else {
        parse_url(location)
    }
}

/// What follows from `response` in `state`. A redirect is followed while
/// fewer than `MAX_REDIRECTS` were; after that, and on any other response,
/// the fetch ends with the response.
pub open spec fn step(state: FetchView, response: ResponseView) -> HopView {
    if response.status.redirects() && state.redirect_count < MAX_REDIRECTS {
        match value_of(response.headers, "location"@) {
            None => HopView::Failed(RedirectError::MissingLocation),
            Some(location) => match next_url(state.url, location) {
                Ok(url) => HopView::Follow(
                    FetchView { url, redirect_count: state.redirect_count + 1 },
                ),
                Err(e) => HopView::Failed(RedirectError::InvalidLocation(e)),
            },
        }
    } else {
        HopView::Done(response)
    }
}

/// The fetch that starts in `state` and gets `responses`, one for each
/// request: the number of redirects that it follows, and how it ends. It
/// ends with `Follow` where the responses end before the fetch does.
pub open spec fn run(state: FetchView, responses: Seq<ResponseView>) -> (nat, HopView)
    decreases responses.len(),
{
    if responses.len() == 0 {
        (0, HopView::Follow(state))
    } else {
        match step(state, responses[0]) {
            HopView::Follow(next) => {
                let (followed, end) = run(next, responses.skip(1));
                (followed + 1, end)
            },
            end => (0, end),
        }
    }
}

/// `response` is a redirect that can be followed.
pub open spec fn leads_on(response: ResponseView) -> bool {
    &&& response.status.redirects()
    &&& match value_of(response.headers, "location"@) {
        Some(location) => (location.len() > 0 && location[0] == '/') || parse_url(location) is Ok,
        None => false,
    }
}

/// Whatever the responses are, a fetch follows no more redirects than are
/// left to it.
pub proof fn lemma_redirects_are_bounded(state: FetchView, responses: Seq<ResponseView>)
    requires
        state.redirect_count <= MAX_REDIRECTS,
    ensures
        run(state, responses).0 <= MAX_REDIRECTS - state.redirect_count,
    decreases responses.len(),
{
    if responses.len() > 0 {
        match step(state, responses[0]) {
            HopView::Follow(next) => {
                lemma_redirects_are_bounded(next, responses.skip(1));
            },
            _ => {},
        }
    }
}

/// Where every response redirects, a fetch ends with the response that
/// follows the last redirect left to it, and has then followed them all.
pub proof fn lemma_redirect_chain(state: FetchView, responses: Seq<ResponseView>)
    requires
        state.redirect_count <= MAX_REDIRECTS,
        responses.len() > MAX_REDIRECTS - state.redirect_count,
        forall|k: int| 0 <= k < responses.len() ==> leads_on(#[trigger] responses[k]),
    ensures
        run(state, responses) == (
            (MAX_REDIRECTS - state.redirect_count) as nat,
            HopView::Done(responses[MAX_REDIRECTS - state.redirect_count]),
        ),
    decreases responses.len(),
{
    assert(leads_on(responses[0]));
    if state.redirect_count < MAX_REDIRECTS {
        let next = step(state, responses[0])->Follow_0;
        let rest = responses.skip(1);
        assert forall|k: int| 0 <= k < rest.len() implies leads_on(#[trigger] rest[k]) by {
            assert(rest[k] == responses[k + 1]);
        }
        lemma_redirect_chain(next, rest);
        assert(rest[MAX_REDIRECTS - next.redirect_count] == responses[MAX_REDIRECTS
            - state.redirect_count]);
    }
}

/// A fetch in which every response redirects makes six requests: it follows
/// five redirects and ends with the response to the sixth request, which
/// still redirects.
pub proof fn lemma_endless_redirects_end(url: UrlView, responses: Seq<ResponseView>)
    requires
        responses.len() > 5,
        forall|k: int| 0 <= k < responses.len() ==> leads_on(#[trigger] responses[k]),
    ensures
        run(start(url), responses) == (5nat, HopView::Done(responses[5])),
        responses[5].status.redirects(),
{
    lemma_redirect_chain(start(url), responses);
    assert(leads_on(responses[5]));
}

impl RequestHandler2 {
    /// The state in which the fetch of `url` starts.
    pub fn new(url: Url) -> (state: Self)
        ensures
            state@ == start(url@),
    {
        Self { url, redirect_count: 0 }
    }

    /// The request to send in this state: one for the URL, which says that
    /// gzip is understood.
    pub fn build_request(&self) -> (request: Request)
        ensures
            request@ == (RequestView {
                url: self.url@,
                headers: seq![("Accept-Encoding"@, "gzip"@)],
            }),
    {
        let mut request = Request::new(self.url.clone());
        request.header("Accept-Encoding", "gzip");
        proof {
            crate::headers::lemma_position_none(HeaderList::empty(), "Accept-Encoding"@);
            assert(with_field(HeaderList::empty(), "Accept-Encoding"@, "gzip"@) =~= seq![
                ("Accept-Encoding"@, "gzip"@),
            ]);
        }
        request
    }

    /// What follows from the response to the request of this state.
    pub fn request(self, response: Response) -> (hop: Hop)
        ensures
            hop@ == step(self@, response@),
            hop matches Hop::Follow(next) ==> (self.url.wf() ==> next.url.wf()),
    {
        if !(response.is_redirect() && self.redirect_count < MAX_REDIRECTS) {
            return Hop::Done(response);
        }
        proof {
            lemma_lowercase_location();
        }
        let location = match response.header("location") {
            Some(location) => location,
            None => return Hop::Failed(RedirectError::MissingLocation),
        };
        let first = chars_of(location.as_str());
        let url = if first.len() > 0 && first[0] == '/' {
            Url {
                scheme: self.url.scheme,
                host: self.url.host,
                port: self.url.port,
                path: location.clone(),
            }
        } else {
            match Url::new(location.as_str()) {
                Ok(url) => url,
                Err(e) => return Hop::Failed(RedirectError::InvalidLocation(e)),
            }
        };
        Hop::Follow(Self { url, redirect_count: self.redirect_count + 1 })
    }
}

/// The name under which a response holds its location is in lower case.
proof fn lemma_lowercase_location()
    ensures
        ascii_lowercase("location"@) == "location"@,
{
    reveal_strlit("location");
    assert(ascii_lowercase("location"@) =~= "location"@);
}

/// The text of a cache entry: the second until which it holds, in decimal
/// digits, a line end, and the body.
pub open spec fn entry_text(valid_until: nat, body: Seq<char>) -> Seq<char> {
    decimal(valid_until) + "\r\n"@ + body
}

/// The body that a cache entry holds at the second `now`: what follows the
/// first line, where that line is a number of seconds above `now`.
pub open spec fn read_entry(content: Seq<char>, now: nat) -> Option<Seq<char>> {
    match split_once(content, "\r\n"@) {
        Some((first, rest)) => match parse_unsigned(first, 10, 0xffff_ffff_ffff_ffff) {
            Some(valid_until) => if valid_until > now {
                Some(rest)
            } else {
                None
            },
            None => None,
        },
        None => None,
    }
}

/// The number under which the cache holds what it has for a URL.
pub open spec fn url_hash(url: UrlView) -> u64 {
    DefaultHasher::spec_finish(seq![encode_utf8(format_url(url))])
}

/// The name of the file in which the cache holds what it has for a URL.
pub open spec fn entry_name(url: UrlView) -> Seq<char> {
    decimal(url_hash(url) as nat) + ".txt"@
}

/// A body that is stored for `max_age` seconds at the second `now` is read
/// back as it was at any second before `now + max_age`, and not at all from
/// then on.
pub proof fn lemma_cache_round_trip(body: Seq<char>, now: nat, max_age: nat, later: nat)
    requires
        now + max_age <= 0xffff_ffff_ffff_ffff,
    ensures
        read_entry(entry_text(now + max_age, body), later) == if later < now + max_age {
            Some(body)
        } else {
            None
        },
{
    reveal_strlit("\r\n");
    let digits = decimal(now + max_age);
    let text = entry_text(now + max_age, body);
    let n = digits.len();
    lemma_decimal(now + max_age);
    lemma_parse_decimal(now + max_age, 0xffff_ffff_ffff_ffff);
    assert(text.subrange(n as int, n as int + 2) =~= "\r\n"@);
    assert forall|j: int| 0 <= j < n implies !occurs_at(text, "\r\n"@, j) by {
        assert(text[j] == digits[j]);
        if occurs_at(text, "\r\n"@, j) {
            assert(text.subrange(j, j + 2)[0] == '\r');
        }
    }
    lemma_find_from_is(text, "\r\n"@, 0, n);
    assert(text.take(n as int) =~= digits);
    assert(text.skip(n as int + 2) =~= body);
}

pub struct Cache {}

impl Cache {
    /// The name of the directory, within the user's directory for caches, in
    /// which the entries are held.
    pub fn directory_name() -> (name: &'static str)
        ensures
            name@ == "rbrowser"@,
    {
        "rbrowser"
    }

    /// The number under which the cache holds what it has for `url`.
    pub fn calculate_hash(url: &Url) -> (hash: u64)
        ensures
            hash == url_hash(url@),
    {
        let text = url.to_string();
        let mut hasher = DefaultHasher::new();
        hasher.write(text.as_str().as_bytes());
        assert(hasher@ =~= seq![encode_utf8(format_url(url@))]);
        hasher.finish()
    }

    /// The name of the file in which the cache holds what it has for `url`.
    pub fn file_name(url: &Url) -> (name: String)
        ensures
            name@ == entry_name(url@),
    {
        let mut name = decimal_string(Self::calculate_hash(url) as u128);
        name.append(".txt");
        name
    }

    /// The body that the cache entry `content` holds at the second `now`.
    pub fn get(content: &str, now: u64) -> (r: Option<String>)
        ensures
            match r {
                Some(body) => read_entry(content@, now as nat) == Some(body@),
                None => read_entry(content@, now as nat) is None,
            },
    {
        let chars = chars_of(content);
        let line_end = chars_of("\r\n");
        let at = match find_chars(chars.as_slice(), line_end.as_slice(), 0) {
            Some(at) => at,
            None => return None,
        };
        assert(chars@.subrange(0, at as int) =~= content@.take(at as int));
        assert(chars@.subrange(at + line_end@.len(), chars@.len() as int) =~= content@.skip(
            at + line_end@.len(),
        ));
        match parse_number(chars.as_slice(), 0, at, 10, 0xffff_ffff_ffff_ffff) {
            Some(valid_until) => if valid_until > now {
                Some(string_of(chars.as_slice(), at + line_end.len(), chars.len()))
            } else {
                None
            },
            None => None,
        }
    }

    /// The cache entry for `response`, made at the second `now`.
    pub fn save(response: &Response, now: u64) -> (content: String)
        ensures
            content@ == entry_text(
                (now + max_age_of(response@.headers)) as nat,
                response@.body,
            ),
    {
        let valid_until: u128 = now as u128 + response.cache_max_age() as u128;
        let mut content = decimal_string(valid_until);
        content.append("\r\n");
        content.append(response.body().as_str());
        content
    }
}

/// How a request is served.
#[derive(Debug)]
pub enum Lookup {
    /// From the cache, which holds this body.
    Cached(String),
    /// By a fetch that starts in this state.
    Fetch(RequestHandler2),
}

/// What a `Lookup` stands for.
pub enum LookupView {
    Cached(Seq<char>),
    Fetch(FetchView),
}

impl View for Lookup {
    type V = LookupView;

    open spec fn view(&self) -> LookupView {
        match self {
            Lookup::Cached(body) => LookupView::Cached(body@),
            Lookup::Fetch(state) => LookupView::Fetch(state@),
        }
    }
}

/// The end of a fetch: the body to show, and the cache entry to write where
/// the response may be kept.
#[derive(Debug)]
pub struct Delivery {
    pub body: String,
    pub entry: Option<String>,
}

/// How a request for `url` is served at the second `now`, where `cached` is
/// what the cache holds under the name of `url`.
pub open spec fn lookup(url: UrlView, cached: Option<Seq<char>>, now: nat) -> LookupView {
    match cached {
        Some(content) => match read_entry(content, now) {
            Some(body) => LookupView::Cached(body),
            None => LookupView::Fetch(start(url)),
        },
        None => LookupView::Fetch(start(url)),
    }
}

/// The cache entry to write for a response that came at the second `now`:
/// none where the response may not be kept.
pub open spec fn entry_for(response: ResponseView, now: nat) -> Option<Seq<char>> {
    if max_age_of(response.headers) > 0 {
        Some(entry_text(now + max_age_of(response.headers) as nat, response.body))
    } else {
        None
    }
}

pub struct RequestHandler {}

impl RequestHandler {
    /// Decides how a request for `url` is served at the second `now`:
    /// `cached` is what the cache holds under the name of `url`, if it holds
    /// anything.
    pub fn request(url: &Url, cached: Option<&str>, now: u64) -> (r: Lookup)
        ensures
            r@ == lookup(
                url@,
                match cached {
                    Some(content) => Some(content@),
                    None => None,
                },
                now as nat,
            ),
            r matches Lookup::Fetch(state) ==> (url.wf() ==> state.url.wf()),
    {
        match cached {
            Some(content) => match Cache::get(content, now) {
                Some(body) => Lookup::Cached(body),
                None => Lookup::Fetch(RequestHandler2::new(url.clone())),
            },
            None => Lookup::Fetch(RequestHandler2::new(url.clone())),
        }
    }

    /// Ends a fetch with `response`, which came at the second `now`.
    pub fn deliver(response: Response, now: u64) -> (delivery: Delivery)
        ensures
            delivery.body@ == response@.body,
            match delivery.entry {
                Some(content) => entry_for(response@, now as nat) == Some(content@),
                None => entry_for(response@, now as nat) is None,
            },
    {
        let entry = if response.cache_max_age() > 0 {
            Some(Cache::save(&response, now))
        } else {
            None
        };
        Delivery { body: response.into_body(), entry }
    }
}

} // verus!
