//! The HTTP client: the headers of requests, sessions, redirects and error answers.

use vstd::prelude::*;
use vstd::string::*;

use crate::cli::{headers_view, Header};
use crate::client::sse::{directory, directory_of, is_absolute_url};
use crate::cors::{law_only_that_header_is_taken_out, remove_header, str_view, without};
use crate::pairs::{push_pair, Pairs};
use crate::text::{
    after_prefix, contains, decimal, decimal_text, eq_ignore_case, has_part,
    lemma_last_index_of_is, same_ignoring_case, starts_with, utf8_lossy, utf8_text_lossy,
};

verus! {

/// How many redirects a GET follows.
pub const MAX_GET_REDIRECTS: u32 = 5;

/// What goes wrong with a request.
#[derive(Debug)]
pub enum HttpClientError {
    InvalidUrl(String),
    Connect(String),
    Tls(String),
    Protocol(String),
    TooManyRedirects { count: u32, max: u32 },
    ServerError { status: u16, body: String },
    Io(String),
}

pub open spec fn http_error_text(e: HttpClientError) -> Seq<char> {
    match e {
        HttpClientError::InvalidUrl(s) => "invalid URL: "@ + s@,
        HttpClientError::Connect(s) => "connection failed: "@ + s@,
        HttpClientError::Tls(s) => "TLS error: "@ + s@,
        HttpClientError::Protocol(s) => "HTTP protocol error: "@ + s@,
        HttpClientError::TooManyRedirects { count, max } => "too many redirects ("@ + decimal(
            count as nat,
        ) + " of max "@ + decimal(max as nat) + ")"@,
        HttpClientError::ServerError { status, body } => "server error "@ + decimal(status as nat)
            + ": "@ + body@,
        HttpClientError::Io(s) => "I/O error: "@ + s@,
    }
}

impl HttpClientError {
    /// The error in words.
    pub fn to_string(&self) -> (r: String)
        ensures
            r@ == http_error_text(*self),
    {
        match self {
            HttpClientError::InvalidUrl(s) => "invalid URL: ".to_owned().concat(s.as_str()),
            HttpClientError::Connect(s) => "connection failed: ".to_owned().concat(s.as_str()),
            HttpClientError::Tls(s) => "TLS error: ".to_owned().concat(s.as_str()),
            HttpClientError::Protocol(s) => "HTTP protocol error: ".to_owned().concat(s.as_str()),
            HttpClientError::TooManyRedirects { count, max } => {
                let c = decimal_text(*count as u64);
                let m = decimal_text(*max as u64);
                "too many redirects (".to_owned().concat(c.as_str()).concat(" of max ").concat(
                    m.as_str(),
                ).concat(")")
            },
            HttpClientError::ServerError { status, body } => {
                let s = decimal_text(*status as u64);
                "server error ".to_owned().concat(s.as_str()).concat(": ").concat(body.as_str())
            },
            HttpClientError::Io(s) => "I/O error: ".to_owned().concat(s.as_str()),
        }
    }
}

// ---- Headers ------------------------------------------------------------------------

/// The place of the first header of the name, up to case, from `from` on, or the length.
pub open spec fn header_place(hs: Pairs, name: Seq<char>, from: int) -> int
    decreases hs.len() - from,
{
    if from >= hs.len() {
        hs.len() as int
    } else if same_ignoring_case(hs[from].0, name) {
        from
    } else {
        header_place(hs, name, from + 1)
    }
}

/// The value of the first header of the name, up to case.
pub open spec fn header_value(hs: Pairs, name: Seq<char>) -> Option<Seq<char>> {
    let at = header_place(hs, name, 0);
    if at < hs.len() {
        Some(hs[at].1)
    } else {
        None
    }
}

/// Looks a header up, whatever its case.
pub fn get_header<'a>(headers: &'a Vec<(String, String)>, name: &str) -> (r: Option<&'a str>)
    ensures
        str_view(r) == header_value(headers.deep_view(), name@),
{
    let mut i: usize = 0;
    let ghost d = headers.deep_view();
    while i < headers.len()
        invariant
            i <= headers.len(),
            d == headers.deep_view(),
            header_place(d, name@, 0) == header_place(d, name@, i as int),
        decreases headers.len() - i,
    {
        if eq_ignore_case(headers[i].0.as_str(), name) {
            return Some(headers[i].1.as_str());
        }
        i += 1;
    }
    None
}

/// An answer.
#[derive(Debug)]
pub struct HttpResponse {
    pub status: u16,
    pub headers: Vec<(String, String)>,
    pub body: Vec<u8>,
}

impl HttpResponse {
    pub fn content_type(&self) -> (r: Option<&str>)
        ensures
            str_view(r) == header_value(self.headers.deep_view(), "Content-Type"@),
    {
        get_header(&self.headers, "Content-Type")
    }

    pub fn mcp_session_id(&self) -> (r: Option<&str>)
        ensures
            str_view(r) == header_value(self.headers.deep_view(), "Mcp-Session-Id"@),
    {
        get_header(&self.headers, "Mcp-Session-Id")
    }
}

/// The head of an answer whose body is still coming.
#[derive(Debug)]
pub struct HttpStreamHead {
    pub status: u16,
    pub headers: Vec<(String, String)>,
}

impl HttpStreamHead {
    pub fn content_type(&self) -> (r: Option<&str>)
        ensures
            str_view(r) == header_value(self.headers.deep_view(), "Content-Type"@),
    {
        get_header(&self.headers, "Content-Type")
    }

    pub fn mcp_session_id(&self) -> (r: Option<&str>)
        ensures
            str_view(r) == header_value(self.headers.deep_view(), "Mcp-Session-Id"@),
    {
        get_header(&self.headers, "Mcp-Session-Id")
    }
}

// ---- Redirects ------------------------------------------------------------------------

pub open spec fn redirects(status: u16) -> bool {
    status == 301 || status == 302 || status == 303 || status == 307 || status == 308
}

/// Whether the status sends the client elsewhere.
pub fn is_redirect(status: u16) -> (r: bool)
    ensures
        r == redirects(status),
{
    status == 301 || status == 302 || status == 303 || status == 307 || status == 308
}

/// The parts of a URL.
#[derive(Debug)]
pub struct UrlParts {
    pub https: bool,
    pub host: String,
    pub port: u16,
    pub path: String,
}

pub open spec fn parts_view(p: Option<UrlParts>) -> Option<(bool, Seq<char>, u16, Seq<char>)> {
    match p {
        Some(u) => Some((u.https, u.host@, u.port, u.path@)),
        None => None,
    }
}

pub uninterp spec fn url_parts(url: Seq<char>) -> Option<(bool, Seq<char>, u16, Seq<char>)>;

/// `ParsedUrl::parse`: whether the scheme of a URL is `https`, its host, its port, and its
/// path with the query; nothing where it is no such URL.
#[verifier::external_body]
fn parse_url(url: &str) -> (r: Option<UrlParts>)
    ensures
        parts_view(r) == url_parts(url@),
{
    match asupersync::http::h1::http_client::ParsedUrl::parse(url) {
        Ok(u) => Some(
            UrlParts {
                https: match u.scheme {
                    asupersync::http::h1::http_client::Scheme::Https => true,
                    asupersync::http::h1::http_client::Scheme::Http => false,
                },
                host: u.host,
                port: u.port,
                path: u.path,
            },
        ),
        Err(_) => None,
    }
}

/// Where a location leads, seen from the URL with the given parts. Only the parts matter
/// that the location does not have.
pub open spec fn location_from(
    parts: Option<(bool, Seq<char>, u16, Seq<char>)>,
    location: Seq<char>,
) -> Seq<char> {
    if is_absolute_url(location) {
        location
    } else {
        match parts {
            None => location,
            Some((https, host, port, path)) => {
                let scheme = if https {
                    "https"@
                } else {
                    "http"@
                };
                let base = scheme + "://"@ + host + ":"@ + decimal(port as nat);
                if "//"@.is_prefix_of(location) {
                    scheme + "://"@ + location.skip("//"@.len() as int)
                } else if "/"@.is_prefix_of(location) {
                    base + location
                } else {
                    base + directory(path) + location
                }
            },
        }
    }
}

/// Resolves a location against the parts of the current URL.
pub fn resolve_location(parts: &Option<UrlParts>, location: &str) -> (r: String)
    ensures
        r@ == location_from(parts_view(*parts), location@),
{
    if starts_with(location, "http://") || starts_with(location, "https://") {
        return location.to_owned();
    }
    match parts {
        None => location.to_owned(),
        Some(u) => {
            let scheme = if u.https {
                "https"
            } else {
                "http"
            };
            if let Some(rest) = after_prefix(location, "//") {
                return scheme.to_owned().concat("://").concat(rest.as_str());
            }
            let port = decimal_text(u.port as u64);
            let base = scheme.to_owned().concat("://").concat(u.host.as_str()).concat(":").concat(
                port.as_str(),
            );
            if starts_with(location, "/") {
                return base.concat(location);
            }
            let dir = directory_of(u.path.as_str());
            base.concat(dir.as_str()).concat(location)
        },
    }
}

/// Resolves a location against the current URL.
pub fn resolve_redirect_url(current_url: &str, location: &str) -> (r: String)
    ensures
        r@ == location_from(url_parts(current_url@), location@),
{
    let parts = parse_url(current_url);
    resolve_location(&parts, location)
}

/// What a GET does with an answer.
#[derive(Debug)]
pub enum RedirectStep {
    /// The answer stands.
    Done,
    /// Ask there instead.
    Follow(String),
    TooMany(HttpClientError),
}

// ---- The client -----------------------------------------------------------------------------

/// Composes requests and takes note of sessions.
#[derive(Debug)]
pub struct HttpClient {
    pub custom_headers: Vec<(String, String)>,
    pub session: Option<String>,
}

/// The headers of every request: the custom ones and the session, which replaces any
/// custom header of that name.
pub open spec fn request_headers(custom: Pairs, session: Option<Seq<char>>) -> Pairs {
    match session {
        Some(id) => without(custom, "Mcp-Session-Id"@).push(("Mcp-Session-Id"@, id)),
        None => custom,
    }
}

/// The session that is known after an answer with these headers.
pub open spec fn session_after(known: Option<Seq<char>>, headers: Pairs) -> Option<Seq<char>> {
    match header_value(headers, "Mcp-Session-Id"@) {
        Some(id) => Some(id),
        None => known,
    }
}

/// Whether an answer is handed on and not turned into an error.
pub open spec fn is_handed_on(status: u16, headers: Pairs) -> bool {
    200 <= status < 300 || (match header_value(headers, "Content-Type"@) {
        Some(kind) => has_part(kind, "application/json"@),
        None => false,
    })
}

#[verifier::ext_equal]
pub enum NextView {
    Done,
    Follow(Seq<char>),
    TooMany,
}

/// What a GET does with an answer after `count` redirects.
pub open spec fn redirect_of(
    parts: Option<(bool, Seq<char>, u16, Seq<char>)>,
    status: u16,
    headers: Pairs,
    count: u32,
) -> NextView {
    if !redirects(status) {
        NextView::Done
    } else if count >= MAX_GET_REDIRECTS {
        NextView::TooMany
    } else {
        match header_value(headers, "Location"@) {
            Some(location) => NextView::Follow(location_from(parts, location)),
            None => NextView::Done,
        }
    }
}

impl HttpClient {
    pub open spec fn session(&self) -> Option<Seq<char>> {
        match self.session {
            Some(s) => Some(s@),
            None => None,
        }
    }

    pub fn new(headers: &Vec<Header>) -> (r: HttpClient)
        ensures
            r.custom_headers.deep_view() == headers_view(headers@),
            r.session() is None,
    {
        let mut custom: Vec<(String, String)> = Vec::new();
        let mut i: usize = 0;
        while i < headers.len()
            invariant
                i <= headers.len(),
                custom.deep_view() == headers_view(headers@).take(i as int),
            decreases headers.len() - i,
        {
            push_pair(&mut custom, headers[i].name.as_str(), headers[i].value.clone());
            i += 1;
            assert(custom.deep_view() =~= headers_view(headers@).take(i as int));
        }
        assert(headers_view(headers@).take(i as int) =~= headers_view(headers@));
        HttpClient { custom_headers: custom, session: None }
    }

    /// The session that the server opened, if any.
    pub fn session_id(&self) -> (r: Option<String>)
        ensures
            r is Some <==> self.session() is Some,
            r matches Some(s) ==> self.session() == Some(s@),
    {
        match &self.session {
            Some(s) => Some(s.clone()),
            None => None,
        }
    }

    pub fn set_session_id(&mut self, id: Option<String>)
        ensures
            final(self).custom_headers == old(self).custom_headers,
            id is None ==> final(self).session() is None,
            id matches Some(s) ==> final(self).session() == Some(s@),
    {
        self.session = id;
    }

    /// The headers that every request has.
    pub fn build_headers(&self) -> (r: Vec<(String, String)>)
        ensures
            r.deep_view() == request_headers(self.custom_headers.deep_view(), self.session()),
    {
        match &self.session {
            Some(id) => {
                let mut headers = remove_header(&self.custom_headers, "Mcp-Session-Id");
                push_pair(&mut headers, "Mcp-Session-Id", id.clone());
                headers
            },
            None => copy_pairs(&self.custom_headers),
        }
    }

    /// The headers of a POST.
    pub fn post_headers(&self, content_type: &str) -> (r: Vec<(String, String)>)
        ensures
            r.deep_view() == request_headers(
                self.custom_headers.deep_view(),
                self.session(),
            ).push(("Content-Type"@, content_type@)),
    {
        let mut headers = self.build_headers();
        push_pair(&mut headers, "Content-Type", content_type.to_owned());
        headers
    }

    /// The headers of a GET. Where a last event is known, the server is told to go on
    /// after it.
    pub fn get_headers(&self, accept: &str, last_event_id: Option<&str>) -> (r: Vec<
        (String, String),
    >)
        ensures
            r.deep_view() == request_headers(
                self.custom_headers.deep_view(),
                self.session(),
            ).push(("Accept"@, accept@)) + (match last_event_id {
                Some(id) => if id@.len() > 0 {
                    seq![("Last-Event-ID"@, id@)]
                } else {
                    seq![]
                },
                None => seq![],
            }),
    {
        let mut headers = self.build_headers();
        push_pair(&mut headers, "Accept", accept.to_owned());
        let ghost before = headers.deep_view();
        if let Some(id) = last_event_id {
            if !id.is_empty() {
                push_pair(&mut headers, "Last-Event-ID", id.to_owned());
                assert(headers.deep_view() =~= before + seq![("Last-Event-ID"@, id@)]);
            }
        }
        headers
    }

    /// Takes note of the session that an answer names.
    pub fn capture_session_id(&mut self, headers: &Vec<(String, String)>)
        ensures
            final(self).custom_headers == old(self).custom_headers,
            final(self).session() == (match header_value(
                headers.deep_view(),
                "Mcp-Session-Id"@,
            ) {
                Some(id) => Some(id),
                None => old(self).session(),
            }),
            final(self).session() == session_after(old(self).session(), headers.deep_view()),
    {
        if let Some(id) = get_header(headers, "Mcp-Session-Id") {
            self.session = Some(id.to_owned());
        }
    }

    /// Tells answers from errors: a success, or an error whose body is JSON, is handed on;
    /// any other status is an error.
    pub fn check_error_response(&self, resp: HttpResponse) -> (r: Result<
        HttpResponse,
        HttpClientError,
    >)
        ensures
            ({
                let ct = header_value(resp.headers.deep_view(), "Content-Type"@);
                let handed_on = 200 <= resp.status < 300 || (ct is Some && has_part(
                    ct->0,
                    "application/json"@,
                ));
                &&& r matches Ok(x) ==> handed_on && x == resp
                &&& r matches Err(e) ==> !handed_on && (e matches HttpClientError::ServerError {
                    status,
                    body,
                } && status == resp.status && body@ == utf8_lossy(resp.body@))
            }),
            r is Ok <==> is_handed_on(resp.status, resp.headers.deep_view()),
    {
        if 200 <= resp.status && resp.status < 300 {
            return Ok(resp);
        }
        let json = match get_header(&resp.headers, "Content-Type") {
            Some(ct) => contains(ct, "application/json"),
            None => false,
        };
        if json {
            return Ok(resp);
        }
        Err(
            HttpClientError::ServerError {
                status: resp.status,
                body: utf8_text_lossy(resp.body.as_slice()),
            },
        )
    }

    /// What a GET of `url` does with an answer after `count` redirects.
    pub fn redirect_step(
        &self,
        url: &str,
        status: u16,
        headers: &Vec<(String, String)>,
        count: u32,
    ) -> (r: RedirectStep)
        ensures
            !redirects(status) ==> r is Done,
            redirects(status) && count >= MAX_GET_REDIRECTS ==> (r matches RedirectStep::TooMany(
                HttpClientError::TooManyRedirects { count: n, max },
            ) && max == MAX_GET_REDIRECTS && n == (if count < u32::MAX {
                count + 1
            } else {
                count as int
            })),
            redirects(status) && count < MAX_GET_REDIRECTS ==> match header_value(
                headers.deep_view(),
                "Location"@,
            ) {
                Some(location) => r matches RedirectStep::Follow(next) && next@ == location_from(
                    url_parts(url@),
                    location,
                ),
                None => r is Done,
            },
            match redirect_of(url_parts(url@), status, headers.deep_view(), count) {
                NextView::Done => r is Done,
                NextView::Follow(next) => r matches RedirectStep::Follow(x) && x@ == next,
                NextView::TooMany => r is TooMany,
            },
    {
        if !is_redirect(status) {
            return RedirectStep::Done;
        }
        if count >= MAX_GET_REDIRECTS {
            let n: u32 = if count < u32::MAX {
                count + 1
            } else {
                count
            };
            return RedirectStep::TooMany(
                HttpClientError::TooManyRedirects { count: n, max: MAX_GET_REDIRECTS },
            );
        }
        match get_header(headers, "Location") {
            Some(location) => RedirectStep::Follow(resolve_redirect_url(url, location)),
            None => RedirectStep::Done,
        }
    }
}

/// A copy of a list of pairs.
pub fn copy_pairs(v: &Vec<(String, String)>) -> (r: Vec<(String, String)>)
    ensures
        r.deep_view() == v.deep_view(),
{
    let mut out: Vec<(String, String)> = Vec::new();
    let ghost d = v.deep_view();
    let mut i: usize = 0;
    while i < v.len()
        invariant
            i <= v.len(),
            d == v.deep_view(),
            out.deep_view() == d.take(i as int),
        decreases v.len() - i,
    {
        push_pair(&mut out, v[i].0.as_str(), v[i].1.clone());
        i += 1;
        assert(out.deep_view() =~= d.take(i as int));
    }
    assert(d.take(i as int) =~= d);
    out
}

/// A session that an answer named is sent with the next request, and no other session is.
pub proof fn law_captured_session_is_sent(custom: Pairs, id: Seq<char>)
    ensures
        header_value(request_headers(custom, Some(id)), "Mcp-Session-Id"@) == Some(id),
        forall|i: int|
            0 <= i < request_headers(custom, Some(id)).len() && same_ignoring_case(
                (#[trigger] request_headers(custom, Some(id))[i]).0,
                "Mcp-Session-Id"@,
            ) ==> request_headers(custom, Some(id))[i].1 == id,
{
    let name = "Mcp-Session-Id"@;
    let kept = without(custom, name);
    let all = request_headers(custom, Some(id));
    crate::cors::lemma_without(custom, name);
    assert forall|i: int| 0 <= i < kept.len() implies !same_ignoring_case(
        (#[trigger] kept[i]).0,
        name,
    ) by {
        assert(!crate::cors::mentions(kept, name));
    }
    assert forall|i: int|
        0 <= i < all.len() && same_ignoring_case((#[trigger] all[i]).0, name) implies all[i].1
        == id by {
        if i < kept.len() {
            assert(all[i] == kept[i]);
        }
    }
    lemma_header_place_is(all, name, 0, kept.len() as int);
}

pub proof fn lemma_header_place_is(hs: Pairs, name: Seq<char>, from: int, at: int)
    requires
        0 <= from <= at < hs.len(),
        same_ignoring_case(hs[at].0, name),
        forall|k: int| from <= k < at ==> !same_ignoring_case((#[trigger] hs[k]).0, name),
    ensures
        header_place(hs, name, from) == at,
    decreases at - from,
{
    if from < at {
        lemma_header_place_is(hs, name, from + 1, at);
    }
}

/// A header is found whatever the case of its name, and of several the first counts.
pub proof fn law_first_header_counts(hs: Pairs, name: Seq<char>, at: int)
    requires
        0 <= at <= hs.len(),
        at < hs.len() ==> same_ignoring_case(hs[at].0, name),
        forall|k: int| 0 <= k < at ==> !same_ignoring_case((#[trigger] hs[k]).0, name),
    ensures
        at < hs.len() ==> header_value(hs, name) == Some(hs[at].1),
        at == hs.len() ==> header_value(hs, name) is None,
{
    if at < hs.len() {
        lemma_header_place_is(hs, name, 0, at);
    } else {
        lemma_no_header(hs, name, 0);
    }
}

proof fn lemma_no_header(hs: Pairs, name: Seq<char>, from: int)
    requires
        0 <= from <= hs.len(),
        forall|k: int| from <= k < hs.len() ==> !same_ignoring_case((#[trigger] hs[k]).0, name),
    ensures
        header_place(hs, name, from) == hs.len(),
    decreases hs.len() - from,
{
    if from < hs.len() {
        lemma_no_header(hs, name, from + 1);
    }
}

/// A request carries the headers that were asked for, in their order, and besides them the
/// session where one is known.
pub proof fn law_custom_headers_are_sent(custom: Pairs, session: Option<Seq<char>>)
    ensures
        session is None ==> request_headers(custom, session) == custom,
        session is Some ==> request_headers(custom, session) == custom.filter(
            |h: (Seq<char>, Seq<char>)| !same_ignoring_case(h.0, "Mcp-Session-Id"@),
        ).push(("Mcp-Session-Id"@, session->Some_0)),
{
    law_only_that_header_is_taken_out(custom, "Mcp-Session-Id"@);
}

/// A redirect leads to the URL it names, or to that path on the same host and port, or beside
/// the last part of the path.
pub proof fn law_redirect_is_resolved(
    https: bool,
    host: Seq<char>,
    port: u16,
    folder: Seq<char>,
    page: Seq<char>,
    location: Seq<char>,
)
    requires
        folder.len() > 0,
        folder.last() == '/',
        !page.contains('/'),
    ensures
        ({
            let r = location_from(Some((https, host, port, folder + page)), location);
            let scheme = if https {
                "https://"@
            } else {
                "http://"@
            };
            let absolute = "http://"@.is_prefix_of(location) || "https://"@.is_prefix_of(location);
            let rooted = location.len() > 0 && location[0] == '/';
            let hosted = rooted && location.len() > 1 && location[1] == '/';
            &&& absolute ==> r == location
            &&& !absolute && hosted ==> r == scheme + location.skip(2)
            &&& !absolute && rooted && !hosted ==> r == scheme + host + ":"@ + decimal(port as nat)
                + location
            &&& !absolute && !rooted ==> r == scheme + host + ":"@ + decimal(port as nat) + folder
                + location
            &&& location_from(None, location) == location
        }),
{
    reveal_strlit("https://");
    reveal_strlit("http://");
    reveal_strlit("https");
    reveal_strlit("http");
    reveal_strlit("://");
    reveal_strlit("//");
    reveal_strlit("/");
    let word = if https {
        "https"@
    } else {
        "http"@
    };
    let scheme = if https {
        "https://"@
    } else {
        "http://"@
    };
    assert(word + "://"@ =~= scheme);
    let path = folder + page;
    let k = (folder.len() - 1) as int;
    assert(path[k] == '/');
    assert forall|i: int| k < i < path.len() implies path[i] != '/' by {
        assert(path[i] == page[i - folder.len()]);
        assert(page.contains(page[i - folder.len()]));
    }
    lemma_last_index_of_is(path, '/', path.len() as int, k);
    assert(directory(path) =~= folder);
    if location.len() > 0 && location[0] == '/' {
        assert(location.subrange(0, 1) =~= "/"@);
        if location.len() > 1 && location[1] == '/' {
            assert(location.subrange(0, 2) =~= "//"@);
        } else if "//"@.is_prefix_of(location) {
            assert(location.subrange(0, 2)[1] == '/');
        }
    } else {
        if "/"@.is_prefix_of(location) {
            assert(location.subrange(0, 1)[0] == '/');
        }
        if "//"@.is_prefix_of(location) {
            assert(location.subrange(0, 2)[0] == '/');
        }
    }
}

/// The statuses that redirect are those that say so, and no success or error does.
pub proof fn law_some_statuses_redirect(status: u16)
    ensures
        redirects(301) && redirects(302) && redirects(303) && redirects(307) && redirects(308),
        status < 300 || status >= 400 ==> !redirects(status),
        !redirects(304),
{
}

/// The session is the one that the last answer with that header named.
pub proof fn law_last_answer_names_the_session(
    known: Option<Seq<char>>,
    headers: Pairs,
    at: int,
)
    requires
        0 <= at <= headers.len(),
        at < headers.len() ==> same_ignoring_case(headers[at].0, "Mcp-Session-Id"@),
        forall|k: int|
            0 <= k < at ==> !same_ignoring_case((#[trigger] headers[k]).0, "Mcp-Session-Id"@),
    ensures
        at < headers.len() ==> session_after(known, headers) == Some(headers[at].1),
        at == headers.len() ==> session_after(known, headers) == known,
{
    law_first_header_counts(headers, "Mcp-Session-Id"@, at);
}

/// Every success is handed on, and of the rest exactly what calls itself JSON.
pub proof fn law_successes_are_handed_on(status: u16, headers: Pairs, kind: Seq<char>)
    ensures
        200 <= status && status < 300 ==> is_handed_on(status, headers),
        status < 200 || status >= 300 ==> {
            &&& header_value(headers, "Content-Type"@) is None ==> !is_handed_on(status, headers)
            &&& header_value(headers, "Content-Type"@) == Some(kind) ==> (is_handed_on(
                status,
                headers,
            ) <==> has_part(kind, "application/json"@))
        },
{
}

/// A redirect is followed to where it leads, five times at most; without a place to go, and
/// with any other status, the answer stands.
pub proof fn law_redirects_are_followed(
    parts: Option<(bool, Seq<char>, u16, Seq<char>)>,
    status: u16,
    headers: Pairs,
    count: u32,
    location: Seq<char>,
)
    ensures
        ({
            let r = redirect_of(parts, status, headers, count);
            let away = status == 301 || status == 302 || status == 303 || status == 307 || status
                == 308;
            &&& !away ==> r == NextView::Done
            &&& away && count >= 5 ==> r == NextView::TooMany
            &&& away && count < 5 && header_value(headers, "Location"@) is None ==> r
                == NextView::Done
            &&& away && count < 5 && header_value(headers, "Location"@) == Some(location) ==> r
                == NextView::Follow(location_from(parts, location))
        }),
{
}

/// The words of an error of the client hold what went wrong.
pub proof fn law_http_error_keeps_its_words(e: HttpClientError, s: String)
    ensures
        e == HttpClientError::InvalidUrl(s) ==> http_error_text(e) == "invalid URL: "@ + s@,
        e == HttpClientError::Connect(s) ==> http_error_text(e) == "connection failed: "@ + s@,
        e == HttpClientError::Tls(s) ==> http_error_text(e) == "TLS error: "@ + s@,
        e == HttpClientError::Protocol(s) ==> http_error_text(e) == "HTTP protocol error: "@ + s@,
        e == HttpClientError::Io(s) ==> http_error_text(e) == "I/O error: "@ + s@,
        e matches HttpClientError::ServerError { status, body } ==> http_error_text(e)
            == "server error "@ + decimal(status as nat) + ": "@ + body@,
        e matches HttpClientError::TooManyRedirects { count, max } ==> http_error_text(e)
            == "too many redirects ("@ + decimal(count as nat) + " of max "@ + decimal(max as nat)
            + ")"@,
{
}

} // verus!
