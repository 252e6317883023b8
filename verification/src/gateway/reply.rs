//! Answers to HTTP requests that every gateway gives in the same way.

use vstd::prelude::*;
use vstd::string::*;
use vstd::utf8::encode_utf8;

use crate::cli::{headers_view, Header, LogLevel};
use crate::cors::{
    apply_custom_headers, cors_headers, cors_result, law_last_custom_header_wins, str_view,
    with_custom, CorsHandler, CorsResult, CorsResultView,
};
use crate::error::GatewayError;
use crate::health::{check_health, health_of};
use crate::observe::Metrics;
use crate::pairs::{push_pair, Pairs};
use crate::serve::{header_lines, push_header_lines};
use crate::text::{decimal, decimal_text, same, same_ignoring_case};

verus! {

/// An HTTP answer with a text for its body.
#[derive(Debug)]
pub struct GatewayResponse {
    pub status: u16,
    pub headers: Vec<(String, String)>,
    pub body: String,
}

#[verifier::ext_equal]
pub struct ReplyView {
    pub status: u16,
    pub headers: Pairs,
    pub body: Seq<char>,
}

impl View for GatewayResponse {
    type V = ReplyView;

    open spec fn view(&self) -> ReplyView {
        ReplyView { status: self.status, headers: self.headers.deep_view(), body: self.body@ }
    }
}

/// What decides about the headers of every answer.
pub struct Setup {
    pub cors: CorsHandler,
    pub custom_headers: Vec<Header>,
    pub log_level: LogLevel,
    pub health_endpoints: Vec<String>,
}

pub open spec fn texts_view(v: Seq<String>) -> Seq<Seq<char>> {
    Seq::new(v.len(), |i: int| v[i]@)
}

impl Setup {
    /// The custom headers.
    pub open spec fn custom(self) -> Pairs {
        headers_view(self.custom_headers@)
    }

    /// The headers that a request of the method and origin asks for.
    pub open spec fn cors_for(self, method: Seq<char>, origin: Option<Seq<char>>) -> Pairs {
        match cors_result(self.cors.config@, self.cors.expose_session_header, method, origin) {
            CorsResultView::ResponseHeaders(h) => h,
            _ => seq![],
        }
    }

    /// Headers with the custom ones set on top.
    pub open spec fn dressed(self, headers: Pairs) -> Pairs {
        with_custom(headers, self.custom(), 0)
    }

    /// A text as an answer.
    pub open spec fn text_reply(
        self,
        status: u16,
        kind: Seq<char>,
        body: Seq<char>,
        cors: Pairs,
    ) -> ReplyView {
        ReplyView {
            status,
            headers: self.dressed(seq![("Content-Type"@, kind)] + cors),
            body,
        }
    }

    /// How an error is answered.
    pub open spec fn error_reply(self, e: GatewayError, cors: Pairs) -> ReplyView {
        self.text_reply(e.status(), e.type_text(), e.body_text(), cors)
    }

    /// The answer to a preflight request, where such requests are answered.
    pub open spec fn options_reply(self, origin: Option<Seq<char>>) -> Option<ReplyView> {
        match cors_result(
            self.cors.config@,
            self.cors.expose_session_header,
            "OPTIONS"@,
            origin,
        ) {
            CorsResultView::Preflight(h) => Some(
                ReplyView { status: 204, headers: self.dressed(h), body: ""@ },
            ),
            _ => None,
        }
    }

    /// Whether the path is that of a health endpoint.
    pub open spec fn is_health(self, path: Seq<char>) -> bool {
        texts_view(self.health_endpoints@).contains(path)
    }

    /// The answer of a health endpoint.
    pub open spec fn health_reply(
        self,
        m: Metrics,
        path: Seq<char>,
        detail: bool,
        origin: Option<Seq<char>>,
    ) -> Option<ReplyView> {
        if self.is_health(path) {
            let h = health_of(m, detail, self.log_level);
            Some(
                self.text_reply(
                    h.status(),
                    h.content_type(),
                    h.body(),
                    self.cors_for("GET"@, origin),
                ),
            )
        } else {
            None
        }
    }

    /// The headers that a request of the method and origin asks for.
    pub fn cors_headers(&self, method: &str, origin: Option<&str>) -> (r: Vec<(String, String)>)
        ensures
            r.deep_view() == self.cors_for(method@, str_view(origin)),
    {
        match self.cors.process(method, origin) {
            CorsResult::ResponseHeaders(h) => h,
            _ => {
                let none: Vec<(String, String)> = Vec::new();
                assert(none.deep_view() =~= Seq::<(Seq<char>, Seq<char>)>::empty());
                none
            },
        }
    }

    /// Answers with a text.
    pub fn text_response(
        &self,
        status: u16,
        kind: &str,
        body: &str,
        cors: &Vec<(String, String)>,
    ) -> (r: GatewayResponse)
        ensures
            r@ == self.text_reply(status, kind@, body@, cors.deep_view()),
    {
        let mut headers: Vec<(String, String)> = Vec::new();
        push_pair(&mut headers, "Content-Type", kind.to_owned());
        extend_pairs(&mut headers, cors);
        assert(headers.deep_view() =~= seq![("Content-Type"@, kind@)] + cors.deep_view());
        apply_custom_headers(&mut headers, &self.custom_headers);
        GatewayResponse { status, headers, body: body.to_owned() }
    }

    /// Answers with a plain text.
    pub fn plain_response(&self, status: u16, body: &str, cors: &Vec<(String, String)>) -> (r:
        GatewayResponse)
        ensures
            r@ == self.text_reply(status, "text/plain"@, body@, cors.deep_view()),
    {
        self.text_response(status, "text/plain", body, cors)
    }

    /// Answers with an error.
    pub fn error_response(&self, err: &GatewayError, cors: &Vec<(String, String)>) -> (r:
        GatewayResponse)
        ensures
            r@ == self.error_reply(*err, cors.deep_view()),
    {
        let body = err.body();
        self.text_response(err.status_code(), err.content_type(), body.as_str(), cors)
    }

    /// Answers a preflight request; nothing where cross-origin requests are not dealt with.
    pub fn options_response(&self, origin: Option<&str>) -> (r: Option<GatewayResponse>)
        ensures
            match self.options_reply(str_view(origin)) {
                Some(v) => r matches Some(x) && x@ == v,
                None => r is None,
            },
    {
        match self.cors.process("OPTIONS", origin) {
            CorsResult::Preflight(h) => {
                let mut headers = h;
                apply_custom_headers(&mut headers, &self.custom_headers);
                Some(GatewayResponse { status: 204, headers, body: "".to_owned() })
            },
            _ => None,
        }
    }

    /// Whether the path is that of a health endpoint.
    pub fn is_health_path(&self, path: &str) -> (r: bool)
        ensures
            r == self.is_health(path@),
    {
        let ghost all = texts_view(self.health_endpoints@);
        let mut i: usize = 0;
        while i < self.health_endpoints.len()
            invariant
                i <= self.health_endpoints.len(),
                all == texts_view(self.health_endpoints@),
                forall|k: int| 0 <= k < i ==> #[trigger] all[k] != path@,
            decreases self.health_endpoints.len() - i,
        {
            if same(self.health_endpoints[i].as_str(), path) {
                assert(all[i as int] == path@);
                return true;
            }
            i += 1;
        }
        false
    }

    /// Answers a request to a health endpoint; nothing where the path is not that of one.
    pub fn health_response(
        &self,
        metrics: &Metrics,
        path: &str,
        detail: bool,
        origin: Option<&str>,
    ) -> (r: Option<GatewayResponse>)
        ensures
            match self.health_reply(*metrics, path@, detail, str_view(origin)) {
                Some(v) => r matches Some(x) && x@ == v,
                None => r is None,
            },
    {
        if !self.is_health_path(path) {
            return None;
        }
        let health = check_health(metrics, detail, self.log_level);
        let cors = self.cors_headers("GET", origin);
        Some(self.text_response(health.status_code(), health.content_type(), health.body(), &cors))
    }
}

/// Puts the pairs of one list behind those of another.
pub fn extend_pairs(v: &mut Vec<(String, String)>, more: &Vec<(String, String)>)
    ensures
        final(v).deep_view() == old(v).deep_view() + more.deep_view(),
{
    let ghost before = v.deep_view();
    let ghost d = more.deep_view();
    let mut i: usize = 0;
    assert(before =~= before + d.take(0));
    while i < more.len()
        invariant
            i <= more.len(),
            d == more.deep_view(),
            v.deep_view() == before + d.take(i as int),
        decreases more.len() - i,
    {
        push_pair(v, more[i].0.as_str(), more[i].1.clone());
        assert(d[i as int] == (more[i as int].0@, more[i as int].1@));
        assert(before + d.take(i + 1) =~= (before + d.take(i as int)).push(d[i as int]));
        i += 1;
    }
    assert(d.take(i as int) =~= d);
}

/// The words for an HTTP status.
pub open spec fn reason_of(status: u16) -> Seq<char> {
    match status {
        101 => "Switching Protocols"@,
        200 => "OK"@,
        202 => "Accepted"@,
        204 => "No Content"@,
        302 => "Found"@,
        400 => "Bad Request"@,
        401 => "Unauthorized"@,
        404 => "Not Found"@,
        405 => "Method Not Allowed"@,
        406 => "Not Acceptable"@,
        409 => "Conflict"@,
        413 => "Payload Too Large"@,
        415 => "Unsupported Media Type"@,
        431 => "Request Header Fields Too Large"@,
        500 => "Internal Server Error"@,
        502 => "Bad Gateway"@,
        503 => "Service Unavailable"@,
        _ => "Unknown"@,
    }
}

/// The words for an HTTP status.
pub fn http_reason(status: u16) -> (r: &'static str)
    ensures
        r@ == reason_of(status),
{
    match status {
        101 => "Switching Protocols",
        200 => "OK",
        202 => "Accepted",
        204 => "No Content",
        302 => "Found",
        400 => "Bad Request",
        401 => "Unauthorized",
        404 => "Not Found",
        405 => "Method Not Allowed",
        406 => "Not Acceptable",
        409 => "Conflict",
        413 => "Payload Too Large",
        415 => "Unsupported Media Type",
        431 => "Request Header Fields Too Large",
        500 => "Internal Server Error",
        502 => "Bad Gateway",
        503 => "Service Unavailable",
        _ => "Unknown",
    }
}

/// An answer as it goes over the wire.
pub open spec fn reply_wire(r: ReplyView) -> Seq<u8> {
    encode_utf8(
        "HTTP/1.1 "@ + decimal(r.status as nat) + " "@ + reason_of(r.status) + "\r\n"@
            + header_lines(r.headers, 0) + "Content-Length: "@ + decimal(
            encode_utf8(r.body).len(),
        ) + "\r\n\r\n"@,
    ) + encode_utf8(r.body)
}

/// Writes an answer as it goes over the wire.
pub fn reply_bytes(resp: &GatewayResponse) -> (r: Vec<u8>)
    ensures
        r@ == reply_wire(resp@),
{
    let mut head = String::new();
    let status = decimal_text(resp.status as u64);
    let body: &[u8] = resp.body.as_str().as_bytes();
    let length = decimal_text(body.len() as u64);
    head.append("HTTP/1.1 ");
    head.append(status.as_str());
    head.append(" ");
    head.append(http_reason(resp.status));
    head.append("\r\n");
    push_header_lines(&mut head, &resp.headers);
    head.append("Content-Length: ");
    head.append(length.as_str());
    head.append("\r\n\r\n");
    let ghost expected = "HTTP/1.1 "@ + decimal(resp.status as nat) + " "@ + reason_of(resp.status)
        + "\r\n"@ + header_lines(resp@.headers, 0) + "Content-Length: "@ + decimal(
        encode_utf8(resp@.body).len(),
    ) + "\r\n\r\n"@;
    assert(head@ =~= expected);
    let mut out: Vec<u8> = Vec::new();
    out.extend_from_slice(head.as_str().as_bytes());
    out.extend_from_slice(body);
    assert(out@ =~= reply_wire(resp@));
    out
}

/// A reply has its status and its body as they are, and among its headers its type, unless a
/// custom header of that name was asked for.
pub proof fn law_reply_holds_status_type_and_body(
    s: Setup,
    status: u16,
    kind: Seq<char>,
    body: Seq<char>,
    cors: Pairs,
)
    requires
        s.custom_headers@.len() == 0,
    ensures
        s.text_reply(status, kind, body, cors) == (ReplyView {
            status,
            headers: seq![("Content-Type"@, kind)] + cors,
            body,
        }),
{
    assert(s.custom() =~= Seq::empty());
}

/// The custom header that was asked for last is in every reply, errors and preflights too.
pub proof fn law_custom_header_is_in_every_reply(
    s: Setup,
    status: u16,
    kind: Seq<char>,
    body: Seq<char>,
    cors: Pairs,
    e: GatewayError,
    origin: Option<Seq<char>>,
)
    requires
        s.custom_headers@.len() > 0,
    ensures
        ({
            let h = (s.custom_headers@.last().name@, s.custom_headers@.last().value@);
            &&& s.text_reply(status, kind, body, cors).headers.contains(h)
            &&& s.error_reply(e, cors).headers.contains(h)
            &&& s.options_reply(origin) matches Some(r) ==> r.headers.contains(h)
        }),
{
    let n = (s.custom_headers@.len() - 1) as int;
    let h = (s.custom_headers@.last().name@, s.custom_headers@.last().value@);
    assert(s.custom()[n] == h);
    law_last_custom_header_wins(seq![("Content-Type"@, kind)] + cors, s.custom(), n);
    law_last_custom_header_wins(seq![("Content-Type"@, e.type_text())] + cors, s.custom(), n);
    match s.options_reply(origin) {
        Some(r) => {
            match cors_result(
                s.cors.config@,
                s.cors.expose_session_header,
                "OPTIONS"@,
                origin,
            ) {
                CorsResultView::Preflight(p) => {
                    law_last_custom_header_wins(p, s.custom(), n);
                },
                _ => {},
            }
        },
        None => {},
    }
}

/// A preflight is answered with 204 and no body wherever cross-origin requests are dealt with,
/// and other answers then carry what is granted.
pub proof fn law_preflight_is_answered(s: Setup, origin: Option<Seq<char>>, method: Seq<char>)
    requires
        s.custom_headers@.len() == 0,
    ensures
        s.cors.config@ is Disabled ==> s.options_reply(origin) is None && s.cors_for(method, origin)
            == Seq::<(Seq<char>, Seq<char>)>::empty(),
        !(s.cors.config@ is Disabled) ==> s.options_reply(origin) == Some(
            ReplyView {
                status: 204,
                headers: cors_headers(
                    s.cors.config@,
                    s.cors.expose_session_header,
                    origin,
                    true,
                ),
                body: Seq::empty(),
            },
        ),
        !(s.cors.config@ is Disabled) && !same_ignoring_case(method, "OPTIONS"@) ==> s.cors_for(
            method,
            origin,
        ) == cors_headers(s.cors.config@, s.cors.expose_session_header, origin, false),
{
    reveal_strlit("");
    assert(""@ =~= Seq::<char>::empty());
    assert(s.custom() =~= Seq::empty());
}

/// A check of health is answered at each of the paths that were asked for and at no other.
pub proof fn law_health_is_answered_at_its_paths(
    s: Setup,
    m: Metrics,
    path: Seq<char>,
    detail: bool,
    origin: Option<Seq<char>>,
)
    ensures
        s.health_reply(m, path, detail, origin) is Some <==> exists|i: int|
            0 <= i < s.health_endpoints@.len() && (#[trigger] s.health_endpoints@[i])@ == path,
        s.health_reply(m, path, detail, origin) matches Some(r) ==> (r.status == 200 <==> m.ready)
            && (r.status == 503 <==> !m.ready) && (m.ready && !detail ==> r.body == "ok"@),
{
    let v = texts_view(s.health_endpoints@);
    if v.contains(path) {
        let i = choose|i: int| 0 <= i < v.len() && v[i] == path;
        assert(s.health_endpoints@[i]@ == path);
    }
    if exists|i: int| 0 <= i < s.health_endpoints@.len() && (#[trigger] s.health_endpoints@[i])@ == path {
        let i = choose|i: int|
            0 <= i < s.health_endpoints@.len() && (#[trigger] s.health_endpoints@[i])@ == path;
        assert(v[i] == path);
    }
}

/// An error is answered with its status, its words and their type.
pub proof fn law_error_is_answered(s: Setup, e: GatewayError, cors: Pairs)
    ensures
        s.error_reply(e, cors).status == e.status(),
        s.error_reply(e, cors).body == e.body_text(),
        s.custom_headers@.len() == 0 ==> s.error_reply(e, cors).headers == seq![
            ("Content-Type"@, e.type_text()),
        ] + cors,
{
    if s.custom_headers@.len() == 0 {
        assert(s.custom() =~= Seq::empty());
    }
}

/// A reply goes out as its status with the reason, its headers in their order, the length of
/// its body in bytes, a blank line and the body.
pub proof fn law_reply_is_written(r: ReplyView)
    ensures
        reply_wire(r) == encode_utf8(
            "HTTP/1.1 "@ + decimal(r.status as nat) + " "@ + reason_of(r.status) + "\r\n"@
                + header_lines(r.headers, 0) + "Content-Length: "@ + decimal(
                encode_utf8(r.body).len(),
            ) + "\r\n\r\n"@,
        ) + encode_utf8(r.body),
        reason_of(101) == "Switching Protocols"@,
        reason_of(200) == "OK"@,
        reason_of(202) == "Accepted"@,
        reason_of(204) == "No Content"@,
        reason_of(302) == "Found"@,
        reason_of(400) == "Bad Request"@,
        reason_of(401) == "Unauthorized"@,
        reason_of(404) == "Not Found"@,
        reason_of(405) == "Method Not Allowed"@,
        reason_of(406) == "Not Acceptable"@,
        reason_of(409) == "Conflict"@,
        reason_of(413) == "Payload Too Large"@,
        reason_of(415) == "Unsupported Media Type"@,
        reason_of(431) == "Request Header Fields Too Large"@,
        reason_of(500) == "Internal Server Error"@,
        reason_of(502) == "Bad Gateway"@,
        reason_of(503) == "Service Unavailable"@,
{
}

} // verus!
