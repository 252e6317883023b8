//! From stdio to streamable HTTP with sessions: each session has a child of its own. Posted
//! requests wait for the child's answers; a stream carries its notifications.

use vstd::prelude::*;
use vstd::string::*;
use vstd::utf8::{decode_utf8, encode_utf8, valid_utf8};

use crate::child::ChildError;
use crate::client::http::{get_header, header_value};
use crate::cors::{apply_custom_headers, cors_result, str_view, with_custom, CorsResult};
use crate::error::{GatewayError, INTERNAL_ERROR};
use crate::gateway::exchange::{
    abandoned, advanced, answers_text, event_text, format_sse_event, is_failed, is_watched,
    law_batch_of_the_child_is_its_messages, law_request_gets_its_answer,
    law_requests_of_a_post_wait, messages_routed, new_data, registered, started, DataView, Exchange, ExchangeView, SessionData, Stream,
};
use crate::gateway::reply::{extend_pairs, texts_view, Setup};
use crate::gateway::sse::{
    into_messages, messages_of, push_stream_headers, silent, silent_step, stream_headers, StepView,
    StreamStep,
};
use crate::health::{check_health, health_of};
use crate::jsonrpc::{
    error_message, line_error, line_is, message_text, messages_view, parse_error_text, parse_line,
    MessageView, Parsed, ParsedView, RawMessage,
};
use crate::observe::{counted, discounted, Metrics};
use crate::pairs::{
    first_value, get_value, law_first_occurrence_counts, push_pair, set_value, with_value, Pairs,
};
use crate::serve::{query_part, split_query_part};
use crate::session::{
    acquired, fresh_session, is_drained, is_idle, released, unusable, SessionError, SessionId,
    SessionManager, SessionManagerConfig, SessionState,
};
use crate::store::Store;
use crate::system::is_uuid;
use crate::text::{
    body_text, contains, decimal, has_part, law_parts_lie_between_separators, lemma_index_of_is, same,
    split, split_text,
};

verus! {

/// The longest body of a request, in bytes.
pub const MAX_BODY_SIZE: usize = 16_777_216;

// ---- Requests --------------------------------------------------------------------------------

/// An HTTP request.
#[derive(Debug)]
pub struct GatewayRequest {
    pub method: String,
    pub path: String,
    pub headers: Vec<(String, String)>,
    pub body: Vec<u8>,
    /// The parameters of the query, each name once.
    pub query: Vec<(String, String)>,
}

#[verifier::ext_equal]
pub struct RequestView {
    pub method: Seq<char>,
    pub path: Seq<char>,
    pub headers: Pairs,
    pub body: Seq<u8>,
    pub query: Pairs,
}

impl View for GatewayRequest {
    type V = RequestView;

    open spec fn view(&self) -> RequestView {
        RequestView {
            method: self.method@,
            path: self.path@,
            headers: self.headers.deep_view(),
            body: self.body@,
            query: self.query.deep_view(),
        }
    }
}

impl RequestView {
    pub open spec fn header(self, name: Seq<char>) -> Option<Seq<char>> {
        header_value(self.headers, name)
    }

    /// The value of a header, or an empty text.
    pub open spec fn header_or_empty(self, name: Seq<char>) -> Seq<char> {
        match self.header(name) {
            Some(v) => v,
            None => ""@,
        }
    }

    pub open spec fn session_id(self) -> Option<Seq<char>> {
        self.header("mcp-session-id"@)
    }

    pub open spec fn accepts(self, media_type: Seq<char>) -> bool {
        self.header("accept"@) matches Some(v) && has_part(v, media_type)
    }

    pub open spec fn wants_detail(self) -> bool {
        first_value(self.query, "detail"@) == Some("true"@)
    }
}

impl GatewayRequest {
    /// The value of a header, whatever the case of its name.
    pub fn header(&self, name: &str) -> (r: Option<&str>)
        ensures
            str_view(r) == self@.header(name@),
    {
        get_header(&self.headers, name)
    }

    /// The value of a header, or an empty text.
    pub fn header_or_empty(&self, name: &str) -> (r: &str)
        ensures
            r@ == self@.header_or_empty(name@),
    {
        match self.header(name) {
            Some(v) => v,
            None => "",
        }
    }

    /// The session that the request names.
    pub fn session_id_header(&self) -> (r: Option<&str>)
        ensures
            str_view(r) == self@.session_id(),
    {
        self.header("mcp-session-id")
    }

    /// Whether the client accepts answers of the media type.
    pub fn accepts(&self, media_type: &str) -> (r: bool)
        ensures
            r == self@.accepts(media_type@),
    {
        match self.header("accept") {
            Some(v) => contains(v, media_type),
            None => false,
        }
    }

    /// Whether the query asks for details.
    pub fn wants_detail(&self) -> (r: bool)
        ensures
            r == self@.wants_detail(),
    {
        match get_value(&self.query, "detail") {
            Some(v) => same(v, "true"),
            None => false,
        }
    }
}

/// The parameters of a query from `from` on, on top of those that are known.
pub open spec fn params_from(parts: Seq<Seq<char>>, from: int, ps: Pairs) -> Pairs
    decreases parts.len() - from,
{
    if from >= parts.len() {
        ps
    } else {
        let (name, value) = query_part(parts[from]);
        let next = if name.len() == 0 {
            ps
        } else {
            with_value(
                ps,
                name,
                match value {
                    Some(v) => v,
                    None => ""@,
                },
            )
        };
        params_from(parts, from + 1, next)
    }
}

/// The parameters of a query. A name that occurs again has its last value; a piece without
/// a name is dropped.
pub open spec fn query_params(query: Seq<char>) -> Pairs {
    params_from(split(query, '&'), 0, seq![])
}

/// Reads the parameters of a query.
pub fn parse_query(query: &str) -> (r: Vec<(String, String)>)
    ensures
        r.deep_view() == query_params(query@),
{
    let parts = split_text(query, '&');
    let ghost d = parts.deep_view();
    let mut out: Vec<(String, String)> = Vec::new();
    assert(out.deep_view() =~= seq![]);
    let mut i: usize = 0;
    while i < parts.len()
        invariant
            i <= parts.len(),
            d == parts.deep_view(),
            params_from(d, 0, seq![]) == params_from(d, i as int, out.deep_view()),
        decreases parts.len() - i,
    {
        let (name, value) = split_query_part(parts[i].as_str());
        if !name.as_str().is_empty() {
            let v = match value {
                Some(x) => x,
                None => "".to_owned(),
            };
            set_value(&mut out, name, v);
        }
        i += 1;
    }
    out
}

// ---- Answers -----------------------------------------------------------------------------------

/// An HTTP answer.
#[derive(Debug)]
pub struct GatewayResponse {
    pub status: u16,
    pub headers: Vec<(String, String)>,
    pub body: Vec<u8>,
}

#[verifier::ext_equal]
pub struct HttpReply {
    pub status: u16,
    pub headers: Pairs,
    pub body: Seq<u8>,
}

impl View for GatewayResponse {
    type V = HttpReply;

    open spec fn view(&self) -> HttpReply {
        HttpReply { status: self.status, headers: self.headers.deep_view(), body: self.body@ }
    }
}

/// A text as an answer.
pub open spec fn text_http(status: u16, kind: Seq<char>, body: Seq<char>) -> HttpReply {
    HttpReply { status, headers: seq![("content-type"@, kind)], body: encode_utf8(body) }
}

pub open spec fn plain_http(status: u16, body: Seq<char>) -> HttpReply {
    text_http(status, "text/plain"@, body)
}

/// Events as an answer.
pub open spec fn sse_http(status: u16, events: Seq<char>) -> HttpReply {
    HttpReply {
        status,
        headers: seq![
            ("content-type"@, "text/event-stream"@),
            ("cache-control"@, "no-cache"@),
        ],
        body: encode_utf8(events),
    }
}

/// An answer without a body.
pub open spec fn bare_http(status: u16) -> HttpReply {
    HttpReply { status, headers: seq![], body: seq![] }
}

/// How an error is answered.
pub open spec fn error_http(e: GatewayError) -> HttpReply {
    text_http(e.status(), e.type_text(), e.body_text())
}

/// How a failure within the gateway is answered.
pub open spec fn internal_http(detail: Seq<char>) -> HttpReply {
    text_http(
        500,
        "application/json"@,
        message_text(error_message(None, INTERNAL_ERROR as int, "Internal error: "@ + detail)),
    )
}

/// How an unusable session is answered.
pub open spec fn session_http(e: SessionError) -> HttpReply {
    match e {
        SessionError::NotFound => plain_http(404, "Invalid or missing session ID"@),
        SessionError::Closing => error_http(GatewayError::SessionClosing),
        SessionError::MaxSessionsReached => plain_http(
            503,
            "service unavailable: max sessions reached"@,
        ),
    }
}

/// An answer with more headers.
pub open spec fn with_headers(r: HttpReply, headers: Pairs) -> HttpReply {
    HttpReply { headers: r.headers + headers, ..r }
}

impl GatewayResponse {
    /// An answer without a body.
    pub fn new(status: u16) -> (r: GatewayResponse)
        ensures
            r@ == bare_http(status),
    {
        let r = GatewayResponse { status, headers: Vec::new(), body: Vec::new() };
        assert(r@ =~= bare_http(status));
        r
    }

    /// A text as an answer.
    pub fn text(status: u16, kind: &str, body: &str) -> (r: GatewayResponse)
        ensures
            r@ == text_http(status, kind@, body@),
    {
        let mut headers: Vec<(String, String)> = Vec::new();
        push_pair(&mut headers, "content-type", kind.to_owned());
        let mut bytes: Vec<u8> = Vec::new();
        bytes.extend_from_slice(body.as_bytes());
        let r = GatewayResponse { status, headers, body: bytes };
        assert(r@ =~= text_http(status, kind@, body@));
        r
    }

    pub fn plain_text(status: u16, body: &str) -> (r: GatewayResponse)
        ensures
            r@ == plain_http(status, body@),
    {
        GatewayResponse::text(status, "text/plain", body)
    }

    pub fn json(status: u16, body: &str) -> (r: GatewayResponse)
        ensures
            r@ == text_http(status, "application/json"@, body@),
    {
        GatewayResponse::text(status, "application/json", body)
    }

    /// Events as an answer.
    pub fn sse(status: u16, events: &str) -> (r: GatewayResponse)
        ensures
            r@ == sse_http(status, events@),
    {
        let mut r = GatewayResponse::text(status, "text/event-stream", events);
        push_pair(&mut r.headers, "cache-control", "no-cache".to_owned());
        assert(r@ =~= sse_http(status, events@));
        r
    }

    pub fn no_content() -> (r: GatewayResponse)
        ensures
            r@ == bare_http(204),
    {
        GatewayResponse::new(204)
    }

    pub fn accepted() -> (r: GatewayResponse)
        ensures
            r@ == bare_http(202),
    {
        GatewayResponse::new(202)
    }

    /// The answer that reports an error.
    pub fn from_error(err: &GatewayError) -> (r: GatewayResponse)
        ensures
            r@ == error_http(*err),
    {
        let body = err.body();
        GatewayResponse::text(err.status_code(), err.content_type(), body.as_str())
    }

    /// The answer with more headers.
    pub fn with_headers(self, headers: &Vec<(String, String)>) -> (r: GatewayResponse)
        ensures
            r@ == with_headers(self@, headers.deep_view()),
    {
        let mut r = self;
        extend_pairs(&mut r.headers, headers);
        r
    }
}

fn internal_response(detail: String) -> (r: GatewayResponse)
    ensures
        r@ == internal_http(detail@),
{
    GatewayResponse::from_error(&GatewayError::Internal(detail))
}

fn session_response(e: SessionError) -> (r: GatewayResponse)
    ensures
        r@ == session_http(e),
{
    proof {
        reveal_strlit("service unavailable: max sessions reached");
        reveal_strlit("service unavailable: ");
        reveal_strlit("max sessions reached");
        assert("service unavailable: max sessions reached"@ =~= "service unavailable: "@
            + "max sessions reached"@);
    }
    GatewayResponse::from_error(&GatewayError::of_session(e))
}

// ---- The gateway ---------------------------------------------------------------------------------

/// The stream of notifications, given to a client.
#[derive(Debug)]
pub struct SseStreamConnection {
    pub session_id: SessionId,
    pub headers: Vec<(String, String)>,
}

/// A posted message on its way.
pub struct Post {
    /// The session that it belongs to. None while the session is still to be made.
    pub session: Option<SessionId>,
    /// Whether it made the session.
    pub created: bool,
    pub messages: Vec<RawMessage>,
    /// The headers that the answer gets besides its own.
    pub cors: Vec<(String, String)>,
}

#[verifier::ext_equal]
pub struct PostView {
    pub session: Option<Seq<char>>,
    pub created: bool,
    pub messages: Seq<MessageView>,
    pub cors: Pairs,
}

impl View for Post {
    type V = PostView;

    open spec fn view(&self) -> PostView {
        PostView {
            session: match self.session {
                Some(id) => Some(id@),
                None => None,
            },
            created: self.created,
            messages: messages_view(self.messages@),
            cors: self.cors.deep_view(),
        }
    }
}

/// What is done with a request.
pub enum RequestResult {
    /// It is answered.
    Response(GatewayResponse),
    /// It is answered by the stream of notifications.
    SseStream(SseStreamConnection),
    /// A child is started for it.
    Initialize(Post),
    /// It is handed to the child of its session.
    Forward(Post),
    /// It is answered, and the session is closed when nobody uses it any more.
    Drain(SessionId, GatewayResponse),
}

#[verifier::ext_equal]
pub enum ResultView {
    Response(HttpReply),
    SseStream(Seq<char>, Pairs),
    Initialize(PostView),
    Forward(PostView),
    Drain(Seq<char>, HttpReply),
}

impl View for RequestResult {
    type V = ResultView;

    open spec fn view(&self) -> ResultView {
        match self {
            RequestResult::Response(x) => ResultView::Response(x@),
            RequestResult::SseStream(c) => ResultView::SseStream(
                c.session_id@,
                c.headers.deep_view(),
            ),
            RequestResult::Initialize(p) => ResultView::Initialize(p@),
            RequestResult::Forward(p) => ResultView::Forward(p@),
            RequestResult::Drain(id, x) => ResultView::Drain(id@, x@),
        }
    }
}

/// The gateway.
pub struct StatefulHttpGateway {
    pub sessions: SessionManager<SessionData>,
    /// What belongs to sessions that were closed while somebody still waited for them.
    pub parting: Store<SessionData>,
    pub setup: Setup,
    pub mcp_path: String,
    pub metrics: Metrics,
}

pub type Sessions = Map<Seq<char>, SessionState<DataView>>;

/// What changes as requests come and go.
#[verifier::ext_equal]
pub struct StatefulState {
    pub table: Sessions,
    pub parting: Map<Seq<char>, DataView>,
    pub metrics: Metrics,
}

/// Why a posted message is refused before its session matters, if it is.
pub open spec fn post_refusal(req: RequestView) -> Option<HttpReply> {
    let kind = req.header_or_empty("content-type"@);
    let accept = req.header_or_empty("accept"@);
    if !has_part(kind, "application/json"@) {
        Some(
            plain_http(
                415,
                "unsupported media type: "@ + ("expected "@ + "application/json"@ + ", got "@
                    + kind),
            ),
        )
    } else if (!has_part(accept, "application/json"@) || !has_part(accept, "text/event-stream"@))
        && !has_part(accept, "*/*"@) && accept != "*"@ {
        Some(plain_http(406, "not acceptable: "@ + "missing required Accept header"@))
    } else if req.body.len() > MAX_BODY_SIZE {
        Some(plain_http(413, "payload too large"@))
    } else if !valid_utf8(req.body) {
        Some(plain_http(400, "bad request: "@ + "invalid UTF-8"@))
    } else {
        match line_error(decode_utf8(req.body)) {
            Some(e) => Some(
                plain_http(400, "bad request: "@ + ("malformed JSON: "@ + parse_error_text(e))),
            ),
            None => None,
        }
    }
}

/// Whether the messages ask for a session.
pub open spec fn asks_for_session(ms: Seq<MessageView>) -> bool {
    ms.len() == 1 && ms[0].is_initialize_request()
}

/// What is done with posted messages, and the state after it.
pub open spec fn post_taken(
    s: StatefulState,
    session: Option<Seq<char>>,
    messages: Seq<MessageView>,
    cors: Pairs,
) -> (StatefulState, ResultView) {
    match session {
        None => if asks_for_session(messages) {
            (
                s,
                ResultView::Initialize(PostView { session: None, created: false, messages, cors }),
            )
        } else {
            (
                s,
                ResultView::Response(
                    with_headers(
                        plain_http(
                            400,
                            "bad request: "@
                                + "missing Mcp-Session-Id header (non-initialize request)"@,
                        ),
                        cors,
                    ),
                ),
            )
        },
        Some(id) => match unusable(s.table, id) {
            Some(e) => (s, ResultView::Response(with_headers(session_http(e), cors))),
            None => (
                StatefulState { table: s.table.insert(id, acquired(s.table[id])), ..s },
                ResultView::Forward(
                    PostView { session: Some(id), created: false, messages, cors },
                ),
            ),
        },
    }
}

/// What is done with a request for the stream of notifications, and the state after it.
pub open spec fn stream_taken(s: StatefulState, setup: Setup, req: RequestView, cors: Pairs) -> (
    StatefulState,
    ResultView,
) {
    if !req.accepts("text/event-stream"@) {
        (
            s,
            ResultView::Response(
                with_headers(
                    plain_http(406, "not acceptable: "@ + "missing Accept: text/event-stream"@),
                    cors,
                ),
            ),
        )
    } else if req.session_id() is None {
        (
            s,
            ResultView::Response(
                with_headers(
                    plain_http(400, "bad request: "@ + "missing Mcp-Session-Id header"@),
                    cors,
                ),
            ),
        )
    } else {
        let id = req.session_id()->Some_0;
        match unusable(s.table, id) {
            Some(e) => (s, ResultView::Response(with_headers(session_http(e), cors))),
            None => {
                let used = acquired(s.table[id]);
                let d = used.data;
                if d.has_sse_stream || d.stream != Stream::Free {
                    let claimed = SessionState {
                        data: DataView { has_sse_stream: true, ..d },
                        ..used
                    };
                    (
                        StatefulState { table: s.table.insert(id, released(claimed)), ..s },
                        ResultView::Response(
                            with_headers(
                                plain_http(
                                    409,
                                    "conflict: "@ + "SSE stream already open for this session"@,
                                ),
                                cors,
                            ),
                        ),
                    )
                } else {
                    let claimed = SessionState {
                        data: DataView { has_sse_stream: true, stream: Stream::Taken, ..d },
                        ..used
                    };
                    (
                        StatefulState {
                            table: s.table.insert(id, claimed),
                            metrics: Metrics {
                                active_clients: counted(s.metrics.active_clients),
                                ..s.metrics
                            },
                            ..s
                        },
                        ResultView::SseStream(
                            id,
                            setup.dressed(
                                stream_headers().push(("Mcp-Session-Id"@, id)) + cors,
                            ),
                        ),
                    )
                }
            },
        }
    }
}

/// What is done with a request to delete a session, and the state after it.
pub open spec fn delete_taken(s: StatefulState, session: Option<Seq<char>>, cors: Pairs) -> (
    StatefulState,
    ResultView,
) {
    let fine = with_headers(plain_http(200, "OK"@), cors);
    match session {
        None => (
            s,
            ResultView::Response(
                with_headers(
                    plain_http(400, "bad request: "@ + "missing Mcp-Session-Id header"@),
                    cors,
                ),
            ),
        ),
        Some(id) => match unusable(s.table, id) {
            Some(SessionError::Closing) => (s, ResultView::Response(fine)),
            Some(e) => (s, ResultView::Response(with_headers(session_http(e), cors))),
            None => (
                StatefulState {
                    table: s.table.insert(id, SessionState { closing: true, ..s.table[id] }),
                    ..s
                },
                ResultView::Drain(id, fine),
            ),
        },
    }
}

impl StatefulHttpGateway {
    pub open spec fn state(self) -> StatefulState {
        StatefulState {
            table: self.sessions.table(),
            parting: self.parting@,
            metrics: self.metrics,
        }
    }

    /// Whether only the state differs.
    pub open spec fn same_setup(self, other: StatefulHttpGateway) -> bool {
        &&& self.setup == other.setup
        &&& self.mcp_path == other.mcp_path
        &&& self.sessions.config == other.sessions.config
    }

    /// The headers that answers get for a request from another origin.
    pub open spec fn cors_of(self, req: RequestView) -> Pairs {
        self.setup.cors_for(req.method, req.header("origin"@))
    }

    /// The answer of a health endpoint.
    pub open spec fn health_http(self, req: RequestView) -> HttpReply {
        let h = health_of(self.metrics, req.wants_detail(), self.setup.log_level);
        with_headers(
            with_headers(
                text_http(h.status(), h.content_type(), h.body()),
                with_custom(seq![], self.setup.custom(), 0),
            ),
            self.cors_of(req),
        )
    }

    /// Whether `r` is what is done with a request, and `t` the state after it.
    pub open spec fn takes(self, req: RequestView, r: ResultView, t: StatefulState) -> bool {
        let s = self.state();
        let cors = self.cors_of(req);
        let c = cors_result(
            self.setup.cors.config@,
            self.setup.cors.expose_session_header,
            req.method,
            req.header("origin"@),
        );
        let counted_in = StatefulState {
            metrics: Metrics { total_requests: counted(s.metrics.total_requests), ..s.metrics },
            ..s
        };
        if c is Preflight {
            r == ResultView::Response(with_headers(bare_http(204), c->Preflight_0)) && t == s
        } else if self.setup.is_health(req.path) {
            r == ResultView::Response(self.health_http(req)) && t == s
        } else if req.path != self.mcp_path@ {
            r == ResultView::Response(with_headers(plain_http(404, "Not Found"@), cors)) && t == s
        } else if req.method == "POST"@ {
            match post_refusal(req) {
                Some(x) => r == ResultView::Response(with_headers(x, cors)) && t == counted_in,
                None => exists|p: ParsedView| #[trigger]
                    line_is(decode_utf8(req.body), p) && (t, r) == post_taken(
                        counted_in,
                        req.session_id(),
                        messages_of(p),
                        cors,
                    ),
            }
        } else if req.method == "GET"@ {
            (t, r) == stream_taken(counted_in, self.setup, req, cors)
        } else if req.method == "DELETE"@ {
            (t, r) == delete_taken(counted_in, req.session_id(), cors)
        } else {
            r == ResultView::Response(
                with_headers(error_http(GatewayError::MethodNotAllowed), cors),
            ) && t == counted_in
        }
    }

    pub fn new(mcp_path: String, setup: Setup, session_timeout: Option<u64>, metrics: Metrics) -> (r:
        StatefulHttpGateway)
        ensures
            r.state() == (StatefulState { table: Map::empty(), parting: Map::empty(), metrics }),
            r.setup == setup,
            r.mcp_path == mcp_path,
            r.sessions.config == (SessionManagerConfig {
                max_sessions: 1024,
                drain_timeout: 5000,
                session_timeout,
            }),
    {
        let config = SessionManagerConfig {
            max_sessions: 1024,
            drain_timeout: 5000,
            session_timeout,
        };
        StatefulHttpGateway {
            sessions: SessionManager::new(config),
            parting: Store::new(),
            setup,
            mcp_path,
            metrics,
        }
    }

    /// Decides about a request.
    pub fn handle_request(&mut self, req: &GatewayRequest) -> (r: RequestResult)
        ensures
            final(self).same_setup(*old(self)),
            old(self).takes(req@, r@, final(self).state()),
    {
        let cors: Vec<(String, String)> = match self.setup.cors.process(
            req.method.as_str(),
            req.header("origin"),
        ) {
            CorsResult::Preflight(headers) => {
                let resp = GatewayResponse::no_content().with_headers(&headers);
                return RequestResult::Response(resp);
            },
            CorsResult::Disabled => {
                let none: Vec<(String, String)> = Vec::new();
                assert(none.deep_view() =~= Seq::<(Seq<char>, Seq<char>)>::empty());
                none
            },
            CorsResult::ResponseHeaders(h) => h,
        };
        if self.setup.is_health_path(req.path.as_str()) {
            let health = check_health(&self.metrics, req.wants_detail(), self.setup.log_level);
            let mut custom: Vec<(String, String)> = Vec::new();
            assert(custom.deep_view() =~= Seq::<(Seq<char>, Seq<char>)>::empty());
            apply_custom_headers(&mut custom, &self.setup.custom_headers);
            let resp = GatewayResponse::text(
                health.status_code(),
                health.content_type(),
                health.body(),
            ).with_headers(&custom).with_headers(&cors);
            return RequestResult::Response(resp);
        }
        if !same(req.path.as_str(), self.mcp_path.as_str()) {
            let resp = GatewayResponse::plain_text(404, "Not Found").with_headers(&cors);
            return RequestResult::Response(resp);
        }
        Metrics::inc(&mut self.metrics.total_requests);
        if same(req.method.as_str(), "POST") {
            self.handle_post(req, cors)
        } else if same(req.method.as_str(), "GET") {
            self.handle_get(req, cors)
        } else if same(req.method.as_str(), "DELETE") {
            self.handle_delete(req, cors)
        } else {
            let resp = GatewayResponse::from_error(
                &GatewayError::method_not_allowed(),
            ).with_headers(&cors);
            RequestResult::Response(resp)
        }
    }

    /// Checks a posted message up to its session.
    fn check_post(&self, req: &GatewayRequest) -> (r: Result<Vec<RawMessage>, GatewayResponse>)
        ensures
            match post_refusal(req@) {
                Some(x) => r matches Err(y) && y@ == x,
                None => r matches Ok(ms) && exists|p: ParsedView| #[trigger]
                    line_is(decode_utf8(req@.body), p) && messages_view(ms@) == messages_of(p),
            },
    {
        let kind = req.header_or_empty("content-type");
        if !contains(kind, "application/json") {
            return Err(
                GatewayResponse::from_error(
                    &GatewayError::wrong_content_type("application/json", kind),
                ),
            );
        }
        let accept = req.header_or_empty("accept");
        if !contains(accept, "application/json") || !contains(accept, "text/event-stream") {
            if !contains(accept, "*/*") && !same(accept, "*") {
                return Err(GatewayResponse::from_error(&GatewayError::missing_accept()));
            }
        }
        if req.body.len() > MAX_BODY_SIZE {
            return Err(GatewayResponse::from_error(&GatewayError::payload_too_large()));
        }
        let text = match body_text(req.body.as_slice()) {
            Some(t) => t,
            None => {
                return Err(
                    GatewayResponse::from_error(&GatewayError::bad_request("invalid UTF-8")),
                );
            },
        };
        match parse_line(text.as_str()) {
            Ok(parsed) => {
                let ghost p = parsed@;
                let ms = into_messages(parsed);
                assert(line_is(decode_utf8(req@.body), p));
                Ok(ms)
            },
            Err(e) => {
                let words = e.message();
                let detail = "malformed JSON: ".to_owned().concat(words.as_str());
                Err(GatewayResponse::from_error(&GatewayError::bad_request(detail.as_str())))
            },
        }
    }

    /// Decides about a posted message.
    pub fn handle_post(&mut self, req: &GatewayRequest, cors: Vec<(String, String)>) -> (r:
        RequestResult)
        ensures
            final(self).same_setup(*old(self)),
            match post_refusal(req@) {
                Some(x) => r@ == ResultView::Response(with_headers(x, cors.deep_view()))
                    && final(self).state() == old(self).state(),
                None => exists|p: ParsedView| #[trigger]
                    line_is(decode_utf8(req@.body), p) && (final(self).state(), r@) == post_taken(
                        old(self).state(),
                        req@.session_id(),
                        messages_of(p),
                        cors.deep_view(),
                    ),
            },
    {
        let messages = match self.check_post(req) {
            Ok(ms) => ms,
            Err(resp) => return RequestResult::Response(resp.with_headers(&cors)),
        };
        match req.session_id_header() {
            None => if messages.len() == 1 && messages[0].is_initialize_request() {
                RequestResult::Initialize(Post { session: None, created: false, messages, cors })
            } else {
                let resp = GatewayResponse::from_error(
                    &GatewayError::bad_request(
                        "missing Mcp-Session-Id header (non-initialize request)",
                    ),
                );
                RequestResult::Response(resp.with_headers(&cors))
            },
            Some(sid) => {
                let id = SessionId::from_value(sid);
                match self.sessions.acquire(&id) {
                    Err(e) => RequestResult::Response(session_response(e).with_headers(&cors)),
                    Ok(()) => RequestResult::Forward(
                        Post { session: Some(id), created: false, messages, cors },
                    ),
                }
            },
        }
    }

    /// Decides about a request for the stream of notifications.
    pub fn handle_get(&mut self, req: &GatewayRequest, cors: Vec<(String, String)>) -> (r:
        RequestResult)
        ensures
            final(self).same_setup(*old(self)),
            (final(self).state(), r@) == stream_taken(
                old(self).state(),
                old(self).setup,
                req@,
                cors.deep_view(),
            ),
    {
        let ghost s = self.state();
        if !req.accepts("text/event-stream") {
            let resp = GatewayResponse::from_error(
                &GatewayError::NotAcceptable("missing Accept: text/event-stream".to_owned()),
            );
            return RequestResult::Response(resp.with_headers(&cors));
        }
        let sid: &str = match req.session_id_header() {
            Some(s) => s,
            None => {
                let resp = GatewayResponse::from_error(
                    &GatewayError::bad_request("missing Mcp-Session-Id header"),
                );
                return RequestResult::Response(resp.with_headers(&cors));
            },
        };
        let id = SessionId::from_value(sid);
        match self.sessions.acquire(&id) {
            Err(e) => return RequestResult::Response(session_response(e).with_headers(&cors)),
            Ok(()) => {},
        }
        let claimed = match self.sessions.sessions.remove(sid) {
            Some(mut session) => {
                let given = session.data.claim_stream();
                self.sessions.sessions.insert(sid.to_owned(), session);
                given
            },
            None => false,
        };
        if !claimed {
            self.sessions.release(&id);
            assert(self.state().table =~= stream_taken(
                s,
                self.setup,
                req@,
                cors.deep_view(),
            ).0.table);
            let resp = GatewayResponse::from_error(&GatewayError::sse_stream_conflict());
            return RequestResult::Response(resp.with_headers(&cors));
        }
        Metrics::inc(&mut self.metrics.active_clients);
        let mut headers: Vec<(String, String)> = Vec::new();
        push_stream_headers(&mut headers);
        push_pair(&mut headers, "Mcp-Session-Id", sid.to_owned());
        extend_pairs(&mut headers, &cors);
        assert(headers.deep_view() =~= stream_headers().push(("Mcp-Session-Id"@, sid@))
            + cors.deep_view());
        apply_custom_headers(&mut headers, &self.setup.custom_headers);
        assert(self.state().table =~= stream_taken(
            s,
            self.setup,
            req@,
            cors.deep_view(),
        ).0.table);
        RequestResult::SseStream(SseStreamConnection { session_id: id, headers })
    }

    /// Decides about a request to delete a session.
    pub fn handle_delete(&mut self, req: &GatewayRequest, cors: Vec<(String, String)>) -> (r:
        RequestResult)
        ensures
            final(self).same_setup(*old(self)),
            (final(self).state(), r@) == delete_taken(
                old(self).state(),
                req@.session_id(),
                cors.deep_view(),
            ),
    {
        let sid: &str = match req.session_id_header() {
            Some(s) => s,
            None => {
                let resp = GatewayResponse::from_error(
                    &GatewayError::bad_request("missing Mcp-Session-Id header"),
                );
                return RequestResult::Response(resp.with_headers(&cors));
            },
        };
        let id = SessionId::from_value(sid);
        match self.sessions.begin_delete(&id) {
            Ok(first) => {
                let resp = GatewayResponse::plain_text(200, "OK").with_headers(&cors);
                if first {
                    RequestResult::Drain(id, resp)
                } else {
                    RequestResult::Response(resp)
                }
            },
            Err(e) => RequestResult::Response(session_response(e).with_headers(&cors)),
        }
    }
}

// ---- A posted message on its way -------------------------------------------------------------------

/// The ids of the requests among the messages, in their order.
pub open spec fn request_ids(ms: Seq<MessageView>) -> Seq<Seq<char>>
    decreases ms.len(),
{
    if ms.len() == 0 {
        seq![]
    } else if ms.last().is_request() {
        request_ids(ms.drop_last()).push(ms.last().id->Some_0)
    } else {
        request_ids(ms.drop_last())
    }
}

/// Collects the ids of the requests among the messages.
pub fn collect_request_ids(ms: &Vec<RawMessage>) -> (r: Vec<String>)
    ensures
        r.deep_view() == request_ids(messages_view(ms@)),
{
    let mut out: Vec<String> = Vec::new();
    let ghost all = messages_view(ms@);
    let mut i: usize = 0;
    assert(all.take(0) =~= Seq::<MessageView>::empty());
    assert(out.deep_view() =~= Seq::<Seq<char>>::empty());
    while i < ms.len()
        invariant
            i <= ms.len(),
            all == messages_view(ms@),
            out.deep_view() == request_ids(all.take(i as int)),
        decreases ms.len() - i,
    {
        let ghost before = out.deep_view();
        if ms[i].is_request() {
            if let Some(id) = &ms[i].id {
                out.push(id.get().to_owned());
                assert(out.deep_view() =~= before.push(id@));
            }
        }
        assert(all.take(i + 1).drop_last() =~= all.take(i as int));
        assert(all.take(i + 1).last() == ms[i as int]@);
        i += 1;
    }
    assert(all.take(i as int) =~= all);
    out
}

/// What comes after the messages were written to the child.
pub enum Forwarded {
    /// The message is answered so.
    Respond(GatewayResponse),
    /// Answers of the child are awaited.
    Wait(Exchange),
}

#[verifier::ext_equal]
pub enum ForwardedView {
    Respond(HttpReply),
    Wait(ExchangeView),
}

impl View for Forwarded {
    type V = ForwardedView;

    open spec fn view(&self) -> ForwardedView {
        match self {
            Forwarded::Respond(x) => ForwardedView::Respond(x@),
            Forwarded::Wait(x) => ForwardedView::Wait(x@),
        }
    }
}

/// The table with other data for a session.
pub open spec fn with_data(t: Sessions, id: Seq<char>, d: DataView) -> Sessions {
    t.insert(id, SessionState { data: d, ..t[id] })
}

/// What comes after the messages were written to the child of the session, or not, and the
/// sessions after it.
pub open spec fn forwarded(
    t: Sessions,
    id: Seq<char>,
    messages: Seq<MessageView>,
    written: Result<(), ChildError>,
) -> (Sessions, ForwardedView) {
    let ids = request_ids(messages);
    match written {
        Err(e) => (
            if t.dom().contains(id) {
                with_data(t, id, DataView { child_failed: true, ..t[id].data })
            } else {
                t
            },
            ForwardedView::Respond(error_http(GatewayError::Child(e))),
        ),
        Ok(_) => if ids.len() == 0 {
            (t, ForwardedView::Respond(bare_http(202)))
        } else if !t.dom().contains(id) {
            (t, ForwardedView::Respond(sse_http(200, answers_text(ids, 0, Map::empty()))))
        } else {
            (
                with_data(t, id, registered(t[id].data, ids)),
                ForwardedView::Wait(
                    started(decimal(t[id].data.next_ticket as nat), ids),
                ),
            )
        },
    }
}

/// When an idle session is to be closed: after how long, and for which use.
pub open spec fn idle_timer_of(
    t: Sessions,
    config: SessionManagerConfig,
    id: Seq<char>,
) -> Option<(u64, u64)> {
    match config.session_timeout {
        Some(ms) => if t.dom().contains(id) && t[id].access_count == 0 {
            Some((ms, t[id].timeout_gen))
        } else {
            None
        },
        None => None,
    }
}

/// The sessions after a request is done with one of them.
pub open spec fn let_go(t: Sessions, id: Seq<char>) -> Sessions {
    if t.dom().contains(id) {
        t.insert(id, released(t[id]))
    } else {
        t
    }
}

/// What is kept of sessions that were closed, with `d` for one of them: only that for which
/// somebody waits.
pub open spec fn kept(
    parting: Map<Seq<char>, DataView>,
    id: Seq<char>,
    d: DataView,
) -> Map<Seq<char>, DataView> {
    if is_watched(d) {
        parting.insert(id, d)
    } else {
        parting.remove(id)
    }
}

/// The answer to a posted message: a session that was made for it is named.
pub open spec fn post_answer(post: PostView, resp: HttpReply) -> HttpReply {
    with_headers(
        with_headers(
            resp,
            if post.created && post.session is Some {
                seq![("Mcp-Session-Id"@, post.session->Some_0)]
            } else {
                seq![]
            },
        ),
        post.cors,
    )
}

/// The state and the answer where no child could be started.
pub open spec fn not_spawned(s: StatefulState, cors: Pairs, reason: Seq<char>) -> (
    StatefulState,
    HttpReply,
) {
    (
        StatefulState {
            metrics: Metrics {
                spawn_failures: counted(s.metrics.spawn_failures),
                ..s.metrics
            },
            ..s
        },
        with_headers(internal_http("failed to spawn child: "@ + reason), cors),
    )
}

/// Why nothing can be written to the child of a session, if it cannot.
pub open spec fn child_problem(t: Sessions, id: Seq<char>) -> Option<HttpReply> {
    if !t.dom().contains(id) {
        Some(session_http(SessionError::NotFound))
    } else if t[id].data.child_failed {
        Some(error_http(GatewayError::ChildDead))
    } else {
        None
    }
}

/// A step of closing a session that was deleted `elapsed` milliseconds ago.
pub open spec fn drain_step(s: StatefulState, limit: u64, id: Seq<char>, elapsed: u64) -> (
    StatefulState,
    DrainStep,
) {
    if elapsed >= limit {
        (force_closed(s, id), DrainStep::Forced)
    } else if is_drained(s.table, id) {
        (StatefulState { table: s.table.remove(id), ..s }, DrainStep::Closed)
    } else {
        (s, DrainStep::Wait)
    }
}

/// What becomes of a session whose timer ran out.
pub open spec fn idle_step(s: StatefulState, id: Seq<char>, gen: u64) -> (StatefulState, bool) {
    if is_idle(s.table, id, gen) {
        (
            StatefulState {
                table: s.table.remove(id),
                metrics: Metrics {
                    session_timeouts: counted(s.metrics.session_timeouts),
                    ..s.metrics
                },
                ..s
            },
            true,
        )
    } else {
        (s, false)
    }
}

/// What is done on a stream that was silent for `idle` milliseconds, given the next
/// notification.
pub open spec fn notification_step_of(next: Option<Option<MessageView>>, idle: u64) -> StepView {
    match next {
        Some(Some(m)) => StepView::Write(event_text(m)),
        Some(None) => silent_step(idle),
        None => StepView::Close,
    }
}

/// After a session was closed, whoever uses it.
pub open spec fn force_closed(s: StatefulState, id: Seq<char>) -> StatefulState {
    if s.table.dom().contains(id) {
        StatefulState {
            table: s.table.remove(id),
            parting: kept(s.parting, id, s.table[id].data),
            ..s
        }
    } else {
        s
    }
}

/// The state and the exchange after a look for answers, and whether the exchange is over.
pub open spec fn exchange_advanced(
    s: StatefulState,
    id: Seq<char>,
    x: ExchangeView,
    elapsed: u64,
) -> (StatefulState, ExchangeView, bool) {
    if s.table.dom().contains(id) {
        let (d, y, over) = advanced(s.table[id].data, x, elapsed);
        (StatefulState { table: with_data(s.table, id, d), ..s }, y, over)
    } else if s.parting.dom().contains(id) {
        let (d, y, over) = advanced(s.parting[id], x, elapsed);
        (StatefulState { parting: s.parting.insert(id, d), ..s }, y, over)
    } else {
        (s, abandoned(x), true)
    }
}

/// A session without an exchange.
pub open spec fn without_exchange(d: DataView, ticket: Seq<char>) -> DataView {
    DataView { inboxes: d.inboxes.remove(ticket), ..d }
}

/// After an exchange ended.
pub open spec fn exchange_ended(s: StatefulState, id: Seq<char>, ticket: Seq<char>) -> StatefulState {
    if s.table.dom().contains(id) {
        StatefulState {
            table: with_data(s.table, id, without_exchange(s.table[id].data, ticket)),
            ..s
        }
    } else if s.parting.dom().contains(id) {
        StatefulState {
            parting: kept(s.parting, id, without_exchange(s.parting[id], ticket)),
            ..s
        }
    } else {
        s
    }
}

/// After messages of the child of a session.
pub open spec fn relayed(s: StatefulState, id: Seq<char>, ms: Seq<MessageView>) -> StatefulState {
    if s.table.dom().contains(id) {
        let (d, m) = messages_routed(s.table[id].data, s.metrics, ms);
        StatefulState { table: with_data(s.table, id, d), metrics: m, ..s }
    } else if s.parting.dom().contains(id) {
        let (d, m) = messages_routed(s.parting[id], s.metrics, ms);
        StatefulState { parting: s.parting.insert(id, d), metrics: m, ..s }
    } else {
        s
    }
}

/// Whether `t` is the state after the child of a session died.
pub open spec fn is_bereft(s: StatefulState, id: Seq<char>, t: StatefulState) -> bool {
    if s.table.dom().contains(id) {
        exists|d: DataView| #[trigger]
            is_failed(s.table[id].data, d) && t == (StatefulState {
                table: with_data(s.table, id, d),
                ..s
            })
    } else if s.parting.dom().contains(id) {
        exists|d: DataView| #[trigger]
            is_failed(s.parting[id], d) && t == (StatefulState {
                parting: s.parting.insert(id, d),
                ..s
            })
    } else {
        t == s
    }
}

/// A session whose first notification was taken.
pub open spec fn without_first(d: DataView) -> DataView {
    DataView { notifications: d.notifications.skip(1), ..d }
}

/// What the client of a session finds on its stream, and the state after it: nothing at all
/// where the session is closed and its child is dead.
pub open spec fn stream_read(s: StatefulState, id: Seq<char>) -> (
    StatefulState,
    Option<Option<MessageView>>,
) {
    if s.table.dom().contains(id) {
        let d = s.table[id].data;
        if d.notifications.len() > 0 {
            (
                StatefulState { table: with_data(s.table, id, without_first(d)), ..s },
                Some(Some(d.notifications[0])),
            )
        } else {
            (s, Some(None))
        }
    } else if s.parting.dom().contains(id) {
        let d = s.parting[id];
        if d.notifications.len() > 0 {
            (
                StatefulState { parting: s.parting.insert(id, without_first(d)), ..s },
                Some(Some(d.notifications[0])),
            )
        } else if d.child_failed {
            (s, None)
        } else {
            (s, Some(None))
        }
    } else {
        (s, None)
    }
}

/// A session whose stream nobody reads any more.
pub open spec fn without_stream(d: DataView) -> DataView {
    DataView { stream: Stream::Dropped, notifications: seq![], ..d }
}

/// After the client of a stream is gone.
pub open spec fn stream_left(s: StatefulState, id: Seq<char>) -> StatefulState {
    let c = StatefulState {
        metrics: Metrics { active_clients: discounted(s.metrics.active_clients), ..s.metrics },
        ..s
    };
    if s.table.dom().contains(id) {
        StatefulState {
            table: let_go(with_data(s.table, id, without_stream(s.table[id].data)), id),
            ..c
        }
    } else if s.parting.dom().contains(id) {
        StatefulState { parting: kept(s.parting, id, without_stream(s.parting[id])), ..c }
    } else {
        c
    }
}

pub open spec fn notification_view(n: Option<Option<RawMessage>>) -> Option<Option<MessageView>> {
    match n {
        Some(Some(m)) => Some(Some(m@)),
        Some(None) => Some(None),
        None => None,
    }
}

/// What a step of closing a session came to.
#[derive(Clone, Copy, PartialEq, Eq, Structural, Debug)]
pub enum DrainStep {
    /// Requests are in progress: try again later.
    Wait,
    /// The session is closed. Its child is to be killed, if there was a session.
    Closed,
    /// The same, though requests are in progress.
    Forced,
}

impl StatefulHttpGateway {
    /// Answers a request for a session whose child could not be started.
    pub fn spawn_failed(&mut self, post: Post, reason: &str) -> (r: GatewayResponse)
        ensures
            final(self).same_setup(*old(self)),
            final(self).state() == (StatefulState {
                metrics: Metrics {
                    spawn_failures: counted(old(self).metrics.spawn_failures),
                    ..old(self).metrics
                },
                ..old(self).state()
            }),
            r@ == with_headers(
                internal_http("failed to spawn child: "@ + reason@),
                post@.cors,
            ),
            (final(self).state(), r@) == not_spawned(old(self).state(), post@.cors, reason@),
    {
        Metrics::inc(&mut self.metrics.spawn_failures);
        let detail = "failed to spawn child: ".to_owned().concat(reason);
        internal_response(detail).with_headers(&post.cors)
    }

    /// Makes a session, under a name at random, for a request whose child runs.
    pub fn start_session(&mut self, post: Post) -> (r: Result<Post, GatewayResponse>)
        ensures
            r matches Ok(p) ==> (p@.session matches Some(id) && is_uuid(id)),
            final(self).same_setup(*old(self)),
            session_started(
                old(self).state(),
                old(self).sessions.config.max_sessions as nat,
                post@,
                match r {
                    Ok(p) => p@.session,
                    Err(_) => None,
                },
                r,
                final(self).state(),
            ),
    {
        let id = SessionId::new();
        self.start_session_as(id, post)
    }

    /// Makes a session for a request whose child runs. The request uses the session.
    pub fn start_session_as(&mut self, id: SessionId, post: Post) -> (r: Result<
        Post,
        GatewayResponse,
    >)
        ensures
            final(self).same_setup(*old(self)),
            session_started(
                old(self).state(),
                old(self).sessions.config.max_sessions as nat,
                post@,
                Some(id@),
                r,
                final(self).state(),
            ),
    {
        let ghost t = self.sessions.table();
        match self.sessions.create(id, SessionData::new()) {
            Err(e) => Err(session_response(e).with_headers(&post.cors)),
            Ok(sid) => {
                let used = self.sessions.acquire(&sid);
                proof {
                    let made = t.insert(id@, fresh_session(new_data()));
                    assert(unusable(made, id@) is None);
                    assert(self.sessions.table() =~= t.insert(
                        id@,
                        acquired(fresh_session(new_data())),
                    ));
                }
                Ok(
                    Post {
                        session: Some(sid),
                        created: true,
                        messages: post.messages,
                        cors: post.cors,
                    },
                )
            },
        }
    }

    /// Whether messages can be handed to the child of a session: the answer where they
    /// cannot.
    pub fn check_child(&self, id: &SessionId) -> (r: Option<GatewayResponse>)
        ensures
            match r {
                Some(x) => if !self.sessions.table().dom().contains(id@) {
                    x@ == session_http(SessionError::NotFound)
                } else {
                    self.sessions.table()[id@].data.child_failed && x@ == error_http(
                        GatewayError::ChildDead,
                    )
                },
                None => self.sessions.table().dom().contains(id@)
                    && !self.sessions.table()[id@].data.child_failed,
            },
            r is Some <==> child_problem(self.sessions.table(), id@) is Some,
            r matches Some(x) ==> child_problem(self.sessions.table(), id@) == Some(x@),
    {
        match self.sessions.sessions.get(id.as_str()) {
            None => Some(session_response(SessionError::NotFound)),
            Some(session) => if session.data.child_failed() {
                Some(GatewayResponse::from_error(&GatewayError::child_dead()))
            } else {
                None
            },
        }
    }

    /// Goes on after the messages were written to the child, or not.
    pub fn after_write(
        &mut self,
        id: &SessionId,
        messages: &Vec<RawMessage>,
        written: Result<(), ChildError>,
    ) -> (r: Forwarded)
        ensures
            final(self).same_setup(*old(self)),
            final(self).metrics == old(self).metrics,
            final(self).parting@ == old(self).parting@,
            (final(self).sessions.table(), r@) == forwarded(
                old(self).sessions.table(),
                id@,
                messages_view(messages@),
                written,
            ),
    {
        let ghost t = self.sessions.table();
        match written {
            Err(e) => {
                if let Some(mut session) = self.sessions.sessions.remove(id.as_str()) {
                    session.data.set_child_failed();
                    self.sessions.sessions.insert(id.value.clone(), session);
                }
                assert(self.sessions.table() =~= forwarded(
                    t,
                    id@,
                    messages_view(messages@),
                    written,
                ).0);
                Forwarded::Respond(GatewayResponse::from_error(&GatewayError::Child(e)))
            },
            Ok(()) => {
                let ids = collect_request_ids(messages);
                if ids.len() == 0 {
                    return Forwarded::Respond(GatewayResponse::accepted());
                }
                match self.sessions.sessions.remove(id.as_str()) {
                    None => {
                        let none = Exchange::start(String::new(), ids);
                        let body = none.body();
                        assert(self.sessions.table() =~= t);
                        Forwarded::Respond(GatewayResponse::sse(200, body.as_str()))
                    },
                    Some(mut session) => {
                        let ticket = session.data.register_pending(&ids);
                        self.sessions.sessions.insert(id.value.clone(), session);
                        assert(self.sessions.table() =~= forwarded(
                            t,
                            id@,
                            messages_view(messages@),
                            written,
                        ).0);
                        Forwarded::Wait(Exchange::start(ticket, ids))
                    },
                }
            },
        }
    }

    /// Puts away what belongs to a session that was closed.
    fn keep(&mut self, id: &SessionId, data: SessionData)
        ensures
            final(self).same_setup(*old(self)),
            final(self).state() == (StatefulState {
                parting: kept(old(self).parting@, id@, data@),
                ..old(self).state()
            }),
    {
        if data.is_watched() {
            self.parting.insert(id.value.clone(), data);
        } else {
            self.parting.remove(id.as_str());
        }
    }

    /// Looks for answers. Says whether the exchange is over.
    pub fn advance_exchange(&mut self, id: &SessionId, exchange: &mut Exchange, elapsed: u64) -> (r:
        bool)
        ensures
            final(self).same_setup(*old(self)),
            (final(self).state(), final(exchange)@, r) == exchange_advanced(
                old(self).state(),
                id@,
                old(exchange)@,
                elapsed,
            ),
    {
        let ghost s = self.state();
        let ghost next = exchange_advanced(s, id@, exchange@, elapsed);
        if let Some(mut session) = self.sessions.sessions.remove(id.as_str()) {
            let over = exchange.advance(&mut session.data, elapsed);
            self.sessions.sessions.insert(id.value.clone(), session);
            assert(self.state().table =~= next.0.table);
            return over;
        }
        assert(self.state() =~= s);
        if let Some(mut data) = self.parting.remove(id.as_str()) {
            let over = exchange.advance(&mut data, elapsed);
            self.parting.insert(id.value.clone(), data);
            assert(self.state().parting =~= next.0.parting);
            return over;
        }
        assert(self.state() =~= s);
        exchange.abandon();
        true
    }

    /// Ends an exchange and answers with what it came to.
    pub fn finish_exchange(&mut self, id: &SessionId, exchange: Exchange) -> (r: GatewayResponse)
        ensures
            final(self).same_setup(*old(self)),
            final(self).state() == exchange_ended(old(self).state(), id@, exchange@.ticket),
            r@ == sse_http(200, answers_text(exchange@.ids, 0, exchange@.responses)),
    {
        let ghost s = self.state();
        if let Some(mut session) = self.sessions.sessions.remove(id.as_str()) {
            session.data.end_exchange(exchange.ticket());
            self.sessions.sessions.insert(id.value.clone(), session);
            assert(self.state().table =~= exchange_ended(s, id@, exchange@.ticket).table);
        } else {
            assert(self.state() =~= s);
            if let Some(mut data) = self.parting.remove(id.as_str()) {
                data.end_exchange(exchange.ticket());
                self.keep(id, data);
                assert(self.state().parting =~= exchange_ended(s, id@, exchange@.ticket).parting);
            } else {
                assert(self.state() =~= s);
            }
        }
        let body = exchange.body();
        GatewayResponse::sse(200, body.as_str())
    }

    /// Completes a posted message: the request lets go of its session, and its answer gets
    /// the name of a session that it made. Says when the session is to be looked at again.
    pub fn complete_post(&mut self, post: Post, resp: GatewayResponse) -> (r: (
        GatewayResponse,
        Option<(u64, u64)>,
    ))
        ensures
            final(self).same_setup(*old(self)),
            final(self).metrics == old(self).metrics,
            final(self).parting@ == old(self).parting@,
            match post@.session {
                Some(id) => {
                    &&& final(self).sessions.table() == let_go(old(self).sessions.table(), id)
                    &&& r.1 == idle_timer_of(
                        final(self).sessions.table(),
                        old(self).sessions.config,
                        id,
                    )
                    &&& r.0@ == with_headers(
                        if post@.created {
                            with_headers(resp@, seq![("Mcp-Session-Id"@, id)])
                        } else {
                            resp@
                        },
                        post@.cors,
                    )
                },
                None => {
                    &&& final(self).sessions.table() == old(self).sessions.table()
                    &&& r.1 is None
                    &&& r.0@ == with_headers(resp@, post@.cors)
                },
            },
            r.0@ == post_answer(post@, resp@),
    {
        let ghost told = resp@;
        match post.session {
            Some(id) => {
                self.sessions.release(&id);
                let timer = self.idle_timer(&id);
                let mut answer = resp;
                if post.created {
                    let ghost before = answer.headers.deep_view();
                    push_pair(&mut answer.headers, "Mcp-Session-Id", id.value.clone());
                    assert(before.push(("Mcp-Session-Id"@, id@)) =~= before + seq![
                        ("Mcp-Session-Id"@, id@),
                    ]);
                }
                (answer.with_headers(&post.cors), timer)
            },
            None => {
                assert(with_headers(told, seq![]) =~= told);
                (resp.with_headers(&post.cors), None)
            },
        }
    }

    // ---- Sessions over time ----------------------------------------------------------------------

    /// When an idle session is to be closed: after how many milliseconds, and for which use.
    pub fn idle_timer(&self, id: &SessionId) -> (r: Option<(u64, u64)>)
        ensures
            r == idle_timer_of(self.sessions.table(), self.sessions.config, id@),
    {
        let timeout: u64 = match self.sessions.config.session_timeout {
            Some(t) => t,
            None => return None,
        };
        match self.sessions.access_count(id) {
            Some(n) => if n != 0 {
                return None;
            },
            None => return None,
        }
        match self.sessions.timeout_gen(id) {
            Some(g) => Some((timeout, g)),
            None => None,
        }
    }

    /// Tries to close a session that was deleted. After a while it is closed though it is in
    /// use; who waits for an answer then still gets it.
    pub fn drain_session(&mut self, id: &SessionId, elapsed: u64) -> (r: DrainStep)
        ensures
            final(self).same_setup(*old(self)),
            ({
                let s = old(self).state();
                if elapsed >= old(self).sessions.config.drain_timeout {
                    r == DrainStep::Forced && final(self).state() == force_closed(s, id@)
                } else if is_drained(s.table, id@) {
                    r == DrainStep::Closed && final(self).state() == (StatefulState {
                        table: s.table.remove(id@),
                        ..s
                    })
                } else {
                    r == DrainStep::Wait && final(self).state() == s
                }
            }),
            (final(self).state(), r) == drain_step(
                old(self).state(),
                old(self).sessions.config.drain_timeout,
                id@,
                elapsed,
            ),
    {
        let ghost s = self.state();
        if elapsed < self.sessions.config.drain_timeout {
            return if self.sessions.try_drain_close(id) {
                DrainStep::Closed
            } else {
                DrainStep::Wait
            };
        }
        if let Some(session) = self.sessions.sessions.remove(id.as_str()) {
            self.keep(id, session.data);
        } else {
            assert(self.state() =~= s);
        }
        DrainStep::Forced
    }

    /// Closes a session that nobody has used since its timer was set. Says whether it did.
    pub fn close_idle(&mut self, id: &SessionId, gen: u64) -> (r: bool)
        ensures
            final(self).same_setup(*old(self)),
            r == is_idle(old(self).sessions.table(), id@, gen),
            final(self).state() == (if r {
                StatefulState {
                    table: old(self).sessions.table().remove(id@),
                    metrics: Metrics {
                        session_timeouts: counted(old(self).metrics.session_timeouts),
                        ..old(self).metrics
                    },
                    ..old(self).state()
                }
            } else {
                old(self).state()
            }),
            (final(self).state(), r) == idle_step(old(self).state(), id@, gen),
    {
        let closed = self.sessions.try_idle_close(id, gen);
        if closed {
            Metrics::inc(&mut self.metrics.session_timeouts);
        }
        closed
    }

    /// Takes in what the child of a session said.
    pub fn relay(&mut self, id: &SessionId, parsed: Parsed)
        ensures
            final(self).same_setup(*old(self)),
            final(self).state() == relayed(old(self).state(), id@, messages_of(parsed@)),
    {
        let ghost s = self.state();
        let ghost ms = messages_of(parsed@);
        if let Some(mut session) = self.sessions.sessions.remove(id.as_str()) {
            session.data.relay(parsed, &mut self.metrics);
            self.sessions.sessions.insert(id.value.clone(), session);
            assert(self.state().table =~= relayed(s, id@, ms).table);
            return;
        }
        assert(self.state() =~= s);
        if let Some(mut data) = self.parting.remove(id.as_str()) {
            data.relay(parsed, &mut self.metrics);
            self.parting.insert(id.value.clone(), data);
            assert(self.state().parting =~= relayed(s, id@, ms).parting);
        } else {
            assert(self.state() =~= s);
        }
    }

    /// Notes that the child of a session died.
    pub fn child_closed(&mut self, id: &SessionId)
        ensures
            final(self).same_setup(*old(self)),
            is_bereft(old(self).state(), id@, final(self).state()),
    {
        let ghost s = self.state();
        if let Some(mut session) = self.sessions.sessions.remove(id.as_str()) {
            session.data.child_closed();
            let ghost d = session.data@;
            self.sessions.sessions.insert(id.value.clone(), session);
            proof {
                assert(is_failed(s.table[id@].data, d));
                assert(self.state() =~= (StatefulState { table: with_data(s.table, id@, d), ..s }));
            }
            return;
        }
        assert(self.state() =~= s);
        if let Some(mut data) = self.parting.remove(id.as_str()) {
            data.child_closed();
            let ghost d = data@;
            self.parting.insert(id.value.clone(), data);
            proof {
                assert(is_failed(s.parting[id@], d));
                assert(self.state() =~= (StatefulState { parting: s.parting.insert(id@, d), ..s }));
            }
        } else {
            assert(self.state() =~= s);
        }
    }

    /// The next notification for the client of a session; nothing where none will come any
    /// more.
    pub fn next_notification(&mut self, id: &SessionId) -> (r: Option<Option<RawMessage>>)
        ensures
            final(self).same_setup(*old(self)),
            (final(self).state(), notification_view(r)) == stream_read(old(self).state(), id@),
    {
        let ghost s = self.state();
        if let Some(mut session) = self.sessions.sessions.remove(id.as_str()) {
            let next = session.data.next_notification();
            self.sessions.sessions.insert(id.value.clone(), session);
            assert(self.state().table =~= stream_read(s, id@).0.table);
            return Some(next);
        }
        assert(self.state() =~= s);
        match self.parting.remove(id.as_str()) {
            None => {
                assert(self.state() =~= s);
                None
            },
            Some(mut data) => {
                let next = data.next_notification();
                let over = next.is_none() && data.child_failed();
                self.parting.insert(id.value.clone(), data);
                assert(self.state().parting =~= stream_read(s, id@).0.parting);
                if over {
                    None
                } else {
                    Some(next)
                }
            },
        }
    }

    /// Notes that the client of a stream is gone: the stream lets go of its session. Says
    /// when the session is to be looked at again.
    pub fn disconnect_sse_stream(&mut self, id: &SessionId) -> (r: Option<(u64, u64)>)
        ensures
            final(self).same_setup(*old(self)),
            final(self).state() == stream_left(old(self).state(), id@),
            r == idle_timer_of(final(self).sessions.table(), old(self).sessions.config, id@),
    {
        let ghost s = self.state();
        Metrics::dec(&mut self.metrics.active_clients);
        let ghost c = self.state();
        if let Some(mut session) = self.sessions.sessions.remove(id.as_str()) {
            session.data.drop_stream();
            self.sessions.sessions.insert(id.value.clone(), session);
            assert(self.sessions.table() =~= with_data(
                s.table,
                id@,
                without_stream(s.table[id@].data),
            ));
            self.sessions.release(id);
        } else {
            assert(self.state() =~= c);
            if let Some(mut data) = self.parting.remove(id.as_str()) {
                data.drop_stream();
                self.keep(id, data);
                assert(self.state().parting =~= stream_left(s, id@).parting);
            } else {
                assert(self.state() =~= c);
            }
        }
        self.idle_timer(id)
    }

    /// Closes all sessions.
    pub fn shutdown(&mut self)
        ensures
            final(self).same_setup(*old(self)),
            final(self).state() == (StatefulState { table: Map::empty(), ..old(self).state() }),
    {
        self.sessions.clear();
    }
}

/// Decides what is done on a stream that was silent for `idle` milliseconds, given the next
/// notification.
pub fn notification_step(next: Option<Option<RawMessage>>, idle: u64) -> (r: StreamStep)
    ensures
        r@ == (match notification_view(next) {
            Some(Some(m)) => StepView::Write(event_text(m)),
            Some(None) => silent_step(idle),
            None => StepView::Close,
        }),
        r@ == notification_step_of(notification_view(next), idle),
{
    match next {
        Some(Some(msg)) => StreamStep::Write(format_sse_event(&msg)),
        Some(None) => silent(idle),
        None => StreamStep::Close,
    }
}

/// Whether `r` is what comes of making the session `id` for a posted message, and `t` the
/// state after it.
pub open spec fn session_started(
    s: StatefulState,
    max: nat,
    post: PostView,
    id: Option<Seq<char>>,
    r: Result<Post, GatewayResponse>,
    t: StatefulState,
) -> bool {
    match r {
        Ok(p) => {
            &&& s.table.dom().len() < max
            &&& id is Some
            &&& p@ == (PostView { session: id, created: true, ..post })
            &&& t == (StatefulState {
                table: s.table.insert(id->Some_0, acquired(fresh_session(new_data()))),
                ..s
            })
        },
        Err(x) => {
            &&& s.table.dom().len() >= max
            &&& x@ == with_headers(session_http(SessionError::MaxSessionsReached), post.cors)
            &&& t == s
        },
    }
}

// ---- Laws ------------------------------------------------------------------------------------------

/// To delete a session again has the same answer and changes nothing, as long as the session
/// is there.
pub proof fn law_delete_is_idempotent(s: StatefulState, id: Seq<char>, cors: Pairs)
    requires
        unusable(s.table, id) is None,
    ensures
        ({
            let (t, first) = delete_taken(s, Some(id), cors);
            let (u, second) = delete_taken(t, Some(id), cors);
            &&& u == t
            &&& first matches ResultView::Drain(x, reply) && x == id && second
                == ResultView::Response(reply)
        }),
{
}

/// A session that was deleted takes no new request: whoever names it is told so, and
/// nothing changes.
pub proof fn law_deleted_session_takes_no_requests(
    s: StatefulState,
    id: Seq<char>,
    messages: Seq<MessageView>,
    cors: Pairs,
)
    requires
        unusable(s.table, id) is None,
    ensures
        post_taken(delete_taken(s, Some(id), cors).0, Some(id), messages, cors) == (
            delete_taken(s, Some(id), cors).0,
            ResultView::Response(
                with_headers(error_http(GatewayError::SessionClosing), cors),
            ),
        ),
{
}

/// A session is made by a request to initialize only: without the name of a session, every
/// other message is refused.
pub proof fn law_only_initialize_makes_a_session(
    s: StatefulState,
    messages: Seq<MessageView>,
    cors: Pairs,
)
    ensures
        post_taken(s, None, messages, cors).1 is Initialize <==> asks_for_session(messages),
        post_taken(s, None, messages, cors).0 == s,
{
}

/// The second client that asks for the stream of a session is refused, even when the first
/// is gone.
pub proof fn law_stream_is_given_once(
    s: StatefulState,
    setup: Setup,
    req: RequestView,
    cors: Pairs,
)
    requires
        stream_taken(s, setup, req, cors).1 is SseStream,
    ensures
        ({
            let t = stream_taken(s, setup, req, cors).0;
            let id = req.session_id()->Some_0;
            let later = StatefulState {
                table: with_data(
                    t.table,
                    id,
                    DataView {
                        stream: Stream::Dropped,
                        notifications: seq![],
                        ..t.table[id].data
                    },
                ),
                ..t
            };
            &&& !(stream_taken(t, setup, req, cors).1 is SseStream)
            &&& !(stream_taken(later, setup, req, cors).1 is SseStream)
        }),
{
}

/// A message to a session that holds no request is accepted as soon as it is written:
/// nothing is awaited, and nothing changes.
pub proof fn law_notifications_are_accepted(t: Sessions, id: Seq<char>, messages: Seq<MessageView>)
    requires
        forall|i: int| 0 <= i < messages.len() ==> !(#[trigger] messages[i]).is_request(),
    ensures
        forwarded(t, id, messages, Ok(())) == (t, ForwardedView::Respond(bare_http(202))),
{
    lemma_no_request_ids(messages);
}

proof fn lemma_no_request_ids(ms: Seq<MessageView>)
    requires
        forall|i: int| 0 <= i < ms.len() ==> !(#[trigger] ms[i]).is_request(),
    ensures
        request_ids(ms).len() == 0,
    decreases ms.len(),
{
    if ms.len() > 0 {
        assert forall|i: int| 0 <= i < ms.len() - 1 implies !(
        #[trigger] ms.drop_last()[i]).is_request() by {
            assert(ms.drop_last()[i] == ms[i]);
        }
        lemma_no_request_ids(ms.drop_last());
    }
}

/// A session that is closed by force still answers: who waits for an answer finds the same
/// as if the session were open.
pub proof fn law_closed_session_still_answers(
    s: StatefulState,
    id: Seq<char>,
    x: ExchangeView,
    elapsed: u64,
    ms: Seq<MessageView>,
)
    requires
        s.table.dom().contains(id),
        s.table[id].data.inboxes.dom().contains(x.ticket),
    ensures
        ({
            let closed = relayed(force_closed(s, id), id, ms);
            let open = relayed(s, id, ms);
            &&& exchange_advanced(closed, id, x, elapsed).1 == exchange_advanced(
                open,
                id,
                x,
                elapsed,
            ).1
            &&& exchange_advanced(closed, id, x, elapsed).2 == exchange_advanced(
                open,
                id,
                x,
                elapsed,
            ).2
        }),
{
    assert(is_watched(s.table[id].data));
}

/// The ids under which answers are awaited are those of the messages that have both an id and
/// a method, in their order.
pub proof fn law_requests_are_those_with_id_and_method(ms: Seq<MessageView>)
    ensures
        request_ids(ms) == ms.filter(
            |m: MessageView| m.id is Some && m.method is Some,
        ).map_values(|m: MessageView| m.id->Some_0),
    decreases ms.len(),
{
    reveal(Seq::filter);
    let p = |m: MessageView| m.id is Some && m.method is Some;
    let f = |m: MessageView| m.id->Some_0;
    if ms.len() > 0 {
        law_requests_are_those_with_id_and_method(ms.drop_last());
        let rest = ms.drop_last().filter(p);
        if p(ms.last()) {
            assert(rest.push(ms.last()).map_values(f) =~= rest.map_values(f).push(f(ms.last())));
        }
    }
    assert(request_ids(ms) =~= ms.filter(p).map_values(f));
}

/// A posted message is taken exactly where it says that it is JSON, the client accepts both
/// JSON and events or anything at all, the body is not too long, and it is JSON-RPC in UTF-8.
/// Else the status says what is wrong.
pub proof fn law_post_is_refused_with_cause(req: RequestView)
    ensures
        ({
            let r = post_refusal(req);
            let kind = req.header_or_empty("content-type"@);
            let accept = req.header_or_empty("accept"@);
            let json = has_part(kind, "application/json"@);
            let welcome = (has_part(accept, "application/json"@) && has_part(
                accept,
                "text/event-stream"@,
            )) || has_part(accept, "*/*"@) || accept == "*"@;
            let short = req.body.len() <= 16_777_216;
            let readable = valid_utf8(req.body) && line_error(decode_utf8(req.body)) is None;
            &&& r is None <==> json && welcome && short && readable
            &&& !json ==> r->Some_0.status == 415
            &&& json && !welcome ==> r->Some_0.status == 406
            &&& json && welcome && !short ==> r->Some_0.status == 413
            &&& json && welcome && short && !readable ==> r->Some_0.status == 400
        }),
{
}

/// Messages that name a session go to that session, all of them and as they are, and the
/// session is in use by one request more. No other session notices. Who names a session that
/// is not there, or is being closed, is told so.
pub proof fn law_post_goes_to_its_session(
    s: StatefulState,
    id: Seq<char>,
    messages: Seq<MessageView>,
    cors: Pairs,
    other: Seq<char>,
)
    ensures
        ({
            let (t, r) = post_taken(s, Some(id), messages, cors);
            let there = s.table.dom().contains(id);
            let open = there && !s.table[id].closing;
            &&& open ==> r is Forward && r->Forward_0.session == Some(id)
                && r->Forward_0.messages == messages && !r->Forward_0.created
                && r->Forward_0.cors == cors && t.table.dom() == s.table.dom()
                && t.table[id].data == s.table[id].data && !t.table[id].closing && (
            s.table[id].access_count < u64::MAX ==> t.table[id].access_count
                == s.table[id].access_count + 1)
            &&& !open ==> r is Response && t == s
            &&& !there ==> r->Response_0.status == 404
            &&& there && !open ==> r->Response_0.status == 503
            &&& other != id ==> t.table.dom().contains(other) == s.table.dom().contains(other)
                && t.table[other] == s.table[other]
            &&& t.parting == s.parting
            &&& t.metrics == s.metrics
        }),
{
    let (t, r) = post_taken(s, Some(id), messages, cors);
    if r is Forward {
        assert(t.table.dom() =~= s.table.dom());
    }
}

/// Without a session, a single request to initialize asks for one, and goes to its child as
/// it is; anything else is refused. Nothing changes yet.
pub proof fn law_session_is_asked_for(s: StatefulState, messages: Seq<MessageView>, cors: Pairs)
    ensures
        ({
            let (t, r) = post_taken(s, None, messages, cors);
            let asks = messages.len() == 1 && messages[0].id is Some && messages[0].method == Some(
                "initialize"@,
            );
            &&& t == s
            &&& asks ==> r is Initialize && r->Initialize_0.session is None
                && r->Initialize_0.messages == messages && r->Initialize_0.cors == cors
            &&& !asks ==> r is Response && r->Response_0.status == 400
        }),
{
}

/// A session begins with nothing: no request waits, nothing was said, nobody reads its
/// stream, and the request that asked for it uses it. The other sessions do not notice.
pub proof fn law_session_begins_empty(
    s: StatefulState,
    max: nat,
    post: PostView,
    id: Seq<char>,
    r: Result<Post, GatewayResponse>,
    t: StatefulState,
    other: Seq<char>,
)
    requires
        session_started(s, max, post, Some(id), r, t),
        other != id,
    ensures
        r is Ok <==> s.table.dom().len() < max,
        r is Ok ==> {
            let made = t.table[id];
            &&& t.table.dom() == s.table.dom().insert(id)
            &&& made.access_count == 1
            &&& !made.closing
            &&& made.data.pending.dom().is_empty()
            &&& made.data.inboxes.dom().is_empty()
            &&& made.data.notifications.len() == 0
            &&& made.data.buffer.len() == 0
            &&& !made.data.init_done
            &&& made.data.stream == Stream::Free
            &&& !made.data.has_sse_stream
            &&& !made.data.child_failed
            &&& r->Ok_0@.session == Some(id)
            &&& r->Ok_0@.created
            &&& r->Ok_0@.messages == post.messages
            &&& r->Ok_0@.cors == post.cors
        },
        r is Err ==> r->Err_0@.status == 503 && t == s,
        t.table[other] == s.table[other],
        t.parting == s.parting,
        t.metrics == s.metrics,
{
    if r is Ok {
        assert(t.table.dom() =~= s.table.dom().insert(id));
        assert(t.table[id].data.pending.dom() =~= Set::<Seq<char>>::empty());
        assert(t.table[id].data.inboxes.dom() =~= Set::<Seq<char>>::empty());
    }
}

/// Who asks for the stream of an open session gets it, as long as nobody did before; the
/// session is in use by it, and nothing else of the session changes. Else the status says
/// what is wrong, and nobody gets it.
pub proof fn law_stream_is_given(s: StatefulState, setup: Setup, req: RequestView, cors: Pairs)
    ensures
        ({
            let (t, r) = stream_taken(s, setup, req, cors);
            let welcome = req.header("accept"@) is Some && has_part(
                req.header("accept"@)->Some_0,
                "text/event-stream"@,
            );
            let named = req.header("mcp-session-id"@);
            let id = named->Some_0;
            let there = named is Some && s.table.dom().contains(id);
            let open = there && !s.table[id].closing;
            let free = open && !s.table[id].data.has_sse_stream && s.table[id].data.stream
                == Stream::Free;
            &&& r is SseStream <==> welcome && free
            &&& r is SseStream ==> {
                &&& r->SseStream_0 == id
                &&& t.table.dom() == s.table.dom()
                &&& t.table[id].data == (DataView {
                    has_sse_stream: true,
                    stream: Stream::Taken,
                    ..s.table[id].data
                })
                &&& s.table[id].access_count < u64::MAX ==> t.table[id].access_count
                    == s.table[id].access_count + 1
                &&& s.metrics.active_clients < u64::MAX ==> t.metrics == (Metrics {
                    active_clients: (s.metrics.active_clients + 1) as u64,
                    ..s.metrics
                })
            }
            &&& !(r is SseStream) ==> r is Response && t.metrics == s.metrics
            &&& !welcome ==> r->Response_0.status == 406 && t == s
            &&& welcome && named is None ==> r->Response_0.status == 400 && t == s
            &&& welcome && named is Some && !there ==> r->Response_0.status == 404 && t == s
            &&& welcome && there && !open ==> r->Response_0.status == 503 && t == s
            &&& welcome && open && !free ==> r->Response_0.status == 409
                && t.table[id].data.stream == s.table[id].data.stream
                && t.table[id].data.notifications == s.table[id].data.notifications
            &&& forall|other: Seq<char>|
                other != id ==> #[trigger] t.table[other] == s.table[other]
            &&& t.parting == s.parting
        }),
{
    let (t, r) = stream_taken(s, setup, req, cors);
    if r is SseStream {
        assert(t.table.dom() =~= s.table.dom());
    }
}

/// To delete a session closes it for new requests, and leaves everything in it to those who
/// wait. The other sessions do not notice.
pub proof fn law_delete_closes_the_session(
    s: StatefulState,
    id: Seq<char>,
    cors: Pairs,
    other: Seq<char>,
)
    requires
        other != id,
    ensures
        ({
            let (t, r) = delete_taken(s, Some(id), cors);
            let there = s.table.dom().contains(id);
            let open = there && !s.table[id].closing;
            &&& open ==> r is Drain && r->Drain_0 == id && r->Drain_1.status == 200
                && t.table[id].closing && t.table[id].data == s.table[id].data
                && t.table[id].access_count == s.table[id].access_count
            &&& there && !open ==> r is Response && r->Response_0.status == 200 && t == s
            &&& !there ==> r is Response && r->Response_0.status == 404 && t == s
            &&& t.table.dom().contains(other) == s.table.dom().contains(other)
            &&& t.table[other] == s.table[other]
            &&& t.parting == s.parting
            &&& t.metrics == s.metrics
            &&& delete_taken(s, None, cors).1 is Response
            &&& delete_taken(s, None, cors).1->Response_0.status == 400
            &&& delete_taken(s, None, cors).0 == s
        }),
{
}

/// A request goes by its method and its path: POST, GET and DELETE at the gateway's path are
/// counted and dealt with, any other method there is refused, and elsewhere there is nothing.
pub proof fn law_request_goes_by_method_and_path(
    g: StatefulHttpGateway,
    req: RequestView,
    r: ResultView,
    t: StatefulState,
)
    requires
        g.takes(req, r, t),
        !(cors_result(
            g.setup.cors.config@,
            g.setup.cors.expose_session_header,
            req.method,
            req.header("origin"@),
        ) is Preflight),
    ensures
        ({
            let s = g.state();
            let health = texts_view(g.setup.health_endpoints@).contains(req.path);
            let here = !health && req.path == g.mcp_path@;
            let known = req.method == "POST"@ || req.method == "GET"@ || req.method == "DELETE"@;
            &&& !here ==> r is Response && t == s
            &&& !here && !health ==> r->Response_0.status == 404
            &&& here && !known ==> r is Response && r->Response_0.status == 405 && t.table
                == s.table && t.parting == s.parting
            &&& here && s.metrics.total_requests < u64::MAX ==> t.metrics.total_requests
                == s.metrics.total_requests + 1
            &&& r is Initialize || r is Forward ==> req.method == "POST"@ && post_refusal(
                req,
            ) is None
            &&& r is SseStream ==> req.method == "GET"@
            &&& r is Drain ==> req.method == "DELETE"@
            &&& here && req.method == "POST"@ && post_refusal(req) is Some ==> r is Response
                && r->Response_0.status == post_refusal(req)->Some_0.status && t.table == s.table
            &&& here && req.method == "POST"@ && post_refusal(req) is None
                ==> exists|p: ParsedView| #[trigger]
                line_is(decode_utf8(req.body), p) && (t, r) == post_taken(
                    StatefulState { metrics: t.metrics, ..s },
                    req.header("mcp-session-id"@),
                    messages_of(p),
                    g.setup.cors_for(req.method, req.header("origin"@)),
                )
        }),
{
    reveal_strlit("POST");
    reveal_strlit("GET");
    reveal_strlit("DELETE");
    assert("POST"@.len() == 4 && "GET"@.len() == 3 && "DELETE"@.len() == 6);
    let s = g.state();
    let health = g.setup.is_health(req.path);
    if !health && req.path == g.mcp_path@ && req.method == "POST"@ && post_refusal(req) is None {
        let counted_in = StatefulState {
            metrics: Metrics { total_requests: counted(s.metrics.total_requests), ..s.metrics },
            ..s
        };
        let p = choose|p: ParsedView| #[trigger]
            line_is(decode_utf8(req.body), p) && (t, r) == post_taken(
                counted_in,
                req.session_id(),
                messages_of(p),
                g.cors_of(req),
            );
        assert(line_is(decode_utf8(req.body), p));
        assert(t.metrics == counted_in.metrics);
    }
}

/// What was written to the child is waited for where it holds a request: under the ids of the
/// requests, in their order. Where it holds none it is accepted. A write that failed is
/// answered by an error, and the child is known to be dead. No other session notices.
pub proof fn law_written_requests_are_waited_for(
    t: Sessions,
    id: Seq<char>,
    messages: Seq<MessageView>,
    written: Result<(), ChildError>,
    other: Seq<char>,
)
    requires
        t.dom().contains(id),
        t[id].data.next_ticket < u64::MAX,
        other != id,
    ensures
        ({
            let (u, r) = forwarded(t, id, messages, written);
            let ids = messages.filter(
                |m: MessageView| m.id is Some && m.method is Some,
            ).map_values(|m: MessageView| m.id->Some_0);
            &&& u.dom() == t.dom()
            &&& u[other] == t[other]
            &&& u[id].closing == t[id].closing && u[id].access_count == t[id].access_count
            &&& written is Err ==> r is Respond && r->Respond_0.status == 502
                && u[id].data.child_failed && u[id].data.pending == t[id].data.pending
            &&& written is Ok && ids.len() == 0 ==> r is Respond && r->Respond_0.status == 202 && u
                == t
            &&& written is Ok && ids.len() > 0 ==> {
                &&& r is Wait
                &&& r->Wait_0.ids == ids
                &&& r->Wait_0.responses.dom().is_empty()
                &&& forall|k: int|
                    0 <= k < ids.len() ==> r->Wait_0.waiting.contains(#[trigger] ids[k])
                        && u[id].data.pending.dom().contains(ids[k]) && u[id].data.pending[ids[k]]
                        == r->Wait_0.ticket
                &&& u[id].data.inboxes.dom().contains(r->Wait_0.ticket)
                &&& u[id].data.inboxes[r->Wait_0.ticket].len() == 0
            }
        }),
{
    law_requests_are_those_with_id_and_method(messages);
    let ids = request_ids(messages);
    let (u, r) = forwarded(t, id, messages, written);
    law_requests_of_a_post_wait(t[id].data, ids, id);
    assert(u.dom() =~= t.dom());
    if r is Wait {
        assert(r->Wait_0.responses.dom() =~= Set::<Seq<char>>::empty());
        assert forall|k: int| 0 <= k < ids.len() implies r->Wait_0.waiting.contains(
            #[trigger] ids[k],
        ) by {
            assert(ids.contains(ids[k]));
        }
    }
}

/// What the child of a session says reaches that session and no other, whether the session is
/// open or was closed while somebody waits.
pub proof fn law_child_speaks_to_its_session(
    s: StatefulState,
    id: Seq<char>,
    ms: Seq<MessageView>,
    other: Seq<char>,
)
    requires
        other != id,
    ensures
        ({
            let t = relayed(s, id, ms);
            let there = s.table.dom().contains(id);
            let parting = !there && s.parting.dom().contains(id);
            &&& t.table.dom() == s.table.dom()
            &&& t.parting.dom() == s.parting.dom()
            &&& t.table[other] == s.table[other]
            &&& t.parting[other] == s.parting[other]
            &&& there ==> t.table[id].data == messages_routed(s.table[id].data, s.metrics, ms).0
                && t.table[id].access_count == s.table[id].access_count && t.table[id].closing
                == s.table[id].closing && t.metrics == messages_routed(
                s.table[id].data,
                s.metrics,
                ms,
            ).1
            &&& parting ==> t.parting[id] == messages_routed(s.parting[id], s.metrics, ms).0
            &&& !there && !parting ==> t == s
        }),
{
    assert(relayed(s, id, ms).table.dom() =~= s.table.dom());
    assert(relayed(s, id, ms).parting.dom() =~= s.parting.dom());
}

/// From a POST to its answer: a request that was written to the child of its session, and
/// that the child answers by a result or an error, is answered at the next look by the event
/// that holds that very answer.
pub proof fn law_posted_request_is_answered(
    s: StatefulState,
    session: Seq<char>,
    request: MessageView,
    answer: MessageView,
    elapsed: u64,
)
    requires
        s.table.dom().contains(session),
        request.id is Some,
        request.method is Some,
        answer.id == request.id,
        answer.method is None,
        answer.result is Some || answer.error is Some,
        elapsed < 60_000,
    ensures
        ({
            let (u, r) = forwarded(s.table, session, seq![request], Ok(()));
            let told = relayed(StatefulState { table: u, ..s }, session, seq![answer]);
            let (_, x, over) = exchange_advanced(told, session, r->Wait_0, elapsed);
            &&& r is Wait
            &&& over
            &&& answers_text(x.ids, 0, x.responses) == "event: message\ndata: "@ + message_text(
                answer,
            ) + "\n\n"@
        }),
{
    let id = request.id->Some_0;
    let d = s.table[session].data;
    assert(seq![request].drop_last() =~= Seq::<MessageView>::empty());
    assert(request_ids(seq![request].drop_last()) =~= Seq::<Seq<char>>::empty());
    assert(request_ids(seq![request]) =~= seq![id]);
    law_batch_of_the_child_is_its_messages(
        registered(d, seq![id]),
        s.metrics,
        seq![],
        seq![],
        answer,
    );
    law_request_gets_its_answer(d, s.metrics, id, answer, elapsed);
}

/// The client of a stream finds what the child said in its order, each once; nothing as long
/// as more may come, and the end when the session is closed and its child dead.
pub proof fn law_stream_is_read_in_order(s: StatefulState, id: Seq<char>, other: Seq<char>)
    requires
        other != id,
    ensures
        ({
            let (t, found) = stream_read(s, id);
            let there = s.table.dom().contains(id);
            let parting = !there && s.parting.dom().contains(id);
            &&& there && s.table[id].data.notifications.len() > 0 ==> found == Some(
                Some(s.table[id].data.notifications[0]),
            ) && t.table[id].data == (DataView {
                notifications: s.table[id].data.notifications.skip(1),
                ..s.table[id].data
            })
            &&& there && s.table[id].data.notifications.len() == 0 ==> found == Some(
                None::<MessageView>,
            ) && t == s
            &&& parting && s.parting[id].notifications.len() > 0 ==> found == Some(
                Some(s.parting[id].notifications[0]),
            ) && t.parting[id] == (DataView {
                notifications: s.parting[id].notifications.skip(1),
                ..s.parting[id]
            })
            &&& parting && s.parting[id].notifications.len() == 0 ==> t == s && (found is None
                <==> s.parting[id].child_failed)
            &&& !there && !parting ==> found is None && t == s
            &&& t.table[other] == s.table[other]
            &&& t.parting[other] == s.parting[other]
            &&& t.metrics == s.metrics
        }),
{
}

/// A client that leaves the stream leaves the session to the others: what waits for it is
/// forgotten, nothing more is kept for it, and the requests that wait still do.
pub proof fn law_stream_is_left(s: StatefulState, id: Seq<char>, other: Seq<char>)
    requires
        other != id,
    ensures
        ({
            let t = stream_left(s, id);
            &&& s.table.dom().contains(id) ==> {
                let d = t.table[id].data;
                &&& d.stream == Stream::Dropped
                &&& d.notifications.len() == 0
                &&& d == (DataView {
                    stream: d.stream,
                    notifications: d.notifications,
                    ..s.table[id].data
                })
                &&& s.table[id].access_count > 0 ==> t.table[id].access_count
                    == s.table[id].access_count - 1
                &&& t.table[id].closing == s.table[id].closing
            }
            &&& t.table.dom() == s.table.dom()
            &&& t.table[other] == s.table[other]
            &&& t.parting[other] == s.parting[other]
            &&& s.metrics.active_clients > 0 ==> t.metrics == (Metrics {
                active_clients: (s.metrics.active_clients - 1) as u64,
                ..s.metrics
            })
        }),
{
    assert(stream_left(s, id).table.dom() =~= s.table.dom());
}

/// A request that is done lets go of its session and leaves everything else as it is.
pub proof fn law_request_lets_go(t: Sessions, id: Seq<char>, other: Seq<char>)
    requires
        other != id,
    ensures
        ({
            let u = let_go(t, id);
            &&& u.dom() == t.dom()
            &&& u[other] == t[other]
            &&& t.dom().contains(id) ==> u[id].data == t[id].data && u[id].closing
                == t[id].closing && u[id].timeout_gen == t[id].timeout_gen && (
            t[id].access_count > 0 ==> u[id].access_count == t[id].access_count - 1)
        }),
{
    assert(let_go(t, id).dom() =~= t.dom());
}

/// A timer is set exactly for a session that nobody uses, where sessions time out; it is
/// bound to the last use.
pub proof fn law_timer_is_set_for_the_unused(
    t: Sessions,
    config: SessionManagerConfig,
    id: Seq<char>,
)
    ensures
        ({
            let r = idle_timer_of(t, config, id);
            &&& r is Some <==> config.session_timeout is Some && t.dom().contains(id)
                && t[id].access_count == 0
            &&& r is Some ==> r->Some_0 == (config.session_timeout->Some_0, t[id].timeout_gen)
        }),
{
}

/// A session that is closed by force is gone; what is in it is kept exactly where somebody
/// waits for an answer or reads the stream. The other sessions do not notice.
pub proof fn law_force_closes_the_session(s: StatefulState, id: Seq<char>, other: Seq<char>)
    requires
        s.table.dom().contains(id),
        other != id,
    ensures
        ({
            let t = force_closed(s, id);
            let d = s.table[id].data;
            let waited_for = !d.inboxes.dom().is_empty() || d.stream == Stream::Taken;
            &&& !t.table.dom().contains(id)
            &&& t.parting.dom().contains(id) <==> waited_for
            &&& waited_for ==> t.parting[id] == d
            &&& t.table[other] == s.table[other]
            &&& t.table.dom().contains(other) == s.table.dom().contains(other)
            &&& t.parting[other] == s.parting[other]
            &&& t.metrics == s.metrics
        }),
{
    let d = s.table[id].data;
    if d.inboxes.dom().is_empty() {
        assert forall|ticket: Seq<char>| !#[trigger] d.inboxes.dom().contains(ticket) by {
        }
    } else {
        if forall|ticket: Seq<char>| !#[trigger] d.inboxes.dom().contains(ticket) {
            assert(d.inboxes.dom() =~= Set::<Seq<char>>::empty());
        }
    }
}

/// The session that an exchange belongs to is looked at, and no other; where the session is
/// gone with all that was in it, the requests that wait are told so.
pub proof fn law_exchange_looks_at_its_session(
    s: StatefulState,
    id: Seq<char>,
    x: ExchangeView,
    elapsed: u64,
    other: Seq<char>,
)
    requires
        other != id,
    ensures
        ({
            let (t, y, over) = exchange_advanced(s, id, x, elapsed);
            let there = s.table.dom().contains(id);
            let parting = !there && s.parting.dom().contains(id);
            &&& there ==> t.table[id].data == advanced(s.table[id].data, x, elapsed).0 && y
                == advanced(s.table[id].data, x, elapsed).1 && over == advanced(
                s.table[id].data,
                x,
                elapsed,
            ).2 && t.table[id].access_count == s.table[id].access_count && t.table[id].closing
                == s.table[id].closing
            &&& parting ==> t.parting[id] == advanced(s.parting[id], x, elapsed).0 && y == advanced(
                s.parting[id],
                x,
                elapsed,
            ).1 && over == advanced(s.parting[id], x, elapsed).2
            &&& !there && !parting ==> over && y == abandoned(x) && t == s
            &&& t.table[other] == s.table[other]
            &&& t.parting[other] == s.parting[other]
            &&& t.metrics == s.metrics
        }),
{
}

/// An exchange that ended leaves no trace: answers that come later have nowhere to go. The
/// other exchanges of the session do not notice.
pub proof fn law_exchange_leaves_no_trace(
    s: StatefulState,
    id: Seq<char>,
    ticket: Seq<char>,
    other: Seq<char>,
)
    requires
        s.table.dom().contains(id),
        other != ticket,
    ensures
        ({
            let d = exchange_ended(s, id, ticket).table[id].data;
            &&& !d.inboxes.dom().contains(ticket)
            &&& d.inboxes.dom().contains(other) == s.table[id].data.inboxes.dom().contains(other)
            &&& d.inboxes[other] == s.table[id].data.inboxes[other]
            &&& d == (DataView { inboxes: d.inboxes, ..s.table[id].data })
        }),
{
}

/// The answers of the gateway have the status and the body that they are made with; more
/// headers come behind the others.
pub proof fn law_answers_are_made_as_asked(
    status: u16,
    kind: Seq<char>,
    body: Seq<char>,
    r: HttpReply,
    headers: Pairs,
)
    ensures
        text_http(status, kind, body) == (HttpReply {
            status,
            headers: seq![("content-type"@, kind)],
            body: encode_utf8(body),
        }),
        sse_http(status, body).status == status,
        sse_http(status, body).body == encode_utf8(body),
        first_value(sse_http(status, body).headers, "content-type"@) == Some(
            "text/event-stream"@,
        ),
        with_headers(r, headers).status == r.status,
        with_headers(r, headers).body == r.body,
        with_headers(r, headers).headers == r.headers + headers,
{
    law_first_occurrence_counts(sse_http(status, body).headers, "content-type"@, 0);
}

/// The answer to a posted message stays as it is; it gets the name of the session exactly where
/// one was made for it, and the headers for the origin that asked.
pub proof fn law_new_session_is_named(post: PostView, resp: HttpReply, id: Seq<char>)
    requires
        post.session == Some(id),
    ensures
        ({
            let r = post_answer(post, resp);
            &&& r.status == resp.status
            &&& r.body == resp.body
            &&& post.created ==> r.headers == resp.headers + seq![("Mcp-Session-Id"@, id)]
                + post.cors
            &&& !post.created ==> r.headers == resp.headers + post.cors
        }),
{
    let r = post_answer(post, resp);
    if !post.created {
        assert(r.headers =~= resp.headers + post.cors);
    }
}

/// Where no child can be started the answer is an internal error with the reason, the failure
/// is counted and no session changes.
pub proof fn law_failed_start_is_told(s: StatefulState, cors: Pairs, reason: Seq<char>)
    requires
        s.metrics.spawn_failures < u64::MAX,
    ensures
        ({
            let (t, r) = not_spawned(s, cors, reason);
            &&& t.table == s.table && t.parting == s.parting
            &&& t.metrics == (Metrics {
                spawn_failures: (s.metrics.spawn_failures + 1) as u64,
                ..s.metrics
            })
            &&& r.status == 500
            &&& cors.len() <= r.headers.len()
            &&& r.headers.skip(r.headers.len() - cors.len()) == cors
        }),
{
    let (t, r) = not_spawned(s, cors, reason);
    let own = internal_http("failed to spawn child: "@ + reason).headers;
    assert(r.headers.skip(r.headers.len() - cors.len()) =~= cors);
}

/// Nothing is written to the child of a session that is gone or whose child is dead; to any
/// other it is.
pub proof fn law_dead_child_is_not_written_to(t: Sessions, id: Seq<char>)
    ensures
        !t.contains_key(id) ==> (child_problem(t, id) matches Some(r) && r.status == 404),
        t.contains_key(id) && t[id].data.child_failed ==> (child_problem(t, id) matches Some(r)
            && r.status == 502),
        t.contains_key(id) && !t[id].data.child_failed ==> child_problem(t, id) is None,
{
}

/// A session that was deleted goes once no request is in progress, or when its time is over;
/// until then it stays as it is. The other sessions do not notice.
pub proof fn law_deleted_session_drains(
    s: StatefulState,
    limit: u64,
    id: Seq<char>,
    elapsed: u64,
    other: Seq<char>,
)
    requires
        s.table.contains_key(id),
        s.table[id].closing,
        other != id,
    ensures
        ({
            let (t, step) = drain_step(s, limit, id, elapsed);
            let used = s.table[id].access_count > 0;
            &&& used && elapsed < limit ==> t == s && step == DrainStep::Wait
            &&& !used && elapsed < limit ==> !t.table.contains_key(id) && t.parting == s.parting
                && step == DrainStep::Closed
            &&& elapsed >= limit ==> !t.table.contains_key(id) && step == DrainStep::Forced
            &&& t.table.contains_key(other) == s.table.contains_key(other)
            &&& t.table[other] == s.table[other]
            &&& t.metrics == s.metrics
        }),
{
}

/// A timer closes the session that was not used since it was set, and counts it; any other
/// session stays.
pub proof fn law_unused_session_times_out(
    s: StatefulState,
    id: Seq<char>,
    gen: u64,
    other: Seq<char>,
)
    requires
        other != id,
        s.metrics.session_timeouts < u64::MAX,
    ensures
        ({
            let (t, closed) = idle_step(s, id, gen);
            let unused = s.table.contains_key(id) && !s.table[id].closing
                && s.table[id].access_count == 0 && s.table[id].timeout_gen == gen;
            &&& closed == unused
            &&& !unused ==> t == s
            &&& unused ==> !t.table.contains_key(id) && t.parting == s.parting && t.metrics == (
            Metrics { session_timeouts: (s.metrics.session_timeouts + 1) as u64, ..s.metrics })
            &&& t.table.contains_key(other) == s.table.contains_key(other)
            &&& t.table[other] == s.table[other]
        }),
{
}

/// A notification is written to its stream at once, silence is broken after fifteen seconds,
/// and a stream without its session ends.
pub proof fn law_stream_is_written(m: MessageView, idle: u64)
    ensures
        notification_step_of(Some(Some(m)), idle) == StepView::Write(
            "event: message\ndata: "@ + message_text(m) + "\n\n"@,
        ),
        idle < 15_000 ==> notification_step_of(Some(None), idle) == StepView::Wait,
        idle >= 15_000 ==> notification_step_of(Some(None), idle) == StepView::Write(
            ": keepalive\n\n"@,
        ),
        notification_step_of(None, idle) == StepView::Close,
{
}

/// When the child of a session dies, every request that waits in it is told so, and the other
/// sessions do not notice.
pub proof fn law_death_of_a_child_stays_in_its_session(
    s: StatefulState,
    id: Seq<char>,
    t: StatefulState,
    other: Seq<char>,
)
    requires
        is_bereft(s, id, t),
        other != id,
    ensures
        s.table.contains_key(id) ==> t.table.contains_key(id) && is_failed(
            s.table[id].data,
            t.table[id].data,
        ) && t.table[id].closing == s.table[id].closing && t.table[id].access_count
            == s.table[id].access_count && t.parting == s.parting,
        !s.table.contains_key(id) && s.parting.contains_key(id) ==> t.parting.contains_key(id)
            && is_failed(s.parting[id], t.parting[id]) && t.table == s.table,
        !s.table.contains_key(id) && !s.parting.contains_key(id) ==> t == s,
        t.table.contains_key(other) == s.table.contains_key(other),
        t.table[other] == s.table[other],
        t.parting.contains_key(other) == s.parting.contains_key(other),
        t.parting[other] == s.parting[other],
        t.metrics == s.metrics,
{
}

/// A parameter of a query is a name and a value, and the last of a name counts.
pub proof fn law_query_parameters_are_read(
    name: Seq<char>,
    value: Seq<char>,
    rest: Seq<char>,
    ps: Pairs,
)
    requires
        name.len() > 0,
        !name.contains('&'),
        !name.contains('='),
        !value.contains('&'),
    ensures
        params_from(split(name + seq!['='] + value, '&'), 0, ps) == with_value(ps, name, value),
        params_from(split(name + seq!['='] + value + seq!['&'] + rest, '&'), 0, ps) == params_from(
            split(rest, '&'),
            0,
            with_value(ps, name, value),
        ),
        query_params(rest) == params_from(split(rest, '&'), 0, Seq::empty()),
{
    let part = name + seq!['='] + value;
    let n = name.len() as int;
    assert forall|k: int| 0 <= k < n implies part[k] != '=' by {
        assert(part[k] == name[k]);
        assert(name.contains(name[k]));
    }
    assert(part[n] == '=');
    lemma_index_of_is(part, '=', 0, n);
    assert(part.take(n) =~= name);
    assert(part.skip(n + 1) =~= value);
    assert forall|k: int| 0 <= k < part.len() implies part[k] != '&' by {
        if k < n {
            assert(name.contains(name[k]));
        } else if k > n {
            assert(part[k] == value[k - n - 1]);
            assert(value.contains(value[k - n - 1]));
        }
    }
    law_parts_lie_between_separators(part, '&', rest);
    let parts = split(rest, '&');
    let after = with_value(ps, name, value);
    assert(seq![part][0] == part && (seq![part] + parts)[0] == part);
    assert(params_from(seq![part], 1, after) == after);
    lemma_params_behind(part, parts, 0, after);
}

proof fn lemma_params_behind(first: Seq<char>, parts: Seq<Seq<char>>, from: int, ps: Pairs)
    requires
        0 <= from <= parts.len(),
    ensures
        params_from(seq![first] + parts, from + 1, ps) == params_from(parts, from, ps),
    decreases parts.len() - from,
{
    if from < parts.len() {
        assert((seq![first] + parts)[from + 1] == parts[from]);
        let (name, value) = query_part(parts[from]);
        let next = if name.len() == 0 {
            ps
        } else {
            with_value(
                ps,
                name,
                match value {
                    Some(v) => v,
                    None => ""@,
                },
            )
        };
        lemma_params_behind(first, parts, from + 1, next);
    }
}

} // verus!
