//! From stdio to streamable HTTP without sessions: every posted message gets a child of its
//! own, which is initialized first where the message does not do it, and killed when the
//! answers are there.

use vstd::prelude::*;
use vstd::string::*;
use vstd::utf8::{decode_utf8, encode_utf8, valid_utf8};

use crate::child::ChildError;
use crate::cors::{apply_custom_headers, cors_result, with_custom, CorsResult};
use crate::error::{GatewayError, INTERNAL_ERROR, SERVER_ERROR};
use crate::gateway::exchange::{event_text, format_sse_event};
use crate::gateway::reply::{texts_view, Setup};
use crate::gateway::sse::{into_messages, messages_of};
use crate::gateway::sse_to_stdio::{
    answer_place, answers, build_initialized_notification, build_plain_init, fallback_init, find_answer,
    generate_init_id, initialized_notification, is_init_id, lemma_answer_place,
};
use crate::gateway::stateful_http::{
    bare_http, collect_request_ids, error_http, internal_http,
    law_requests_are_those_with_id_and_method, parse_query, plain_http,
    query_params, request_ids, sse_http, text_http, with_headers, GatewayRequest, GatewayResponse,
    HttpReply, RequestView,
};
use crate::gateway::ws::{path_of, query_of, split_target};
use crate::h1::H1Request;
use crate::health::{check_health, health_of};
use crate::json::is_plain;
use crate::jsonrpc::{
    error_message, line_error, line_is, message_text, messages_view, parse_error_text, parse_line,
    MessageView, Parsed, ParsedView, RawMessage,
};
use crate::observe::{counted, Metrics};
use crate::pairs::{first_value, law_value_is_found_again, set_value, with_value, Pairs};
use crate::text::{body_text, contains, has_part, same, unquoted};

verus! {

/// The longest body of a request, in bytes.
pub const MAX_BODY_SIZE: usize = 16_777_216;

/// How many requests may be in progress, each with a child.
pub const MAX_CONCURRENT_REQUESTS: usize = 1024;

/// Headers with each name once, under the last of its values.
pub open spec fn last_values(headers: Pairs) -> Pairs
    decreases headers.len(),
{
    if headers.len() == 0 {
        seq![]
    } else {
        with_value(last_values(headers.drop_last()), headers.last().0, headers.last().1)
    }
}

/// Takes a request off the server.
pub fn convert_h1_request(req: H1Request) -> (r: GatewayRequest)
    ensures
        r@ == (RequestView {
            method: req@.method,
            path: path_of(req@.uri),
            headers: last_values(req@.headers),
            body: req@.body,
            query: query_params(query_of(req@.uri)),
        }),
{
    let (path, query) = split_target(req.uri.as_str());
    let ghost all = req.headers.deep_view();
    let mut headers: Vec<(String, String)> = Vec::new();
    let mut i: usize = 0;
    assert(headers.deep_view() =~= Seq::empty());
    assert(all.take(0) =~= Seq::empty());
    while i < req.headers.len()
        invariant
            i <= req.headers.len(),
            all == req.headers.deep_view(),
            headers.deep_view() == last_values(all.take(i as int)),
        decreases req.headers.len() - i,
    {
        let (name, value) = &req.headers[i];
        set_value(&mut headers, name.clone(), value.clone());
        assert(all.take(i + 1).drop_last() =~= all.take(i as int));
        assert(all.take(i + 1).last() == all[i as int]);
        i += 1;
    }
    assert(all.take(i as int) =~= all);
    GatewayRequest {
        method: req.method,
        path,
        headers,
        body: req.body,
        query: parse_query(query.as_str()),
    }
}

/// How long the child may take to initialize, in milliseconds.
pub const AUTO_INIT_TIMEOUT_MS: u64 = 5_000;

/// How long answers of the child are awaited, in milliseconds.
pub const RESPONSE_TIMEOUT_MS: u64 = 60_000;

// ---- Requests --------------------------------------------------------------------------------------

/// A posted message on its way.
pub struct Call {
    pub messages: Vec<RawMessage>,
    /// The headers that the answer gets besides its own.
    pub cors: Vec<(String, String)>,
}

/// What is done with a request.
pub enum Outcome {
    /// It is answered.
    Respond(GatewayResponse),
    /// A child is started for it.
    Spawn(Call),
}

#[verifier::ext_equal]
pub enum OutcomeView {
    Respond(HttpReply),
    Spawn(Seq<MessageView>, Pairs),
}

impl View for Outcome {
    type V = OutcomeView;

    open spec fn view(&self) -> OutcomeView {
        match self {
            Outcome::Respond(r) => OutcomeView::Respond(r@),
            Outcome::Spawn(c) => OutcomeView::Spawn(
                messages_view(c.messages@),
                c.cors.deep_view(),
            ),
        }
    }
}

/// The gateway.
pub struct StatelessHttpGateway {
    pub setup: Setup,
    pub mcp_path: String,
    pub protocol_version: String,
    pub active_requests: usize,
    pub metrics: Metrics,
}

/// The answer to a method other than POST.
pub open spec fn no_method_http() -> HttpReply {
    HttpReply {
        status: 405,
        headers: seq![],
        body: encode_utf8(
            message_text(error_message(None, SERVER_ERROR as int, "Method not allowed."@)),
        ),
    }
}

/// Why a posted message is refused, if it is.
pub open spec fn post_refusal(req: RequestView, active: nat) -> Option<HttpReply> {
    let kind = req.header_or_empty("content-type"@);
    let accept = req.header_or_empty("accept"@);
    if active >= MAX_CONCURRENT_REQUESTS {
        Some(plain_http(503, "service unavailable: "@ + "max concurrent requests"@))
    } else if !has_part(kind, "application/json"@) {
        Some(
            plain_http(
                415,
                "unsupported media type: "@ + ("expected "@ + "application/json"@ + ", got "@
                    + kind),
            ),
        )
    } else if !has_part(accept, "application/json"@) && !has_part(accept, "text/event-stream"@)
        && !has_part(accept, "*/*"@) && accept != "*"@ {
        Some(plain_http(406, "not acceptable: "@ + "missing required Accept header"@))
    } else if req.body.len() > MAX_BODY_SIZE {
        Some(plain_http(413, "payload too large"@))
    } else if !valid_utf8(req.body) {
        Some(plain_http(400, "bad request: "@ + "invalid UTF-8"@))
    } else {
        match line_error(decode_utf8(req.body)) {
            Some(e) => Some(
                plain_http(400, "bad request: "@ + ("malformed JSON: "@ + parse_error_text(e))),
            ),
            None => None,
        }
    }
}

pub open spec fn all_notifications(ms: Seq<MessageView>) -> bool {
    forall|i: int| 0 <= i < ms.len() ==> (#[trigger] ms[i]).is_notification()
}

pub open spec fn has_initialize(ms: Seq<MessageView>) -> bool {
    exists|i: int| 0 <= i < ms.len() && (#[trigger] ms[i]).is_initialize_request()
}

fn only_notifications(ms: &Vec<RawMessage>) -> (r: bool)
    ensures
        r == all_notifications(messages_view(ms@)),
{
    let ghost all = messages_view(ms@);
    let mut i: usize = 0;
    while i < ms.len()
        invariant
            i <= ms.len(),
            all == messages_view(ms@),
            forall|k: int| 0 <= k < i ==> (#[trigger] all[k]).is_notification(),
        decreases ms.len() - i,
    {
        if !ms[i].is_notification() {
            assert(!all[i as int].is_notification());
            return false;
        }
        i += 1;
    }
    true
}

fn any_initialize(ms: &Vec<RawMessage>) -> (r: bool)
    ensures
        r == has_initialize(messages_view(ms@)),
{
    let ghost all = messages_view(ms@);
    let mut i: usize = 0;
    while i < ms.len()
        invariant
            i <= ms.len(),
            all == messages_view(ms@),
            forall|k: int| 0 <= k < i ==> !(#[trigger] all[k]).is_initialize_request(),
        decreases ms.len() - i,
    {
        if ms[i].is_initialize_request() {
            assert(all[i as int].is_initialize_request());
            return true;
        }
        i += 1;
    }
    false
}

/// How many requests are in progress after one is answered, and the answer with its headers.
pub open spec fn request_completed(active: nat, cors: Pairs, resp: HttpReply) -> (nat, HttpReply) {
    (
        if active > 0 {
            (active - 1) as nat
        } else {
            0
        },
        with_headers(resp, cors),
    )
}

impl StatelessHttpGateway {
    /// Whether only the counters differ.
    pub open spec fn same_setup(self, other: StatelessHttpGateway) -> bool {
        &&& self.setup == other.setup
        &&& self.mcp_path == other.mcp_path
        &&& self.protocol_version == other.protocol_version
    }

    /// The headers that answers get for a request from another origin.
    pub open spec fn cors_of(self, req: RequestView) -> Pairs {
        self.setup.cors_for(req.method, req.header("origin"@))
    }

    /// The answer of a health endpoint.
    pub open spec fn health_http(self, req: RequestView) -> HttpReply {
        let h = health_of(self.metrics, req.wants_detail(), self.setup.log_level);
        with_headers(
            with_headers(
                text_http(h.status(), h.content_type(), h.body()),
                with_custom(seq![], self.setup.custom(), 0),
            ),
            self.cors_of(req),
        )
    }

    /// Whether `r` is what is done with a request, and `t` the gateway after it.
    pub open spec fn takes(self, req: RequestView, r: OutcomeView, t: StatelessHttpGateway) -> bool {
        let cors = self.cors_of(req);
        let c = cors_result(
            self.setup.cors.config@,
            self.setup.cors.expose_session_header,
            req.method,
            req.header("origin"@),
        );
        let counted_in = Metrics {
            total_requests: counted(self.metrics.total_requests),
            ..self.metrics
        };
        let idle = t.active_requests == self.active_requests;
        if c is Preflight {
            r == OutcomeView::Respond(with_headers(bare_http(204), c->Preflight_0)) && idle
                && t.metrics == self.metrics
        } else if self.setup.is_health(req.path) {
            r == OutcomeView::Respond(self.health_http(req)) && idle && t.metrics == self.metrics
        } else if req.path != self.mcp_path@ {
            r == OutcomeView::Respond(with_headers(plain_http(404, "Not Found"@), cors)) && idle
                && t.metrics == self.metrics
        } else if req.method != "POST"@ {
            r == OutcomeView::Respond(with_headers(no_method_http(), cors)) && idle && t.metrics
                == counted_in
        } else {
            t.metrics == counted_in && match post_refusal(req, self.active_requests as nat) {
                Some(x) => r == OutcomeView::Respond(with_headers(x, cors)) && idle,
                None => exists|p: ParsedView| #[trigger]
                    line_is(decode_utf8(req.body), p) && if all_notifications(messages_of(p)) {
                        r == OutcomeView::Respond(with_headers(bare_http(202), cors)) && idle
                    } else {
                        r == OutcomeView::Spawn(messages_of(p), cors) && t.active_requests
                            == self.active_requests + 1
                    },
            }
        }
    }

    pub fn new(mcp_path: String, setup: Setup, protocol_version: String, metrics: Metrics) -> (r:
        StatelessHttpGateway)
        ensures
            r.setup == setup,
            r.mcp_path == mcp_path,
            r.protocol_version == protocol_version,
            r.active_requests == 0,
            r.metrics == metrics,
    {
        StatelessHttpGateway { setup, mcp_path, protocol_version, active_requests: 0, metrics }
    }

    /// Decides about a request.
    pub fn handle_request(&mut self, req: &GatewayRequest) -> (r: Outcome)
        ensures
            final(self).same_setup(*old(self)),
            old(self).takes(req@, r@, *final(self)),
    {
        let cors: Vec<(String, String)> = match self.setup.cors.process(
            req.method.as_str(),
            req.header("origin"),
        ) {
            CorsResult::Preflight(headers) => {
                return Outcome::Respond(GatewayResponse::no_content().with_headers(&headers));
            },
            CorsResult::Disabled => {
                let none: Vec<(String, String)> = Vec::new();
                assert(none.deep_view() =~= Seq::<(Seq<char>, Seq<char>)>::empty());
                none
            },
            CorsResult::ResponseHeaders(h) => h,
        };
        if self.setup.is_health_path(req.path.as_str()) {
            let health = check_health(&self.metrics, req.wants_detail(), self.setup.log_level);
            let mut custom: Vec<(String, String)> = Vec::new();
            assert(custom.deep_view() =~= Seq::<(Seq<char>, Seq<char>)>::empty());
            apply_custom_headers(&mut custom, &self.setup.custom_headers);
            let resp = GatewayResponse::text(
                health.status_code(),
                health.content_type(),
                health.body(),
            ).with_headers(&custom).with_headers(&cors);
            return Outcome::Respond(resp);
        }
        if !same(req.path.as_str(), self.mcp_path.as_str()) {
            return Outcome::Respond(
                GatewayResponse::plain_text(404, "Not Found").with_headers(&cors),
            );
        }
        Metrics::inc(&mut self.metrics.total_requests);
        if !same(req.method.as_str(), "POST") {
            return Outcome::Respond(response_method_not_allowed().with_headers(&cors));
        }
        match self.check_post(req) {
            Err(resp) => Outcome::Respond(resp.with_headers(&cors)),
            Ok(messages) => if only_notifications(&messages) {
                Outcome::Respond(GatewayResponse::accepted().with_headers(&cors))
            } else {
                self.active_requests = self.active_requests + 1;
                Outcome::Spawn(Call { messages, cors })
            },
        }
    }

    /// Checks a posted message.
    fn check_post(&self, req: &GatewayRequest) -> (r: Result<Vec<RawMessage>, GatewayResponse>)
        ensures
            match post_refusal(req@, self.active_requests as nat) {
                Some(x) => r matches Err(y) && y@ == x,
                None => r matches Ok(ms) && self.active_requests < MAX_CONCURRENT_REQUESTS
                    && exists|p: ParsedView| #[trigger]
                    line_is(decode_utf8(req@.body), p) && messages_view(ms@) == messages_of(p),
            },
    {
        if self.active_requests >= MAX_CONCURRENT_REQUESTS {
            return Err(
                GatewayResponse::from_error(
                    &GatewayError::ServiceUnavailable("max concurrent requests".to_owned()),
                ),
            );
        }
        let kind = req.header_or_empty("content-type");
        if !contains(kind, "application/json") {
            return Err(
                GatewayResponse::from_error(
                    &GatewayError::wrong_content_type("application/json", kind),
                ),
            );
        }
        let accept = req.header_or_empty("accept");
        if !contains(accept, "application/json") && !contains(accept, "text/event-stream")
            && !contains(accept, "*/*") && !same(accept, "*") {
            return Err(GatewayResponse::from_error(&GatewayError::missing_accept()));
        }
        if req.body.len() > MAX_BODY_SIZE {
            return Err(GatewayResponse::from_error(&GatewayError::payload_too_large()));
        }
        let text = match body_text(req.body.as_slice()) {
            Some(t) => t,
            None => {
                return Err(
                    GatewayResponse::from_error(&GatewayError::bad_request("invalid UTF-8")),
                );
            },
        };
        match parse_line(text.as_str()) {
            Ok(parsed) => {
                let ghost p = parsed@;
                let ms = into_messages(parsed);
                assert(line_is(decode_utf8(req@.body), p));
                Ok(ms)
            },
            Err(e) => {
                let words = e.message();
                let detail = "malformed JSON: ".to_owned().concat(words.as_str());
                Err(GatewayResponse::from_error(&GatewayError::bad_request(detail.as_str())))
            },
        }
    }

    /// Notes that a request is over.
    fn release(&mut self)
        ensures
            final(self).same_setup(*old(self)),
            final(self).metrics == old(self).metrics,
            final(self).active_requests == (if old(self).active_requests > 0 {
                old(self).active_requests - 1
            } else {
                0
            }),
    {
        if self.active_requests > 0 {
            self.active_requests = self.active_requests - 1;
        }
    }

    /// Answers a request whose child could not be started.
    pub fn spawn_failed(&mut self, cors: &Vec<(String, String)>, reason: &str) -> (r:
        GatewayResponse)
        ensures
            final(self).same_setup(*old(self)),
            final(self).active_requests == (if old(self).active_requests > 0 {
                old(self).active_requests - 1
            } else {
                0
            }),
            final(self).metrics == (Metrics {
                spawn_failures: counted(old(self).metrics.spawn_failures),
                ..old(self).metrics
            }),
            r@ == with_headers(
                internal_http("failed to spawn child: "@ + reason@),
                cors.deep_view(),
            ),
            (final(self).active_requests as nat, r@) == request_completed(
                old(self).active_requests as nat,
                cors.deep_view(),
                internal_http("failed to spawn child: "@ + reason@),
            ),
    {
        Metrics::inc(&mut self.metrics.spawn_failures);
        self.release();
        let detail = "failed to spawn child: ".to_owned().concat(reason);
        GatewayResponse::from_error(&GatewayError::Internal(detail)).with_headers(cors)
    }

    /// Completes a request: its answer gets its headers, and another may take its place.
    pub fn complete(&mut self, cors: &Vec<(String, String)>, resp: GatewayResponse) -> (r:
        GatewayResponse)
        ensures
            final(self).same_setup(*old(self)),
            final(self).metrics == old(self).metrics,
            final(self).active_requests == (if old(self).active_requests > 0 {
                old(self).active_requests - 1
            } else {
                0
            }),
            r@ == with_headers(resp@, cors.deep_view()),
            (final(self).active_requests as nat, r@) == request_completed(
                old(self).active_requests as nat,
                cors.deep_view(),
                resp@,
            ),
    {
        self.release();
        resp.with_headers(cors)
    }
}

/// The answer to a method other than POST. It has no content type.
pub fn response_method_not_allowed() -> (r: GatewayResponse)
    ensures
        r@ == no_method_http(),
{
    let msg = RawMessage::error_response(None, SERVER_ERROR, "Method not allowed.");
    let json = msg.to_json();
    let mut r = GatewayResponse::new(405);
    let mut body: Vec<u8> = Vec::new();
    body.extend_from_slice(json.as_str().as_bytes());
    r.body = body;
    assert(r@ =~= no_method_http());
    r
}

/// The answer to a request that failed in a way that was not foreseen.
pub fn response_internal_error() -> (r: GatewayResponse)
    ensures
        r@ == text_http(
            500,
            "application/json"@,
            message_text(error_message(None, INTERNAL_ERROR as int, "Internal server error"@)),
        ),
{
    let msg = RawMessage::error_response(None, INTERNAL_ERROR, "Internal server error");
    let json = msg.to_json();
    GatewayResponse::json(500, json.as_str())
}

// ---- The conversation with a child --------------------------------------------------------------------

/// How far the conversation has come.
#[derive(Clone, Copy, PartialEq, Eq, Structural, Debug)]
pub enum Stage {
    /// The request to initialize is being written.
    WriteInit,
    /// The answer to it is awaited.
    AwaitInit,
    /// The messages are being written.
    WriteMessages,
    /// The answers are awaited.
    Collect,
    /// It is over.
    Over,
}

/// What comes next.
pub enum Step {
    /// The messages are written to the child, one after the other.
    Write(Vec<RawMessage>),
    /// Something is read from the child, for as many milliseconds at most.
    Read(u64),
    /// The request is answered so.
    Done(GatewayResponse),
}

#[verifier::ext_equal]
pub enum StepView {
    Write(Seq<MessageView>),
    Read(u64),
    Done(HttpReply),
}

impl View for Step {
    type V = StepView;

    open spec fn view(&self) -> StepView {
        match self {
            Step::Write(ms) => StepView::Write(messages_view(ms@)),
            Step::Read(ms) => StepView::Read(*ms),
            Step::Done(r) => StepView::Done(r@),
        }
    }
}

/// What was read from the child.
pub enum ReadEvent {
    Parsed(Parsed),
    /// Nothing came in time.
    TimedOut,
    /// The child has closed its stdout.
    Closed,
    /// Something else went wrong.
    Failed(ChildError),
}

#[verifier::ext_equal]
pub enum ReadView {
    Messages(Seq<MessageView>),
    TimedOut,
    Closed,
    Failed(ChildError),
}

impl View for ReadEvent {
    type V = ReadView;

    open spec fn view(&self) -> ReadView {
        match self {
            ReadEvent::Parsed(p) => ReadView::Messages(messages_of(p@)),
            ReadEvent::TimedOut => ReadView::TimedOut,
            ReadEvent::Closed => ReadView::Closed,
            ReadEvent::Failed(e) => ReadView::Failed(*e),
        }
    }
}

/// A conversation with a child about one posted message.
pub struct Conversation {
    messages: Vec<RawMessage>,
    init_id: String,
    buffered: Vec<RawMessage>,
    collected: Vec<RawMessage>,
    expected: usize,
    deadline: u64,
    stage: Stage,
}

#[verifier::ext_equal]
pub struct TalkView {
    /// What is to be written yet.
    pub messages: Seq<MessageView>,
    /// The id of the request to initialize that the gateway makes.
    pub init_id: Seq<char>,
    /// What the child said before it was initialized.
    pub buffered: Seq<MessageView>,
    /// What it said afterwards.
    pub collected: Seq<MessageView>,
    /// How many answers are awaited.
    pub expected: nat,
    pub deadline: u64,
    pub stage: Stage,
}

impl View for Conversation {
    type V = TalkView;

    closed spec fn view(&self) -> TalkView {
        TalkView {
            messages: messages_view(self.messages@),
            init_id: self.init_id@,
            buffered: messages_view(self.buffered@),
            collected: messages_view(self.collected@),
            expected: self.expected as nat,
            deadline: self.deadline,
            stage: self.stage,
        }
    }
}

/// The conversation at its beginning, and its first step. Where the messages hold a request
/// to initialize they are written as they are.
pub open spec fn opened(ms: Seq<MessageView>, version: Seq<char>, id: Seq<char>) -> (
    TalkView,
    StepView,
) {
    let c = TalkView {
        messages: seq![],
        init_id: id,
        buffered: seq![],
        collected: seq![],
        expected: request_ids(ms).len(),
        deadline: 0,
        stage: Stage::WriteMessages,
    };
    if has_initialize(ms) {
        (c, StepView::Write(ms))
    } else {
        (
            TalkView { messages: ms, stage: Stage::WriteInit, ..c },
            StepView::Write(seq![fallback_init(id, version)]),
        )
    }
}

pub open spec fn later(now: u64, wait: u64) -> u64 {
    if now + wait <= u64::MAX {
        (now + wait) as u64
    } else {
        u64::MAX
    }
}

/// How long is left until the deadline.
pub open spec fn left(c: TalkView, now: u64) -> u64 {
    if now < c.deadline {
        (c.deadline - now) as u64
    } else {
        0
    }
}

pub open spec fn ended(c: TalkView, r: HttpReply) -> (TalkView, StepView) {
    (TalkView { stage: Stage::Over, ..c }, StepView::Done(r))
}

/// After the messages of a step were written, or not.
pub open spec fn after_write(c: TalkView, written: Result<(), ChildError>, now: u64) -> (
    TalkView,
    StepView,
) {
    match written {
        Err(e) => ended(c, error_http(GatewayError::Child(e))),
        Ok(_) => if c.stage == Stage::WriteInit {
            let d = TalkView {
                stage: Stage::AwaitInit,
                deadline: later(now, AUTO_INIT_TIMEOUT_MS),
                ..c
            };
            (d, StepView::Read(left(d, now)))
        } else if c.expected == 0 {
            ended(c, bare_http(202))
        } else {
            let d = TalkView {
                stage: Stage::Collect,
                deadline: later(now, RESPONSE_TIMEOUT_MS),
                ..c
            };
            (d, StepView::Read(left(d, now)))
        },
    }
}

/// How many of the messages are answers.
pub open spec fn response_count(ms: Seq<MessageView>) -> nat
    decreases ms.len(),
{
    if ms.len() == 0 {
        0
    } else if ms.last().is_response() {
        response_count(ms.drop_last()) + 1
    } else {
        response_count(ms.drop_last())
    }
}

/// The events of messages, one after the other.
pub open spec fn events_text(ms: Seq<MessageView>) -> Seq<char>
    decreases ms.len(),
{
    if ms.len() == 0 {
        seq![]
    } else {
        events_text(ms.drop_last()) + event_text(ms.last())
    }
}

/// The answer to a request whose answers were collected. Where the child said nothing, it
/// matters whether it is dead.
pub open spec fn collected_http(c: TalkView, dead: bool) -> HttpReply {
    if c.collected.len() == 0 {
        if dead {
            error_http(GatewayError::ChildDead)
        } else {
            internal_http("response timeout"@)
        }
    } else {
        sse_http(200, events_text(c.buffered) + events_text(c.collected))
    }
}

/// After something was read from the child that is to initialize: with the answer that is
/// awaited, the messages are written; what came before it is kept, and what came with it is
/// dropped.
pub open spec fn init_read(c: TalkView, e: ReadView, now: u64) -> (TalkView, StepView) {
    match e {
        ReadView::Messages(ms) => {
            let at = answer_place(ms, c.init_id, 0);
            let d = TalkView { buffered: c.buffered + ms.take(at), ..c };
            if at < ms.len() {
                (
                    TalkView { messages: seq![], stage: Stage::WriteMessages, ..d },
                    StepView::Write(seq![initialized_notification()] + c.messages),
                )
            } else if now >= c.deadline {
                ended(d, error_http(GatewayError::AutoInitTimeout))
            } else {
                (d, StepView::Read(left(d, now)))
            }
        },
        ReadView::TimedOut => ended(c, error_http(GatewayError::AutoInitTimeout)),
        ReadView::Closed => ended(c, error_http(GatewayError::ChildDead)),
        ReadView::Failed(x) => ended(c, error_http(GatewayError::Child(x))),
    }
}

/// After something was read from the child whose answers are awaited.
pub open spec fn answers_read(c: TalkView, e: ReadView, now: u64, dead: bool) -> (
    TalkView,
    StepView,
) {
    match e {
        ReadView::Messages(ms) => {
            let d = TalkView { collected: c.collected + ms, ..c };
            if response_count(d.collected) >= d.expected || now >= d.deadline {
                ended(d, collected_http(d, dead))
            } else {
                (d, StepView::Read(left(d, now)))
            }
        },
        _ => ended(c, collected_http(c, dead)),
    }
}

/// After something was read from the child.
pub open spec fn after_read(c: TalkView, e: ReadView, now: u64, dead: bool) -> (TalkView, StepView) {
    if c.stage == Stage::AwaitInit {
        init_read(c, e, now)
    } else {
        answers_read(c, e, now, dead)
    }
}

fn count_responses(ms: &Vec<RawMessage>) -> (r: usize)
    ensures
        r == response_count(messages_view(ms@)),
        r <= ms.len(),
{
    let ghost all = messages_view(ms@);
    let mut n: usize = 0;
    let mut i: usize = 0;
    assert(all.take(0) =~= Seq::<MessageView>::empty());
    while i < ms.len()
        invariant
            i <= ms.len(),
            n <= i,
            all == messages_view(ms@),
            n == response_count(all.take(i as int)),
        decreases ms.len() - i,
    {
        assert(all.take(i + 1).drop_last() =~= all.take(i as int));
        assert(all.take(i + 1).last() == ms[i as int]@);
        if ms[i].is_response() {
            n += 1;
        }
        i += 1;
    }
    assert(all.take(i as int) =~= all);
    n
}

fn append_events(out: &mut String, ms: &Vec<RawMessage>)
    ensures
        final(out)@ == old(out)@ + events_text(messages_view(ms@)),
{
    let ghost all = messages_view(ms@);
    let ghost before = out@;
    let mut i: usize = 0;
    assert(all.take(0) =~= Seq::<MessageView>::empty());
    assert(before + events_text(all.take(0)) =~= before);
    while i < ms.len()
        invariant
            i <= ms.len(),
            all == messages_view(ms@),
            out@ == before + events_text(all.take(i as int)),
        decreases ms.len() - i,
    {
        assert(all.take(i + 1).drop_last() =~= all.take(i as int));
        assert(all.take(i + 1).last() == ms[i as int]@);
        let text = format_sse_event(&ms[i]);
        out.append(text.as_str());
        assert(out@ =~= before + events_text(all.take(i + 1)));
        i += 1;
    }
    assert(all.take(i as int) =~= all);
}

fn deadline(now: u64, wait: u64) -> (r: u64)
    ensures
        r == later(now, wait),
{
    if now <= u64::MAX - wait {
        now + wait
    } else {
        u64::MAX
    }
}

impl Conversation {
    /// Begins the conversation about posted messages. A request to initialize that has to be
    /// made gets an id at random.
    pub fn begin(messages: Vec<RawMessage>, protocol_version: &str) -> (r: (Conversation, Step))
        ensures
            exists|id: Seq<char>|
                is_init_id(id) && (r.0@, r.1@) == #[trigger] opened(
                    messages_view(messages@),
                    protocol_version@,
                    id,
                ),
    {
        let id = generate_init_id();
        Conversation::begin_as(messages, protocol_version, id)
    }

    /// Begins the conversation about posted messages. A request to initialize that has to be
    /// made gets the id.
    pub fn begin_as(messages: Vec<RawMessage>, protocol_version: &str, id: String) -> (r: (
        Conversation,
        Step,
    ))
        requires
            is_plain(id@),
        ensures
            (r.0@, r.1@) == opened(messages_view(messages@), protocol_version@, id@),
    {
        let expected: usize = collect_request_ids(&messages).len();
        let none: Vec<RawMessage> = Vec::new();
        assert(messages_view(none@) =~= Seq::<MessageView>::empty());
        if any_initialize(&messages) {
            let c = Conversation {
                messages: none,
                init_id: id,
                buffered: Vec::new(),
                collected: Vec::new(),
                expected,
                deadline: 0,
                stage: Stage::WriteMessages,
            };
            assert(c@ =~= opened(messages_view(messages@), protocol_version@, id@).0);
            (c, Step::Write(messages))
        } else {
            let mut first: Vec<RawMessage> = Vec::new();
            first.push(build_plain_init(id.as_str(), protocol_version));
            assert(messages_view(first@) =~= seq![fallback_init(id@, protocol_version@)]);
            let c = Conversation {
                messages,
                init_id: id,
                buffered: none,
                collected: Vec::new(),
                expected,
                deadline: 0,
                stage: Stage::WriteInit,
            };
            assert(c@ =~= opened(messages_view(messages@), protocol_version@, id@).0);
            (c, Step::Write(first))
        }
    }

    fn end(&mut self, resp: GatewayResponse) -> (r: Step)
        ensures
            (final(self)@, r@) == ended(old(self)@, resp@),
    {
        self.stage = Stage::Over;
        Step::Done(resp)
    }

    fn time_left(&self, now: u64) -> (r: u64)
        ensures
            r == left(self@, now),
    {
        if now < self.deadline {
            self.deadline - now
        } else {
            0
        }
    }

    /// Goes on after the messages of a step were written, or not.
    pub fn written(&mut self, outcome: Result<(), ChildError>, now: u64) -> (r: Step)
        ensures
            (final(self)@, r@) == after_write(old(self)@, outcome, now),
    {
        match outcome {
            Err(e) => self.end(GatewayResponse::from_error(&GatewayError::Child(e))),
            Ok(()) => if self.stage == Stage::WriteInit {
                self.stage = Stage::AwaitInit;
                self.deadline = deadline(now, AUTO_INIT_TIMEOUT_MS);
                Step::Read(self.time_left(now))
            } else if self.expected == 0 {
                self.end(GatewayResponse::accepted())
            } else {
                self.stage = Stage::Collect;
                self.deadline = deadline(now, RESPONSE_TIMEOUT_MS);
                Step::Read(self.time_left(now))
            },
        }
    }

    /// Goes on after something was read from the child. `dead` tells whether the child is
    /// known to be dead.
    pub fn read(&mut self, event: ReadEvent, now: u64, dead: bool) -> (r: Step)
        ensures
            (final(self)@, r@) == after_read(old(self)@, event@, now, dead),
    {
        if self.stage == Stage::AwaitInit {
            self.await_init(event, now)
        } else {
            self.collect(event, now, dead)
        }
    }

    /// Goes on after something was read from a child that is to initialize.
    fn await_init(&mut self, event: ReadEvent, now: u64) -> (r: Step)
        ensures
            (final(self)@, r@) == init_read(old(self)@, event@, now),
    {
        let ghost c = self@;
        match event {
            ReadEvent::Parsed(parsed) => {
                let mut ms = into_messages(parsed);
                let ghost all = messages_view(ms@);
                let ghost before = messages_view(self.buffered@);
                let at: usize = find_answer(&ms, self.init_id.as_str());
                proof {
                    lemma_answer_place(all, c.init_id, 0);
                }
                let found = at < ms.len();
                ms.truncate(at);
                assert(messages_view(ms@) =~= all.take(at as int));
                let ghost kept = messages_view(ms@);
                self.buffered.append(&mut ms);
                assert(messages_view(self.buffered@) =~= before + kept);
                if found {
                    let mut out: Vec<RawMessage> = Vec::new();
                    out.push(build_initialized_notification());
                    let ghost first = out@;
                    let mut waiting: Vec<RawMessage> = Vec::new();
                    std::mem::swap(&mut waiting, &mut self.messages);
                    let ghost rest = waiting@;
                    out.append(&mut waiting);
                    assert(messages_view(first) =~= seq![initialized_notification()]);
                    assert(messages_view(out@) =~= messages_view(first) + messages_view(rest));
                    self.stage = Stage::WriteMessages;
                    assert(self@ =~= init_read(c, event@, now).0);
                    Step::Write(out)
                } else if now >= self.deadline {
                    self.end(GatewayResponse::from_error(&GatewayError::auto_init_timeout()))
                } else {
                    Step::Read(self.time_left(now))
                }
            },
            ReadEvent::TimedOut => self.end(
                GatewayResponse::from_error(&GatewayError::auto_init_timeout()),
            ),
            ReadEvent::Closed => self.end(GatewayResponse::from_error(&GatewayError::child_dead())),
            ReadEvent::Failed(e) => self.end(
                GatewayResponse::from_error(&GatewayError::Child(e)),
            ),
        }
    }

    /// Goes on after something was read from a child whose answers are awaited.
    fn collect(&mut self, event: ReadEvent, now: u64, dead: bool) -> (r: Step)
        ensures
            (final(self)@, r@) == answers_read(old(self)@, event@, now, dead),
    {
        let ghost c = self@;
        match event {
            ReadEvent::Parsed(parsed) => {
                let mut ms = into_messages(parsed);
                let ghost all = messages_view(ms@);
                let ghost before = messages_view(self.collected@);
                self.collected.append(&mut ms);
                assert(messages_view(self.collected@) =~= before + all);
                assert(self@ =~= (TalkView { collected: c.collected + all, ..c }));
                if count_responses(&self.collected) >= self.expected || now >= self.deadline {
                    self.finish(dead)
                } else {
                    Step::Read(self.time_left(now))
                }
            },
            _ => self.finish(dead),
        }
    }

    fn finish(&mut self, dead: bool) -> (r: Step)
        ensures
            (final(self)@, r@) == ended(old(self)@, collected_http(old(self)@, dead)),
    {
        if self.collected.len() == 0 {
            if dead {
                return self.end(GatewayResponse::from_error(&GatewayError::child_dead()));
            }
            return self.end(
                GatewayResponse::from_error(&GatewayError::Internal("response timeout".to_owned())),
            );
        }
        let mut body = String::new();
        append_events(&mut body, &self.buffered);
        append_events(&mut body, &self.collected);
        assert(body@ =~= events_text(self@.buffered) + events_text(self@.collected));
        self.end(GatewayResponse::sse(200, body.as_str()))
    }
}

// ---- Laws ------------------------------------------------------------------------------------------

/// The number of requests in progress never exceeds its bound.
pub proof fn law_requests_are_limited(
    g: StatelessHttpGateway,
    req: RequestView,
    r: OutcomeView,
    t: StatelessHttpGateway,
)
    requires
        g.takes(req, r, t),
        g.active_requests <= MAX_CONCURRENT_REQUESTS,
    ensures
        t.active_requests <= MAX_CONCURRENT_REQUESTS,
        r is Spawn <==> t.active_requests == g.active_requests + 1,
{
}

/// A process is started only for a POST to the gateway's path that is not refused, and that
/// holds more than notifications: notifications alone are accepted without one.
pub proof fn law_notifications_start_no_process(
    g: StatelessHttpGateway,
    req: RequestView,
    r: OutcomeView,
    t: StatelessHttpGateway,
)
    requires
        g.takes(req, r, t),
    ensures
        r matches OutcomeView::Spawn(ms, _) ==> {
            &&& req.method == "POST"@
            &&& req.path == g.mcp_path@
            &&& post_refusal(req, g.active_requests as nat) is None
            &&& !all_notifications(ms)
        },
{
}

/// A message that does not initialize is written to the child only behind a request to
/// initialize and the notification that it is done; the answer to that request is not given
/// to the client.
pub proof fn law_child_is_initialized_first(
    ms: Seq<MessageView>,
    version: Seq<char>,
    id: Seq<char>,
    now: u64,
    later_on: u64,
    answer: MessageView,
)
    requires
        !has_initialize(ms),
        answer_place(seq![answer], id, 0) == 0,
    ensures
        ({
            let (a, first) = opened(ms, version, id);
            let (b, second) = after_write(a, Ok(()), now);
            let (c, third) = after_read(b, ReadView::Messages(seq![answer]), later_on, false);
            &&& first == StepView::Write(seq![fallback_init(id, version)])
            &&& second is Read
            &&& third == StepView::Write(seq![initialized_notification()] + ms)
            &&& c.buffered.len() == 0
            &&& c.collected.len() == 0
        }),
{
    let (a, first) = opened(ms, version, id);
    let (b, second) = after_write(a, Ok(()), now);
    assert(seq![answer].take(0) =~= Seq::<MessageView>::empty());
}

/// What the child said before it was initialized comes ahead of its answers.
pub proof fn law_early_messages_come_first(c: TalkView, ms: Seq<MessageView>, now: u64, dead: bool)
    requires
        c.stage == Stage::Collect,
        c.collected.len() == 0,
        ms.len() > 0,
        response_count(ms) >= c.expected,
    ensures
        after_read(c, ReadView::Messages(ms), now, dead).1 == StepView::Done(
            sse_http(200, events_text(c.buffered) + events_text(ms)),
        ),
{
    assert(c.collected + ms =~= ms);
}

/// How many of the messages have an id, no method, and a result or an error.
proof fn lemma_responses_are_answers(ms: Seq<MessageView>)
    ensures
        response_count(ms) == ms.filter(
            |m: MessageView| m.id is Some && m.method is None && (m.result is Some || m.error is Some),
        ).len(),
    decreases ms.len(),
{
    reveal(Seq::filter);
    if ms.len() > 0 {
        lemma_responses_are_answers(ms.drop_last());
    }
}

/// While answers are awaited, everything that the child says is collected, in its order.
/// Before the deadline the child is read again as long as fewer answers came than requests
/// were posted, where an answer has an id, no method, and a result or an error; when as many
/// came, or the deadline passed, the request is answered by the events of all that was said.
pub proof fn law_every_request_is_waited_for(
    c: TalkView,
    ms: Seq<MessageView>,
    now: u64,
    dead: bool,
)
    requires
        c.stage == Stage::Collect,
        c.collected.len() + ms.len() > 0,
    ensures
        ({
            let (d, step) = after_read(c, ReadView::Messages(ms), now, dead);
            let said = c.collected + ms;
            let answers = said.filter(
                |m: MessageView|
                    m.id is Some && m.method is None && (m.result is Some || m.error is Some),
            ).len();
            &&& d.collected == said
            &&& d.buffered == c.buffered
            &&& d.expected == c.expected
            &&& d.deadline == c.deadline
            &&& answers < c.expected && now < c.deadline ==> d.stage == Stage::Collect && step
                == StepView::Read((c.deadline - now) as u64)
            &&& answers >= c.expected || now >= c.deadline ==> d.stage == Stage::Over
                && step is Done && step->Done_0.status == 200 && step->Done_0.body == encode_utf8(
                events_text(c.buffered) + events_text(said),
            )
        }),
{
    lemma_responses_are_answers(c.collected + ms);
}

/// A notification or a request of the server never ends the conversation before the deadline,
/// where an answer is still missing.
pub proof fn law_notification_is_no_answer(c: TalkView, msg: MessageView, now: u64, dead: bool)
    requires
        c.stage == Stage::Collect,
        msg.id is None || msg.method is Some || (msg.result is None && msg.error is None),
        c.collected.filter(
            |m: MessageView| m.id is Some && m.method is None && (m.result is Some || m.error is Some),
        ).len() < c.expected,
        now < c.deadline,
    ensures
        after_read(c, ReadView::Messages(seq![msg]), now, dead).1 is Read,
        after_read(c, ReadView::Messages(seq![msg]), now, dead).0.stage == Stage::Collect,
{
    let said = c.collected + seq![msg];
    law_every_request_is_waited_for(c, seq![msg], now, dead);
    lemma_responses_are_answers(said);
    lemma_responses_are_answers(c.collected);
    assert(said.drop_last() =~= c.collected);
    assert(said.last() == msg);
}

/// The events of messages are the events of each, one after the other; an event holds the
/// text of its message.
pub proof fn law_events_hold_the_messages(
    a: Seq<MessageView>,
    b: Seq<MessageView>,
    msg: MessageView,
)
    ensures
        events_text(Seq::<MessageView>::empty()).len() == 0,
        events_text(seq![msg]) == "event: message\ndata: "@ + message_text(msg) + "\n\n"@,
        events_text(a + b) == events_text(a) + events_text(b),
    decreases b.len(),
{
    assert(seq![msg].drop_last() =~= Seq::<MessageView>::empty());
    assert(events_text(seq![msg].drop_last()) =~= Seq::<char>::empty());
    assert(events_text(seq![msg]) =~= event_text(msg));
    if b.len() > 0 {
        law_events_hold_the_messages(a, b.drop_last(), msg);
        assert((a + b).drop_last() =~= a + b.drop_last());
        assert((a + b).last() == b.last());
        assert(events_text(a) + (events_text(b.drop_last()) + event_text(b.last())) =~= (
        events_text(a) + events_text(b.drop_last())) + event_text(b.last()));
    } else {
        assert(a + b =~= a);
        assert(events_text(a) + events_text(b) =~= events_text(a));
    }
}

/// Where nothing more comes from the child, the request is answered by the events of what it
/// said; where it said nothing, by an error, which tells a dead child from one that took too
/// long.
pub proof fn law_what_was_said_is_given(c: TalkView, e: ReadView, now: u64, dead: bool)
    requires
        c.stage == Stage::Collect,
        !(e is Messages),
    ensures
        ({
            let (d, step) = after_read(c, e, now, dead);
            &&& step is Done
            &&& d.stage == Stage::Over
            &&& c.collected.len() > 0 ==> step->Done_0.status == 200 && step->Done_0.body
                == encode_utf8(events_text(c.buffered) + events_text(c.collected))
            &&& c.collected.len() == 0 && dead ==> step->Done_0.status == 502
            &&& c.collected.len() == 0 && !dead ==> step->Done_0.status == 500
        }),
{
}

/// As many answers are awaited as requests were posted. Messages of which one asks to
/// initialize are written as they are; else the gateway asks first, and keeps them.
pub proof fn law_conversation_begins(ms: Seq<MessageView>, version: Seq<char>, id: Seq<char>)
    ensures
        ({
            let (c, step) = opened(ms, version, id);
            let asks = exists|i: int|
                0 <= i < ms.len() && (#[trigger] ms[i]).id is Some && ms[i].method == Some(
                    "initialize"@,
                );
            &&& c.expected == ms.filter(|m: MessageView| m.id is Some && m.method is Some).len()
            &&& c.buffered.len() == 0
            &&& c.collected.len() == 0
            &&& asks ==> step == StepView::Write(ms) && c.stage == Stage::WriteMessages
            &&& !asks ==> c.messages == ms && c.stage == Stage::WriteInit && step is Write
                && step->Write_0.len() == 1 && step->Write_0[0].id == Some(
                seq!['"'] + id + seq!['"'],
            )
                && step->Write_0[0].method == Some("initialize"@)
        }),
{
    law_requests_are_those_with_id_and_method(ms);
    if has_initialize(ms) {
        let i = choose|i: int| 0 <= i < ms.len() && (#[trigger] ms[i]).is_initialize_request();
        assert(ms[i].id is Some && ms[i].method == Some("initialize"@));
    }
}

/// What was written is followed by a wait: for the child to initialize, or for its answers.
/// Nothing is awaited where no request was posted, and a write that failed ends it all.
pub proof fn law_write_is_followed_by_a_wait(
    c: TalkView,
    written: Result<(), ChildError>,
    now: u64,
)
    requires
        now <= u64::MAX - 60_000,
    ensures
        ({
            let (d, step) = after_write(c, written, now);
            let init = c.stage == Stage::WriteInit;
            &&& written is Err ==> step is Done && step->Done_0.status == 502 && d.stage
                == Stage::Over
            &&& written is Ok && init ==> step == StepView::Read(5_000) && d == (TalkView {
                stage: Stage::AwaitInit,
                deadline: (now + 5_000) as u64,
                ..c
            })
            &&& written is Ok && !init && c.expected == 0 ==> step is Done && step->Done_0.status
                == 202 && step->Done_0.body.len() == 0
            &&& written is Ok && !init && c.expected > 0 ==> step == StepView::Read(60_000) && d
                == (TalkView { stage: Stage::Collect, deadline: (now + 60_000) as u64, ..c })
        }),
{
}

/// A child that is to initialize is read until it answers the request to do so. What it says
/// before that is kept. Once it has answered, it is told that it is initialized, and then
/// gets the posted messages, all of them and as they were posted.
pub proof fn law_initialization_is_waited_for(c: TalkView, ms: Seq<MessageView>, now: u64)
    requires
        c.stage == Stage::AwaitInit,
    ensures
        ({
            let (d, step) = after_read(c, ReadView::Messages(ms), now, false);
            let comes = exists|i: int|
                0 <= i < ms.len() && (#[trigger] ms[i]).id is Some && ms[i].method is None && (
                ms[i].result is Some || ms[i].error is Some) && unquoted(ms[i].id->Some_0)
                    == c.init_id;
            &&& d.expected == c.expected
            &&& d.collected == c.collected
            &&& d.buffered.take(c.buffered.len() as int) == c.buffered
            &&& comes ==> step is Write && step->Write_0.len() == c.messages.len() + 1
                && step->Write_0[0].method == Some("notifications/initialized"@)
                && step->Write_0[0].id is None && step->Write_0.skip(1) == c.messages
                && d.stage == Stage::WriteMessages
            &&& !comes ==> d.buffered == c.buffered + ms
            &&& !comes && now < c.deadline ==> step == StepView::Read((c.deadline - now) as u64)
                && d.stage == Stage::AwaitInit && d.messages == c.messages
            &&& !comes && now >= c.deadline ==> step is Done && step->Done_0.status == 502
        }),
{
    let (d, step) = after_read(c, ReadView::Messages(ms), now, false);
    let at = answer_place(ms, c.init_id, 0);
    lemma_answer_place(ms, c.init_id, 0);
    assert(d.buffered.take(c.buffered.len() as int) =~= c.buffered);
    if at < ms.len() {
        assert(ms[at].id is Some);
        assert(step->Write_0.skip(1) =~= c.messages);
    } else {
        assert(ms.take(at) =~= ms);
        assert forall|i: int| 0 <= i < ms.len() implies !((#[trigger] ms[i]).id is Some
            && ms[i].method is None && (ms[i].result is Some || ms[i].error is Some) && unquoted(
            ms[i].id->Some_0,
        ) == c.init_id) by {
            assert(!answers(ms[i], c.init_id));
        }
    }
}

/// A child that does not initialize is given up, with an error.
pub proof fn law_silent_child_is_given_up(c: TalkView, e: ReadView, now: u64, dead: bool)
    requires
        c.stage == Stage::AwaitInit,
        !(e is Messages),
    ensures
        after_read(c, e, now, dead).1 is Done,
        after_read(c, e, now, dead).1->Done_0.status == 502,
        after_read(c, e, now, dead).0.stage == Stage::Over,
{
}

/// A posted message is taken exactly where there is room for one more, it says that it is
/// JSON, the client accepts JSON or events, the body is not too long, and it is JSON-RPC in
/// UTF-8. Else the status says what is wrong.
pub proof fn law_post_is_refused_with_cause(req: RequestView, active: nat)
    ensures
        ({
            let r = post_refusal(req, active);
            let kind = req.header_or_empty("content-type"@);
            let accept = req.header_or_empty("accept"@);
            let room = active < 1024;
            let json = has_part(kind, "application/json"@);
            let welcome = has_part(accept, "application/json"@) || has_part(
                accept,
                "text/event-stream"@,
            ) || has_part(accept, "*/*"@) || accept == "*"@;
            let short = req.body.len() <= 16_777_216;
            let readable = valid_utf8(req.body) && line_error(decode_utf8(req.body)) is None;
            &&& r is None <==> room && json && welcome && short && readable
            &&& !room ==> r->Some_0.status == 503
            &&& room && !json ==> r->Some_0.status == 415
            &&& room && json && !welcome ==> r->Some_0.status == 406
            &&& room && json && welcome && !short ==> r->Some_0.status == 413
            &&& room && json && welcome && short && !readable ==> r->Some_0.status == 400
        }),
{
}

/// A POST to the gateway's path that is not refused is answered at once where it holds
/// nothing but notifications, and else goes to a child with all its messages. Requests to the
/// gateway's path are counted.
pub proof fn law_posted_messages_go_to_a_child(
    g: StatelessHttpGateway,
    req: RequestView,
    r: OutcomeView,
    t: StatelessHttpGateway,
)
    requires
        g.takes(req, r, t),
        req.method == "POST"@,
        req.path == g.mcp_path@,
        !texts_view(g.setup.health_endpoints@).contains(req.path),
        !(cors_result(
            g.setup.cors.config@,
            g.setup.cors.expose_session_header,
            req.method,
            req.header("origin"@),
        ) is Preflight),
    ensures
        g.metrics.total_requests < u64::MAX ==> t.metrics == (Metrics {
            total_requests: (g.metrics.total_requests + 1) as u64,
            ..g.metrics
        }),
        post_refusal(req, g.active_requests as nat) is Some ==> r is Respond && r->Respond_0.status
            == post_refusal(req, g.active_requests as nat)->Some_0.status,
        post_refusal(req, g.active_requests as nat) is None ==> exists|p: ParsedView| #[trigger]
            line_is(decode_utf8(req.body), p) && {
                let ms = messages_of(p);
                let quiet = forall|i: int|
                    0 <= i < ms.len() ==> (#[trigger] ms[i]).id is None && ms[i].method is Some;
                &&& quiet ==> r is Respond && r->Respond_0.status == 202
                    && r->Respond_0.body.len() == 0
                &&& !quiet ==> r is Spawn && r->Spawn_0 == ms
            },
{
    if post_refusal(req, g.active_requests as nat) is None {
        let cors = g.cors_of(req);
        let p = choose|p: ParsedView| #[trigger]
            line_is(decode_utf8(req.body), p) && if all_notifications(messages_of(p)) {
                r == OutcomeView::Respond(with_headers(bare_http(202), cors))
                    && t.active_requests == g.active_requests
            } else {
                r == OutcomeView::Spawn(messages_of(p), cors) && t.active_requests
                    == g.active_requests + 1
            };
        assert(line_is(decode_utf8(req.body), p));
        let ms = messages_of(p);
        let quiet = forall|i: int|
            0 <= i < ms.len() ==> (#[trigger] ms[i]).id is None && ms[i].method is Some;
        if all_notifications(ms) {
            assert forall|i: int| 0 <= i < ms.len() implies (#[trigger] ms[i]).id is None
                && ms[i].method is Some by {
                assert(ms[i].is_notification());
            }
        }
        assert(quiet <==> all_notifications(ms));
    }
}

/// Whatever is no POST to the gateway's path is answered at once, and no child is started.
pub proof fn law_only_posts_start_a_child(
    g: StatelessHttpGateway,
    req: RequestView,
    r: OutcomeView,
    t: StatelessHttpGateway,
)
    requires
        g.takes(req, r, t),
        !(cors_result(
            g.setup.cors.config@,
            g.setup.cors.expose_session_header,
            req.method,
            req.header("origin"@),
        ) is Preflight),
    ensures
        ({
            let health = texts_view(g.setup.health_endpoints@).contains(req.path);
            let here = req.path == g.mcp_path@;
            &&& health || !here ==> t.metrics == g.metrics
            &&& health || !here || req.method != "POST"@ ==> r is Respond && t.active_requests
                == g.active_requests
            &&& !health && !here ==> r->Respond_0.status == 404
            &&& !health && here && req.method != "POST"@ ==> r->Respond_0.status == 405
        }),
{
}

/// A header that a request names once has its value, and one that it names again has the
/// last of its values.
pub proof fn law_last_value_of_a_header_counts(headers: Pairs, i: int)
    requires
        0 <= i < headers.len(),
        forall|j: int| i < j < headers.len() ==> (#[trigger] headers[j]).0 != headers[i].0,
    ensures
        first_value(last_values(headers), headers[i].0) == Some(headers[i].1),
    decreases headers.len(),
{
    let rest = headers.drop_last();
    let (name, value) = headers.last();
    if i < headers.len() - 1 {
        assert forall|j: int| i < j < rest.len() implies (#[trigger] rest[j]).0 != rest[i].0 by {
            assert(rest[j] == headers[j]);
        }
        law_last_value_of_a_header_counts(rest, i);
        assert(headers[headers.len() - 1].0 != headers[i].0);
    }
    law_value_is_found_again(last_values(rest), name, value, headers[i].0);
}

/// A request that is answered makes room for another; its answer stays as it is and gets the
/// headers for the origin that asked behind its own.
pub proof fn law_completed_request_makes_room(active: nat, cors: Pairs, resp: HttpReply)
    ensures
        ({
            let (left, answer) = request_completed(active, cors, resp);
            &&& active > 0 ==> left == active - 1
            &&& active == 0 ==> left == 0
            &&& answer.status == resp.status
            &&& answer.body == resp.body
            &&& answer.headers == resp.headers + cors
        }),
{
}

} // verus!
