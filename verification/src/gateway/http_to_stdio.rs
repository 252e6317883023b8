//! From a remote server over streamable HTTP to stdio: what comes in on stdin is posted to
//! the server, and what it answers goes to stdout. The first message has to be a request to
//! initialize; where it is not, the gateway makes one.

use vstd::prelude::*;
use vstd::string::*;
use vstd::utf8::{decode_utf8, valid_utf8};

use crate::cli::{headers_view, Header, LogLevel};
use crate::client::http::{header_value, http_error_text, lemma_header_place_is, HttpClientError};
use crate::client::sse::{events_view, no_fields, parsed, EventView, SseParser};
use crate::cors::{lemma_without, mentions, remove_header, str_view, without};
use crate::gateway::sse::{into_messages, messages_of};
use crate::gateway::sse_to_stdio::{
    answer_place, answers, build_initialized_notification, build_plain_init, fallback_init, find_answer,
    generate_init_id, initialized_notification, intercept_protocol_version, intercepted, is_init_id,
    lemma_answer_place, take_answer, StdinAction, StdinView,
};
use crate::json::is_plain;
use crate::jsonrpc::{
    is_batch_line, line_error, line_is, messages_view, parse_error_text, parse_line, text_is,
    MessageView, Parsed, ParsedView, RawMessage,
};
use crate::observe::{Logger, LoggerView};
use crate::pairs::{first_value, push_pair, Pairs};
use crate::serve::HttpResponse;
use crate::text::{
    body_text, contains, has_part, lower_case, same, same_ignoring_case, trim, trim_quotes, trimmed,
    unquoted, utf8_error, utf8_problem,
};

verus! {

// ---- Answers ---------------------------------------------------------------------------------------

/// What kind of body an answer has.
#[derive(Debug, PartialEq, Eq)]
pub enum ResponseType {
    /// One JSON text.
    Json,
    /// Events.
    Sse,
    /// Something else, or unknown.
    Unknown(String),
}

#[verifier::ext_equal]
pub enum TypeView {
    Json,
    Sse,
    Unknown(Seq<char>),
}

impl View for ResponseType {
    type V = TypeView;

    open spec fn view(&self) -> TypeView {
        match self {
            ResponseType::Json => TypeView::Json,
            ResponseType::Sse => TypeView::Sse,
            ResponseType::Unknown(s) => TypeView::Unknown(s@),
        }
    }
}

pub open spec fn type_of(content_type: Option<Seq<char>>) -> TypeView {
    match content_type {
        Some(ct) => if has_part(ct, "application/json"@) {
            TypeView::Json
        } else if has_part(ct, "text/event-stream"@) {
            TypeView::Sse
        } else {
            TypeView::Unknown(ct)
        },
        None => TypeView::Unknown(seq![]),
    }
}

/// Tells what kind of body an answer has.
pub fn classify_content_type(content_type: Option<&str>) -> (r: ResponseType)
    ensures
        r@ == type_of(str_view(content_type)),
{
    match content_type {
        Some(ct) => if contains(ct, "application/json") {
            ResponseType::Json
        } else if contains(ct, "text/event-stream") {
            ResponseType::Sse
        } else {
            ResponseType::Unknown(ct.to_owned())
        },
        None => ResponseType::Unknown(String::new()),
    }
}

/// Whether `ms` are the messages of a text. A text that is none has none.
pub open spec fn text_reads(text: Seq<char>, ms: Seq<MessageView>) -> bool {
    if line_error(text) is Some {
        ms.len() == 0
    } else {
        exists|p: ParsedView| #[trigger] line_is(text, p) && ms == messages_of(p)
    }
}

/// Whether `ms` are the messages of a JSON body.
pub open spec fn json_reads(body: Seq<u8>, ms: Seq<MessageView>) -> bool {
    if valid_utf8(body) {
        text_reads(decode_utf8(body), ms)
    } else {
        ms.len() == 0
    }
}

/// Whether `ms` are the messages of an event.
pub open spec fn event_reads(kind: Seq<char>, data: Seq<char>, ms: Seq<MessageView>) -> bool {
    if kind == "message"@ {
        text_reads(data, ms)
    } else {
        ms.len() == 0
    }
}

/// Whether `ms` are the messages of events, one after the other.
pub open spec fn events_read(es: Seq<EventView>, ms: Seq<MessageView>) -> bool
    decreases es.len(),
{
    if es.len() == 0 {
        ms.len() == 0
    } else {
        exists|n: int|
            0 <= n <= ms.len() && events_read(es.drop_last(), #[trigger] ms.take(n)) && event_reads(
                es.last().event_type,
                es.last().data,
                ms.skip(n),
            )
    }
}

/// The log after a text that was to hold messages: an error line where it is none.
pub open spec fn text_log(log: LoggerView, origin: Seq<char>, text: Seq<char>) -> LoggerView {
    match line_error(text) {
        Some(e) => log.error(origin + ": JSON-RPC parse error: "@ + parse_error_text(e)),
        None => log,
    }
}

/// The log after a JSON body.
pub open spec fn json_log(log: LoggerView, body: Seq<u8>) -> LoggerView {
    if valid_utf8(body) {
        text_log(log, "HTTP response"@, decode_utf8(body))
    } else {
        log.error("HTTP response: invalid UTF-8: "@ + utf8_problem(body))
    }
}

/// The log after an event.
pub open spec fn event_log(log: LoggerView, kind: Seq<char>, data: Seq<char>) -> LoggerView {
    if kind == "message"@ {
        text_log(log, "HTTP SSE"@, data)
    } else {
        log.debug("HTTP SSE: ignoring event type '"@ + kind + "'"@)
    }
}

/// The log after events, one after the other.
pub open spec fn events_log(log: LoggerView, es: Seq<EventView>) -> LoggerView
    decreases es.len(),
{
    if es.len() == 0 {
        log
    } else {
        event_log(events_log(log, es.drop_last()), es.last().event_type, es.last().data)
    }
}

/// What an answer holds besides its head.
#[verifier::ext_equal]
pub struct AnswerView {
    pub status: u16,
    pub headers: Pairs,
    pub body: Seq<u8>,
}

pub open spec fn answer_view(r: HttpResponse) -> AnswerView {
    AnswerView { status: r.status, headers: r.headers.deep_view(), body: r.body@ }
}

impl AnswerView {
    pub open spec fn header(self, name: Seq<char>) -> Option<Seq<char>> {
        first_value(self.headers, name)
    }

    pub open spec fn content(self) -> TypeView {
        type_of(
            Some(
                match self.header("content-type"@) {
                    Some(ct) => ct,
                    None => ""@,
                },
            ),
        )
    }

    /// Whether `ms` are the messages of the answer. A body of unknown kind is taken for JSON,
    /// unless the answer has none to give or answers what the gateway sent of its own.
    pub open spec fn reads(self, follow_up: bool, ms: Seq<MessageView>) -> bool {
        match self.content() {
            TypeView::Json => json_reads(self.body, ms),
            TypeView::Sse => if valid_utf8(self.body) {
                events_read(parsed(no_fields(), decode_utf8(self.body)).2, ms)
            } else {
                ms.len() == 0
            },
            TypeView::Unknown(_) => if follow_up || self.status == 202 || self.status == 204 {
                ms.len() == 0
            } else {
                json_reads(self.body, ms)
            },
        }
    }

    /// The log after the answer was read.
    pub open spec fn log(self, follow_up: bool, log: LoggerView) -> LoggerView {
        match self.content() {
            TypeView::Json => json_log(log, self.body),
            TypeView::Sse => if valid_utf8(self.body) {
                events_log(log, parsed(no_fields(), decode_utf8(self.body)).2)
            } else {
                log
            },
            TypeView::Unknown(_) => if follow_up || self.status == 202 || self.status == 204 {
                log
            } else {
                json_log(log, self.body)
            },
        }
    }
}

fn no_messages() -> (r: Vec<RawMessage>)
    ensures
        messages_view(r@) == Seq::<MessageView>::empty(),
{
    let none: Vec<RawMessage> = Vec::new();
    assert(messages_view(none@) =~= Seq::<MessageView>::empty());
    none
}

fn read_text(origin: &str, text: &str, logger: &mut Logger) -> (r: Vec<RawMessage>)
    ensures
        text_reads(text@, messages_view(r@)),
        final(logger)@ == text_log(old(logger)@, origin@, text@),
{
    match parse_line(text) {
        Ok(p) => {
            let ghost v = p@;
            let ms = into_messages(p);
            assert(line_is(text@, v));
            ms
        },
        Err(e) => {
            let line = origin.to_owned().concat(": JSON-RPC parse error: ").concat(
                e.message().as_str(),
            );
            logger.error(line.as_str());
            no_messages()
        },
    }
}

// ---- The gateway -----------------------------------------------------------------------------------

/// How far initialization has come.
#[derive(Debug)]
pub enum InitPhase {
    /// Nothing was sent yet.
    Pending,
    /// The gateway has sent a request of its own, under this id.
    WaitingSyntheticInit(String),
    /// The client's request was passed on, under this id.
    WaitingPassthroughInit(String),
    /// It is done.
    Ready,
}

#[verifier::ext_equal]
pub enum PhaseView {
    Pending,
    WaitingSyntheticInit(Seq<char>),
    WaitingPassthroughInit(Seq<char>),
    Ready,
}

impl View for InitPhase {
    type V = PhaseView;

    open spec fn view(&self) -> PhaseView {
        match self {
            InitPhase::Pending => PhaseView::Pending,
            InitPhase::WaitingSyntheticInit(id) => PhaseView::WaitingSyntheticInit(id@),
            InitPhase::WaitingPassthroughInit(id) => PhaseView::WaitingPassthroughInit(id@),
            InitPhase::Ready => PhaseView::Ready,
        }
    }
}

/// What is done with an answer of the server.
pub struct ResponseResult {
    /// What goes to stdout.
    pub stdout: Vec<RawMessage>,
    /// What is posted to the server.
    pub post: Vec<RawMessage>,
}

/// The gateway.
pub struct HttpToStdioGateway {
    pub url: String,
    pub protocol_version: String,
    pub headers: Vec<Header>,
    pub phase: InitPhase,
    pub pending: Vec<RawMessage>,
    pub session: Option<String>,
}

/// What changes as messages come and go.
#[verifier::ext_equal]
pub struct ClientState {
    pub phase: PhaseView,
    /// What waits until initialization is done.
    pub pending: Seq<MessageView>,
    /// The session that the server has named.
    pub session: Option<Seq<char>>,
}

pub open spec fn session_view(s: Option<String>) -> Option<Seq<char>> {
    match s {
        Some(id) => Some(id@),
        None => None,
    }
}

/// After messages of the server: the state, what goes to stdout, and what is posted. With
/// the answer to the request to initialize, what waited is posted; where the gateway made
/// the request, its answer is kept from the client.
pub open spec fn messages_received(s: ClientState, ms: Seq<MessageView>) -> (
    ClientState,
    Seq<MessageView>,
    Seq<MessageView>,
) {
    let done = ClientState { phase: PhaseView::Ready, pending: seq![], ..s };
    match s.phase {
        PhaseView::WaitingSyntheticInit(id) => {
            let at = answer_place(ms, id, 0);
            if at < ms.len() {
                (done, ms.remove(at), seq![initialized_notification()] + s.pending)
            } else {
                (s, ms, seq![])
            }
        },
        PhaseView::WaitingPassthroughInit(id) => if answer_place(ms, id, 0) < ms.len() {
            (done, ms, s.pending)
        } else {
            (s, ms, seq![])
        },
        _ => (s, ms, seq![]),
    }
}

/// The log after an answer that led from state `s` to state `t`.
pub open spec fn response_log(
    answer: AnswerView,
    follow_up: bool,
    s: ClientState,
    t: ClientState,
    log: LoggerView,
) -> LoggerView {
    let read = answer.log(follow_up, log);
    if s.phase is WaitingSyntheticInit && t.phase is Ready {
        read.debug("HTTP: synthetic init response received"@)
    } else {
        read
    }
}

/// What is done with a message of the client, and the state after it. Where a request to
/// initialize has to be made, it gets the id.
pub open spec fn stdin_taken(
    s: ClientState,
    version: Seq<char>,
    msg: MessageView,
    id: Seq<char>,
) -> (ClientState, StdinView) {
    match s.phase {
        PhaseView::Pending => if msg.is_initialize_request() {
            (
                ClientState {
                    phase: PhaseView::WaitingPassthroughInit(unquoted(msg.id->Some_0)),
                    ..s
                },
                StdinView::Post(seq![intercepted(msg, version)]),
            )
        } else {
            (
                ClientState {
                    phase: PhaseView::WaitingSyntheticInit(id),
                    pending: s.pending.push(msg),
                    ..s
                },
                StdinView::PostInit(fallback_init(id, version)),
            )
        },
        PhaseView::Ready => (s, StdinView::Post(seq![msg])),
        _ => (ClientState { pending: s.pending.push(msg), ..s }, StdinView::Buffered),
    }
}

/// The headers of a request after an answer: with the session that it names, in place of any
/// other.
pub open spec fn with_session(headers: Pairs, session: Option<Seq<char>>) -> Pairs {
    match session {
        Some(id) => without(headers, "mcp-session-id"@).push(("Mcp-Session-Id"@, id)),
        None => headers,
    }
}

/// Whether a line of stdin is a message of its own.
pub open spec fn is_message_line(line: Seq<char>) -> bool {
    trimmed(line).len() > 0 && !is_batch_line(trimmed(line)) && line_error(trimmed(line)) is None
}

/// Reads a line of stdin; blank lines, batches and what is no message are skipped.
pub fn read_stdin_line(line: &str) -> (r: Option<RawMessage>)
    ensures
        match r {
            Some(m) => is_message_line(line@) && text_is(trimmed(line@), m@),
            None => !is_message_line(line@),
        },
{
    let text = trim(line);
    if text.as_str().is_empty() {
        return None;
    }
    match parse_line(text.as_str()) {
        Ok(Parsed::Single(m)) => Some(m),
        _ => None,
    }
}

/// What is done about an error of the transport.
#[derive(Clone, Copy, PartialEq, Eq, Structural, Debug)]
pub enum ErrorAction {
    /// The server has ended the connection: the gateway exits, so that it is started anew.
    Exit,
    /// The next message is tried as usual.
    Retry,
}

pub open spec fn error_action(e: HttpClientError) -> ErrorAction {
    match e {
        HttpClientError::Io(msg) => if has_part(msg@, "EOF"@) || has_part(
            msg@,
            "connection reset"@,
        ) {
            ErrorAction::Exit
        } else {
            ErrorAction::Retry
        },
        _ => ErrorAction::Retry,
    }
}

/// Logs an error of the transport and decides what is done about it.
pub fn handle_client_error(err: &HttpClientError, logger: &mut Logger) -> (r: ErrorAction)
    ensures
        r == error_action(*err),
        final(logger)@ == (if r == ErrorAction::Exit {
            old(logger)@.info("remote HTTP connection closed (B-004), exiting with code 1"@)
        } else {
            old(logger)@.error("HTTP transport error: "@ + http_error_text(*err))
        }),
{
    let exits = match err {
        HttpClientError::Io(msg) => contains(msg.as_str(), "EOF") || contains(
            msg.as_str(),
            "connection reset",
        ),
        _ => false,
    };
    if exits {
        logger.info("remote HTTP connection closed (B-004), exiting with code 1");
        ErrorAction::Exit
    } else {
        let words = err.to_string();
        let line = "HTTP transport error: ".to_owned().concat(words.as_str());
        logger.error(line.as_str());
        ErrorAction::Retry
    }
}

impl HttpToStdioGateway {
    pub open spec fn state(self) -> ClientState {
        ClientState {
            phase: self.phase@,
            pending: messages_view(self.pending@),
            session: session_view(self.session),
        }
    }

    /// Whether only the state differs.
    pub open spec fn same_setup(self, other: HttpToStdioGateway) -> bool {
        &&& self.url == other.url
        &&& self.protocol_version == other.protocol_version
        &&& self.headers == other.headers
    }

    pub fn new(url: String, protocol_version: String, headers: Vec<Header>) -> (r:
        HttpToStdioGateway)
        ensures
            r.url == url,
            r.protocol_version == protocol_version,
            r.headers == headers,
            r.state() == (ClientState {
                phase: PhaseView::Pending,
                pending: seq![],
                session: None,
            }),
    {
        let r = HttpToStdioGateway {
            url,
            protocol_version,
            headers,
            phase: InitPhase::Pending,
            pending: Vec::new(),
            session: None,
        };
        assert(r.state().pending =~= Seq::<MessageView>::empty());
        r
    }

    /// The address of the server.
    pub fn url(&self) -> (r: &str)
        ensures
            r@ == self.url@,
    {
        self.url.as_str()
    }

    /// Whether initialization is done.
    pub fn is_initialized(&self) -> (r: bool)
        ensures
            r == (self.state().phase == PhaseView::Ready),
    {
        match &self.phase {
            InitPhase::Ready => true,
            _ => false,
        }
    }

    /// Decides about a message of the client. A request to initialize that has to be made
    /// gets an id at random.
    pub fn handle_stdin_message(&mut self, msg: RawMessage) -> (r: StdinAction)
        ensures
            final(self).same_setup(*old(self)),
            exists|id: Seq<char>|
                is_init_id(id) && (final(self).state(), r@) == #[trigger] stdin_taken(
                    old(self).state(),
                    old(self).protocol_version@,
                    msg@,
                    id,
                ),
    {
        let id = generate_init_id();
        self.handle_stdin_as(msg, id)
    }

    /// Decides about a message of the client. A request to initialize that has to be made
    /// gets the id.
    pub fn handle_stdin_as(&mut self, msg: RawMessage, id: String) -> (r: StdinAction)
        requires
            is_plain(id@),
        ensures
            final(self).same_setup(*old(self)),
            (final(self).state(), r@) == stdin_taken(
                old(self).state(),
                old(self).protocol_version@,
                msg@,
                id@,
            ),
    {
        let ghost s = self.state();
        let ghost v = msg@;
        match &self.phase {
            InitPhase::Pending => if msg.is_initialize_request() {
                let init_id = match &msg.id {
                    Some(raw) => trim_quotes(raw.get()),
                    None => String::new(),
                };
                let out = intercept_protocol_version(msg, self.protocol_version.as_str());
                self.phase = InitPhase::WaitingPassthroughInit(init_id);
                let mut list: Vec<RawMessage> = Vec::new();
                list.push(out);
                assert(messages_view(list@) =~= seq![out@]);
                StdinAction::Post(list)
            } else {
                let init = build_plain_init(id.as_str(), self.protocol_version.as_str());
                self.phase = InitPhase::WaitingSyntheticInit(id);
                self.pending.push(msg);
                assert(self.state().pending =~= s.pending.push(v));
                StdinAction::PostInit(init)
            },
            InitPhase::Ready => {
                let mut list: Vec<RawMessage> = Vec::new();
                list.push(msg);
                assert(messages_view(list@) =~= seq![v]);
                StdinAction::Post(list)
            },
            _ => {
                self.pending.push(msg);
                assert(self.state().pending =~= s.pending.push(v));
                StdinAction::Buffered
            },
        }
    }

    /// Decides about messages of the server.
    pub fn handle_response_messages(&mut self, messages: Vec<RawMessage>) -> (r: ResponseResult)
        ensures
            final(self).same_setup(*old(self)),
            (final(self).state(), messages_view(r.stdout@), messages_view(r.post@))
                == messages_received(old(self).state(), messages_view(messages@)),
    {
        match &self.phase {
            InitPhase::WaitingSyntheticInit(id) => {
                let mut stdout = messages;
                if take_answer(&mut stdout, id.as_str()) {
                    self.phase = InitPhase::Ready;
                    let mut post: Vec<RawMessage> = Vec::new();
                    post.push(build_initialized_notification());
                    let ghost first = post@;
                    let mut waiting: Vec<RawMessage> = Vec::new();
                    std::mem::swap(&mut waiting, &mut self.pending);
                    let ghost kept = waiting@;
                    post.append(&mut waiting);
                    assert(messages_view(first) =~= seq![initialized_notification()]);
                    assert(messages_view(post@) =~= messages_view(first) + messages_view(kept));
                    assert(self.state().pending =~= Seq::<MessageView>::empty());
                    ResponseResult { stdout, post }
                } else {
                    ResponseResult { stdout, post: no_messages() }
                }
            },
            InitPhase::WaitingPassthroughInit(id) => {
                if find_answer(&messages, id.as_str()) < messages.len() {
                    self.phase = InitPhase::Ready;
                    let mut post: Vec<RawMessage> = Vec::new();
                    std::mem::swap(&mut post, &mut self.pending);
                    assert(self.state().pending =~= Seq::<MessageView>::empty());
                    ResponseResult { stdout: messages, post }
                } else {
                    ResponseResult { stdout: messages, post: no_messages() }
                }
            },
            _ => ResponseResult { stdout: messages, post: no_messages() },
        }
    }

    /// Reads the messages of a JSON body. One that cannot be read is logged.
    pub fn parse_json_response(&self, body: &[u8], logger: &mut Logger) -> (r: Vec<RawMessage>)
        ensures
            json_reads(body@, messages_view(r@)),
            final(logger)@ == json_log(old(logger)@, body@),
    {
        match body_text(body) {
            Some(text) => read_text("HTTP response", text.as_str(), logger),
            None => {
                if let Some(e) = utf8_error(body) {
                    let line = "HTTP response: invalid UTF-8: ".to_owned().concat(e.as_str());
                    logger.error(line.as_str());
                }
                no_messages()
            },
        }
    }

    /// Reads the messages of an event. One that cannot be read is logged.
    pub fn parse_sse_event_data(&self, event_type: &str, data: &str, logger: &mut Logger) -> (r:
        Vec<RawMessage>)
        ensures
            event_reads(event_type@, data@, messages_view(r@)),
            final(logger)@ == event_log(old(logger)@, event_type@, data@),
    {
        if same(event_type, "message") {
            read_text("HTTP SSE", data, logger)
        } else {
            let line = "HTTP SSE: ignoring event type '".to_owned().concat(event_type).concat("'");
            logger.debug(line.as_str());
            no_messages()
        }
    }

    /// Reads the messages of an answer. What cannot be read is logged.
    pub fn read_response(&self, resp: &HttpResponse, follow_up: bool, logger: &mut Logger) -> (r:
        Vec<RawMessage>)
        ensures
            answer_view(*resp).reads(follow_up, messages_view(r@)),
            final(logger)@ == answer_view(*resp).log(follow_up, old(logger)@),
    {
        let ct: &str = match resp.header("content-type") {
            Some(v) => v,
            None => "",
        };
        match classify_content_type(Some(ct)) {
            ResponseType::Json => self.parse_json_response(resp.body.as_slice(), logger),
            ResponseType::Sse => match body_text(resp.body.as_slice()) {
                Some(text) => self.read_events(text.as_str(), logger),
                None => no_messages(),
            },
            ResponseType::Unknown(_) => if follow_up || resp.status == 202 || resp.status == 204 {
                no_messages()
            } else {
                self.parse_json_response(resp.body.as_slice(), logger)
            },
        }
    }

    fn read_events(&self, text: &str, logger: &mut Logger) -> (r: Vec<RawMessage>)
        ensures
            events_read(parsed(no_fields(), text@).2, messages_view(r@)),
            final(logger)@ == events_log(old(logger)@, parsed(no_fields(), text@).2),
    {
        let mut parser = SseParser::new();
        let events = parser.feed(text);
        let ghost all = events_view(events@);
        let ghost log = logger@;
        proof {
            assert(Seq::<char>::empty() + text@ =~= text@);
        }
        let mut out: Vec<RawMessage> = Vec::new();
        let mut i: usize = 0;
        assert(all.take(0) =~= Seq::<EventView>::empty());
        while i < events.len()
            invariant
                i <= events.len(),
                all == events_view(events@),
                events_read(all.take(i as int), messages_view(out@)),
                logger@ == events_log(log, all.take(i as int)),
            decreases events.len() - i,
        {
            let ghost before = out@;
            let mut more = self.parse_sse_event_data(
                events[i].event_type.as_str(),
                events[i].data.as_str(),
                logger,
            );
            let ghost added = more@;
            out.append(&mut more);
            proof {
                let ms = messages_view(out@);
                let n = before.len() as int;
                assert(ms.take(n) =~= messages_view(before));
                assert(ms.skip(n) =~= messages_view(added));
                let es = all.take(i + 1);
                assert(es.drop_last() =~= all.take(i as int));
                assert(es.last() == events[i as int]@);
                assert(event_reads(es.last().event_type, es.last().data, ms.skip(n)));
                assert(events_read(es.drop_last(), ms.take(n)));
                assert(events_read(es, ms));
            }
            i += 1;
        }
        assert(all.take(i as int) =~= all);
        out
    }

    /// The headers of a request.
    pub fn request_headers(&self) -> (r: Vec<(String, String)>)
        ensures
            r.deep_view() == headers_with(headers_view(self.headers@), self.state().session),
    {
        let mut out: Vec<(String, String)> = Vec::new();
        let mut i: usize = 0;
        while i < self.headers.len()
            invariant
                i <= self.headers.len(),
                out.deep_view() == headers_view(self.headers@).take(i as int),
            decreases self.headers.len() - i,
        {
            push_pair(&mut out, self.headers[i].name.as_str(), self.headers[i].value.clone());
            assert(out.deep_view() =~= headers_view(self.headers@).take(i + 1));
            i += 1;
        }
        assert(out.deep_view() =~= headers_view(self.headers@));
        if let Some(id) = &self.session {
            push_pair(&mut out, "Mcp-Session-Id", id.clone());
        }
        assert(out.deep_view() =~= headers_with(
            headers_view(self.headers@),
            self.state().session,
        ));
        out
    }

    /// Keeps the session that an answer names, and puts it into the headers of the requests
    /// that follow.
    pub fn note_session(&mut self, headers: &mut Vec<(String, String)>, resp: &HttpResponse)
        ensures
            final(self).same_setup(*old(self)),
            ({
                let named = answer_view(*resp).header("mcp-session-id"@);
                &&& final(headers).deep_view() == with_session(old(headers).deep_view(), named)
                &&& final(self).state() == (ClientState {
                    session: if named is Some {
                        named
                    } else {
                        old(self).state().session
                    },
                    ..old(self).state()
                })
            }),
    {
        if let Some(id) = resp.header("mcp-session-id") {
            self.session = Some(id.to_owned());
            let mut kept = remove_header(headers, "mcp-session-id");
            push_pair(&mut kept, "Mcp-Session-Id", id.to_owned());
            *headers = kept;
        }
    }

    /// Decides about an answer of the server. What cannot be read is logged, and the end of
    /// an initialization that the gateway began.
    pub fn handle_response(&mut self, resp: &HttpResponse, follow_up: bool, logger: &mut Logger) -> (r:
        ResponseResult)
        ensures
            final(self).same_setup(*old(self)),
            final(logger)@ == response_log(
                answer_view(*resp),
                follow_up,
                old(self).state(),
                final(self).state(),
                old(logger)@,
            ),
            exists|ms: Seq<MessageView>| #[trigger]
                answer_view(*resp).reads(follow_up, ms) && (
                    final(self).state(),
                    messages_view(r.stdout@),
                    messages_view(r.post@),
                ) == messages_received(old(self).state(), ms),
    {
        let ms = self.read_response(resp, follow_up, logger);
        let ghost v = messages_view(ms@);
        assert(answer_view(*resp).reads(follow_up, v));
        let began = match &self.phase {
            InitPhase::WaitingSyntheticInit(_) => true,
            _ => false,
        };
        let r = self.handle_response_messages(ms);
        if began && self.is_initialized() {
            logger.debug("HTTP: synthetic init response received");
        }
        r
    }
}

// ---- Delivery ----------------------------------------------------------------------------------------

/// Messages on their way to the server.
pub struct Delivery {
    posts: Vec<RawMessage>,
    follow_ups: Vec<RawMessage>,
    headers: Vec<(String, String)>,
}

#[verifier::ext_equal]
pub struct DeliveryView {
    /// What is still to be posted.
    pub posts: Seq<MessageView>,
    /// What the last answer has brought up. It goes first.
    pub follow_ups: Seq<MessageView>,
    /// The headers of the requests.
    pub headers: Pairs,
}

impl View for Delivery {
    type V = DeliveryView;

    closed spec fn view(&self) -> DeliveryView {
        DeliveryView {
            posts: messages_view(self.posts@),
            follow_ups: messages_view(self.follow_ups@),
            headers: self.headers.deep_view(),
        }
    }
}

/// What is posted for a message of the client.
pub open spec fn posts_of(action: StdinView) -> Seq<MessageView> {
    match action {
        StdinView::Post(ms) => ms,
        StdinView::PostInit(m) => seq![m],
        StdinView::Buffered => seq![],
    }
}

/// The headers of a request while the session is known.
pub open spec fn headers_with(headers: Pairs, session: Option<Seq<char>>) -> Pairs {
    headers + (match session {
        Some(id) => seq![("Mcp-Session-Id"@, id)],
        None => seq![],
    })
}

/// The state and the delivery after a message of the client was taken for delivery.
pub open spec fn delivery_begun(
    s: ClientState,
    headers: Pairs,
    version: Seq<char>,
    msg: MessageView,
    id: Seq<char>,
) -> (ClientState, DeliveryView) {
    let (t, action) = stdin_taken(s, version, msg, id);
    (
        t,
        DeliveryView {
            posts: posts_of(action),
            follow_ups: seq![],
            headers: headers_with(headers, s.session),
        },
    )
}

/// The message that is posted next, whether it is a follow-up, and what is left after it.
pub open spec fn next_post_of(d: DeliveryView) -> (Option<(MessageView, bool)>, DeliveryView) {
    if d.follow_ups.len() > 0 {
        (
            Some((d.follow_ups[0], true)),
            DeliveryView { follow_ups: d.follow_ups.skip(1), ..d },
        )
    } else if d.posts.len() > 0 {
        (Some((d.posts[0], false)), DeliveryView { posts: d.posts.skip(1), ..d })
    } else {
        (None, d)
    }
}

/// Whether `t`, `out` and `e` are the state, what goes to stdout and the delivery after the
/// answer to a message. The answer to a message that is no follow-up may name the session and
/// bring up follow-ups; the answer to a follow-up may not.
pub open spec fn answer_taken(
    s: ClientState,
    d: DeliveryView,
    answer: AnswerView,
    follow_up: bool,
    t: ClientState,
    out: Seq<MessageView>,
    e: DeliveryView,
) -> bool {
    let named = answer.header("mcp-session-id"@);
    let known = if follow_up || named is None {
        s
    } else {
        ClientState { session: named, ..s }
    };
    exists|ms: Seq<MessageView>| #[trigger]
        answer.reads(follow_up, ms) && ({
            let (u, stdout, post) = messages_received(known, ms);
            &&& t == u
            &&& out == stdout
            &&& e == (if follow_up {
                d
            } else {
                DeliveryView {
                    follow_ups: d.follow_ups + post,
                    headers: with_session(d.headers, named),
                    ..d
                }
            })
        })
}

impl Delivery {
    /// The headers of the next request.
    pub fn headers(&self) -> (r: &Vec<(String, String)>)
        ensures
            r.deep_view() == self@.headers,
    {
        &self.headers
    }

    /// Takes out the message that is posted next, and says whether it is a follow-up.
    pub fn next_post(&mut self) -> (r: Option<(RawMessage, bool)>)
        ensures
            final(self)@ == next_post_of(old(self)@).1,
            match r {
                Some((m, f)) => next_post_of(old(self)@).0 == Some((m@, f)),
                None => next_post_of(old(self)@).0 is None,
            },
    {
        let ghost d = self@;
        if self.follow_ups.len() > 0 {
            let m = self.follow_ups.remove(0);
            assert(self@.follow_ups =~= d.follow_ups.skip(1));
            Some((m, true))
        } else if self.posts.len() > 0 {
            let m = self.posts.remove(0);
            assert(self@.posts =~= d.posts.skip(1));
            Some((m, false))
        } else {
            None
        }
    }
}

impl HttpToStdioGateway {
    /// Takes a message of the client for delivery. A request to initialize that has to be
    /// made gets an id at random.
    pub fn deliver(&mut self, msg: RawMessage) -> (r: Delivery)
        ensures
            final(self).same_setup(*old(self)),
            exists|id: Seq<char>|
                is_init_id(id) && ({
                    let (t, action) = #[trigger] stdin_taken(
                        old(self).state(),
                        old(self).protocol_version@,
                        msg@,
                        id,
                    );
                    &&& final(self).state() == t
                    &&& r@ == (DeliveryView {
                        posts: posts_of(action),
                        follow_ups: seq![],
                        headers: headers_with(
                            headers_view(old(self).headers@),
                            old(self).state().session,
                        ),
                    })
                }),
            exists|id: Seq<char>|
                is_init_id(id) && (final(self).state(), r@) == #[trigger] delivery_begun(
                    old(self).state(),
                    headers_view(old(self).headers@),
                    old(self).protocol_version@,
                    msg@,
                    id,
                ),
    {
        let id = generate_init_id();
        self.deliver_as(msg, id)
    }

    /// Takes a message of the client for delivery. A request to initialize that has to be
    /// made gets the id.
    pub fn deliver_as(&mut self, msg: RawMessage, id: String) -> (r: Delivery)
        requires
            is_plain(id@),
        ensures
            final(self).same_setup(*old(self)),
            ({
                let (t, action) = stdin_taken(
                    old(self).state(),
                    old(self).protocol_version@,
                    msg@,
                    id@,
                );
                &&& final(self).state() == t
                &&& r@ == (DeliveryView {
                    posts: posts_of(action),
                    follow_ups: seq![],
                    headers: headers_with(
                        headers_view(old(self).headers@),
                        old(self).state().session,
                    ),
                })
            }),
            (final(self).state(), r@) == delivery_begun(
                old(self).state(),
                headers_view(old(self).headers@),
                old(self).protocol_version@,
                msg@,
                id@,
            ),
    {
        let headers = self.request_headers();
        let action = self.handle_stdin_as(msg, id);
        let ghost view = action@;
        let posts: Vec<RawMessage> = match action {
            StdinAction::Post(ms) => ms,
            StdinAction::PostInit(m) => {
                let mut list: Vec<RawMessage> = Vec::new();
                list.push(m);
                assert(messages_view(list@) =~= seq![m@]);
                list
            },
            StdinAction::Buffered => no_messages(),
        };
        let d = Delivery { posts, follow_ups: no_messages(), headers };
        assert(d@.posts =~= posts_of(view));
        d
    }

    /// Takes the answer to a message of the delivery. Gives what goes to stdout.
    pub fn answered(
        &mut self,
        delivery: &mut Delivery,
        resp: &HttpResponse,
        follow_up: bool,
        logger: &mut Logger,
    ) -> (r: Vec<RawMessage>)
        ensures
            final(self).same_setup(*old(self)),
            final(logger)@ == response_log(
                answer_view(*resp),
                follow_up,
                old(self).state(),
                final(self).state(),
                old(logger)@,
            ),
            answer_taken(
                old(self).state(),
                old(delivery)@,
                answer_view(*resp),
                follow_up,
                final(self).state(),
                messages_view(r@),
                final(delivery)@,
            ),
    {
        let ghost s = self.state();
        let ghost d = delivery@;
        if !follow_up {
            self.note_session(&mut delivery.headers, resp);
        }
        let ghost known = self.state();
        let result = self.handle_response(resp, follow_up, logger);
        let ghost post = messages_view(result.post@);
        if !follow_up {
            let mut more = result.post;
            delivery.follow_ups.append(&mut more);
            assert(delivery@.follow_ups =~= d.follow_ups + post);
        }
        proof {
            let ms = choose|ms: Seq<MessageView>| #[trigger]
                answer_view(*resp).reads(follow_up, ms) && (
                    self.state(),
                    messages_view(result.stdout@),
                    post,
                ) == messages_received(known, ms);
            assert(answer_view(*resp).reads(follow_up, ms));
        }
        result.stdout
    }
}

// ---- Laws ------------------------------------------------------------------------------------------

/// What a client sends before initialization is done is posted after it, in its order, and
/// nothing is posted twice.
pub proof fn law_waiting_messages_are_posted_once(s: ClientState, ms: Seq<MessageView>, id: Seq<char>)
    requires
        s.phase == PhaseView::WaitingPassthroughInit(id) || s.phase
            == PhaseView::WaitingSyntheticInit(id),
        answer_place(ms, id, 0) < ms.len(),
    ensures
        ({
            let (t, out, post) = messages_received(s, ms);
            &&& t.phase == PhaseView::Ready
            &&& t.pending.len() == 0
            &&& post == (if s.phase is WaitingSyntheticInit {
                seq![initialized_notification()] + s.pending
            } else {
                s.pending
            })
            &&& messages_received(t, ms).2.len() == 0
        }),
{
}

/// The client sees every message of the server but the answer to a request that it did not
/// make.
pub proof fn law_only_the_synthetic_answer_is_kept_back(s: ClientState, ms: Seq<MessageView>)
    ensures
        match s.phase {
            PhaseView::WaitingSyntheticInit(id) => {
                ||| messages_received(s, ms).1 == ms
                ||| exists|at: int|
                    0 <= at < ms.len() && answers(#[trigger] ms[at], id) && messages_received(
                        s,
                        ms,
                    ).1 == ms.remove(at)
            },
            _ => messages_received(s, ms).1 == ms,
        },
{
    if let PhaseView::WaitingSyntheticInit(id) = s.phase {
        lemma_answer_place(ms, id, 0);
    }
}

/// The session that a server names is sent back to it, and no other session is.
pub proof fn law_named_session_is_sent(headers: Pairs, id: Seq<char>)
    ensures
        header_value(with_session(headers, Some(id)), "Mcp-Session-Id"@) == Some(id),
        forall|i: int|
            0 <= i < with_session(headers, Some(id)).len() && same_ignoring_case(
                (#[trigger] with_session(headers, Some(id))[i]).0,
                "mcp-session-id"@,
            ) ==> with_session(headers, Some(id))[i].1 == id,
{
    let name = "mcp-session-id"@;
    let kept = without(headers, name);
    let all = with_session(headers, Some(id));
    lemma_without(headers, name);
    assert forall|i: int| 0 <= i < kept.len() implies !same_ignoring_case(
        (#[trigger] kept[i]).0,
        name,
    ) by {
        assert(!mentions(kept, name));
    }
    reveal_strlit("mcp-session-id");
    reveal_strlit("Mcp-Session-Id");
    assert(lower_case("Mcp-Session-Id"@) =~= lower_case(name));
    assert forall|s: Seq<char>| same_ignoring_case(s, "Mcp-Session-Id"@) == #[trigger]
        same_ignoring_case(s, name) by {
    }
    assert forall|i: int|
        0 <= i < all.len() && same_ignoring_case((#[trigger] all[i]).0, name) implies all[i].1
        == id by {
        if i < kept.len() {
            assert(all[i] == kept[i]);
        }
    }
    assert forall|k: int| 0 <= k < kept.len() implies !same_ignoring_case(
        (#[trigger] all[k]).0,
        "Mcp-Session-Id"@,
    ) by {
        assert(all[k] == kept[k]);
    }
    lemma_header_place_is(all, "Mcp-Session-Id"@, 0, kept.len() as int);
}

/// A delivery hands out each message once: first what the last answer has brought up, then
/// the rest, both in their order.
pub proof fn law_delivery_keeps_the_order(d: DeliveryView)
    ensures
        ({
            let all = d.follow_ups + d.posts;
            let (next, e) = next_post_of(d);
            &&& next is None <==> all.len() == 0
            &&& next matches Some((m, f)) ==> m == all[0] && f == (d.follow_ups.len() > 0)
                && e.follow_ups + e.posts == all.skip(1)
        }),
{
    let all = d.follow_ups + d.posts;
    let (next, e) = next_post_of(d);
    if next is Some {
        assert(e.follow_ups + e.posts =~= all.skip(1));
    }
}

/// No message of the client is lost or changed: once initialization is done it is posted,
/// alone and as it is, of whatever kind it is, and nothing changes; before that it is the last
/// of those that wait. A request to initialize that comes first is posted, with nothing changed
/// but its parameters; where another message comes first, the gateway asks to initialize.
pub proof fn law_message_of_the_client_is_posted_or_kept(
    s: ClientState,
    version: Seq<char>,
    msg: MessageView,
    id: Seq<char>,
)
    ensures
        ({
            let (t, a) = stdin_taken(s, version, msg, id);
            let asks = msg.id is Some && msg.method == Some("initialize"@);
            let first = s.phase == PhaseView::Pending;
            let waits = s.phase is WaitingSyntheticInit || s.phase is WaitingPassthroughInit;
            &&& t.session == s.session
            &&& s.phase == PhaseView::Ready ==> t == s && a is Post && a->Post_0.len() == 1
                && a->Post_0[0] == msg
            &&& waits ==> a is Buffered && t.phase == s.phase
            &&& waits || (first && !asks) ==> t.pending.len() == s.pending.len() + 1
                && t.pending.last() == msg && t.pending.drop_last() == s.pending
            &&& first && asks ==> {
                &&& t.phase == PhaseView::WaitingPassthroughInit(unquoted(msg.id->Some_0))
                &&& t.pending == s.pending
                &&& a is Post
                &&& a->Post_0.len() == 1
                &&& a->Post_0[0] == (MessageView { params: a->Post_0[0].params, ..msg })
                &&& a->Post_0[0].params is Some == msg.params is Some
            }
            &&& first && !asks ==> {
                &&& t.phase == PhaseView::WaitingSyntheticInit(id)
                &&& a is PostInit
                &&& a->PostInit_0.jsonrpc == "2.0"@
                &&& a->PostInit_0.id == Some(seq!['"'] + id + seq!['"'])
                &&& a->PostInit_0.method == Some("initialize"@)
                &&& a->PostInit_0.params is Some
                &&& a->PostInit_0.result is None && a->PostInit_0.error is None
            }
        }),
{
    assert(s.pending.push(msg).drop_last() =~= s.pending);
}

/// What the server says goes to the client, all of it, in its order and unchanged, but for
/// the answer to a request to initialize that the gateway made. With the answer to the
/// request to initialize, whoever made it, initialization is done, and what waited is posted
/// in its order, behind the notification that the gateway owes where it made the request.
pub proof fn law_messages_of_the_server_reach_the_client(s: ClientState, ms: Seq<MessageView>)
    ensures
        ({
            let (t, out, post) = messages_received(s, ms);
            let own = s.phase is WaitingSyntheticInit;
            let waits = own || s.phase is WaitingPassthroughInit;
            let id = if own {
                s.phase->WaitingSyntheticInit_0
            } else {
                s.phase->WaitingPassthroughInit_0
            };
            let comes = waits && exists|i: int|
                0 <= i < ms.len() && (#[trigger] ms[i]).id is Some && ms[i].method is None && (
                ms[i].result is Some || ms[i].error is Some) && unquoted(ms[i].id->Some_0) == id;
            &&& t.session == s.session
            &&& !comes ==> out == ms && t == s && post.len() == 0
            &&& comes ==> t.phase == PhaseView::Ready && t.pending.len() == 0
            &&& comes && !own ==> out == ms && post == s.pending
            &&& comes && own ==> {
                &&& post.len() == s.pending.len() + 1
                &&& post[0].method == Some("notifications/initialized"@)
                &&& post[0].id is None
                &&& post.skip(1) == s.pending
                &&& exists|at: int|
                    0 <= at < ms.len() && (#[trigger] ms[at]).id is Some && unquoted(
                        ms[at].id->Some_0,
                    ) == id && ms[at].method is None && out == ms.remove(at)
            }
        }),
{
    let (t, out, post) = messages_received(s, ms);
    let own = s.phase is WaitingSyntheticInit;
    if own || s.phase is WaitingPassthroughInit {
        let id = if own {
            s.phase->WaitingSyntheticInit_0
        } else {
            s.phase->WaitingPassthroughInit_0
        };
        let at = answer_place(ms, id, 0);
        lemma_answer_place(ms, id, 0);
        if at < ms.len() {
            assert(answers(ms[at], id));
            assert(ms[at].id is Some);
            if own {
                assert(post.skip(1) =~= s.pending);
            }
        } else {
            assert forall|i: int| 0 <= i < ms.len() implies !((#[trigger] ms[i]).id is Some
                && ms[i].method is None && (ms[i].result is Some || ms[i].error is Some)
                && unquoted(ms[i].id->Some_0) == id) by {
                assert(!answers(ms[i], id));
            }
        }
    }
}

/// An answer is read as its content type says: JSON as the messages of its body, events as
/// the messages of the events. A body of another type is taken for JSON, unless the status
/// says that there is none, or the answer is that to a follow-up. What cannot be read holds
/// nothing.
pub proof fn law_answer_is_read_by_its_type(
    answer: AnswerView,
    follow_up: bool,
    ms: Seq<MessageView>,
)
    requires
        answer.reads(follow_up, ms),
    ensures
        ({
            let named = first_value(answer.headers, "content-type"@);
            let json = named is Some && has_part(named->Some_0, "application/json"@);
            let sse = !json && named is Some && has_part(named->Some_0, "text/event-stream"@);
            let none = !json && !sse && (follow_up || answer.status == 202 || answer.status == 204);
            let text = decode_utf8(answer.body);
            &&& !valid_utf8(answer.body) || none ==> ms.len() == 0
            &&& valid_utf8(answer.body) && !sse && !none && line_error(text) is Some ==> ms.len()
                == 0
            &&& valid_utf8(answer.body) && !sse && !none && line_error(text) is None
                ==> exists|p: ParsedView| #[trigger]
                line_is(text, p) && ms == (match p {
                    ParsedView::Single(m) => seq![m],
                    ParsedView::Batch(all) => all,
                })
            &&& valid_utf8(answer.body) && sse ==> events_read(parsed(no_fields(), text).2, ms)
        }),
{
    let text = decode_utf8(answer.body);
    reveal_strlit("");
    reveal_strlit("application/json");
    reveal_strlit("text/event-stream");
    lemma_empty_has_no_part("application/json"@);
    lemma_empty_has_no_part("text/event-stream"@);
    if text_reads(text, ms) && line_error(text) is None {
        let p = choose|p: ParsedView| #[trigger] line_is(text, p) && ms == messages_of(p);
        assert(line_is(text, p));
    }
}

proof fn lemma_empty_has_no_part(part: Seq<char>)
    requires
        part.len() > 0,
    ensures
        !has_part(""@, part),
{
    reveal_strlit("");
}

/// Events hold their messages one after the other: one more event of the kind `message` adds
/// the messages of its text, where it is JSON-RPC, and any other event adds nothing.
pub proof fn law_events_hold_their_messages(
    es: Seq<EventView>,
    ms: Seq<MessageView>,
    e: EventView,
    p: ParsedView,
)
    requires
        events_read(es, ms),
    ensures
        events_read(Seq::<EventView>::empty(), Seq::<MessageView>::empty()),
        e.event_type != "message"@ || line_error(e.data) is Some ==> events_read(es.push(e), ms),
        e.event_type == "message"@ && line_error(e.data) is None && line_is(e.data, p)
            ==> events_read(
            es.push(e),
            ms + (match p {
                ParsedView::Single(m) => seq![m],
                ParsedView::Batch(all) => all,
            }),
        ),
{
    let more = es.push(e);
    assert(more.drop_last() =~= es);
    if e.event_type != "message"@ || line_error(e.data) is Some {
        assert(ms.take(ms.len() as int) =~= ms);
        assert(ms.skip(ms.len() as int).len() == 0);
        assert(event_reads(e.event_type, e.data, ms.skip(ms.len() as int)));
        assert(events_read(more.drop_last(), ms.take(ms.len() as int)));
    } else if line_is(e.data, p) {
        let added = messages_of(p);
        let all = ms + added;
        assert(all.take(ms.len() as int) =~= ms);
        assert(all.skip(ms.len() as int) =~= added);
        assert(event_reads(e.event_type, e.data, all.skip(ms.len() as int)));
        assert(events_read(more.drop_last(), all.take(ms.len() as int)));
    }
}

/// Once initialization is done, the messages of an answer reach stdout as they are, and
/// nothing is posted for them; the session that an answer names is kept, and the next
/// requests carry it.
pub proof fn law_answer_reaches_stdout(
    s: ClientState,
    d: DeliveryView,
    answer: AnswerView,
    follow_up: bool,
    t: ClientState,
    out: Seq<MessageView>,
    e: DeliveryView,
)
    requires
        answer_taken(s, d, answer, follow_up, t, out, e),
    ensures
        ({
            let named = first_value(answer.headers, "mcp-session-id"@);
            &&& s.phase == PhaseView::Ready ==> answer.reads(follow_up, out) && t.phase == s.phase
                && t.pending == s.pending && e.posts == d.posts && e.follow_ups == d.follow_ups
            &&& !follow_up && named is Some ==> t.session == named && header_value(
                e.headers,
                "Mcp-Session-Id"@,
            ) == named
            &&& follow_up || named is None ==> t.session == s.session && e.headers == d.headers
            &&& e.posts == d.posts
            &&& follow_up ==> e == d
            &&& e.follow_ups.take(d.follow_ups.len() as int) == d.follow_ups
        }),
{
    let named = answer.header("mcp-session-id"@);
    let known = if follow_up || named is None {
        s
    } else {
        ClientState { session: named, ..s }
    };
    let ms = choose|ms: Seq<MessageView>| #[trigger]
        answer.reads(follow_up, ms) && ({
            let (u, stdout, post) = messages_received(known, ms);
            &&& t == u
            &&& out == stdout
            &&& e == (if follow_up {
                d
            } else {
                DeliveryView {
                    follow_ups: d.follow_ups + post,
                    headers: with_session(d.headers, named),
                    ..d
                }
            })
        });
    if named is Some {
        law_named_session_is_sent(d.headers, named->Some_0);
    }
    let (u, stdout, post) = messages_received(known, ms);
    assert(e.follow_ups.take(d.follow_ups.len() as int) =~= d.follow_ups);
    if s.phase == PhaseView::Ready {
        assert(d.follow_ups + post =~= d.follow_ups);
    }
}

/// Every message that is to be posted is handed out, and a request carries the headers of the
/// user and, where the server has named a session, that session.
pub proof fn law_delivery_holds_what_is_posted(
    action: StdinView,
    headers: Pairs,
    session: Option<Seq<char>>,
)
    ensures
        action is Post ==> posts_of(action) == action->Post_0,
        action is PostInit ==> posts_of(action).len() == 1 && posts_of(action)[0]
            == action->PostInit_0,
        action is Buffered ==> posts_of(action).len() == 0,
        session is None ==> headers_with(headers, session) == headers,
        session is Some ==> headers_with(headers, session).drop_last() == headers && headers_with(
            headers,
            session,
        ).last() == ("Mcp-Session-Id"@, session->Some_0),
{
    let all = headers_with(headers, session);
    if session is Some {
        assert(all.drop_last() =~= headers);
    } else {
        assert(all =~= headers);
    }
}

/// The gateway exits where the server ended the connection, and for no other trouble.
pub proof fn law_only_a_closed_connection_ends_the_gateway(e: HttpClientError)
    ensures
        error_action(e) == ErrorAction::Exit <==> e is Io && (has_part(e->Io_0@, "EOF"@)
            || has_part(e->Io_0@, "connection reset"@)),
{
}

/// What cannot be read of an answer is logged as an error, once, and what can be read is not.
pub proof fn law_unreadable_answers_are_logged(log: LoggerView, body: Seq<u8>)
    requires
        log.level != LogLevel::Off,
        log.buffer is None,
    ensures
        ({
            let after = json_log(log, body);
            let fine = valid_utf8(body) && line_error(decode_utf8(body)) is None;
            &&& fine ==> after == log
            &&& !fine ==> after.pending.len() == log.pending.len() + 1 && after.pending.last().0
                && after.pending.drop_last() == log.pending
        }),
{
    let after = json_log(log, body);
    if !(valid_utf8(body) && line_error(decode_utf8(body)) is None) {
        assert(after.pending.drop_last() =~= log.pending);
    }
}

/// What is posted for a message of the client goes with the headers of the user and the session
/// that the server has named; once initialization is done, that message alone is posted.
pub proof fn law_posts_carry_the_session(
    s: ClientState,
    headers: Pairs,
    version: Seq<char>,
    msg: MessageView,
    id: Seq<char>,
)
    ensures
        ({
            let (t, d) = delivery_begun(s, headers, version, msg, id);
            &&& d.follow_ups.len() == 0
            &&& s.session is None ==> d.headers == headers
            &&& s.session is Some ==> d.headers == headers.push(
                ("Mcp-Session-Id"@, s.session->Some_0),
            )
            &&& s.phase == PhaseView::Ready ==> t == s && d.posts == seq![msg]
        }),
{
    let (t, d) = delivery_begun(s, headers, version, msg, id);
    match s.session {
        Some(name) => {
            assert(d.headers =~= headers.push(("Mcp-Session-Id"@, name)));
        },
        None => {
            assert(d.headers =~= headers);
        },
    }
}

/// A line of the client is passed over where it is blank, a batch or no message; any other is a
/// message.
pub proof fn law_lines_of_the_client_are_messages(line: Seq<char>)
    ensures
        trimmed(line).len() == 0 ==> !is_message_line(line),
        is_batch_line(trimmed(line)) ==> !is_message_line(line),
        line_error(trimmed(line)) is Some ==> !is_message_line(line),
        trimmed(line).len() > 0 && !is_batch_line(trimmed(line)) && line_error(trimmed(line)) is None
            ==> is_message_line(line),
{
}

/// Reading an answer is logged as such, and the end of an initialization that the gateway asked
/// for once more, in detail.
pub proof fn law_end_of_initialization_is_logged(
    answer: AnswerView,
    follow_up: bool,
    s: ClientState,
    t: ClientState,
    log: LoggerView,
)
    ensures
        s.phase is WaitingSyntheticInit && t.phase is Ready ==> response_log(
            answer,
            follow_up,
            s,
            t,
            log,
        ) == answer.log(follow_up, log).debug("HTTP: synthetic init response received"@),
        !(s.phase is WaitingSyntheticInit) || !(t.phase is Ready) ==> response_log(
            answer,
            follow_up,
            s,
            t,
            log,
        ) == answer.log(follow_up, log),
{
}

} // verus!
