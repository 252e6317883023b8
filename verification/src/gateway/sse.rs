//! From stdio to Server-Sent Events: one child for all clients. Whatever the child says is
//! sent to every client; what a client posts is written to the child.

use std::time::Instant;

use vstd::prelude::*;
use vstd::string::*;
use vstd::utf8::{decode_utf8, valid_utf8};

use crate::client::sse::{field_of, lemma_first_line, one, parsed, with_field, EventView, Fields};
use crate::cors::{apply_custom_headers, str_view};
use crate::error::GatewayError;
use crate::gateway::hub::{
    event_view, hung_up, joined, law_broadcast_reaches_everyone, law_client_is_greeted, nobody,
    parted_metrics, published, published_metrics, received, without_client, Event, Hub, HubView,
    Received, CLIENT_CHANNEL_CAP, EARLY_BUFFER_CAP,
};
use crate::gateway::reply::{extend_pairs, GatewayResponse, ReplyView, Setup};
use crate::jsonrpc::{
    line_error, line_is, message_text, messages_view, parse_line, MessageView, Parsed, ParsedView,
    RawMessage,
};
use crate::observe::{counted, Metrics};
use crate::pairs::{push_pair, Pairs};
use crate::session::SessionId;
use crate::system::{elapsed_ms, is_uuid, start_clock};
use crate::text::{body_text, lemma_index_of_is};

verus! {

/// How often a comment is sent on a stream that is otherwise silent, in milliseconds.
pub const KEEPALIVE_INTERVAL_MS: u64 = 15_000;

/// The longest body of a posted message, in bytes.
pub const MAX_BODY_SIZE: usize = 4_194_304;

/// An event of the stream to a client.
#[derive(Debug)]
pub enum SseEvent {
    /// The first event: where to post messages.
    Endpoint(String),
    /// A message of the child.
    Message(String),
    /// A comment that keeps the connection open.
    Keepalive,
}

pub enum SseView {
    Endpoint(Seq<char>),
    Message(Seq<char>),
    Keepalive,
}

impl View for SseEvent {
    type V = SseView;

    open spec fn view(&self) -> SseView {
        match self {
            SseEvent::Endpoint(s) => SseView::Endpoint(s@),
            SseEvent::Message(s) => SseView::Message(s@),
            SseEvent::Keepalive => SseView::Keepalive,
        }
    }
}

/// An event as it is written on the stream.
pub open spec fn wire(e: SseView) -> Seq<char> {
    match e {
        SseView::Endpoint(url) => "event: endpoint\ndata: "@ + url + "\n\n"@,
        SseView::Message(data) => "event: message\ndata: "@ + data + "\n\n"@,
        SseView::Keepalive => ": keepalive\n\n"@,
    }
}

impl SseEvent {
    /// Writes the event as it goes on the stream.
    pub fn serialize(&self) -> (r: String)
        ensures
            r@ == wire(self@),
    {
        match self {
            SseEvent::Endpoint(url) => "event: endpoint\ndata: ".to_owned().concat(
                url.as_str(),
            ).concat("\n\n"),
            SseEvent::Message(data) => "event: message\ndata: ".to_owned().concat(
                data.as_str(),
            ).concat("\n\n"),
            SseEvent::Keepalive => ": keepalive\n\n".to_owned(),
        }
    }
}

impl Event for SseEvent {
    fn copy(&self) -> (r: SseEvent) {
        match self {
            SseEvent::Endpoint(s) => SseEvent::Endpoint(s.clone()),
            SseEvent::Message(s) => SseEvent::Message(s.clone()),
            SseEvent::Keepalive => SseEvent::Keepalive,
        }
    }
}

/// What is to be done on the stream to a client.
#[derive(Debug)]
pub enum StreamStep {
    /// This is to be written.
    Write(String),
    /// Nothing yet.
    Wait,
    /// The stream ends.
    Close,
}

#[verifier::ext_equal]
pub enum StepView {
    Write(Seq<char>),
    Wait,
    Close,
}

impl View for StreamStep {
    type V = StepView;

    open spec fn view(&self) -> StepView {
        match self {
            StreamStep::Write(s) => StepView::Write(s@),
            StreamStep::Wait => StepView::Wait,
            StreamStep::Close => StepView::Close,
        }
    }
}

/// What is to be done on a stream that was silent for `idle` milliseconds, where there is
/// nothing to send.
pub open spec fn silent_step(idle: u64) -> StepView {
    if idle >= KEEPALIVE_INTERVAL_MS {
        StepView::Write(wire(SseView::Keepalive))
    } else {
        StepView::Wait
    }
}

/// Decides what is done on a stream that has nothing to send.
pub fn silent(idle: u64) -> (r: StreamStep)
    ensures
        r@ == silent_step(idle),
{
    if idle >= KEEPALIVE_INTERVAL_MS {
        StreamStep::Write(SseEvent::Keepalive.serialize())
    } else {
        StreamStep::Wait
    }
}

/// What is done on a stream that was silent for `idle` milliseconds, given what its client
/// found in its queue.
pub open spec fn event_step_of(next: Received<SseView>, idle: u64) -> StepView {
    match next {
        Received::Event(e) => StepView::Write(wire(e)),
        Received::Nothing => silent_step(idle),
        Received::Closed => StepView::Close,
    }
}

/// Decides what is done on a stream that was silent for `idle` milliseconds, given what its
/// client found in its queue.
pub fn stream_step(next: Received<SseEvent>, idle: u64) -> (r: StreamStep)
    ensures
        r@ == (match next@ {
            Received::Event(e) => StepView::Write(wire(e)),
            Received::Nothing => silent_step(idle),
            Received::Closed => StepView::Close,
        }),
        r@ == event_step_of(next@, idle),
{
    match next {
        Received::Event(e) => StreamStep::Write(e.serialize()),
        Received::Nothing => silent(idle),
        Received::Closed => StreamStep::Close,
    }
}

/// A client that connected.
#[derive(Debug)]
pub struct SseConnection {
    pub session_id: SessionId,
    /// The headers of the answer, whose body is the stream.
    pub headers: Vec<(String, String)>,
}

/// The gateway.
pub struct SseGateway {
    pub hub: Hub<SseEvent>,
    pub base_url: String,
    pub message_path: String,
    pub setup: Setup,
    pub metrics: Metrics,
    pub clock: Instant,
}

/// Where a client posts its messages.
pub open spec fn endpoint_of(base: Seq<char>, path: Seq<char>, id: Seq<char>) -> Seq<char> {
    base + path + "?sessionId="@ + id
}

/// The headers of every stream.
pub open spec fn stream_headers() -> Pairs {
    seq![
        ("Content-Type"@, "text/event-stream"@),
        ("Cache-Control"@, "no-cache"@),
        ("Connection"@, "keep-alive"@),
        ("X-Accel-Buffering"@, "no"@),
    ]
}

/// Writes the headers of every stream.
pub fn push_stream_headers(headers: &mut Vec<(String, String)>)
    ensures
        final(headers).deep_view() == old(headers).deep_view() + stream_headers(),
{
    let ghost before = headers.deep_view();
    push_pair(headers, "Content-Type", "text/event-stream".to_owned());
    push_pair(headers, "Cache-Control", "no-cache".to_owned());
    push_pair(headers, "Connection", "keep-alive".to_owned());
    push_pair(headers, "X-Accel-Buffering", "no".to_owned());
    assert(headers.deep_view() =~= before + stream_headers());
}

/// The messages of a line.
pub open spec fn messages_of(p: ParsedView) -> Seq<MessageView> {
    match p {
        ParsedView::Single(m) => seq![m],
        ParsedView::Batch(ms) => ms,
    }
}

/// The messages of a line.
pub fn into_messages(p: Parsed) -> (r: Vec<RawMessage>)
    ensures
        messages_view(r@) == messages_of(p@),
{
    match p {
        Parsed::Single(m) => {
            let mut v: Vec<RawMessage> = Vec::new();
            v.push(m);
            assert(messages_view(v@) =~= seq![m@]);
            v
        },
        Parsed::Batch(ms) => ms,
    }
}

/// The clients and the counters after messages of the child, all at `now`.
pub open spec fn relayed(
    h: HubView<SseView>,
    m: Metrics,
    ms: Seq<MessageView>,
    now: u64,
) -> (HubView<SseView>, Metrics)
    decreases ms.len(),
{
    if ms.len() == 0 {
        (h, m)
    } else {
        let (g, n) = relayed(h, m, ms.drop_last(), now);
        (
            published(g, SseView::Message(message_text(ms.last())), now),
            published_metrics(g, now, n),
        )
    }
}

/// The answer to a posted message that was written to the child, or was not.
pub open spec fn post_reply(setup: Setup, written: bool, cors: Pairs) -> ReplyView {
    if written {
        setup.text_reply(202, "text/plain"@, "Accepted"@, cors)
    } else {
        setup.error_reply(GatewayError::ChildDead, cors)
    }
}

/// The clients, the counters and the headers of the answer after a client connected.
pub open spec fn connected(g: SseGateway, id: Seq<char>, origin: Option<Seq<char>>) -> (
    HubView<SseView>,
    Metrics,
    Pairs,
) {
    (
        joined(
            g.hub@,
            id,
            Some(SseView::Endpoint(endpoint_of(g.base_url@, g.message_path@, id))),
        ),
        Metrics { active_clients: counted(g.metrics.active_clients), ..g.metrics },
        g.setup.dressed(stream_headers() + g.setup.cors_for("GET"@, origin)),
    )
}

/// Why a posted message is refused, if it is.
pub open spec fn message_refusal(
    g: SseGateway,
    id: Option<Seq<char>>,
    body: Seq<u8>,
    cors: Pairs,
) -> Option<ReplyView> {
    let plain = "text/plain"@;
    if id is None || id->Some_0.len() == 0 {
        Some(g.setup.text_reply(400, plain, "Missing sessionId parameter"@, cors))
    } else if !g.hub@.clients.dom().contains(id->Some_0) {
        Some(
            g.setup.text_reply(
                503,
                plain,
                "No active SSE connection for session "@ + id->Some_0,
                cors,
            ),
        )
    } else if body.len() > MAX_BODY_SIZE {
        Some(g.setup.error_reply(GatewayError::PayloadTooLarge, cors))
    } else if body.len() == 0 {
        Some(g.setup.text_reply(400, plain, "Empty body"@, cors))
    } else if !valid_utf8(body) {
        Some(g.setup.text_reply(400, plain, "Invalid UTF-8"@, cors))
    } else if line_error(decode_utf8(body)) is Some {
        Some(g.setup.text_reply(400, plain, "Bad Request"@, cors))
    } else {
        None
    }
}

impl SseGateway {
    pub fn new(base_url: String, message_path: String, setup: Setup, metrics: Metrics) -> (r:
        SseGateway)
        ensures
            r.hub@ == nobody::<SseView>(),
            r.base_url == base_url,
            r.message_path == message_path,
            r.setup == setup,
            r.metrics == metrics,
    {
        SseGateway {
            hub: Hub::new(),
            base_url,
            message_path,
            setup,
            metrics,
            clock: start_clock(),
        }
    }

    /// Whether only the clients and the counters differ.
    pub open spec fn same_setup(self, other: SseGateway) -> bool {
        &&& self.base_url == other.base_url
        &&& self.message_path == other.message_path
        &&& self.setup == other.setup
        &&& self.clock == other.clock
    }

    /// Sends what the child said to the clients.
    pub fn relay(&mut self, parsed: Parsed)
        ensures
            final(self).same_setup(*old(self)),
            exists|now: u64| #[trigger]
                relayed(old(self).hub@, old(self).metrics, messages_of(parsed@), now) == (
                    final(self).hub@,
                    final(self).metrics,
                ),
    {
        let now: u64 = elapsed_ms(&self.clock);
        self.relay_at(parsed, now);
    }

    /// Sends what the child said to the clients at `now`.
    pub fn relay_at(&mut self, parsed: Parsed, now: u64)
        ensures
            final(self).same_setup(*old(self)),
            (final(self).hub@, final(self).metrics) == relayed(
                old(self).hub@,
                old(self).metrics,
                messages_of(parsed@),
                now,
            ),
    {
        let ms = into_messages(parsed);
        let ghost all = messages_view(ms@);
        let mut i: usize = 0;
        assert(all.take(0) =~= Seq::<MessageView>::empty());
        while i < ms.len()
            invariant
                i <= ms.len(),
                all == messages_view(ms@),
                self.same_setup(*old(self)),
                (self.hub@, self.metrics) == relayed(
                    old(self).hub@,
                    old(self).metrics,
                    all.take(i as int),
                    now,
                ),
            decreases ms.len() - i,
        {
            let json = ms[i].to_json();
            self.hub.publish(SseEvent::Message(json), now, &mut self.metrics);
            assert(all.take(i + 1).drop_last() =~= all.take(i as int));
            assert(all.take(i + 1).last() == ms[i as int]@);
            i += 1;
        }
        assert(all.take(i as int) =~= all);
    }

    /// Takes in a client under a name at random.
    pub fn handle_sse_connect(&mut self, origin: Option<&str>) -> (r: SseConnection)
        ensures
            is_uuid(r.session_id@),
            final(self).same_setup(*old(self)),
            final(self).hub@ == joined(
                old(self).hub@,
                r.session_id@,
                Some(
                    SseView::Endpoint(
                        endpoint_of(old(self).base_url@, old(self).message_path@, r.session_id@),
                    ),
                ),
            ),
            final(self).metrics == (Metrics {
                active_clients: counted(old(self).metrics.active_clients),
                ..old(self).metrics
            }),
            r.headers.deep_view() == old(self).setup.dressed(
                stream_headers() + old(self).setup.cors_for("GET"@, str_view(origin)),
            ),
            (final(self).hub@, final(self).metrics, r.headers.deep_view()) == connected(
                *old(self),
                r.session_id@,
                str_view(origin),
            ),
    {
        self.connect_as(SessionId::new(), origin)
    }

    /// Takes in a client. The first event tells it where to post.
    pub fn connect_as(&mut self, session_id: SessionId, origin: Option<&str>) -> (r: SseConnection)
        ensures
            r.session_id == session_id,
            final(self).same_setup(*old(self)),
            final(self).hub@ == joined(
                old(self).hub@,
                session_id@,
                Some(
                    SseView::Endpoint(
                        endpoint_of(old(self).base_url@, old(self).message_path@, session_id@),
                    ),
                ),
            ),
            final(self).metrics == (Metrics {
                active_clients: counted(old(self).metrics.active_clients),
                ..old(self).metrics
            }),
            r.headers.deep_view() == old(self).setup.dressed(
                stream_headers() + old(self).setup.cors_for("GET"@, str_view(origin)),
            ),
            (final(self).hub@, final(self).metrics, r.headers.deep_view()) == connected(
                *old(self),
                session_id@,
                str_view(origin),
            ),
    {
        let cors = self.setup.cors_headers("GET", origin);
        let url = self.base_url.clone().concat(self.message_path.as_str()).concat(
            "?sessionId=",
        ).concat(session_id.as_str());
        let greeting = Some(SseEvent::Endpoint(url));
        assert(event_view(greeting) == Some(
            SseView::Endpoint(
                endpoint_of(old(self).base_url@, old(self).message_path@, session_id@),
            ),
        ));
        self.hub.join(session_id.value.clone(), greeting, &mut self.metrics);
        let mut headers: Vec<(String, String)> = Vec::new();
        push_stream_headers(&mut headers);
        extend_pairs(&mut headers, &cors);
        assert(headers.deep_view() =~= stream_headers() + cors.deep_view());
        apply_custom_headers(&mut headers, &self.setup.custom_headers);
        SseConnection { session_id, headers }
    }

    /// The next event for a client.
    pub fn next_event(&mut self, id: &SessionId) -> (r: Received<SseEvent>)
        ensures
            final(self).same_setup(*old(self)),
            final(self).metrics == old(self).metrics,
            (final(self).hub@, r@) == received(old(self).hub@, id@),
    {
        self.hub.receive(id.as_str())
    }

    /// Notes that nobody reads the events of a client any more.
    pub fn stop_listening(&mut self, id: &SessionId)
        ensures
            final(self).same_setup(*old(self)),
            final(self).metrics == old(self).metrics,
            final(self).hub@ == hung_up(old(self).hub@, id@),
    {
        self.hub.hang_up(id.as_str());
    }

    /// Drops a client whose connection ended.
    pub fn disconnect_client(&mut self, id: &SessionId)
        ensures
            final(self).same_setup(*old(self)),
            final(self).hub@ == without_client(old(self).hub@, id@),
            final(self).metrics == (if old(self).hub@.clients.dom().contains(id@) {
                parted_metrics(old(self).metrics, 1, 0)
            } else {
                old(self).metrics
            }),
    {
        self.hub.part(id.as_str(), &mut self.metrics);
    }

    /// Checks a posted message: gives what is to be written to the child, or the refusal.
    pub fn handle_message(
        &mut self,
        session_id_param: Option<&str>,
        body: &[u8],
        origin: Option<&str>,
    ) -> (r: Result<Vec<RawMessage>, GatewayResponse>)
        ensures
            final(self).same_setup(*old(self)),
            final(self).hub@ == old(self).hub@,
            final(self).metrics == (Metrics {
                total_requests: counted(old(self).metrics.total_requests),
                ..old(self).metrics
            }),
            match message_refusal(
                *old(self),
                str_view(session_id_param),
                body@,
                old(self).setup.cors_for("POST"@, str_view(origin)),
            ) {
                Some(v) => r matches Err(x) && x@ == v,
                None => r matches Ok(ms) && exists|p: ParsedView| #[trigger]
                    line_is(decode_utf8(body@), p) && messages_view(ms@) == messages_of(p),
            },
    {
        Metrics::inc(&mut self.metrics.total_requests);
        let cors = self.setup.cors_headers("POST", origin);
        let id: &str = match session_id_param {
            Some(s) => s,
            None => {
                return Err(
                    self.setup.plain_response(400, "Missing sessionId parameter", &cors),
                );
            },
        };
        if id.is_empty() {
            return Err(self.setup.plain_response(400, "Missing sessionId parameter", &cors));
        }
        if !self.hub.contains(id) {
            let words = "No active SSE connection for session ".to_owned().concat(id);
            return Err(self.setup.plain_response(503, words.as_str(), &cors));
        }
        if body.len() > MAX_BODY_SIZE {
            return Err(self.setup.error_response(&GatewayError::payload_too_large(), &cors));
        }
        if body.len() == 0 {
            return Err(self.setup.plain_response(400, "Empty body", &cors));
        }
        let text = match body_text(body) {
            Some(t) => t,
            None => return Err(self.setup.plain_response(400, "Invalid UTF-8", &cors)),
        };
        match parse_line(text.as_str()) {
            Err(_) => Err(self.setup.plain_response(400, "Bad Request", &cors)),
            Ok(parsed) => {
                let ghost p = parsed@;
                let ms = into_messages(parsed);
                assert(line_is(decode_utf8(body@), p));
                Ok(ms)
            },
        }
    }

    /// The answer to a posted message, once it is known whether the child took it.
    pub fn message_answer(&self, written: bool, origin: Option<&str>) -> (r: GatewayResponse)
        ensures
            ({
                let cors = self.setup.cors_for("POST"@, str_view(origin));
                r@ == (if written {
                    self.setup.text_reply(202, "text/plain"@, "Accepted"@, cors)
                } else {
                    self.setup.error_reply(GatewayError::ChildDead, cors)
                })
            }),
            r@ == post_reply(
                self.setup,
                written,
                self.setup.cors_for("POST"@, str_view(origin)),
            ),
    {
        let cors = self.setup.cors_headers("POST", origin);
        if written {
            self.setup.plain_response(202, "Accepted", &cors)
        } else {
            self.setup.error_response(&GatewayError::child_dead(), &cors)
        }
    }

    /// Answers a preflight request; nothing where cross-origin requests are not dealt with.
    pub fn handle_options(&self, origin: Option<&str>) -> (r: Option<GatewayResponse>)
        ensures
            match self.setup.options_reply(str_view(origin)) {
                Some(v) => r matches Some(x) && x@ == v,
                None => r is None,
            },
    {
        self.setup.options_response(origin)
    }

    /// Answers a request to a health endpoint; nothing where the path is not that of one.
    pub fn handle_health(&self, path: &str, detail: bool, origin: Option<&str>) -> (r: Option<
        GatewayResponse,
    >)
        ensures
            match self.setup.health_reply(self.metrics, path@, detail, str_view(origin)) {
                Some(v) => r matches Some(x) && x@ == v,
                None => r is None,
            },
    {
        self.setup.health_response(&self.metrics, path, detail, origin)
    }

    /// The number of connected clients.
    pub fn client_count(&self) -> (r: usize)
        ensures
            r == self.hub@.clients.dom().len(),
    {
        self.hub.len()
    }
}

// ---- Laws ----------------------------------------------------------------------------

/// Whether a text stays on one line.
pub open spec fn one_line(s: Seq<char>) -> bool {
    !s.contains('\n') && !s.contains('\r')
}

/// The name and the value of a line that holds both.
proof fn lemma_field(name: Seq<char>, value: Seq<char>)
    requires
        !name.contains(':'),
    ensures
        field_of(name + seq![':', ' '] + value) == (name, value),
{
    let line = name + seq![':', ' '] + value;
    let n = name.len() as int;
    assert forall|k: int| 0 <= k < n implies line[k] != ':' by {
        assert(line[k] == name[k]);
        assert(name.contains(name[k]));
    }
    assert(line[n] == ':');
    assert(line[n + 1] == ' ');
    lemma_index_of_is(line, ':', 0, n);
    assert(line.take(n) =~= name);
    assert(line.skip(n + 2) =~= value);
}

/// What a reader between two events makes of an event of the given kind.
proof fn lemma_read_back(f: Fields, kind: Seq<char>, data: Seq<char>, text: Seq<char>)
    requires
        !f.has_data,
        f.data.len() == 0,
        one_line(kind),
        kind.len() > 0,
        one_line(data),
        text == "event: "@ + kind + "\ndata: "@ + data + "\n\n"@,
    ensures
        parsed(f, text).1 == Seq::<char>::empty(),
        parsed(f, text).2 == seq![EventView { event_type: kind, data, id: f.id }],
{
    reveal_strlit("event: ");
    reveal_strlit("\ndata: ");
    reveal_strlit("\n\n");
    reveal_strlit("event");
    reveal_strlit("data");
    let first = "event"@ + seq![':', ' '] + kind;
    let second = "data"@ + seq![':', ' '] + data;
    let none = Seq::<char>::empty();
    let tail2 = none.push('\n') + none;
    let tail1 = second.push('\n') + tail2;
    assert(text =~= first.push('\n') + tail1);
    lemma_field("event"@, kind);
    lemma_field("data"@, data);
    assert(one_line(first)) by {
        assert forall|k: int| 0 <= k < first.len() implies first[k] != '\n' && first[k] != '\r' by {
            if k >= 7 {
                assert(first[k] == kind[k - 7]);
                assert(kind.contains(kind[k - 7]));
            }
        }
    }
    assert(one_line(second)) by {
        assert forall|k: int| 0 <= k < second.len() implies second[k] != '\n' && second[k]
            != '\r' by {
            if k >= 6 {
                assert(second[k] == data[k - 6]);
                assert(data.contains(data[k - 6]));
            }
        }
    }
    let f1 = with_field(f, "event"@, kind);
    let f2 = with_field(f1, "data"@, data);
    assert("event"@.len() != "data"@.len());
    assert(first[0] == 'e' && second[0] == 'd');
    lemma_first_line(f, first, tail1);
    lemma_first_line(f1, second, tail2);
    lemma_first_line(f2, none, none);
    assert(f.data + data =~= data);
    let e = EventView { event_type: kind, data, id: f.id };
    assert(parsed(f2, tail2).2 =~= seq![e]);
    assert(one(None) + (one(None) + seq![e]) =~= seq![e]);
}

/// A message that stays on one line is read back from the stream as the event that it was
/// sent as.
pub proof fn law_message_is_read_back(f: Fields, data: Seq<char>)
    requires
        !f.has_data,
        f.data.len() == 0,
        one_line(data),
    ensures
        parsed(f, wire(SseView::Message(data))).1 == Seq::<char>::empty(),
        parsed(f, wire(SseView::Message(data))).2 == seq![
            EventView { event_type: "message"@, data, id: f.id },
        ],
{
    reveal_strlit("event: message\ndata: ");
    reveal_strlit("event: ");
    reveal_strlit("message");
    reveal_strlit("\ndata: ");
    assert("event: message\ndata: "@ =~= "event: "@ + "message"@ + "\ndata: "@);
    assert(one_line("message"@));
    lemma_read_back(f, "message"@, data, wire(SseView::Message(data)));
}

/// The endpoint that a client is told is read back from the stream.
pub proof fn law_endpoint_is_read_back(f: Fields, url: Seq<char>)
    requires
        !f.has_data,
        f.data.len() == 0,
        one_line(url),
    ensures
        parsed(f, wire(SseView::Endpoint(url))).1 == Seq::<char>::empty(),
        parsed(f, wire(SseView::Endpoint(url))).2 == seq![
            EventView { event_type: "endpoint"@, data: url, id: f.id },
        ],
{
    reveal_strlit("event: endpoint\ndata: ");
    reveal_strlit("event: ");
    reveal_strlit("endpoint");
    reveal_strlit("\ndata: ");
    assert("event: endpoint\ndata: "@ =~= "event: "@ + "endpoint"@ + "\ndata: "@);
    assert(one_line("endpoint"@));
    lemma_read_back(f, "endpoint"@, url, wire(SseView::Endpoint(url)));
}

/// A comment that keeps the connection open is no event and changes nothing.
pub proof fn law_keepalive_is_silent(f: Fields)
    requires
        !f.has_data,
        f.event_type.len() == 0,
    ensures
        parsed(f, wire(SseView::Keepalive)) == (
            f,
            Seq::<char>::empty(),
            Seq::<EventView>::empty(),
        ),
{
    reveal_strlit(": keepalive\n\n");
    reveal_strlit(": keepalive");
    let none = Seq::<char>::empty();
    let line = ": keepalive"@;
    let tail = none.push('\n') + none;
    assert(wire(SseView::Keepalive) =~= line.push('\n') + tail);
    assert(one_line(line));
    lemma_first_line(f, line, tail);
    lemma_first_line(f, none, none);
    assert(parsed(f, none).2 =~= Seq::<EventView>::empty());
    assert(one(None) + (one(None) + Seq::<EventView>::empty()) =~= Seq::<EventView>::empty());
    assert(f =~= (Fields { event_type: seq![], ..f }));
}

/// Every message that the child says, whatever it is, reaches every client that listens and
/// has room: the queue gets, behind what waits there, one event for each message, in their
/// order, which holds exactly the text of the message.
pub proof fn law_messages_of_the_child_reach_every_client(
    h: HubView<SseView>,
    m: Metrics,
    ms: Seq<MessageView>,
    now: u64,
    id: Seq<char>,
)
    requires
        h.clients.dom().finite(),
        h.clients.dom().contains(id),
        h.clients[id].listening,
        h.clients[id].events.len() + ms.len() <= CLIENT_CHANNEL_CAP,
    ensures
        ({
            let t = relayed(h, m, ms, now).0;
            let n = h.clients[id].events.len();
            &&& t.clients.dom().contains(id)
            &&& t.clients[id].listening
            &&& t.clients[id].events.len() == n + ms.len()
            &&& t.clients[id].events.take(n as int) == h.clients[id].events
            &&& forall|i: int|
                0 <= i < ms.len() ==> #[trigger] t.clients[id].events[n + i] == SseView::Message(
                    message_text(ms[i]),
                )
        }),
{
    lemma_relayed(h, m, ms, now, id);
    let t = relayed(h, m, ms, now).0;
    let n = h.clients[id].events.len() as int;
    assert(t.clients[id].events.take(n) =~= h.clients[id].events);
}

proof fn lemma_relayed(
    h: HubView<SseView>,
    m: Metrics,
    ms: Seq<MessageView>,
    now: u64,
    id: Seq<char>,
)
    requires
        h.clients.dom().finite(),
        h.clients.dom().contains(id),
        h.clients[id].listening,
        h.clients[id].events.len() + ms.len() <= CLIENT_CHANNEL_CAP,
    ensures
        relayed(h, m, ms, now).0.clients.dom().finite(),
        relayed(h, m, ms, now).0.clients.dom().contains(id),
        relayed(h, m, ms, now).0.clients[id].listening,
        relayed(h, m, ms, now).0.clients[id].events == h.clients[id].events + Seq::new(
            ms.len(),
            |i: int| SseView::Message(message_text(ms[i])),
        ),
    decreases ms.len(),
{
    let all = Seq::new(ms.len(), |i: int| SseView::Message(message_text(ms[i])));
    if ms.len() > 0 {
        let rest = ms.drop_last();
        lemma_relayed(h, m, rest, now, id);
        let g = relayed(h, m, rest, now).0;
        let e = SseView::Message(message_text(ms.last()));
        law_broadcast_reaches_everyone(g, e, now, id);
        assert(published(g, e, now).clients.dom().subset_of(g.clients.dom()));
        vstd::set_lib::lemma_set_subset_finite(g.clients.dom(), published(g, e, now).clients.dom());
        let some = Seq::new(rest.len(), |i: int| SseView::Message(message_text(rest[i])));
        assert((h.clients[id].events + some).push(e) =~= h.clients[id].events + all);
    } else {
        assert(h.clients[id].events + all =~= h.clients[id].events);
    }
}

/// What the child says before any client came is kept for the first one, as far as there is
/// room: one event for each message, in their order.
pub proof fn law_early_messages_of_the_child_are_kept(
    h: HubView<SseView>,
    m: Metrics,
    ms: Seq<MessageView>,
    now: u64,
)
    requires
        h.clients.dom().len() == 0,
        h.early is Some,
        h.early->Some_0.len() + ms.len() <= EARLY_BUFFER_CAP,
    ensures
        relayed(h, m, ms, now) == (
            HubView {
                early: Some(
                    h.early->Some_0 + Seq::new(
                        ms.len(),
                        |i: int| SseView::Message(message_text(ms[i])),
                    ),
                ),
                ..h
            },
            m,
        ),
    decreases ms.len(),
{
    let all = Seq::new(ms.len(), |i: int| SseView::Message(message_text(ms[i])));
    let kept = h.early->Some_0;
    if ms.len() > 0 {
        let rest = ms.drop_last();
        law_early_messages_of_the_child_are_kept(h, m, rest, now);
        let some = Seq::new(rest.len(), |i: int| SseView::Message(message_text(rest[i])));
        assert((kept + some).push(SseView::Message(message_text(ms.last()))) =~= kept + all);
    } else {
        assert(kept + all =~= kept);
    }
}

/// What the child says in one line is sent as if it came line by line.
pub proof fn law_batch_is_sent_message_by_message(
    h: HubView<SseView>,
    m: Metrics,
    a: Seq<MessageView>,
    b: Seq<MessageView>,
    now: u64,
)
    ensures
        relayed(h, m, seq![], now) == (h, m),
        relayed(h, m, a + b, now) == relayed(
            relayed(h, m, a, now).0,
            relayed(h, m, a, now).1,
            b,
            now,
        ),
    decreases b.len(),
{
    if b.len() > 0 {
        law_batch_is_sent_message_by_message(h, m, a, b.drop_last(), now);
        assert((a + b).drop_last() =~= a + b.drop_last());
        assert((a + b).last() == b.last());
    } else {
        assert(a + b =~= a);
    }
}

/// A line of one message holds that message, and a line of many holds them all, in their
/// order.
pub proof fn law_line_holds_its_messages(m: MessageView, ms: Seq<MessageView>)
    ensures
        messages_of(ParsedView::Single(m)).len() == 1,
        messages_of(ParsedView::Single(m))[0] == m,
        messages_of(ParsedView::Batch(ms)) == ms,
{
}

/// A posted message is taken exactly where it names a client that is connected, has a body
/// that is not too long, and the body is JSON-RPC in UTF-8. Else the status says what is
/// wrong.
pub proof fn law_post_is_refused_with_cause(
    g: SseGateway,
    id: Option<Seq<char>>,
    body: Seq<u8>,
    cors: Pairs,
)
    ensures
        ({
            let r = message_refusal(g, id, body, cors);
            let named = id is Some && id->Some_0.len() > 0;
            let connected = named && g.hub@.clients.dom().contains(id->Some_0);
            let readable = valid_utf8(body) && line_error(decode_utf8(body)) is None;
            &&& r is None <==> connected && 0 < body.len() <= 4_194_304 && readable
            &&& !named ==> r->Some_0.status == 400
            &&& named && !connected ==> r->Some_0.status == 503
            &&& connected && body.len() > 4_194_304 ==> r->Some_0.status == 413
            &&& connected && body.len() <= 4_194_304 && (body.len() == 0 || !readable)
                ==> r->Some_0.status == 400
        }),
{
}

/// A stream that was silent for a quarter of a minute is written a comment, and one that was
/// not waits.
pub proof fn law_silence_is_broken_in_time(idle: u64)
    ensures
        idle >= 15_000 ==> silent_step(idle) == StepView::Write(": keepalive\n\n"@),
        idle < 15_000 ==> silent_step(idle) == StepView::Wait,
{
}

/// What a client finds is written to its stream at once, silence is broken in time, and the
/// stream ends when nothing more can come.
pub proof fn law_event_is_written_to_the_stream(e: SseView, idle: u64)
    ensures
        event_step_of(Received::Event(e), idle) == StepView::Write(wire(e)),
        idle < 15_000 ==> event_step_of(Received::Nothing, idle) == StepView::Wait,
        idle >= 15_000 ==> event_step_of(Received::Nothing, idle) is Write,
        event_step_of(Received::Closed, idle) == StepView::Close,
{
}

/// A posted message that was written is accepted, and one that could not be written is
/// answered as a dead child.
pub proof fn law_posted_message_is_accepted(setup: Setup, cors: Pairs)
    ensures
        post_reply(setup, true, cors).status == 202,
        post_reply(setup, true, cors).body == "Accepted"@,
        post_reply(setup, false, cors).status == 502,
{
}

/// A client that connects is told first where to post, under its own name; it gets a stream of
/// events, it is counted, and the other clients do not notice.
pub proof fn law_client_is_told_where_to_post(
    g: SseGateway,
    id: Seq<char>,
    origin: Option<Seq<char>>,
    other: Seq<char>,
)
    requires
        other != id,
        g.metrics.active_clients < u64::MAX,
        g.setup.custom_headers@.len() == 0,
    ensures
        ({
            let (h, m, headers) = connected(g, id, origin);
            &&& h.clients.contains_key(id)
            &&& h.clients[id].listening
            &&& h.clients[id].events.len() > 0
            &&& h.clients[id].events[0] == SseView::Endpoint(
                g.base_url@ + g.message_path@ + "?sessionId="@ + id,
            )
            &&& h.clients.contains_key(other) == g.hub@.clients.contains_key(other)
            &&& h.clients[other] == g.hub@.clients[other]
            &&& m == (Metrics {
                active_clients: (g.metrics.active_clients + 1) as u64,
                ..g.metrics
            })
            &&& headers == seq![
                ("Content-Type"@, "text/event-stream"@),
                ("Cache-Control"@, "no-cache"@),
                ("Connection"@, "keep-alive"@),
                ("X-Accel-Buffering"@, "no"@),
            ] + g.setup.cors_for("GET"@, origin)
        }),
{
    law_client_is_greeted(
        g.hub@,
        id,
        Some(SseView::Endpoint(endpoint_of(g.base_url@, g.message_path@, id))),
        other,
    );
    assert(g.setup.custom() =~= Seq::empty());
}

} // verus!
