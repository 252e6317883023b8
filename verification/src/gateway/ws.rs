//! From stdio to WebSocket: one child for all clients. Answers of the child go to the
//! client that asked; whatever else it says goes to everybody.

use std::time::Instant;

use vstd::prelude::*;
use vstd::set_lib::lemma_len_subset;
use vstd::string::*;
use vstd::utf8::{decode_utf8, encode_utf8, is_ascii_chars_encode_utf8, valid_utf8};

use crate::cli::{headers_view, Header};
use crate::client::http::{get_header, header_value};
use crate::cors::str_view;
use crate::gateway::hub::{
    closed_all, hung_up, is_early, joined, law_broadcast_reaches_everyone,
    law_departures_are_counted, law_event_reaches_its_client, law_last_event_reaches_everyone,
    leavers, nobody, parted_metrics,
    published, published_metrics, received, sent, sent_metrics, without_client, ClientView, Event, Hub,
    HubView, Received, CLIENT_CHANNEL_CAP, EARLY_BUFFER_CAP,
};
use crate::gateway::mux::{
    fresh, law_answer_finds_its_request, mangled, without_owner, without_owners, IdMultiplexer,
    MuxView, Origin,
};
use crate::gateway::reply::{texts_view, GatewayResponse, ReplyView, Setup};
use crate::gateway::sse::{into_messages, messages_of};
use crate::h1::{codec_request, decode_request};
use crate::json::{is_json, RawValue};
use crate::jsonrpc::{
    line_error, line_is, message_text, messages_view, parse_error_text, parse_line, MessageView,
    Parsed, ParsedView, RawMessage,
};
use crate::observe::{counted, Metrics};
use crate::pairs::{push_pair, Pairs};
use crate::serve::{
    close_payload, control_frame, frame_of, header_lines, push_header_lines, text_frame,
};
use crate::session::SessionId;
use crate::store::lists;
use crate::system::{elapsed_ms, is_uuid, start_clock};
use crate::text::{
    body_text, chars_of, decimal, decimal_text, find_char, index_of, law_number_is_read_back, lemma_index_of,
    parse_number, parsed_number, piece, same, signed_decimal, split, split_text,
};

verus! {

/// The longest message of a client, in bytes.
pub const MAX_FRAME_SIZE: usize = 16_777_216;

/// How many clients may be connected.
pub const MAX_WS_CLIENTS: usize = 1024;

/// Nothing is wrong.
pub const WS_CLOSE_NORMAL: u16 = 1000;

/// The client broke a rule.
pub const WS_CLOSE_POLICY: u16 = 1008;

/// The message was too long.
pub const WS_CLOSE_TOO_LARGE: u16 = 1009;

/// The gateway cannot go on, as when the child is dead.
pub const WS_CLOSE_INTERNAL: u16 = 1011;

/// What is sent to a client.
#[derive(Debug)]
pub enum WsEvent {
    /// A message.
    Message(String),
    /// The end of the connection, with a code and a reason.
    Close(u16, String),
}

pub enum WsView {
    Message(Seq<char>),
    Close(u16, Seq<char>),
}

impl View for WsEvent {
    type V = WsView;

    open spec fn view(&self) -> WsView {
        match self {
            WsEvent::Message(s) => WsView::Message(s@),
            WsEvent::Close(code, reason) => WsView::Close(*code, reason@),
        }
    }
}

impl Event for WsEvent {
    fn copy(&self) -> (r: WsEvent) {
        match self {
            WsEvent::Message(s) => WsEvent::Message(s.clone()),
            WsEvent::Close(code, reason) => WsEvent::Close(*code, reason.clone()),
        }
    }
}

/// A client that connected.
#[derive(Debug)]
pub struct WsConnection {
    pub client_id: SessionId,
}

/// The gateway.
pub struct WsGateway {
    pub hub: Hub<WsEvent>,
    pub mux: IdMultiplexer,
    pub setup: Setup,
    pub metrics: Metrics,
    pub clock: Instant,
}

/// What changes as messages come and go.
#[verifier::ext_equal]
pub struct WsState {
    pub hub: HubView<WsView>,
    pub mux: MuxView,
    pub metrics: Metrics,
}

/// After an answer of the child: it goes to whoever asked, under the id that was given.
/// Answers to nobody are dropped.
pub open spec fn answered(s: WsState, msg: MessageView, now: u64) -> WsState {
    let number = match msg.id {
        Some(id) => parsed_number(id, u64::MAX as nat),
        None => None,
    };
    match number {
        None => s,
        Some(n) => {
            let k = n as u64;
            if !s.mux.pending.dom().contains(k) {
                s
            } else {
                let o = s.mux.pending[k];
                let rest = s.mux.pending.remove(k);
                let text = message_text(MessageView { id: Some(o.original), ..msg });
                WsState {
                    hub: sent(s.hub, o.client, WsView::Message(text), now),
                    mux: MuxView {
                        pending: if leavers(s.hub.clients, now).contains(o.client) {
                            without_owner(rest, o.client)
                        } else {
                            rest
                        },
                        ..s.mux
                    },
                    metrics: sent_metrics(s.hub, o.client, now, s.metrics),
                }
            }
        },
    }
}

/// After a message for everybody.
pub open spec fn told_all(s: WsState, msg: MessageView, now: u64) -> WsState {
    WsState {
        hub: published(s.hub, WsView::Message(message_text(msg)), now),
        mux: MuxView {
            pending: if is_early(s.hub) {
                s.mux.pending
            } else {
                without_owners(s.mux.pending, leavers(s.hub.clients, now))
            },
            ..s.mux
        },
        metrics: published_metrics(s.hub, now, s.metrics),
    }
}

/// After a message of the child.
pub open spec fn routed(s: WsState, msg: MessageView, now: u64) -> WsState {
    if msg.is_response() {
        answered(s, msg, now)
    } else {
        told_all(s, msg, now)
    }
}

/// After messages of the child, all at `now`.
pub open spec fn routed_in_turn(s: WsState, ms: Seq<MessageView>, now: u64) -> WsState
    decreases ms.len(),
{
    if ms.len() == 0 {
        s
    } else {
        routed(routed_in_turn(s, ms.drop_last(), now), ms.last(), now)
    }
}

/// A message of a client as the child gets it: one with an id gets a number in its place.
pub open spec fn numbered(m: MuxView, client: Seq<char>, msg: MessageView) -> (
    MuxView,
    MessageView,
) {
    match msg.id {
        Some(id) => (
            mangled(m, Origin { client, original: id }),
            MessageView { id: Some(decimal(m.next_id as nat)), ..msg },
        ),
        None => (m, msg),
    }
}

/// After every client was sent the end of its connection.
pub open spec fn all_dismissed(s: WsState, code: u16, reason: Seq<char>) -> WsState {
    WsState {
        hub: closed_all(s.hub, WsView::Close(code, reason)),
        mux: MuxView { pending: without_owners(s.mux.pending, s.hub.clients.dom()), ..s.mux },
        metrics: parted_metrics(s.metrics, s.hub.clients.dom().len(), 0),
    }
}

/// After a client's connection ended.
pub open spec fn dropped(s: WsState, id: Seq<char>) -> WsState {
    if s.hub.clients.dom().contains(id) {
        WsState {
            hub: without_client(s.hub, id),
            mux: MuxView { pending: without_owner(s.mux.pending, id), ..s.mux },
            metrics: parted_metrics(s.metrics, 1, 0),
        }
    } else {
        s
    }
}

impl WsGateway {
    pub open spec fn state(self) -> WsState {
        WsState { hub: self.hub@, mux: self.mux@, metrics: self.metrics }
    }

    /// Whether only the state differs.
    pub open spec fn same_setup(self, other: WsGateway) -> bool {
        self.setup == other.setup && self.clock == other.clock
    }

    pub fn new(setup: Setup, metrics: Metrics) -> (r: WsGateway)
        ensures
            r.state() == (WsState {
                hub: nobody(),
                mux: MuxView { next_id: 1, pending: Map::empty() },
                metrics,
            }),
            r.setup == setup,
    {
        WsGateway {
            hub: Hub::new(),
            mux: IdMultiplexer::new(),
            setup,
            metrics,
            clock: start_clock(),
        }
    }

    /// Routes what the child said.
    pub fn relay(&mut self, parsed: Parsed)
        ensures
            final(self).same_setup(*old(self)),
            exists|now: u64| #[trigger]
                routed_in_turn(old(self).state(), messages_of(parsed@), now) == final(self).state(),
    {
        let now: u64 = elapsed_ms(&self.clock);
        self.relay_at(parsed, now);
    }

    /// Routes what the child said at `now`.
    pub fn relay_at(&mut self, parsed: Parsed, now: u64)
        ensures
            final(self).same_setup(*old(self)),
            final(self).state() == routed_in_turn(old(self).state(), messages_of(parsed@), now),
    {
        let mut ms = into_messages(parsed);
        let ghost all = messages_view(ms@);
        assert(all.take(0) =~= Seq::<MessageView>::empty());
        let ghost mut done: int = 0;
        while ms.len() > 0
            invariant
                0 <= done,
                done + ms.len() == all.len(),
                forall|k: int| 0 <= k < ms.len() ==> (#[trigger] ms[k])@ == all[done + k],
                self.same_setup(*old(self)),
                self.state() == routed_in_turn(old(self).state(), all.take(done), now),
            decreases ms.len(),
        {
            let ghost last = ms[0]@;
            let msg = ms.remove(0);
            self.route_message(msg, now);
            proof {
                assert(last == all[done]);
                assert(all.take(done + 1).drop_last() =~= all.take(done));
                assert(all.take(done + 1).last() == last);
                done = done + 1;
            }
        }
        assert(all.take(done) =~= all);
    }

    /// Routes a message of the child.
    pub fn route_message(&mut self, msg: RawMessage, now: u64)
        ensures
            final(self).same_setup(*old(self)),
            final(self).state() == routed(old(self).state(), msg@, now),
    {
        if msg.is_response() {
            self.route_response(msg, now);
        } else {
            self.broadcast_message(&msg, now);
        }
    }

    /// Sends an answer to whoever asked.
    pub fn route_response(&mut self, msg: RawMessage, now: u64)
        ensures
            final(self).same_setup(*old(self)),
            final(self).state() == answered(old(self).state(), msg@, now),
    {
        let ghost v = msg@;
        let mut msg = msg;
        let number: Option<u64> = match &msg.id {
            Some(raw) => parse_number(raw.get(), u64::MAX),
            None => None,
        };
        let k: u64 = match number {
            Some(k) => k,
            None => return ,
        };
        let ghost s = self.state();
        match self.mux.unmangle(k) {
            None => {
                assert(self.mux@ =~= s.mux) by {
                    assert(s.mux.pending.remove(k) =~= s.mux.pending);
                }
            },
            Some((client, original)) => {
                let ghost o = s.mux.pending[k];
                let ghost id = original@;
                msg.id = Some(original);
                assert(msg@ =~= (MessageView { id: Some(id), ..v }));
                let json = msg.to_json();
                if self.hub.send(client.as_str(), WsEvent::Message(json), now, &mut self.metrics) {
                    self.mux.remove_client(client.as_str());
                }
                assert(self.state() =~= answered(s, v, now));
            },
        }
    }

    /// Sends a message to everybody.
    pub fn broadcast_message(&mut self, msg: &RawMessage, now: u64)
        ensures
            final(self).same_setup(*old(self)),
            final(self).state() == told_all(old(self).state(), msg@, now),
    {
        let ghost s = self.state();
        let json = msg.to_json();
        let left = self.hub.publish(WsEvent::Message(json), now, &mut self.metrics);
        self.mux.remove_clients(&left);
        proof {
            let gone = Set::new(|id: Seq<char>| lists(left@, id));
            if is_early(s.hub) {
                assert(without_owners(s.mux.pending, gone) =~= s.mux.pending);
            } else {
                assert(gone =~= leavers(s.hub.clients, now));
            }
            assert(self.state() =~= told_all(s, msg@, now));
        }
    }

    /// Tells every client that the gateway cannot go on, and drops them all.
    pub fn child_exited(&mut self)
        ensures
            final(self).same_setup(*old(self)),
            final(self).state() == (WsState {
                hub: closed_all(
                    old(self).hub@,
                    WsView::Close(WS_CLOSE_INTERNAL, "child process exited"@),
                ),
                mux: MuxView {
                    pending: without_owners(old(self).mux@.pending, old(self).hub@.clients.dom()),
                    ..old(self).mux@
                },
                metrics: parted_metrics(
                    old(self).metrics,
                    old(self).hub@.clients.dom().len(),
                    0,
                ),
            }),
            final(self).state() == all_dismissed(
                old(self).state(),
                WS_CLOSE_INTERNAL,
                "child process exited"@,
            ),
    {
        self.close_all_clients(WS_CLOSE_INTERNAL, "child process exited");
    }

    /// Sends every client the end of its connection, and drops them all.
    pub fn close_all_clients(&mut self, code: u16, reason: &str)
        ensures
            final(self).same_setup(*old(self)),
            final(self).state() == (WsState {
                hub: closed_all(old(self).hub@, WsView::Close(code, reason@)),
                mux: MuxView {
                    pending: without_owners(old(self).mux@.pending, old(self).hub@.clients.dom()),
                    ..old(self).mux@
                },
                metrics: parted_metrics(
                    old(self).metrics,
                    old(self).hub@.clients.dom().len(),
                    0,
                ),
            }),
            final(self).state() == all_dismissed(old(self).state(), code, reason@),
    {
        let ghost clients = self.hub@.clients.dom();
        let last = WsEvent::Close(code, reason.to_owned());
        let left = self.hub.close_all(&last, &mut self.metrics);
        self.mux.remove_clients(&left);
        proof {
            assert(Set::new(|id: Seq<char>| lists(left@, id)) =~= clients);
        }
    }

    /// Takes in a client under a name at random; refuses it where there are too many.
    pub fn handle_ws_connect(&mut self) -> (r: Result<WsConnection, GatewayResponse>)
        ensures
            final(self).same_setup(*old(self)),
            match r {
                Ok(c) => is_uuid(c.client_id@) && old(self).hub@.clients.dom().len()
                    < MAX_WS_CLIENTS && final(self).state() == connected(old(self).state(), c.client_id@),
                Err(x) => old(self).hub@.clients.dom().len() >= MAX_WS_CLIENTS
                    && final(self).state() == old(self).state() && x@ == too_many(),
            },
    {
        self.connect_as(SessionId::new())
    }

    /// Takes in a client; refuses it where there are too many.
    pub fn connect_as(&mut self, client_id: SessionId) -> (r: Result<WsConnection, GatewayResponse>)
        ensures
            final(self).same_setup(*old(self)),
            match r {
                Ok(c) => old(self).hub@.clients.dom().len() < MAX_WS_CLIENTS && c.client_id
                    == client_id && final(self).state() == connected(
                    old(self).state(),
                    client_id@,
                ),
                Err(x) => old(self).hub@.clients.dom().len() >= MAX_WS_CLIENTS
                    && final(self).state() == old(self).state() && x@ == too_many(),
            },
    {
        if self.hub.len() >= MAX_WS_CLIENTS {
            let headers: Vec<(String, String)> = Vec::new();
            assert(headers.deep_view() =~= Seq::<(Seq<char>, Seq<char>)>::empty());
            return Err(
                GatewayResponse { status: 503, headers, body: "Too Many Connections".to_owned() },
            );
        }
        self.hub.join(client_id.value.clone(), None, &mut self.metrics);
        Ok(WsConnection { client_id })
    }

    /// Checks a text of a client: gives the messages in it, or the code and the reason for
    /// which the connection ends. A text that is no JSON-RPC is dropped, with a line for the
    /// log.
    pub fn handle_ws_message(&mut self, client_id: &SessionId, text: &str) -> (r: Result<
        WsText,
        (u16, String),
    >)
        ensures
            final(self).same_setup(*old(self)),
            final(self).state() == (WsState {
                metrics: Metrics {
                    total_requests: counted(old(self).metrics.total_requests),
                    ..old(self).metrics
                },
                ..old(self).state()
            }),
            text_taken(
                client_id@,
                text@,
                match r {
                    Ok(t) => Ok(t@),
                    Err(e) => Err((e.0, e.1@)),
                },
            ),
    {
        Metrics::inc(&mut self.metrics.total_requests);
        if text.as_bytes().len() > MAX_FRAME_SIZE {
            return Err((WS_CLOSE_TOO_LARGE, "message too large".to_owned()));
        }
        match parse_line(text) {
            Ok(p) => {
                assert(line_is(text@, p@));
                Ok(WsText::Messages(into_messages(p)))
            },
            Err(e) => {
                let line = "invalid JSON from client ".to_owned().concat(
                    client_id.as_str(),
                ).concat(": ").concat(e.message().as_str());
                Ok(WsText::Invalid(line))
            },
        }
    }

    /// Makes a message of a client ready for the child. The messages of a text are numbered
    /// and written one by one: after a write that failed the rest is neither.
    pub fn number_message(&mut self, client_id: &SessionId, msg: RawMessage) -> (r: RawMessage)
        ensures
            final(self).same_setup(*old(self)),
            final(self).hub@ == old(self).hub@,
            final(self).metrics == old(self).metrics,
            (final(self).mux@, r@) == numbered(old(self).mux@, client_id@, msg@),
    {
        let mut msg = msg;
        if let Some(original) = msg.id.take() {
            let k: u64 = self.mux.mangle(client_id, &original);
            let number = decimal_text(k);
            assert(number@ == signed_decimal(k as int));
            assert(is_json(number@));
            msg.id = Some(RawValue::written(number));
        }
        msg
    }

    /// The next event for a client.
    pub fn next_event(&mut self, client_id: &SessionId) -> (r: Received<WsEvent>)
        ensures
            final(self).same_setup(*old(self)),
            final(self).mux@ == old(self).mux@,
            final(self).metrics == old(self).metrics,
            (final(self).hub@, r@) == received(old(self).hub@, client_id@),
    {
        self.hub.receive(client_id.as_str())
    }

    /// Notes that nobody reads the events of a client any more.
    pub fn stop_listening(&mut self, client_id: &SessionId)
        ensures
            final(self).same_setup(*old(self)),
            final(self).mux@ == old(self).mux@,
            final(self).metrics == old(self).metrics,
            final(self).hub@ == hung_up(old(self).hub@, client_id@),
    {
        self.hub.hang_up(client_id.as_str());
    }

    /// Drops a client whose connection ended, and its requests.
    pub fn disconnect_client(&mut self, client_id: &SessionId)
        ensures
            final(self).same_setup(*old(self)),
            final(self).state() == dropped(old(self).state(), client_id@),
    {
        if self.hub.part(client_id.as_str(), &mut self.metrics) {
            self.mux.remove_client(client_id.as_str());
        }
    }

    /// Answers a request to a health endpoint; nothing where the path is not that of one.
    pub fn handle_health(&self, path: &str, detail: bool, origin: Option<&str>) -> (r: Option<
        GatewayResponse,
    >)
        ensures
            match self.setup.health_reply(self.metrics, path@, detail, str_view(origin)) {
                Some(v) => r matches Some(x) && x@ == v,
                None => r is None,
            },
    {
        self.setup.health_response(&self.metrics, path, detail, origin)
    }

    /// Answers a preflight request; nothing where cross-origin requests are not dealt with.
    pub fn handle_options(&self, origin: Option<&str>) -> (r: Option<GatewayResponse>)
        ensures
            match self.setup.options_reply(str_view(origin)) {
                Some(v) => r matches Some(x) && x@ == v,
                None => r is None,
            },
    {
        self.setup.options_response(origin)
    }

    /// The number of connected clients.
    pub fn client_count(&self) -> (r: usize)
        ensures
            r == self.hub@.clients.dom().len(),
    {
        self.hub.len()
    }

    /// The custom headers, which the answer to the opening request carries too.
    pub fn custom_headers(&self) -> (r: &Vec<Header>)
        ensures
            r == self.setup.custom_headers,
    {
        &self.setup.custom_headers
    }
}

/// The refusal of a client where there are too many.
pub open spec fn too_many() -> ReplyView {
    ReplyView { status: 503, headers: seq![], body: "Too Many Connections"@ }
}

/// After a client came.
pub open spec fn connected(s: WsState, id: Seq<char>) -> WsState {
    WsState {
        hub: joined(s.hub, id, None),
        metrics: Metrics { active_clients: counted(s.metrics.active_clients), ..s.metrics },
        ..s
    }
}

/// What a text of a client holds.
pub enum WsText {
    /// Messages for the child.
    Messages(Vec<RawMessage>),
    /// No JSON-RPC: the line for the log.
    Invalid(String),
}

#[verifier::ext_equal]
pub enum TextView {
    Messages(Seq<MessageView>),
    Invalid(Seq<char>),
}

impl View for WsText {
    type V = TextView;

    open spec fn view(&self) -> TextView {
        match self {
            WsText::Messages(ms) => TextView::Messages(messages_view(ms@)),
            WsText::Invalid(line) => TextView::Invalid(line@),
        }
    }
}

/// What becomes of a client's text: what it holds, or why the connection ends.
pub open spec fn text_taken(
    client: Seq<char>,
    text: Seq<char>,
    r: Result<TextView, (u16, Seq<char>)>,
) -> bool {
    if encode_utf8(text).len() > MAX_FRAME_SIZE {
        r == Err::<TextView, (u16, Seq<char>)>((WS_CLOSE_TOO_LARGE, "message too large"@))
    } else {
        match line_error(text) {
            Some(e) => r == Ok::<TextView, (u16, Seq<char>)>(
                TextView::Invalid(
                    "invalid JSON from client "@ + client + ": "@ + parse_error_text(e),
                ),
            ),
            None => exists|p: ParsedView| #[trigger]
                line_is(text, p) && r == Ok::<TextView, (u16, Seq<char>)>(
                    TextView::Messages(messages_of(p)),
                ),
        }
    }
}

// ---- The opening of a connection ----------------------------------------------------------

pub uninterp spec fn handshake_answer(request: Seq<u8>) -> Option<Seq<u8>>;

/// `ServerHandshake::accept` of a plain `ServerHandshake` on the request that
/// `HttpRequest::parse` reads from the bytes, written by `AcceptResponse::response_bytes`:
/// the answer that opens the connection, or nothing where either refuses the request.
#[verifier::external_body]
fn accept_handshake(request: &[u8]) -> (r: Option<Vec<u8>>)
    ensures
        r is Some <==> handshake_answer(request@) is Some,
        r is Some ==> handshake_answer(request@)->Some_0 == r->Some_0@,
{
    let parsed = asupersync::net::websocket::HttpRequest::parse(request).ok()?;
    let accept = asupersync::net::websocket::ServerHandshake::new().accept(&parsed).ok()?;
    Some(accept.response_bytes())
}

/// The path of a request target.
pub open spec fn path_of(uri: Seq<char>) -> Seq<char> {
    if index_of(uri, '?', 0) < uri.len() {
        uri.take(index_of(uri, '?', 0))
    } else {
        uri
    }
}

/// The query of a request target.
pub open spec fn query_of(uri: Seq<char>) -> Seq<char> {
    if index_of(uri, '?', 0) < uri.len() {
        uri.skip(index_of(uri, '?', 0) + 1)
    } else {
        seq![]
    }
}

/// Whether the query asks for details.
pub open spec fn wants_detail(query: Seq<char>) -> bool {
    split(query, '&').contains("detail=true"@)
}

/// Parts a request target into path and query.
pub fn split_target(uri: &str) -> (r: (String, String))
    ensures
        r.0@ == path_of(uri@),
        r.1@ == query_of(uri@),
{
    let v = chars_of(uri);
    let at: usize = find_char(&v, '?', 0);
    if at < v.len() {
        assert(v@.subrange(0, at as int) =~= path_of(uri@));
        assert(v@.subrange(at + 1, v.len() as int) =~= query_of(uri@));
        (piece(&v, 0, at), piece(&v, at + 1, v.len()))
    } else {
        (uri.to_owned(), String::new())
    }
}

fn detail_wanted(query: &str) -> (r: bool)
    ensures
        r == wants_detail(query@),
{
    let parts = split_text(query, '&');
    let ghost all = split(query@, '&');
    let mut i: usize = 0;
    while i < parts.len()
        invariant
            i <= parts.len(),
            all == split(query@, '&'),
            all == parts.deep_view(),
            forall|k: int| 0 <= k < i ==> #[trigger] all[k] != "detail=true"@,
        decreases parts.len() - i,
    {
        if same(parts[i].as_str(), "detail=true") {
            assert(all[i as int] == "detail=true"@);
            return true;
        }
        i += 1;
    }
    false
}

/// The opening request as it is handed to the handshake.
pub open spec fn opening_request(uri: Seq<char>, headers: Pairs) -> Seq<u8> {
    encode_utf8("GET "@ + uri + " HTTP/1.1\r\n"@ + header_lines(headers, 0) + "\r\n"@)
}

/// Whether the bytes end with a blank line.
pub open spec fn ends_head(b: Seq<u8>) -> bool {
    b.len() >= 4 && b[b.len() - 4] == 13 && b[b.len() - 3] == 10 && b[b.len() - 2] == 13 && b[b.len()
        - 1] == 10
}

/// The answer to the opening request with the custom headers in it.
pub open spec fn opening_answer(answer: Seq<u8>, custom: Pairs) -> Seq<u8> {
    if ends_head(answer) {
        answer.take(answer.len() - 2) + encode_utf8(header_lines(custom, 0)) + seq![13u8, 10u8]
    } else {
        answer
    }
}

fn header_pairs(headers: &Vec<Header>) -> (r: Vec<(String, String)>)
    ensures
        r.deep_view() == headers_view(headers@),
{
    let mut out: Vec<(String, String)> = Vec::new();
    let mut i: usize = 0;
    while i < headers.len()
        invariant
            i <= headers.len(),
            out.deep_view() == headers_view(headers@).take(i as int),
        decreases headers.len() - i,
    {
        push_pair(&mut out, headers[i].name.as_str(), headers[i].value.clone());
        assert(out.deep_view() =~= headers_view(headers@).take(i + 1));
        i += 1;
    }
    assert(out.deep_view() =~= headers_view(headers@));
    out
}

/// Puts the custom headers into the answer to an opening request.
pub fn with_opening_headers(answer: Vec<u8>, custom: &Vec<Header>) -> (r: Vec<u8>)
    ensures
        r@ == opening_answer(answer@, headers_view(custom@)),
{
    let n: usize = answer.len();
    if n < 4 || answer[n - 4] != 13 || answer[n - 3] != 10 || answer[n - 2] != 13 || answer[n - 1]
        != 10 {
        return answer;
    }
    let ghost before = answer@;
    let mut out = answer;
    out.truncate(n - 2);
    let pairs = header_pairs(custom);
    let mut lines = String::new();
    push_header_lines(&mut lines, &pairs);
    assert(lines@ =~= header_lines(headers_view(custom@), 0));
    out.extend_from_slice(lines.as_str().as_bytes());
    out.push(13);
    out.push(10);
    assert(out@ =~= opening_answer(before, headers_view(custom@)));
    out
}

/// What is done with the request that comes first on a connection.
#[derive(Debug)]
pub enum Opening {
    /// It is answered, and the connection ends.
    Respond(GatewayResponse),
    /// These bytes are its answer, and the connection ends.
    Refuse(Vec<u8>),
    /// The connection ends without an answer.
    HangUp,
    /// The connection opens with these bytes.
    Upgrade(SessionId, Vec<u8>),
}

pub enum OpeningView {
    Respond(ReplyView),
    Refuse(Seq<u8>),
    HangUp,
    Upgrade(Seq<char>, Seq<u8>),
}

impl View for Opening {
    type V = OpeningView;

    open spec fn view(&self) -> OpeningView {
        match self {
            Opening::Respond(x) => OpeningView::Respond(x@),
            Opening::Refuse(b) => OpeningView::Refuse(b@),
            Opening::HangUp => OpeningView::HangUp,
            Opening::Upgrade(id, b) => OpeningView::Upgrade(id@, b@),
        }
    }
}

pub open spec fn no_method() -> Seq<u8> {
    encode_utf8("HTTP/1.1 405 Method Not Allowed\r\nContent-Length: 0\r\n\r\n"@)
}

pub open spec fn no_handshake() -> Seq<u8> {
    encode_utf8("HTTP/1.1 400 Bad Request\r\nContent-Length: 0\r\n\r\n"@)
}

/// What is done after the handshake was tried for the client `id`, and the state after it.
pub open spec fn upgraded(
    s: WsState,
    setup: Setup,
    id: Seq<char>,
    answer: Option<Seq<u8>>,
) -> (WsState, OpeningView) {
    match answer {
        None => (s, OpeningView::Refuse(no_handshake())),
        Some(b) => if s.hub.clients.dom().len() >= MAX_WS_CLIENTS {
            (s, OpeningView::Respond(too_many()))
        } else {
            (connected(s, id), OpeningView::Upgrade(id, opening_answer(b, setup.custom())))
        },
    }
}

/// What is done with the first request for a client that would be called `id`, and the
/// state after it.
pub open spec fn opened(
    s: WsState,
    setup: Setup,
    id: Seq<char>,
    method: Seq<char>,
    uri: Seq<char>,
    headers: Pairs,
) -> (WsState, OpeningView) {
    let origin = header_value(headers, "origin"@);
    let health = setup.health_reply(s.metrics, path_of(uri), wants_detail(query_of(uri)), origin);
    if health is Some {
        (s, OpeningView::Respond(health->Some_0))
    } else if method == "OPTIONS"@ {
        match setup.options_reply(origin) {
            Some(v) => (s, OpeningView::Respond(v)),
            None => (s, OpeningView::HangUp),
        }
    } else if method != "GET"@ {
        (s, OpeningView::Refuse(no_method()))
    } else {
        upgraded(s, setup, id, handshake_answer(opening_request(uri, headers)))
    }
}

fn text_bytes(text: &str) -> (r: Vec<u8>)
    ensures
        r@ == encode_utf8(text@),
{
    let mut out: Vec<u8> = Vec::new();
    out.extend_from_slice(text.as_bytes());
    assert(out@ =~= encode_utf8(text@));
    out
}

pub open spec fn bytes_view(b: Option<Vec<u8>>) -> Option<Seq<u8>> {
    match b {
        Some(v) => Some(v@),
        None => None,
    }
}

/// Whether `t` and `o` are the state after such a request and what is done with it, under
/// some name for the client.
pub open spec fn opened_at_random(
    s: WsState,
    setup: Setup,
    method: Seq<char>,
    uri: Seq<char>,
    headers: Pairs,
    t: WsState,
    o: OpeningView,
) -> bool {
    exists|id: Seq<char>|
        is_uuid(id) && (t, o) == #[trigger] opened(s, setup, id, method, uri, headers)
}

impl WsGateway {
    /// Decides about the bytes that came first on a connection; nothing where they are no
    /// complete request yet. The connection ends where they are none at all.
    pub fn open_bytes(&mut self, input: &[u8]) -> (r: Option<Opening>)
        ensures
            final(self).same_setup(*old(self)),
            match codec_request(input@) {
                Ok(Some(q)) => r is Some && opened_at_random(
                    old(self).state(),
                    old(self).setup,
                    q.method,
                    q.uri,
                    q.headers,
                    final(self).state(),
                    r->Some_0@,
                ),
                Ok(None) => r is None && final(self).state() == old(self).state(),
                Err(_) => r == Some(Opening::HangUp) && final(self).state() == old(self).state(),
            },
    {
        match decode_request(input) {
            Ok(Some(q)) => Some(
                self.open_connection(q.method.as_str(), q.uri.as_str(), &q.headers),
            ),
            Ok(None) => None,
            Err(_) => Some(Opening::HangUp),
        }
    }

    /// Decides about the request that comes first on a connection. A client that is let in
    /// gets a name at random.
    pub fn open_connection(&mut self, method: &str, uri: &str, headers: &Vec<(String, String)>) -> (r:
        Opening)
        ensures
            final(self).same_setup(*old(self)),
            opened_at_random(
                old(self).state(),
                old(self).setup,
                method@,
                uri@,
                headers.deep_view(),
                final(self).state(),
                r@,
            ),
    {
        self.open_as(SessionId::new(), method, uri, headers)
    }

    /// Decides about the request that comes first on a connection.
    pub fn open_as(
        &mut self,
        id: SessionId,
        method: &str,
        uri: &str,
        headers: &Vec<(String, String)>,
    ) -> (r: Opening)
        ensures
            final(self).same_setup(*old(self)),
            (final(self).state(), r@) == opened(
                old(self).state(),
                old(self).setup,
                id@,
                method@,
                uri@,
                headers.deep_view(),
            ),
    {
        let (path, query) = split_target(uri);
        let origin = get_header(headers, "origin");
        if let Some(resp) = self.handle_health(
            path.as_str(),
            detail_wanted(query.as_str()),
            origin,
        ) {
            return Opening::Respond(resp);
        }
        if same(method, "OPTIONS") {
            return match self.handle_options(origin) {
                Some(resp) => Opening::Respond(resp),
                None => Opening::HangUp,
            };
        }
        if !same(method, "GET") {
            return Opening::Refuse(
                text_bytes("HTTP/1.1 405 Method Not Allowed\r\nContent-Length: 0\r\n\r\n"),
            );
        }
        let mut raw = "GET ".to_owned().concat(uri).concat(" HTTP/1.1\r\n");
        push_header_lines(&mut raw, headers);
        raw.append("\r\n");
        let answer = accept_handshake(raw.as_str().as_bytes());
        assert(bytes_view(answer) == handshake_answer(opening_request(uri@, headers.deep_view())));
        self.upgrade(id, answer)
    }

    /// Lets a client in, once the handshake was tried.
    pub fn upgrade(&mut self, id: SessionId, answer: Option<Vec<u8>>) -> (r: Opening)
        ensures
            final(self).same_setup(*old(self)),
            (final(self).state(), r@) == upgraded(
                old(self).state(),
                old(self).setup,
                id@,
                bytes_view(answer),
            ),
    {
        match answer {
            None => Opening::Refuse(
                text_bytes("HTTP/1.1 400 Bad Request\r\nContent-Length: 0\r\n\r\n"),
            ),
            Some(bytes) => match self.connect_as(id) {
                Err(resp) => Opening::Respond(resp),
                Ok(conn) => Opening::Upgrade(
                    conn.client_id,
                    with_opening_headers(bytes, &self.setup.custom_headers),
                ),
            },
        }
    }
}

// ---- Frames --------------------------------------------------------------------------------

/// Whether a close frame can hold the code and the reason.
pub open spec fn is_sendable(code: u16, reason: Seq<char>) -> bool {
    &&& 1000 <= code <= 1003 || 1007 <= code <= 1014 || 3000 <= code <= 4999
    &&& encode_utf8(reason).len() <= 123
}

/// Whether a close frame can hold the code and the reason.
pub fn sendable(code: u16, reason: &str) -> (r: bool)
    ensures
        r == is_sendable(code, reason@),
{
    (1000 <= code && code <= 1003 || 1007 <= code && code <= 1014 || 3000 <= code && code <= 4999)
        && reason.as_bytes().len() <= 123
}

/// `FrameCodec::encode` of a `Frame::text` by a server: an unmasked text frame.
#[verifier::external_body]
fn encode_text(payload: Vec<u8>) -> (r: Vec<u8>)
    ensures
        r@ == text_frame(payload@),
{
    let mut out = asupersync::bytes::BytesMut::new();
    let frame = asupersync::net::websocket::Frame::text(payload);
    let mut codec = asupersync::net::websocket::FrameCodec::server();
    let _ = asupersync::codec::Encoder::encode(&mut codec, frame, &mut out);
    out.to_vec()
}

/// `FrameCodec::encode` of a `Frame::close` by a server: an unmasked close frame. What
/// `Frame::close` panics on, a code that is not to be sent or too long a reason, is left
/// out.
#[verifier::external_body]
fn encode_close(code: u16, reason: &str) -> (r: Vec<u8>)
    requires
        is_sendable(code, reason@),
    ensures
        r@ == control_frame(0x88, close_payload(code, reason@)),
{
    let mut out = asupersync::bytes::BytesMut::new();
    let frame = asupersync::net::websocket::Frame::close(Some(code), Some(reason));
    let mut codec = asupersync::net::websocket::FrameCodec::server();
    let _ = asupersync::codec::Encoder::encode(&mut codec, frame, &mut out);
    out.to_vec()
}

/// `FrameCodec::encode` of a `Frame::pong` by a server: an unmasked pong frame, or nothing
/// where the payload is too long for one.
#[verifier::external_body]
fn encode_pong(payload: Vec<u8>) -> (r: Option<Vec<u8>>)
    ensures
        r is Some <==> payload@.len() <= 125,
        r is Some ==> r->Some_0@ == control_frame(0x8A, payload@),
{
    let mut out = asupersync::bytes::BytesMut::new();
    let frame = asupersync::net::websocket::Frame::pong(payload);
    let mut codec = asupersync::net::websocket::FrameCodec::server();
    asupersync::codec::Encoder::encode(&mut codec, frame, &mut out).ok()?;
    Some(out.to_vec())
}

pub uninterp spec fn codec_frame(input: Seq<u8>) -> Result<Option<(u8, Seq<u8>, Seq<u8>)>, ()>;

pub open spec fn decoded_view(r: Result<Option<(u8, Vec<u8>, Vec<u8>)>, ()>) -> Result<
    Option<(u8, Seq<u8>, Seq<u8>)>,
    (),
> {
    match r {
        Ok(Some((opcode, payload, rest))) => Ok(Some((opcode, payload@, rest@))),
        Ok(None) => Ok(None),
        Err(_) => Err(()),
    }
}

/// Whether a frame that was read is the one at the beginning of the bytes, with the bytes
/// behind it.
pub open spec fn is_first_frame(
    input: Seq<u8>,
    r: Result<Option<(u8, Vec<u8>, Vec<u8>)>, ()>,
) -> bool {
    match r {
        Ok(Some((opcode, payload, rest))) => match frame_of(input) {
            Some((f, n)) => opcode == f.opcode && payload@ == f.payload && rest@ == input.skip(n)
                && (opcode >= 8 ==> payload@.len() <= 125),
            None => false,
        },
        _ => true,
    }
}

/// `FrameCodec::decode` by a server: the opcode and the payload of the frame at the
/// beginning of the bytes, and the bytes behind it; nothing where the frame is not complete
/// yet; an error where it breaks the protocol. A control frame has at most 125 bytes.
#[verifier::external_body]
fn decode_frame(input: &[u8]) -> (r: Result<Option<(u8, Vec<u8>, Vec<u8>)>, ()>)
    ensures
        decoded_view(r) == codec_frame(input@),
        is_first_frame(input@, r),
{
    let mut buf = asupersync::bytes::BytesMut::from(input);
    let mut codec = asupersync::net::websocket::FrameCodec::server();
    match asupersync::codec::Decoder::decode(&mut codec, &mut buf) {
        Ok(Some(f)) => Ok(Some((f.opcode as u8, f.payload.to_vec(), buf.to_vec()))),
        Ok(None) => Ok(None),
        Err(_) => Err(()),
    }
}

/// The bytes of an event.
pub open spec fn event_wire(e: WsView) -> Seq<u8> {
    match e {
        WsView::Message(json) => text_frame(encode_utf8(json)),
        WsView::Close(code, reason) => control_frame(0x88, close_payload(code, reason)),
    }
}

/// Writes an event as it goes to the client.
pub fn event_bytes(e: &WsEvent) -> (r: Vec<u8>)
    requires
        e@ matches WsView::Close(code, reason) ==> is_sendable(code, reason),
    ensures
        r@ == event_wire(e@),
{
    match e {
        WsEvent::Message(json) => encode_text(text_bytes(json.as_str())),
        WsEvent::Close(code, reason) => encode_close(*code, reason.as_str()),
    }
}

/// What is done with a frame of a client.
pub enum FrameAction {
    Ignore,
    /// The messages are numbered and written to the child, one by one.
    Forward(Vec<RawMessage>),
    /// The line is logged.
    Note(String),
    /// The bytes are sent back.
    Reply(Vec<u8>),
    /// The bytes are sent back, and the connection ends.
    Close(Vec<u8>),
}

#[verifier::ext_equal]
pub enum ActionView {
    Ignore,
    Forward(Seq<MessageView>),
    Note(Seq<char>),
    Reply(Seq<u8>),
    Close(Seq<u8>),
}

impl View for FrameAction {
    type V = ActionView;

    open spec fn view(&self) -> ActionView {
        match self {
            FrameAction::Ignore => ActionView::Ignore,
            FrameAction::Forward(ms) => ActionView::Forward(messages_view(ms@)),
            FrameAction::Note(line) => ActionView::Note(line@),
            FrameAction::Reply(b) => ActionView::Reply(b@),
            FrameAction::Close(b) => ActionView::Close(b@),
        }
    }
}

pub open spec fn close_wire(code: u16, reason: Seq<char>) -> ActionView {
    ActionView::Close(event_wire(WsView::Close(code, reason)))
}

/// What is done with a frame of a client, and the state after it: a text is a message for
/// the child, a ping is answered by a pong, and a close frame by another.
pub open spec fn frame_taken(
    s: WsState,
    client: Seq<char>,
    opcode: u8,
    payload: Seq<u8>,
    a: ActionView,
    t: WsState,
) -> bool {
    if opcode == 1 {
        if !valid_utf8(payload) {
            a == close_wire(WS_CLOSE_POLICY, "invalid UTF-8"@) && t == s
        } else {
            t == (WsState {
                metrics: Metrics { total_requests: counted(s.metrics.total_requests), ..s.metrics },
                ..s
            }) && exists|r: Result<TextView, (u16, Seq<char>)>| #[trigger]
                text_taken(client, decode_utf8(payload), r) && a == (match r {
                    Ok(TextView::Messages(ms)) => ActionView::Forward(ms),
                    Ok(TextView::Invalid(line)) => ActionView::Note(line),
                    Err(e) => close_wire(e.0, e.1),
                })
        }
    } else if opcode == 9 {
        t == s && a == (if payload.len() <= 125 {
            ActionView::Reply(control_frame(0x8A, payload))
        } else {
            ActionView::Ignore
        })
    } else if opcode == 8 {
        t == s && a == close_wire(WS_CLOSE_NORMAL, ""@)
    } else {
        t == s && a == ActionView::Ignore
    }
}

/// What was found in the bytes of a client.
pub enum Input {
    /// A frame, what is done with it, and the bytes behind it.
    Frame(FrameAction, Vec<u8>),
    /// No complete frame yet.
    More,
    /// Something that breaks the protocol: the connection ends.
    Broken,
}

impl WsGateway {
    /// Takes the next frame out of the bytes of a client.
    pub fn handle_input(&mut self, client_id: &SessionId, input: &[u8]) -> (r: Input)
        ensures
            final(self).same_setup(*old(self)),
            match codec_frame(input@) {
                Ok(Some((opcode, payload, rest))) => match r {
                    Input::Frame(a, b) => b@ == rest && frame_taken(
                        old(self).state(),
                        client_id@,
                        opcode,
                        payload,
                        a@,
                        final(self).state(),
                    ),
                    _ => false,
                },
                Ok(None) => r is More && final(self).state() == old(self).state(),
                Err(_) => r is Broken && final(self).state() == old(self).state(),
            },
    {
        match decode_frame(input) {
            Ok(Some((opcode, payload, rest))) => {
                let action = self.handle_frame(client_id, opcode, payload);
                Input::Frame(action, rest)
            },
            Ok(None) => Input::More,
            Err(_) => Input::Broken,
        }
    }

    /// Decides about a frame of a client.
    pub fn handle_frame(&mut self, client_id: &SessionId, opcode: u8, payload: Vec<u8>) -> (r:
        FrameAction)
        ensures
            final(self).same_setup(*old(self)),
            frame_taken(
                old(self).state(),
                client_id@,
                opcode,
                payload@,
                r@,
                final(self).state(),
            ),
    {
        if opcode == 1 {
            proof {
                reveal_strlit("invalid UTF-8");
                reveal_strlit("message too large");
                is_ascii_chars_encode_utf8("invalid UTF-8"@);
                is_ascii_chars_encode_utf8("message too large"@);
            }
            let text = match body_text(payload.as_slice()) {
                Some(t) => t,
                None => {
                    return FrameAction::Close(encode_close(WS_CLOSE_POLICY, "invalid UTF-8"));
                },
            };
            let taken = self.handle_ws_message(client_id, text.as_str());
            let ghost r: Result<TextView, (u16, Seq<char>)> = match &taken {
                Ok(t) => Ok(t@),
                Err(e) => Err((e.0, e.1@)),
            };
            assert(text_taken(client_id@, decode_utf8(payload@), r));
            match taken {
                Ok(WsText::Messages(ms)) => FrameAction::Forward(ms),
                Ok(WsText::Invalid(line)) => FrameAction::Note(line),
                Err((code, reason)) => FrameAction::Close(encode_close(code, reason.as_str())),
            }
        } else if opcode == 9 {
            match encode_pong(payload) {
                Some(b) => FrameAction::Reply(b),
                None => FrameAction::Ignore,
            }
        } else if opcode == 8 {
            proof {
                reveal_strlit("");
                is_ascii_chars_encode_utf8(""@);
            }
            FrameAction::Close(encode_close(WS_CLOSE_NORMAL, ""))
        } else {
            FrameAction::Ignore
        }
    }
}

/// Why a connection ends when the child does not take a message.
pub fn child_lost() -> (r: (u16, String))
    ensures
        r.0 == WS_CLOSE_INTERNAL,
        r.1@ == "child process dead"@,
{
    (WS_CLOSE_INTERNAL, "child process dead".to_owned())
}

// ---- Laws ----------------------------------------------------------------------------------

/// The answer to a client's request goes to that client alone, under the very id that the
/// client gave, of whatever kind it is; afterwards the request is forgotten.
pub proof fn law_answer_returns_to_its_client(
    s: WsState,
    client: Seq<char>,
    request: MessageView,
    answer: MessageView,
    now: u64,
)
    requires
        fresh(s.mux),
        request.id is Some,
        answer.is_response(),
        answer.id == numbered(s.mux, client, request).1.id,
    ensures
        ({
            let t = WsState { mux: numbered(s.mux, client, request).0, ..s };
            let after = routed(t, answer, now);
            &&& after.hub == sent(
                s.hub,
                client,
                WsView::Message(message_text(MessageView { id: request.id, ..answer })),
                now,
            )
            &&& !after.mux.pending.dom().contains(s.mux.next_id)
            &&& !leavers(s.hub.clients, now).contains(client) ==> after.mux.pending
                == s.mux.pending
        }),
{
    law_number_is_read_back(s.mux.next_id as nat, u64::MAX as nat);
    law_answer_finds_its_request(s.mux, Origin { client, original: request.id->Some_0 });
}

/// Two answers with the same number reach a client at most once: the second is dropped.
pub proof fn law_second_answer_is_dropped(s: WsState, answer: MessageView, now: u64, later: u64)
    requires
        answer.is_response(),
    ensures
        routed(routed(s, answer, now), answer, later) == routed(s, answer, now),
{
}

/// What is no answer goes to everybody.
pub proof fn law_requests_and_notifications_go_to_all(s: WsState, msg: MessageView, now: u64)
    requires
        msg.is_request() || msg.is_notification(),
    ensures
        routed(s, msg, now).hub == published(s.hub, WsView::Message(message_text(msg)), now),
{
}

/// There are never more clients than the bound: one more is let in only below it, and
/// neither a message nor a departure adds one.
pub proof fn law_clients_are_limited(
    s: WsState,
    setup: Setup,
    id: Seq<char>,
    method: Seq<char>,
    uri: Seq<char>,
    headers: Pairs,
    msg: MessageView,
    now: u64,
)
    requires
        s.hub.clients.dom().finite(),
        s.hub.clients.dom().len() <= MAX_WS_CLIENTS,
    ensures
        opened(s, setup, id, method, uri, headers).0.hub.clients.dom().finite(),
        opened(s, setup, id, method, uri, headers).0.hub.clients.dom().len() <= MAX_WS_CLIENTS,
        routed(s, msg, now).hub.clients.dom().finite(),
        routed(s, msg, now).hub.clients.dom().len() <= MAX_WS_CLIENTS,
        dropped(s, id).hub.clients.dom().finite(),
        dropped(s, id).hub.clients.dom().len() <= MAX_WS_CLIENTS,
{
    lemma_len_subset(routed(s, msg, now).hub.clients.dom(), s.hub.clients.dom());
    lemma_len_subset(dropped(s, id).hub.clients.dom(), s.hub.clients.dom());
}

/// A client that left is owed nothing: its requests are forgotten.
pub proof fn law_nothing_is_owed_to_who_left(s: WsState, id: Seq<char>, k: u64)
    requires
        s.hub.clients.dom().contains(id),
    ensures
        !dropped(s, id).hub.clients.dom().contains(id),
        dropped(s, id).mux.pending.dom().contains(k) ==> dropped(s, id).mux.pending[k].client != id,
{
}

/// What the child gets for a message of a client is that message: only an id is replaced, by
/// a number that stands for the client and the id until the answer comes. A message without
/// an id stays as it is and is not waited for.
pub proof fn law_child_gets_the_message_of_the_client(
    m: MuxView,
    client: Seq<char>,
    msg: MessageView,
)
    ensures
        ({
            let (n, out) = numbered(m, client, msg);
            &&& out.jsonrpc == msg.jsonrpc
            &&& out.method == msg.method
            &&& out.params == msg.params
            &&& out.result == msg.result
            &&& out.error == msg.error
            &&& out.extra == msg.extra
            &&& msg.id is None ==> out.id is None && n == m
            &&& msg.id is Some ==> {
                &&& out.id is Some
                &&& parsed_number(out.id->Some_0, u64::MAX as nat) == Some(m.next_id as nat)
                &&& n.pending == m.pending.insert(
                    m.next_id,
                    Origin { client, original: msg.id->Some_0 },
                )
                &&& m.next_id < u64::MAX ==> n.next_id == m.next_id + 1
            }
        }),
{
    law_number_is_read_back(m.next_id as nat, u64::MAX as nat);
}

/// From the request to its answer: whatever the child answers under the number of a request,
/// a result or an error, the client that asked finds behind what waits in its queue, with
/// nothing changed but the id, which is the one that the client gave. No other client and no
/// other request notices.
pub proof fn law_client_gets_its_answer(
    s: WsState,
    client: Seq<char>,
    request: MessageView,
    answer: MessageView,
    now: u64,
    other: Seq<char>,
)
    requires
        fresh(s.mux),
        request.id is Some,
        answer.id is Some,
        answer.id == numbered(s.mux, client, request).1.id,
        answer.method is None,
        answer.result is Some || answer.error is Some,
        s.hub.clients.dom().contains(client),
        s.hub.clients[client].listening,
        s.hub.clients[client].events.len() < CLIENT_CHANNEL_CAP,
        other != client,
    ensures
        ({
            let t = WsState { mux: numbered(s.mux, client, request).0, ..s };
            let after = routed(t, answer, now);
            let given = MessageView {
                jsonrpc: answer.jsonrpc,
                id: request.id,
                method: None,
                params: answer.params,
                result: answer.result,
                error: answer.error,
                extra: answer.extra,
            };
            &&& after.hub.clients.dom() == s.hub.clients.dom()
            &&& after.hub.clients[client].events == s.hub.clients[client].events.push(
                WsView::Message(message_text(given)),
            )
            &&& after.hub.clients[client].listening
            &&& after.hub.clients[other] == s.hub.clients[other]
            &&& after.hub.parted == s.hub.parted
            &&& after.mux.pending == s.mux.pending
            &&& after.metrics == s.metrics
        }),
{
    law_number_is_read_back(s.mux.next_id as nat, u64::MAX as nat);
    law_answer_finds_its_request(s.mux, Origin { client, original: request.id->Some_0 });
    let text = message_text(MessageView { id: request.id, ..answer });
    law_event_reaches_its_client(s.hub, client, WsView::Message(text), now, s.metrics);
}

/// An answer under anything but a number that is waited for reaches nobody.
pub proof fn law_stray_answer_is_dropped(s: WsState, answer: MessageView, now: u64)
    requires
        answer.id is Some,
        answer.method is None,
        answer.result is Some || answer.error is Some,
        forall|k: u64| #[trigger]
            s.mux.pending.dom().contains(k) ==> parsed_number(
                answer.id->Some_0,
                u64::MAX as nat,
            ) != Some(k as nat),
    ensures
        routed(s, answer, now) == s,
{
    let number = parsed_number(answer.id->Some_0, u64::MAX as nat);
    if number is Some {
        lemma_parsed_number_fits(answer.id->Some_0, u64::MAX as nat);
        let k = number->Some_0 as u64;
        assert(number == Some(k as nat));
        assert(!s.mux.pending.dom().contains(k));
    }
}

proof fn lemma_parsed_number_fits(text: Seq<char>, max: nat)
    ensures
        parsed_number(text, max) matches Some(n) ==> n <= max,
{
}

/// Whatever else the child says reaches every client that listens and has room, behind what
/// waits there, word for word; and what the clients wait for is still waited for, unless they
/// are gone.
pub proof fn law_other_messages_go_to_everybody(
    s: WsState,
    msg: MessageView,
    now: u64,
    id: Seq<char>,
    k: u64,
)
    requires
        msg.id is None || msg.method is Some || (msg.result is None && msg.error is None),
        s.hub.clients.dom().finite(),
        s.hub.clients.dom().contains(id),
        s.hub.clients[id].listening,
        s.hub.clients[id].events.len() < CLIENT_CHANNEL_CAP,
    ensures
        ({
            let after = routed(s, msg, now);
            &&& after.hub.clients.dom().contains(id)
            &&& after.hub.clients[id].listening
            &&& after.hub.clients[id].events == s.hub.clients[id].events.push(
                WsView::Message(message_text(msg)),
            )
            &&& after.mux.next_id == s.mux.next_id
            &&& after.mux.pending.dom().contains(k) ==> s.mux.pending.dom().contains(k)
                && after.mux.pending[k] == s.mux.pending[k]
            &&& s.mux.pending.dom().contains(k) && s.mux.pending[k].client == id
                ==> after.mux.pending.dom().contains(k)
        }),
{
    law_broadcast_reaches_everyone(s.hub, WsView::Message(message_text(msg)), now, id);
}

/// What the child says before any client came is kept for the first one.
pub proof fn law_early_messages_wait_for_the_first_client(s: WsState, msg: MessageView, now: u64)
    requires
        msg.id is None || msg.method is Some || (msg.result is None && msg.error is None),
        s.hub.clients.dom().len() == 0,
        s.hub.early is Some,
        s.hub.early->Some_0.len() < EARLY_BUFFER_CAP,
    ensures
        routed(s, msg, now) == (WsState {
            hub: HubView {
                early: Some(s.hub.early->Some_0.push(WsView::Message(message_text(msg)))),
                ..s.hub
            },
            ..s
        }),
{
}

/// What the child says in one line is routed as if it came line by line.
pub proof fn law_batch_is_routed_message_by_message(
    s: WsState,
    a: Seq<MessageView>,
    b: Seq<MessageView>,
    msg: MessageView,
    now: u64,
)
    ensures
        routed_in_turn(s, seq![], now) == s,
        routed_in_turn(s, seq![msg], now) == routed(s, msg, now),
        routed_in_turn(s, a + b, now) == routed_in_turn(routed_in_turn(s, a, now), b, now),
    decreases b.len(),
{
    assert(seq![msg].drop_last() =~= Seq::<MessageView>::empty());
    assert(routed_in_turn(s, seq![msg].drop_last(), now) == s);
    if b.len() > 0 {
        law_batch_is_routed_message_by_message(s, a, b.drop_last(), msg, now);
        assert((a + b).drop_last() =~= a + b.drop_last());
        assert((a + b).last() == b.last());
    } else {
        assert(a + b =~= a);
    }
}

/// A text of a client ends the connection exactly where it is too long. Else it gives its
/// messages where it is JSON-RPC, and a line for the log where it is not.
pub proof fn law_text_is_taken_or_noted(
    client: Seq<char>,
    text: Seq<char>,
    r: Result<TextView, (u16, Seq<char>)>,
)
    requires
        text_taken(client, text, r),
    ensures
        r is Err <==> encode_utf8(text).len() > 16_777_216,
        r is Err ==> r->Err_0 == (1009u16, "message too large"@),
        r is Ok ==> (r->Ok_0 is Messages <==> line_error(text) is None),
        r is Ok && r->Ok_0 is Messages ==> exists|p: ParsedView| #[trigger]
            line_is(text, p) && r->Ok_0->Messages_0 == (match p {
                ParsedView::Single(m) => seq![m],
                ParsedView::Batch(ms) => ms,
            }),
        r is Ok && r->Ok_0 is Invalid ==> r->Ok_0->Invalid_0 == "invalid JSON from client "@
            + client + ": "@ + parse_error_text(line_error(text)->Some_0),
{
    if encode_utf8(text).len() <= MAX_FRAME_SIZE && line_error(text) is None {
        let p = choose|p: ParsedView| #[trigger]
            line_is(text, p) && r == Ok::<TextView, (u16, Seq<char>)>(
                TextView::Messages(messages_of(p)),
            );
        assert(line_is(text, p));
    }
}

/// A frame of a client: a text goes the way of texts, a ping is answered by a pong with the
/// same payload, a close frame by a close frame, and all else is passed over. Only texts are
/// counted, and no frame touches the clients or what is waited for.
pub proof fn law_frames_are_dealt_with(
    s: WsState,
    client: Seq<char>,
    opcode: u8,
    payload: Seq<u8>,
    a: ActionView,
    t: WsState,
)
    requires
        frame_taken(s, client, opcode, payload, a, t),
    ensures
        t.hub == s.hub,
        t.mux == s.mux,
        opcode != 1 || !valid_utf8(payload) ==> t.metrics == s.metrics,
        opcode == 1 && valid_utf8(payload) && s.metrics.total_requests < u64::MAX ==> t.metrics
            == (Metrics { total_requests: (s.metrics.total_requests + 1) as u64, ..s.metrics }),
        opcode == 1 && valid_utf8(payload) && encode_utf8(decode_utf8(payload)).len() <= 16_777_216
            ==> (a is Forward <==> line_error(decode_utf8(payload)) is None) && (a is Note
            <==> line_error(decode_utf8(payload)) is Some),
        a is Forward ==> exists|p: ParsedView| #[trigger]
            line_is(decode_utf8(payload), p) && a->Forward_0 == messages_of(p),
        opcode == 1 && !valid_utf8(payload) ==> a is Close,
        opcode == 9 && payload.len() <= 125 ==> a == ActionView::Reply(
            seq![0x8Au8, payload.len() as u8] + payload,
        ),
        opcode == 8 ==> a == ActionView::Close(seq![0x88u8, 2u8, 3u8, 0xE8u8]),
        opcode != 1 && opcode != 8 && opcode != 9 ==> a is Ignore,
{
    if opcode == 9 && payload.len() <= 125 {
        assert(control_frame(0x8A, payload) =~= seq![0x8Au8, payload.len() as u8] + payload);
    }
    if opcode == 8 {
        reveal_strlit("");
        is_ascii_chars_encode_utf8(""@);
        lemma_normal_close();
    }
    if opcode == 1 && valid_utf8(payload) {
        let r = choose|r: Result<TextView, (u16, Seq<char>)>| #[trigger]
            text_taken(client, decode_utf8(payload), r) && a == (match r {
                Ok(TextView::Messages(ms)) => ActionView::Forward(ms),
                Ok(TextView::Invalid(line)) => ActionView::Note(line),
                Err(e) => close_wire(e.0, e.1),
            });
        assert(text_taken(client, decode_utf8(payload), r));
        if a is Forward {
            let p = choose|p: ParsedView| #[trigger]
                line_is(decode_utf8(payload), p) && r == Ok::<TextView, (u16, Seq<char>)>(
                    TextView::Messages(messages_of(p)),
                );
            assert(line_is(decode_utf8(payload), p));
        }
    }
}

proof fn lemma_normal_close()
    ensures
        event_wire(WsView::Close(1000, ""@)) == seq![0x88u8, 2u8, 3u8, 0xE8u8],
{
    reveal_strlit("");
    is_ascii_chars_encode_utf8(""@);
    assert(encode_utf8(""@) =~= Seq::<u8>::empty());
    assert(event_wire(WsView::Close(1000, ""@)) =~= seq![0x88u8, 2u8, 3u8, 0xE8u8]);
}

/// A client is let in exactly by a GET that is no health check, whose handshake is good, as
/// long as there is room; it is then connected under its name, and nothing else changes. The
/// answer to the handshake is kept, and the custom headers stand in it where it is a head.
pub proof fn law_handshake_opens_a_connection(
    s: WsState,
    setup: Setup,
    id: Seq<char>,
    method: Seq<char>,
    uri: Seq<char>,
    headers: Pairs,
)
    requires
        s.hub.clients.dom().finite(),
        !s.hub.clients.dom().contains(id),
    ensures
        ({
            let (t, o) = opened(s, setup, id, method, uri, headers);
            let good = handshake_answer(
                encode_utf8(
                    "GET "@ + uri + " HTTP/1.1\r\n"@ + header_lines(headers, 0) + "\r\n"@,
                ),
            );
            let health = texts_view(setup.health_endpoints@).contains(path_of(uri));
            let enters = !health && method == "GET"@ && good is Some && s.hub.clients.dom().len()
                < 1024;
            &&& o is Upgrade <==> enters
            &&& enters ==> {
                &&& o->Upgrade_0 == id
                &&& t.hub.clients.dom() == s.hub.clients.dom().insert(id)
                &&& t.hub.clients[id].listening
                &&& t.mux == s.mux
                &&& s.metrics.active_clients < u64::MAX ==> t.metrics == (Metrics {
                    active_clients: (s.metrics.active_clients + 1) as u64,
                    ..s.metrics
                })
                &&& setup.custom_headers@.len() == 0 ==> o->Upgrade_1 == good->Some_0
            }
            &&& !enters ==> t == s
            &&& !health && method == "GET"@ && good is Some && !enters ==> o
                is Respond && o->Respond_0.status == 503
            &&& !health && method == "GET"@ && good is None ==> o == OpeningView::Refuse(
                encode_utf8("HTTP/1.1 400 Bad Request\r\nContent-Length: 0\r\n\r\n"@),
            )
            &&& !health && method != "GET"@ && method != "OPTIONS"@ ==> o == OpeningView::Refuse(
                encode_utf8("HTTP/1.1 405 Method Not Allowed\r\nContent-Length: 0\r\n\r\n"@),
            )
            &&& health ==> o is Respond
        }),
{
    reveal_strlit("OPTIONS");
    reveal_strlit("GET");
    let (t, o) = opened(s, setup, id, method, uri, headers);
    assert("OPTIONS"@.len() != "GET"@.len());
    if o is Upgrade {
        assert(t.hub.clients.dom() =~= s.hub.clients.dom().insert(id));
        let good = handshake_answer(opening_request(uri, headers))->Some_0;
        if setup.custom_headers@.len() == 0 {
            let none = Seq::<char>::empty();
            assert(setup.custom() =~= Seq::<(Seq<char>, Seq<char>)>::empty());
            assert(header_lines(setup.custom(), 0) =~= none);
            is_ascii_chars_encode_utf8(none);
            assert(encode_utf8(none) =~= Seq::<u8>::empty());
            assert(opening_answer(good, setup.custom()) =~= good);
        }
    }
}

/// The path of a target is what stands before its first question mark, and the query what
/// stands behind it.
pub proof fn law_target_is_path_and_query(uri: Seq<char>)
    ensures
        !path_of(uri).contains('?'),
        uri.contains('?') ==> uri == path_of(uri) + seq!['?'] + query_of(uri),
        !uri.contains('?') ==> path_of(uri) == uri && query_of(uri).len() == 0,
{
    lemma_index_of(uri, '?', 0);
    let at = index_of(uri, '?', 0);
    if at < uri.len() {
        assert(uri[at] == '?');
        assert(uri =~= path_of(uri) + seq!['?'] + query_of(uri));
    }
}

/// A client that left is gone with all that it waited for; the others keep their place, and
/// their requests are still waited for.
pub proof fn law_departure_touches_nobody_else(
    s: WsState,
    id: Seq<char>,
    other: Seq<char>,
    k: u64,
)
    requires
        other != id,
    ensures
        ({
            let t = dropped(s, id);
            &&& t.hub.clients.dom().contains(other) == s.hub.clients.dom().contains(other)
            &&& t.hub.clients[other] == s.hub.clients[other]
            &&& t.mux.next_id == s.mux.next_id
            &&& s.mux.pending.dom().contains(k) && s.mux.pending[k].client == other
                ==> t.mux.pending.dom().contains(k) && t.mux.pending[k] == s.mux.pending[k]
            &&& !s.hub.clients.dom().contains(id) ==> t == s
            &&& s.hub.clients.dom().contains(id) && 0 < s.metrics.active_clients
                && s.metrics.client_disconnects < u64::MAX ==> t.metrics == (Metrics {
                active_clients: (s.metrics.active_clients - 1) as u64,
                client_disconnects: (s.metrics.client_disconnects + 1) as u64,
                ..s.metrics
            })
        }),
{
    if 0 < s.metrics.active_clients && s.metrics.client_disconnects < u64::MAX {
        law_departures_are_counted(s.metrics, 1, 0);
    }
}

/// When all connections end, nobody is connected and nothing is owed to those who were; who
/// listens with room still finds the end with its code and its reason, behind what came before.
pub proof fn law_everybody_is_told_of_the_end(
    s: WsState,
    code: u16,
    reason: Seq<char>,
    id: Seq<char>,
    k: u64,
)
    requires
        s.hub.clients.contains_key(id),
    ensures
        ({
            let t = all_dismissed(s, code, reason);
            &&& t.hub.clients == Map::<Seq<char>, ClientView<WsView>>::empty()
            &&& s.hub.clients[id].listening && s.hub.clients[id].events.len() < CLIENT_CHANNEL_CAP
                ==> t.hub.parted.contains_key(id) && t.hub.parted[id]
                == s.hub.clients[id].events.push(WsView::Close(code, reason))
            &&& s.mux.pending.contains_key(k) && s.mux.pending[k].client == id
                ==> !t.mux.pending.contains_key(k)
            &&& t.mux.next_id == s.mux.next_id
        }),
{
    law_last_event_reaches_everyone(s.hub, WsView::Close(code, reason), id);
}

/// A close frame holds the codes that may be sent, and a reason that fits beside the code.
pub proof fn law_close_codes_can_be_sent(code: u16, reason: Seq<char>)
    requires
        encode_utf8(reason).len() <= 123,
    ensures
        is_sendable(1000, reason),
        is_sendable(1011, reason),
        is_sendable(1013, reason),
        3000 <= code <= 4999 ==> is_sendable(code, reason),
        code < 1000 || 1004 <= code <= 1006 || 1015 <= code < 3000 || code >= 5000 ==> !is_sendable(
            code,
            reason,
        ),
        is_sendable(code, reason) ==> close_payload(code, reason).len() <= 125,
{
}

} // verus!
