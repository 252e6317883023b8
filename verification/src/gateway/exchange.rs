//! What belongs to a session of the stateful transport: the requests that wait for an answer
//! of the child, and the notifications on their way to the client.

use std::collections::VecDeque;

use vstd::prelude::*;
use vstd::string::*;

use crate::error::INTERNAL_ERROR;
use crate::gateway::sse::{into_messages, messages_of, wire, SseEvent, SseView};
use crate::json::{is_json, json_value, RawValue};
use crate::jsonrpc::{
    batch_text, batch_to_json, error_message, message_text, messages_view, MessageView, Parsed,
    RawMessage,
};
use crate::observe::{counted, Metrics};
use crate::store::{lists, Store};
use crate::text::{decimal, decimal_text, law_number_is_read_back, same};

verus! {

/// How many notifications wait for the client.
pub const NOTIFICATION_CHANNEL_CAP: usize = 256;

/// How many answers wait for one request of the client.
pub const RESPONSE_CHANNEL_CAP: usize = 64;

/// How many notifications are kept until the session is initialized.
pub const INIT_NOTIFICATION_BUFFER_CAP: usize = 256;

/// How long answers of the child are awaited, in milliseconds.
pub const RESPONSE_TIMEOUT_MS: u64 = 60_000;

pub open spec fn queued(q: Seq<RawMessage>) -> Seq<MessageView> {
    messages_view(q)
}

/// Which exchange an answer belongs to.
pub struct Ticket {
    name: String,
}

impl View for Ticket {
    type V = Seq<char>;

    closed spec fn view(&self) -> Seq<char> {
        self.name@
    }
}

/// The answers that came for an exchange.
pub struct Inbox {
    messages: VecDeque<RawMessage>,
}

impl View for Inbox {
    type V = Seq<MessageView>;

    closed spec fn view(&self) -> Seq<MessageView> {
        queued(self.messages@)
    }
}

/// What became of the stream of notifications. There is one for each session.
#[derive(Clone, Copy, PartialEq, Eq, Structural, Debug)]
pub enum Stream {
    /// Nobody has asked for it yet.
    Free,
    /// A client reads it.
    Taken,
    /// The client that read it is gone.
    Dropped,
}

/// What belongs to a session.
pub struct SessionData {
    pending: Store<Ticket>,
    inboxes: Store<Inbox>,
    next_ticket: u64,
    notifications: VecDeque<RawMessage>,
    stream: Stream,
    init_done: bool,
    buffer: VecDeque<RawMessage>,
    has_sse_stream: bool,
    child_failed: bool,
}

#[verifier::ext_equal]
pub struct DataView {
    /// The requests that wait, by the JSON of their ids, each with its exchange.
    pub pending: Map<Seq<char>, Seq<char>>,
    /// The answers that came, by exchange.
    pub inboxes: Map<Seq<char>, Seq<MessageView>>,
    pub next_ticket: u64,
    /// What waits for the client.
    pub notifications: Seq<MessageView>,
    pub stream: Stream,
    /// Whether the child has answered the request to initialize.
    pub init_done: bool,
    /// What came before that.
    pub buffer: Seq<MessageView>,
    /// Whether a client has asked for the stream.
    pub has_sse_stream: bool,
    /// Whether the child is known to be dead.
    pub child_failed: bool,
}

impl View for SessionData {
    type V = DataView;

    closed spec fn view(&self) -> DataView {
        DataView {
            pending: self.pending@,
            inboxes: self.inboxes@,
            next_ticket: self.next_ticket,
            notifications: queued(self.notifications@),
            stream: self.stream,
            init_done: self.init_done,
            buffer: queued(self.buffer@),
            has_sse_stream: self.has_sse_stream,
            child_failed: self.child_failed,
        }
    }
}

pub open spec fn new_data() -> DataView {
    DataView {
        pending: Map::empty(),
        inboxes: Map::empty(),
        next_ticket: 0,
        notifications: seq![],
        stream: Stream::Free,
        init_done: false,
        buffer: seq![],
        has_sse_stream: false,
        child_failed: false,
    }
}

// ---- Notifications -------------------------------------------------------------------------

/// After a notification of the child: before the session is initialized it is kept, the
/// oldest giving way; later it waits for the client, if there is room.
pub open spec fn notified(d: DataView, m: Metrics, msg: MessageView) -> (DataView, Metrics) {
    if !d.init_done {
        (
            DataView {
                buffer: (if d.buffer.len() >= INIT_NOTIFICATION_BUFFER_CAP {
                    d.buffer.skip(1)
                } else {
                    d.buffer
                }).push(msg),
                ..d
            },
            m,
        )
    } else if d.stream == Stream::Dropped {
        (d, m)
    } else if d.notifications.len() >= NOTIFICATION_CHANNEL_CAP {
        (d, Metrics { backpressure_events: counted(m.backpressure_events), ..m })
    } else {
        (DataView { notifications: d.notifications.push(msg), ..d }, m)
    }
}

pub open spec fn notified_in_turn(d: DataView, m: Metrics, ms: Seq<MessageView>) -> (
    DataView,
    Metrics,
)
    decreases ms.len(),
{
    if ms.len() == 0 {
        (d, m)
    } else {
        let (e, n) = notified_in_turn(d, m, ms.drop_last());
        notified(e, n, ms.last())
    }
}

/// After the child has answered the request to initialize: what was kept is sent on.
pub open spec fn initialized(d: DataView, m: Metrics) -> (DataView, Metrics) {
    notified_in_turn(DataView { init_done: true, buffer: seq![], ..d }, m, d.buffer)
}

// ---- Answers ---------------------------------------------------------------------------------

/// The answers after one more for an exchange, if the exchange still waits and has room.
pub open spec fn delivered(
    inboxes: Map<Seq<char>, Seq<MessageView>>,
    ticket: Seq<char>,
    msg: MessageView,
) -> Map<Seq<char>, Seq<MessageView>> {
    if inboxes.dom().contains(ticket) && inboxes[ticket].len() < RESPONSE_CHANNEL_CAP {
        inboxes.insert(ticket, inboxes[ticket].push(msg))
    } else {
        inboxes
    }
}

/// After an answer of the child: it goes to the exchange that waits for its id, once.
pub open spec fn answer_routed(d: DataView, msg: MessageView) -> DataView {
    if msg.id is Some && d.pending.dom().contains(msg.id->Some_0) {
        DataView {
            pending: d.pending.remove(msg.id->Some_0),
            inboxes: delivered(d.inboxes, d.pending[msg.id->Some_0], msg),
            ..d
        }
    } else {
        d
    }
}

/// After a message of the child. The first answer with a result is that to the request to
/// initialize.
pub open spec fn message_routed(d: DataView, m: Metrics, msg: MessageView) -> (DataView, Metrics) {
    if msg.is_response() {
        let (e, n) = if !d.init_done && msg.result is Some {
            initialized(d, m)
        } else {
            (d, m)
        };
        (answer_routed(e, msg), n)
    } else {
        notified(d, m, msg)
    }
}

pub open spec fn messages_routed(d: DataView, m: Metrics, ms: Seq<MessageView>) -> (
    DataView,
    Metrics,
)
    decreases ms.len(),
{
    if ms.len() == 0 {
        (d, m)
    } else {
        let (e, n) = messages_routed(d, m, ms.drop_last());
        message_routed(e, n, ms.last())
    }
}

/// The id under which a request is told of a failure.
pub open spec fn failure_id(id: Seq<char>) -> Seq<char> {
    match json_value(id) {
        Some(v) => v,
        None => "null"@,
    }
}

pub open spec fn failure(id: Seq<char>, text: Seq<char>) -> MessageView {
    error_message(Some(failure_id(id)), INTERNAL_ERROR as int, text)
}

/// The answers after the requests were told of a failure, one after the other.
pub open spec fn failed_in_turn(
    inboxes: Map<Seq<char>, Seq<MessageView>>,
    pending: Map<Seq<char>, Seq<char>>,
    ids: Seq<Seq<char>>,
    text: Seq<char>,
) -> Map<Seq<char>, Seq<MessageView>>
    decreases ids.len(),
{
    if ids.len() == 0 {
        inboxes
    } else {
        delivered(
            failed_in_turn(inboxes, pending, ids.drop_last(), text),
            pending[ids.last()],
            failure(ids.last(), text),
        )
    }
}

/// Whether the list holds each of the names once, and nothing else.
pub open spec fn enumerates(ids: Seq<Seq<char>>, names: Set<Seq<char>>) -> bool {
    ids.no_duplicates() && forall|id: Seq<char>| #[trigger] names.contains(id) <==> ids.contains(id)
}

/// Whether `e` is what is left of a session after its child died: no request waits any
/// more, and each was told so, in some order.
pub open spec fn is_failed(d: DataView, e: DataView) -> bool {
    exists|ids: Seq<Seq<char>>| #[trigger]
        enumerates(ids, d.pending.dom()) && e == (DataView {
            pending: Map::empty(),
            inboxes: failed_in_turn(d.inboxes, d.pending, ids, "Child process dead"@),
            child_failed: true,
            ..d
        })
}

fn null_id() -> (r: RawValue)
    ensures
        r@ == "null"@,
{
    let text = "null".to_owned();
    assert(is_json(text@));
    RawValue::written(text)
}

/// The answer that tells a request of a failure.
fn failure_message(id: &str, text: &str) -> (r: RawMessage)
    ensures
        r@ == failure(id@, text@),
{
    let raw = match RawValue::from_string(id.to_owned()) {
        Some(v) => v,
        None => null_id(),
    };
    RawMessage::error_response(Some(raw), INTERNAL_ERROR, text)
}

// ---- Exchanges -------------------------------------------------------------------------------

/// The requests that wait, with more of them for an exchange.
pub open spec fn awaited(
    pending: Map<Seq<char>, Seq<char>>,
    ids: Seq<Seq<char>>,
    ticket: Seq<char>,
) -> Map<Seq<char>, Seq<char>>
    decreases ids.len(),
{
    if ids.len() == 0 {
        pending
    } else {
        awaited(pending, ids.drop_last(), ticket).insert(ids.last(), ticket)
    }
}

/// A session with a new exchange that waits for the ids.
pub open spec fn registered(d: DataView, ids: Seq<Seq<char>>) -> DataView {
    let ticket = decimal(d.next_ticket as nat);
    DataView {
        pending: awaited(d.pending, ids, ticket),
        inboxes: d.inboxes.insert(ticket, seq![]),
        next_ticket: counted(d.next_ticket),
        ..d
    }
}

/// Whether an answer for the exchange may still come.
pub open spec fn still_awaited(pending: Map<Seq<char>, Seq<char>>, ticket: Seq<char>) -> bool {
    exists|id: Seq<char>| #[trigger] pending.dom().contains(id) && pending[id] == ticket
}

/// What an exchange finds.
pub enum Polled {
    Message(RawMessage),
    /// Nothing yet.
    Nothing,
    /// Nothing, and nothing will come.
    Over,
}

#[verifier::ext_equal]
pub enum PolledView {
    Message(MessageView),
    Nothing,
    Over,
}

impl View for Polled {
    type V = PolledView;

    open spec fn view(&self) -> PolledView {
        match self {
            Polled::Message(m) => PolledView::Message(m@),
            Polled::Nothing => PolledView::Nothing,
            Polled::Over => PolledView::Over,
        }
    }
}

/// What an exchange finds, and what is left.
pub open spec fn polled(d: DataView, ticket: Seq<char>) -> (DataView, PolledView) {
    if !d.inboxes.dom().contains(ticket) {
        (d, PolledView::Over)
    } else if d.inboxes[ticket].len() > 0 {
        (
            DataView { inboxes: d.inboxes.insert(ticket, d.inboxes[ticket].skip(1)), ..d },
            PolledView::Message(d.inboxes[ticket][0]),
        )
    } else if still_awaited(d.pending, ticket) {
        (d, PolledView::Nothing)
    } else {
        (d, PolledView::Over)
    }
}

/// Whether somebody waits for what the child of the session says.
pub open spec fn is_watched(d: DataView) -> bool {
    ||| exists|ticket: Seq<char>| #[trigger] d.inboxes.dom().contains(ticket)
    ||| d.stream == Stream::Taken
}

impl SessionData {
    pub fn new() -> (r: SessionData)
        ensures
            r@ == new_data(),
    {
        let r = SessionData {
            pending: Store::new(),
            inboxes: Store::new(),
            next_ticket: 0,
            notifications: VecDeque::new(),
            stream: Stream::Free,
            init_done: false,
            buffer: VecDeque::new(),
            has_sse_stream: false,
            child_failed: false,
        };
        assert(r@ =~= new_data());
        r
    }

    /// Whether the child is known to be dead.
    pub fn child_failed(&self) -> (r: bool)
        ensures
            r == self@.child_failed,
    {
        self.child_failed
    }

    /// Whether somebody waits for what the child says.
    pub fn is_watched(&self) -> (r: bool)
        ensures
            r == is_watched(self@),
    {
        let any = self.inboxes.len() > 0;
        proof {
            let names = self@.inboxes.dom();
            if any {
                assert(names.contains(names.choose()));
            } else {
                assert(names =~= Set::<Seq<char>>::empty());
            }
        }
        any || self.stream == Stream::Taken
    }

    /// Notes that the child is dead.
    pub fn set_child_failed(&mut self)
        ensures
            final(self)@ == (DataView { child_failed: true, ..old(self)@ }),
    {
        self.child_failed = true;
    }

    /// Takes in a notification of the child.
    pub fn route_notification(&mut self, msg: RawMessage, metrics: &mut Metrics)
        ensures
            (final(self)@, *final(metrics)) == notified(old(self)@, *old(metrics), msg@),
    {
        let ghost d = self@;
        if !self.init_done {
            let ghost before = self.buffer@;
            if self.buffer.len() >= INIT_NOTIFICATION_BUFFER_CAP {
                self.buffer.pop_front();
                assert(self.buffer@ =~= before.skip(1));
                assert(queued(self.buffer@) =~= queued(before).skip(1));
            }
            let ghost mid = self.buffer@;
            self.buffer.push_back(msg);
            assert(queued(self.buffer@) =~= queued(mid).push(msg@));
            assert(self@ =~= notified(d, *metrics, msg@).0);
            return;
        }
        if self.stream == Stream::Dropped {
            return;
        }
        if self.notifications.len() >= NOTIFICATION_CHANNEL_CAP {
            Metrics::inc(&mut metrics.backpressure_events);
            return;
        }
        let ghost before = self.notifications@;
        self.notifications.push_back(msg);
        assert(queued(self.notifications@) =~= queued(before).push(msg@));
        assert(self@ =~= notified(d, *metrics, msg@).0);
    }

    /// Notes that the child has answered the request to initialize.
    pub fn mark_init_done(&mut self, metrics: &mut Metrics)
        ensures
            (final(self)@, *final(metrics)) == initialized(old(self)@, *old(metrics)),
    {
        let ghost d = self@;
        self.init_done = true;
        let mut kept: VecDeque<RawMessage> = VecDeque::new();
        assert(queued(kept@) =~= Seq::<MessageView>::empty());
        std::mem::swap(&mut kept, &mut self.buffer);
        let ghost all = queued(kept@);
        let ghost start = DataView { init_done: true, buffer: seq![], ..d };
        assert(self@ =~= start);
        assert(all == d.buffer);
        let ghost mut done: int = 0;
        assert(all.take(0) =~= Seq::<MessageView>::empty());
        while kept.len() > 0
            invariant
                0 <= done,
                done + kept.len() == all.len(),
                forall|k: int| 0 <= k < kept.len() ==> (#[trigger] kept@[k])@ == all[done + k],
                (self@, *metrics) == notified_in_turn(start, *old(metrics), all.take(done)),
            decreases kept.len(),
        {
            let ghost first = kept@[0]@;
            if let Some(msg) = kept.pop_front() {
                self.route_notification(msg, metrics);
            }
            proof {
                assert(first == all[done]);
                assert(all.take(done + 1).drop_last() =~= all.take(done));
                assert(all.take(done + 1).last() == first);
                done = done + 1;
            }
        }
        assert(all.take(done) =~= all);
    }

    /// Puts an answer into the inbox of an exchange.
    fn deliver(&mut self, ticket: &str, msg: RawMessage)
        ensures
            final(self)@ == (DataView {
                inboxes: delivered(old(self)@.inboxes, ticket@, msg@),
                ..old(self)@
            }),
    {
        let ghost d = self@;
        if let Some(mut inbox) = self.inboxes.remove(ticket) {
            let ghost before = inbox.messages@;
            if inbox.messages.len() < RESPONSE_CHANNEL_CAP {
                inbox.messages.push_back(msg);
                assert(queued(inbox.messages@) =~= queued(before).push(msg@));
            }
            self.inboxes.insert(ticket.to_owned(), inbox);
        }
        assert(self@.inboxes =~= delivered(d.inboxes, ticket@, msg@));
    }

    /// Takes in an answer of the child. Says whether some exchange waited for it.
    pub fn route_response(&mut self, msg: RawMessage) -> (r: bool)
        ensures
            final(self)@ == answer_routed(old(self)@, msg@),
            r == (msg@.id is Some && old(self)@.pending.dom().contains(msg@.id->Some_0)),
    {
        let ghost d = self@;
        let ghost v = msg@;
        let found: Option<Ticket> = match &msg.id {
            Some(id) => self.pending.remove(id.get()),
            None => return false,
        };
        match found {
            Some(ticket) => {
                self.deliver(ticket.name.as_str(), msg);
                assert(self@ =~= answer_routed(d, v));
                true
            },
            None => {
                assert(d.pending.remove(v.id->Some_0) =~= d.pending);
                assert(self@ =~= d);
                false
            },
        }
    }

    /// Takes in a message of the child.
    pub fn route_single_message(&mut self, msg: RawMessage, metrics: &mut Metrics)
        ensures
            (final(self)@, *final(metrics)) == message_routed(old(self)@, *old(metrics), msg@),
    {
        if msg.is_response() {
            if !self.init_done && msg.result.is_some() {
                self.mark_init_done(metrics);
            }
            self.route_response(msg);
        } else {
            self.route_notification(msg, metrics);
        }
    }

    /// Takes in what the child said.
    pub fn relay(&mut self, parsed: Parsed, metrics: &mut Metrics)
        ensures
            (final(self)@, *final(metrics)) == messages_routed(
                old(self)@,
                *old(metrics),
                messages_of(parsed@),
            ),
    {
        let mut ms = into_messages(parsed);
        let ghost all = messages_view(ms@);
        let ghost mut done: int = 0;
        assert(all.take(0) =~= Seq::<MessageView>::empty());
        while ms.len() > 0
            invariant
                0 <= done,
                done + ms.len() == all.len(),
                forall|k: int| 0 <= k < ms.len() ==> (#[trigger] ms[k])@ == all[done + k],
                (self@, *metrics) == messages_routed(
                    old(self)@,
                    *old(metrics),
                    all.take(done),
                ),
            decreases ms.len(),
        {
            let ghost first = ms[0]@;
            let msg = ms.remove(0);
            self.route_single_message(msg, metrics);
            proof {
                assert(first == all[done]);
                assert(all.take(done + 1).drop_last() =~= all.take(done));
                assert(all.take(done + 1).last() == first);
                done = done + 1;
            }
        }
        assert(all.take(done) =~= all);
    }

    /// Notes that the child died: every request that waits is told so.
    pub fn child_closed(&mut self)
        ensures
            is_failed(old(self)@, final(self)@),
    {
        let ghost d = self@;
        self.child_failed = true;
        let names = self.pending.names();
        let ghost ids = Seq::new(names@.len(), |i: int| names@[i]@);
        let ghost text = "Child process dead"@;
        let mut i: usize = 0;
        assert(ids.take(0) =~= Seq::<Seq<char>>::empty());
        while i < names.len()
            invariant
                i <= names.len(),
                ids == Seq::new(names@.len(), |i: int| names@[i]@),
                text == "Child process dead"@,
                forall|id: Seq<char>| #[trigger] d.pending.dom().contains(id) <==> lists(names@, id),
                self@ == (DataView {
                    inboxes: failed_in_turn(d.inboxes, d.pending, ids.take(i as int), text),
                    child_failed: true,
                    ..d
                }),
            decreases names.len() - i,
        {
            let ghost id = names[i as int]@;
            assert(lists(names@, id));
            assert(d.pending.dom().contains(id));
            let ticket: Option<String> = match self.pending.get(names[i].as_str()) {
                Some(t) => Some(t.name.clone()),
                None => None,
            };
            if let Some(t) = ticket {
                let msg = failure_message(names[i].as_str(), "Child process dead");
                self.deliver(t.as_str(), msg);
            }
            proof {
                assert(ids.take(i + 1).drop_last() =~= ids.take(i as int));
                assert(ids.take(i + 1).last() == id);
            }
            i += 1;
        }
        self.pending = Store::new();
        proof {
            assert(ids.take(i as int) =~= ids);
            assert forall|id: Seq<char>| #[trigger] d.pending.dom().contains(id) <==> ids.contains(
                id,
            ) by {
                if lists(names@, id) {
                    let k = choose|k: int| 0 <= k < names.len() && (#[trigger] names[k])@ == id;
                    assert(ids[k] == id);
                }
                if ids.contains(id) {
                    let k = choose|k: int| 0 <= k < ids.len() && ids[k] == id;
                    assert(names[k]@ == id);
                }
            }
            assert(ids.no_duplicates()) by {
                assert forall|a: int, b: int| 0 <= a < ids.len() && 0 <= b < ids.len() && a != b
                    implies ids[a] != ids[b] by {
                    if ids[a] == ids[b] {
                        assert(names[a]@ == names[b]@);
                    }
                }
            }
            assert(enumerates(ids, d.pending.dom()));
        }
    }

    /// Starts an exchange that waits for answers under the ids.
    pub fn register_pending(&mut self, ids: &Vec<String>) -> (r: String)
        ensures
            r@ == decimal(old(self)@.next_ticket as nat),
            final(self)@ == registered(old(self)@, ids.deep_view()),
    {
        let ghost d = self@;
        let ghost all = ids.deep_view();
        let name = decimal_text(self.next_ticket);
        let empty: VecDeque<RawMessage> = VecDeque::new();
        assert(queued(empty@) =~= Seq::<MessageView>::empty());
        self.inboxes.insert(name.clone(), Inbox { messages: empty });
        self.next_ticket = self.next_ticket.wrapping_add(1);
        let ghost e = self@;
        assert(e.inboxes =~= registered(d, all).inboxes);
        let mut i: usize = 0;
        assert(all.take(0) =~= Seq::<Seq<char>>::empty());
        while i < ids.len()
            invariant
                i <= ids.len(),
                all == ids.deep_view(),
                self@ == (DataView {
                    pending: awaited(d.pending, all.take(i as int), name@),
                    ..e
                }),
            decreases ids.len() - i,
        {
            self.pending.insert(ids[i].clone(), Ticket { name: name.clone() });
            proof {
                assert(all.take(i + 1).drop_last() =~= all.take(i as int));
                assert(all.take(i + 1).last() == ids[i as int]@);
            }
            i += 1;
        }
        assert(all.take(i as int) =~= all);
        assert(self@ =~= registered(d, all));
        name
    }

    fn is_awaited(&self, ticket: &str) -> (r: bool)
        ensures
            r == still_awaited(self@.pending, ticket@),
    {
        let names = self.pending.names();
        let mut i: usize = 0;
        while i < names.len()
            invariant
                i <= names.len(),
                forall|id: Seq<char>| #[trigger]
                    self@.pending.dom().contains(id) <==> lists(names@, id),
                forall|k: int|
                    0 <= k < i ==> self@.pending[(#[trigger] names[k])@] != ticket@,
            decreases names.len() - i,
        {
            assert(lists(names@, names[i as int]@));
            if let Some(t) = self.pending.get(names[i].as_str()) {
                if same(t.name.as_str(), ticket) {
                    assert(self@.pending.dom().contains(names[i as int]@));
                    return true;
                }
            }
            i += 1;
        }
        proof {
            if still_awaited(self@.pending, ticket@) {
                let id = choose|id: Seq<char>| #[trigger]
                    self@.pending.dom().contains(id) && self@.pending[id] == ticket@;
                assert(lists(names@, id));
                let k = choose|k: int| 0 <= k < names.len() && (#[trigger] names[k])@ == id;
            }
        }
        false
    }

    /// Looks for the next answer for an exchange.
    pub fn poll(&mut self, ticket: &str) -> (r: Polled)
        ensures
            (final(self)@, r@) == polled(old(self)@, ticket@),
    {
        let ghost d = self@;
        match self.inboxes.remove(ticket) {
            None => {
                assert(d.inboxes.remove(ticket@) =~= d.inboxes);
                Polled::Over
            },
            Some(mut inbox) => {
                let ghost before = inbox.messages@;
                let next = inbox.messages.pop_front();
                self.inboxes.insert(ticket.to_owned(), inbox);
                match next {
                    Some(msg) => {
                        assert(before.skip(1) =~= before.subrange(1, before.len() as int));
                        assert(queued(before.skip(1)) =~= queued(before).skip(1));
                        assert(self@ =~= polled(d, ticket@).0);
                        Polled::Message(msg)
                    },
                    None => {
                        assert(self@.inboxes =~= d.inboxes);
                        assert(self@ =~= d);
                        if self.is_awaited(ticket) {
                            Polled::Nothing
                        } else {
                            Polled::Over
                        }
                    },
                }
            },
        }
    }

    /// Ends an exchange: answers that come later are dropped.
    pub fn end_exchange(&mut self, ticket: &str)
        ensures
            final(self)@ == (DataView {
                inboxes: old(self)@.inboxes.remove(ticket@),
                ..old(self)@
            }),
    {
        self.inboxes.remove(ticket);
    }

    /// Asks for the stream of notifications. It is given once.
    pub fn claim_stream(&mut self) -> (r: bool)
        ensures
            r == (!old(self)@.has_sse_stream && old(self)@.stream == Stream::Free),
            final(self)@ == (DataView {
                has_sse_stream: true,
                stream: if r {
                    Stream::Taken
                } else {
                    old(self)@.stream
                },
                ..old(self)@
            }),
    {
        if self.has_sse_stream {
            return false;
        }
        self.has_sse_stream = true;
        if self.stream == Stream::Free {
            self.stream = Stream::Taken;
            true
        } else {
            false
        }
    }

    /// Notes that nobody reads the stream any more.
    pub fn drop_stream(&mut self)
        ensures
            final(self)@ == (DataView {
                stream: Stream::Dropped,
                notifications: seq![],
                ..old(self)@
            }),
    {
        self.stream = Stream::Dropped;
        self.notifications = VecDeque::new();
        assert(queued(self.notifications@) =~= Seq::<MessageView>::empty());
    }

    /// Takes the next notification for the client.
    pub fn next_notification(&mut self) -> (r: Option<RawMessage>)
        ensures
            match r {
                Some(msg) => old(self)@.notifications.len() > 0 && msg@
                    == old(self)@.notifications[0] && final(self)@ == (DataView {
                    notifications: old(self)@.notifications.skip(1),
                    ..old(self)@
                }),
                None => old(self)@.notifications.len() == 0 && final(self)@ == old(self)@,
            },
    {
        let ghost before = self.notifications@;
        let r = self.notifications.pop_front();
        proof {
            if before.len() > 0 {
                assert(before.skip(1) =~= before.subrange(1, before.len() as int));
                assert(queued(before.skip(1)) =~= queued(before).skip(1));
            }
            assert(r is None ==> self@ =~= old(self)@);
        }
        r
    }
}

/// The requests of a client that wait for their answers together.
pub struct Exchange {
    ticket: String,
    request_ids: Vec<String>,
    waiting: Vec<String>,
    responses: Store<RawMessage>,
}

#[verifier::ext_equal]
pub struct ExchangeView {
    pub ticket: Seq<char>,
    /// The ids of the requests, in their order.
    pub ids: Seq<Seq<char>>,
    /// The ids that have no answer yet.
    pub waiting: Set<Seq<char>>,
    pub responses: Map<Seq<char>, MessageView>,
}

impl View for Exchange {
    type V = ExchangeView;

    closed spec fn view(&self) -> ExchangeView {
        ExchangeView {
            ticket: self.ticket@,
            ids: self.request_ids.deep_view(),
            waiting: Set::new(|id: Seq<char>| lists(self.waiting@, id)),
            responses: self.responses@,
        }
    }
}

pub open spec fn started(ticket: Seq<char>, ids: Seq<Seq<char>>) -> ExchangeView {
    ExchangeView { ticket, ids, waiting: ids.to_set(), responses: Map::empty() }
}

/// An exchange with one answer more.
pub open spec fn accepted(x: ExchangeView, msg: MessageView) -> ExchangeView {
    match msg.id {
        Some(id) => ExchangeView {
            waiting: x.waiting.remove(id),
            responses: x.responses.insert(id, msg),
            ..x
        },
        None => x,
    }
}

/// An exchange whose session is gone.
pub open spec fn abandoned(x: ExchangeView) -> ExchangeView {
    ExchangeView {
        waiting: Set::empty(),
        responses: Map::new(
            |id: Seq<char>| x.responses.dom().contains(id) || x.waiting.contains(id),
            |id: Seq<char>|
                if x.waiting.contains(id) {
                    failure(id, "Child process dead"@)
                } else {
                    x.responses[id]
                },
        ),
        ..x
    }
}

/// The session and the exchange after a look for answers, and whether the exchange is over:
/// every answer came, none will come, or it took too long.
pub open spec fn advanced(d: DataView, x: ExchangeView, elapsed: u64) -> (
    DataView,
    ExchangeView,
    bool,
) {
    if x.waiting =~= Set::<Seq<char>>::empty() || elapsed >= RESPONSE_TIMEOUT_MS {
        (d, x, true)
    } else {
        let (e, p) = polled(d, x.ticket);
        match p {
            PolledView::Message(msg) => (
                e,
                accepted(x, msg),
                accepted(x, msg).waiting =~= Set::<Seq<char>>::empty(),
            ),
            PolledView::Nothing => (e, x, false),
            PolledView::Over => (e, x, true),
        }
    }
}

/// A message as it is written on a stream.
pub open spec fn event_text(m: MessageView) -> Seq<char> {
    wire(SseView::Message(message_text(m)))
}

/// The answers in the order of the requests from `from` on. A request without an answer is
/// told that something went wrong; an answer is given once.
pub open spec fn answers_text(
    ids: Seq<Seq<char>>,
    from: int,
    responses: Map<Seq<char>, MessageView>,
) -> Seq<char>
    decreases ids.len() - from,
{
    if from >= ids.len() {
        seq![]
    } else if responses.dom().contains(ids[from]) {
        event_text(responses[ids[from]]) + answers_text(
            ids,
            from + 1,
            responses.remove(ids[from]),
        )
    } else {
        event_text(failure(ids[from], "Internal error"@)) + answers_text(ids, from + 1, responses)
    }
}

/// Writes a message as an event.
pub fn format_sse_event(msg: &RawMessage) -> (r: String)
    ensures
        r@ == event_text(msg@),
{
    SseEvent::Message(msg.to_json()).serialize()
}

/// Writes messages as one event.
pub fn format_sse_batch_event(msgs: &Vec<RawMessage>) -> (r: String)
    ensures
        r@ == wire(SseView::Message(batch_text(messages_view(msgs@)))),
{
    SseEvent::Message(batch_to_json(msgs)).serialize()
}

/// The comment that keeps a connection open.
pub fn format_sse_keepalive() -> (r: &'static str)
    ensures
        r@ == wire(SseView::Keepalive),
{
    ": keepalive\n\n"
}

/// Takes a name out of a list, wherever it stands.
fn drop_name(v: &mut Vec<String>, name: &str)
    ensures
        forall|id: Seq<char>| #[trigger]
            lists(final(v)@, id) <==> lists(old(v)@, id) && id != name@,
{
    let ghost before = v@;
    let mut i: usize = 0;
    while i < v.len()
        invariant
            i <= v.len(),
            forall|k: int| 0 <= k < i ==> (#[trigger] v[k])@ != name@,
            forall|id: Seq<char>|
                id != name@ ==> (#[trigger] lists(v@, id) <==> lists(before, id)),
        decreases v.len() - i,
    {
        if same(v[i].as_str(), name) {
            let ghost was = v@;
            v.remove(i);
            proof {
                assert forall|id: Seq<char>| id != name@ implies (#[trigger] lists(v@, id)
                    <==> lists(was, id)) by {
                    if lists(was, id) {
                        let k = choose|k: int| 0 <= k < was.len() && (#[trigger] was[k])@ == id;
                        let c = if k < i { k } else { k - 1 };
                        assert(v[c]@ == id);
                    }
                    if lists(v@, id) {
                        let k = choose|k: int| 0 <= k < v.len() && (#[trigger] v[k])@ == id;
                        let c = if k < i { k } else { k + 1 };
                        assert(was[c]@ == id);
                    }
                }
            }
        } else {
            i += 1;
        }
    }
}

impl Exchange {
    /// An exchange that waits for the ids.
    pub fn start(ticket: String, request_ids: Vec<String>) -> (r: Exchange)
        ensures
            r@ == started(ticket@, request_ids.deep_view()),
    {
        let mut waiting: Vec<String> = Vec::new();
        let mut i: usize = 0;
        while i < request_ids.len()
            invariant
                i <= request_ids.len(),
                waiting.len() == i,
                forall|k: int| 0 <= k < i ==> (#[trigger] waiting[k])@ == request_ids[k]@,
            decreases request_ids.len() - i,
        {
            waiting.push(request_ids[i].clone());
            i += 1;
        }
        let ghost ids = request_ids.deep_view();
        let r = Exchange { ticket, request_ids, waiting, responses: Store::new() };
        proof {
            assert forall|id: Seq<char>| r@.waiting.contains(id) <==> ids.to_set().contains(
                id,
            ) by {
                if lists(waiting@, id) {
                    let k = choose|k: int| 0 <= k < waiting.len() && (#[trigger] waiting[k])@ == id;
                    assert(ids[k] == id);
                }
                if ids.contains(id) {
                    let k = choose|k: int| 0 <= k < ids.len() && ids[k] == id;
                    assert(waiting[k]@ == id);
                }
            }
            assert(r@.waiting =~= ids.to_set());
        }
        r
    }

    /// The name of the exchange.
    pub fn ticket(&self) -> (r: &str)
        ensures
            r@ == self@.ticket,
    {
        self.ticket.as_str()
    }

    /// Whether every request has its answer.
    pub fn is_complete(&self) -> (r: bool)
        ensures
            r == (self@.waiting =~= Set::<Seq<char>>::empty()),
    {
        proof {
            if self.waiting.len() > 0 {
                assert(self.waiting[0]@ == self.waiting@[0]@);
                assert(lists(self.waiting@, self.waiting@[0]@));
                assert(self@.waiting.contains(self.waiting@[0]@));
            } else {
                assert(self@.waiting =~= Set::<Seq<char>>::empty());
            }
        }
        self.waiting.len() == 0
    }

    /// Takes in an answer.
    pub fn accept(&mut self, msg: RawMessage)
        ensures
            final(self)@ == accepted(old(self)@, msg@),
    {
        let ghost x = self@;
        let id: String = match &msg.id {
            Some(v) => v.get().to_owned(),
            None => return ,
        };
        drop_name(&mut self.waiting, id.as_str());
        self.responses.insert(id, msg);
        assert(self@.waiting =~= x.waiting.remove(id@));
    }

    /// Notes that the session is gone: the requests without an answer are told so.
    pub fn abandon(&mut self)
        ensures
            final(self)@ == abandoned(old(self)@),
    {
        let ghost x = self@;
        let names = self.waiting.clone();
        proof {
            assert(names@.len() == self.waiting@.len());
            assert forall|id: Seq<char>| #[trigger] lists(names@, id) <==> x.waiting.contains(id) by {
                if lists(names@, id) {
                    let k = choose|k: int| 0 <= k < names.len() && (#[trigger] names[k])@ == id;
                    assert(self.waiting[k]@ == id);
                }
                if lists(self.waiting@, id) {
                    let k = choose|k: int|
                        0 <= k < self.waiting.len() && (#[trigger] self.waiting[k])@ == id;
                    assert(names[k]@ == id);
                }
            }
        }
        let mut i: usize = 0;
        while i < names.len()
            invariant
                i <= names.len(),
                self@.ticket == x.ticket,
                self@.ids == x.ids,
                forall|id: Seq<char>| #[trigger]
                    self@.responses.dom().contains(id) <==> x.responses.dom().contains(id)
                        || among(names@, i as int, id),
                forall|id: Seq<char>| #[trigger]
                    self@.responses.dom().contains(id) ==> self@.responses[id] == (if among(
                        names@,
                        i as int,
                        id,
                    ) {
                        failure(id, "Child process dead"@)
                    } else {
                        x.responses[id]
                    }),
            decreases names.len() - i,
        {
            let ghost was = self@.responses;
            let ghost n = names[i as int]@;
            let msg = failure_message(names[i].as_str(), "Child process dead");
            self.responses.insert(names[i].clone(), msg);
            proof {
                assert forall|id: Seq<char>| #[trigger] among(names@, i + 1, id) <==> among(
                    names@,
                    i as int,
                    id,
                ) || id == n by {
                    if id == n {
                        assert(names[i as int]@ == id);
                    }
                    if among(names@, i as int, id) {
                        let k = choose|k: int| 0 <= k < i && (#[trigger] names[k])@ == id;
                        assert(names[k]@ == id);
                    }
                }
                assert(self@.responses == was.insert(n, failure(n, "Child process dead"@)));
                assert forall|id: Seq<char>|
                    #![trigger self@.responses.dom().contains(id)]
                    (self@.responses.dom().contains(id) <==> x.responses.dom().contains(id)
                        || among(names@, i + 1, id)) by {
                    assert(was.dom().contains(id) <==> x.responses.dom().contains(id) || among(
                        names@,
                        i as int,
                        id,
                    ));
                }
            }
            i += 1;
        }
        let ghost last = self@.responses;
        self.waiting = Vec::new();
        proof {
            assert(self@.responses == last);
            assert forall|id: Seq<char>| #[trigger]
                among(names@, i as int, id) <==> x.waiting.contains(id) by {
                assert(among(names@, i as int, id) <==> lists(names@, id));
                assert(lists(names@, id) <==> x.waiting.contains(id));
            }
            assert forall|id: Seq<char>|
                #![trigger last.dom().contains(id)]
                last.dom().contains(id) <==> abandoned(x).responses.dom().contains(id) by {
                assert(last.dom().contains(id) <==> x.responses.dom().contains(id) || among(
                    names@,
                    i as int,
                    id,
                ));
                assert(among(names@, i as int, id) <==> x.waiting.contains(id));
            }
            assert(self@.waiting =~= Set::<Seq<char>>::empty());
            assert(self@.responses =~= abandoned(x).responses);
        }
    }

    /// Looks for answers. Says whether the exchange is over.
    pub fn advance(&mut self, data: &mut SessionData, elapsed: u64) -> (r: bool)
        ensures
            (final(data)@, final(self)@, r) == advanced(old(data)@, old(self)@, elapsed),
    {
        if self.is_complete() || elapsed >= RESPONSE_TIMEOUT_MS {
            return true;
        }
        match data.poll(self.ticket.as_str()) {
            Polled::Message(msg) => {
                self.accept(msg);
                self.is_complete()
            },
            Polled::Nothing => false,
            Polled::Over => true,
        }
    }

    /// Writes the answers in the order of the requests.
    pub fn body(self) -> (r: String)
        ensures
            r@ == answers_text(self@.ids, 0, self@.responses),
    {
        let mut responses = self.responses;
        let ids = self.request_ids;
        let ghost all = ids.deep_view();
        let ghost target = answers_text(all, 0, responses@);
        let mut out = String::new();
        let mut i: usize = 0;
        assert(out@ + target =~= target);
        while i < ids.len()
            invariant
                i <= ids.len(),
                all == ids.deep_view(),
                out@ + answers_text(all, i as int, responses@) == target,
            decreases ids.len() - i,
        {
            let ghost before = out@;
            let ghost was = responses@;
            assert(all[i as int] == ids[i as int]@);
            let text = match responses.remove(ids[i].as_str()) {
                Some(msg) => format_sse_event(&msg),
                None => {
                    assert(was.remove(all[i as int]) =~= was);
                    let msg = failure_message(ids[i].as_str(), "Internal error");
                    format_sse_event(&msg)
                },
            };
            out.append(text.as_str());
            assert(out@ + answers_text(all, i + 1, responses@) =~= before + answers_text(
                all,
                i as int,
                was,
            ));
            i += 1;
        }
        assert(out@ =~= out@ + answers_text(all, i as int, responses@));
        out
    }
}

/// Whether the first `n` of the names hold this one.
spec fn among(names: Seq<String>, n: int, id: Seq<char>) -> bool {
    exists|k: int| 0 <= k < n && (#[trigger] names[k])@ == id
}

// ---- Laws ------------------------------------------------------------------------------------

/// The events of the answers, in the order of the ids from `from` on.
pub open spec fn events_in_order(
    ids: Seq<Seq<char>>,
    from: int,
    responses: Map<Seq<char>, MessageView>,
) -> Seq<char>
    decreases ids.len() - from,
{
    if from >= ids.len() {
        seq![]
    } else {
        event_text(responses[ids[from]]) + events_in_order(ids, from + 1, responses)
    }
}

/// Where every request has its own id and its answer, the answers are given in the order of
/// the requests, whatever the order in which the child gave them.
pub proof fn law_answers_follow_the_requests(
    ids: Seq<Seq<char>>,
    from: int,
    responses: Map<Seq<char>, MessageView>,
)
    requires
        0 <= from,
        ids.no_duplicates(),
        forall|i: int| from <= i < ids.len() ==> responses.dom().contains(#[trigger] ids[i]),
    ensures
        answers_text(ids, from, responses) == events_in_order(ids, from, responses),
    decreases ids.len() - from,
{
    if from < ids.len() {
        let rest = responses.remove(ids[from]);
        assert forall|i: int| from + 1 <= i < ids.len() implies rest.dom().contains(
            #[trigger] ids[i],
        ) by {
            assert(responses.dom().contains(ids[i]));
        }
        law_answers_follow_the_requests(ids, from + 1, rest);
        lemma_events_unaffected(ids, from + 1, responses, ids[from]);
    }
}

proof fn lemma_events_unaffected(
    ids: Seq<Seq<char>>,
    from: int,
    responses: Map<Seq<char>, MessageView>,
    id: Seq<char>,
)
    requires
        0 <= from,
        forall|i: int| from <= i < ids.len() ==> #[trigger] ids[i] != id,
    ensures
        events_in_order(ids, from, responses.remove(id)) == events_in_order(ids, from, responses),
    decreases ids.len() - from,
{
    if from < ids.len() {
        lemma_events_unaffected(ids, from + 1, responses, id);
    }
}

/// Answers can come in any order: two answers under different ids leave the exchange in the
/// same state, whichever comes first.
pub proof fn law_order_of_answers_does_not_matter(
    x: ExchangeView,
    a: MessageView,
    b: MessageView,
)
    requires
        a.id is Some,
        b.id is Some,
        a.id != b.id,
    ensures
        accepted(accepted(x, a), b) == accepted(accepted(x, b), a),
{
    let p = accepted(accepted(x, a), b);
    let q = accepted(accepted(x, b), a);
    assert(p.waiting =~= q.waiting);
    assert(p.responses =~= q.responses);
}

/// An answer reaches the exchange that registered its id and no other, and a second answer
/// under that id reaches nobody.
pub proof fn law_answer_reaches_its_exchange(d: DataView, msg: MessageView, other: Seq<char>)
    requires
        msg.id is Some,
        d.pending.dom().contains(msg.id->Some_0),
        d.inboxes.dom().contains(d.pending[msg.id->Some_0]),
        d.inboxes[d.pending[msg.id->Some_0]].len() < RESPONSE_CHANNEL_CAP,
        other != d.pending[msg.id->Some_0],
    ensures
        ({
            let ticket = d.pending[msg.id->Some_0];
            let e = answer_routed(d, msg);
            &&& e.inboxes[ticket] == d.inboxes[ticket].push(msg)
            &&& e.inboxes.dom().contains(other) == d.inboxes.dom().contains(other)
            &&& e.inboxes[other] == d.inboxes[other]
            &&& answer_routed(e, msg) == e
        }),
{
}

/// What came before the session was initialized reaches the client in its order, ahead of
/// what comes later.
pub proof fn law_early_notifications_come_first(d: DataView, m: Metrics)
    requires
        !d.init_done,
        d.stream != Stream::Dropped,
        d.notifications.len() == 0,
        d.buffer.len() <= NOTIFICATION_CHANNEL_CAP,
    ensures
        initialized(d, m).0.notifications == d.buffer,
        initialized(d, m).0.buffer.len() == 0,
        initialized(d, m).1 == m,
{
    let e = DataView { init_done: true, buffer: seq![], ..d };
    lemma_flush(e, m, d.buffer);
    assert(e.notifications + d.buffer =~= d.buffer);
}

proof fn lemma_flush(d: DataView, m: Metrics, ms: Seq<MessageView>)
    requires
        d.init_done,
        d.stream != Stream::Dropped,
        d.notifications.len() + ms.len() <= NOTIFICATION_CHANNEL_CAP,
    ensures
        notified_in_turn(d, m, ms) == (
            DataView { notifications: d.notifications + ms, ..d },
            m,
        ),
    decreases ms.len(),
{
    if ms.len() > 0 {
        lemma_flush(d, m, ms.drop_last());
        assert((d.notifications + ms.drop_last()).push(ms.last()) =~= d.notifications + ms);
    } else {
        assert(d.notifications + ms =~= d.notifications);
    }
}

/// Whether no queue of a session is longer than it may be.
pub open spec fn within_bounds(d: DataView) -> bool {
    &&& d.notifications.len() <= NOTIFICATION_CHANNEL_CAP
    &&& d.buffer.len() <= INIT_NOTIFICATION_BUFFER_CAP
    &&& forall|t: Seq<char>| #[trigger]
        d.inboxes.dom().contains(t) ==> d.inboxes[t].len() <= RESPONSE_CHANNEL_CAP
}

/// No queue of a session ever holds more than it may.
pub proof fn law_session_queues_stay_bounded(d: DataView, m: Metrics, msg: MessageView)
    requires
        within_bounds(d),
    ensures
        within_bounds(message_routed(d, m, msg).0),
{
    let e = DataView { init_done: true, buffer: seq![], ..d };
    lemma_flush_bounded(e, m, d.buffer);
}

proof fn lemma_flush_bounded(d: DataView, m: Metrics, ms: Seq<MessageView>)
    requires
        within_bounds(d),
    ensures
        within_bounds(notified_in_turn(d, m, ms).0),
    decreases ms.len(),
{
    if ms.len() > 0 {
        lemma_flush_bounded(d, m, ms.drop_last());
    }
}

/// A message of the child that has an id, no method, and a result or an error is an answer.
/// It reaches the exchange that waits for its id, behind what came there before, and the id
/// is awaited no longer. No other exchange and no other id is touched.
pub proof fn law_answer_of_the_child_reaches_its_post(
    d: DataView,
    m: Metrics,
    msg: MessageView,
    other: Seq<char>,
)
    requires
        msg.id is Some,
        msg.method is None,
        msg.result is Some || msg.error is Some,
        d.pending.dom().contains(msg.id->Some_0),
        d.inboxes.dom().contains(d.pending[msg.id->Some_0]),
        d.inboxes[d.pending[msg.id->Some_0]].len() < RESPONSE_CHANNEL_CAP,
    ensures
        ({
            let id = msg.id->Some_0;
            let ticket = d.pending[id];
            let e = message_routed(d, m, msg).0;
            &&& e.inboxes.dom() == d.inboxes.dom()
            &&& e.inboxes[ticket] == d.inboxes[ticket].push(msg)
            &&& other != ticket ==> e.inboxes[other] == d.inboxes[other]
            &&& !e.pending.dom().contains(id)
            &&& other != id ==> e.pending.dom().contains(other) == d.pending.dom().contains(other)
                && e.pending[other] == d.pending[other]
            &&& e.next_ticket == d.next_ticket
            &&& e.stream == d.stream
            &&& e.has_sse_stream == d.has_sse_stream
            &&& e.child_failed == d.child_failed
        }),
{
    let start = DataView { init_done: true, buffer: seq![], ..d };
    lemma_notifying_keeps(start, m, d.buffer);
    let e = message_routed(d, m, msg).0;
    assert(e.inboxes.dom() =~= d.inboxes.dom());
}

/// An answer that nobody waits for, or whose exchange has ended or is full, reaches nobody.
pub proof fn law_stray_answer_reaches_nobody(d: DataView, m: Metrics, msg: MessageView)
    requires
        msg.id is Some,
        msg.method is None,
        msg.result is Some || msg.error is Some,
        d.init_done || msg.result is None,
        d.pending.dom().contains(msg.id->Some_0) ==> !d.inboxes.dom().contains(
            d.pending[msg.id->Some_0],
        ) || d.inboxes[d.pending[msg.id->Some_0]].len() >= RESPONSE_CHANNEL_CAP,
    ensures
        message_routed(d, m, msg) == (
            DataView { pending: d.pending.remove(msg.id->Some_0), ..d },
            m,
        ),
{
    assert(message_routed(d, m, msg).0 =~= (DataView {
        pending: d.pending.remove(msg.id->Some_0),
        ..d
    }));
}

/// Whatever else the child says goes to the stream, behind what waits there, once the session
/// is initialized. Where the stream is full it is dropped and counted, and where the client
/// has left the stream it is dropped. Nothing besides changes.
pub proof fn law_notification_of_the_child_reaches_the_stream(
    d: DataView,
    m: Metrics,
    msg: MessageView,
)
    requires
        d.init_done,
        msg.id is None || msg.method is Some || (msg.result is None && msg.error is None),
    ensures
        ({
            let (e, n) = message_routed(d, m, msg);
            let room = d.notifications.len() < NOTIFICATION_CHANNEL_CAP;
            &&& d.stream != Stream::Dropped && room ==> e.notifications == d.notifications.push(
                msg,
            ) && n == m
            &&& d.stream == Stream::Dropped || !room ==> e == d
            &&& d.stream == Stream::Dropped ==> n == m
            &&& d.stream != Stream::Dropped && !room ==> n == (Metrics {
                backpressure_events: n.backpressure_events,
                ..m
            }) && (m.backpressure_events < u64::MAX ==> n.backpressure_events
                == m.backpressure_events + 1)
            &&& e == (DataView { notifications: e.notifications, ..d })
        }),
{
}

/// Before the session is initialized, what the child says that is no answer is kept: it is
/// the last of what is kept, behind all that was kept before, or all but the oldest where
/// there is no more room. The stream gets nothing yet.
pub proof fn law_early_notification_is_kept(d: DataView, m: Metrics, msg: MessageView)
    requires
        !d.init_done,
        msg.id is None || msg.method is Some || (msg.result is None && msg.error is None),
    ensures
        ({
            let (e, n) = message_routed(d, m, msg);
            &&& n == m
            &&& e == (DataView { buffer: e.buffer, ..d })
            &&& d.buffer.len() < INIT_NOTIFICATION_BUFFER_CAP ==> e.buffer == d.buffer.push(msg)
            &&& d.buffer.len() == INIT_NOTIFICATION_BUFFER_CAP ==> e.buffer.len()
                == d.buffer.len() && e.buffer.last() == msg && (forall|i: int|
                0 <= i < d.buffer.len() - 1 ==> #[trigger] e.buffer[i] == d.buffer[i + 1])
        }),
{
}

/// A session is initialized by the first answer with a result, and by nothing else; it then
/// stays so. What was kept goes to the stream then, behind what waits there, in its order.
pub proof fn law_first_result_initializes(d: DataView, m: Metrics, msg: MessageView)
    ensures
        ({
            let (e, n) = message_routed(d, m, msg);
            let is_answer = msg.id is Some && msg.method is None && (msg.result is Some
                || msg.error is Some);
            let first = !d.init_done && is_answer && msg.result is Some;
            &&& e.init_done == (d.init_done || first)
            &&& first ==> e.buffer.len() == 0
            &&& first && d.stream != Stream::Dropped && d.notifications.len() + d.buffer.len()
                <= NOTIFICATION_CHANNEL_CAP ==> e.notifications == d.notifications + d.buffer && n
                == m
            &&& first && d.stream == Stream::Dropped ==> e.notifications == d.notifications && n
                == m
            &&& is_answer && !first ==> e.notifications == d.notifications && e.buffer
                == d.buffer && n == m
        }),
{
    let start = DataView { init_done: true, buffer: seq![], ..d };
    lemma_notifying_keeps(start, m, d.buffer);
    if d.stream != Stream::Dropped && d.notifications.len() + d.buffer.len()
        <= NOTIFICATION_CHANNEL_CAP {
        lemma_flush(start, m, d.buffer);
    }
    if d.stream == Stream::Dropped {
        lemma_flush_dropped(start, m, d.buffer);
    }
}

/// What the child says in one line is taken in as if it came line by line.
pub proof fn law_batch_of_the_child_is_its_messages(
    d: DataView,
    m: Metrics,
    a: Seq<MessageView>,
    b: Seq<MessageView>,
    msg: MessageView,
)
    ensures
        messages_routed(d, m, seq![]) == (d, m),
        messages_routed(d, m, seq![msg]) == message_routed(d, m, msg),
        messages_routed(d, m, a + b) == messages_routed(
            messages_routed(d, m, a).0,
            messages_routed(d, m, a).1,
            b,
        ),
    decreases b.len(),
{
    assert(seq![msg].drop_last() =~= Seq::<MessageView>::empty());
    assert(messages_routed(d, m, seq![msg].drop_last()) == (d, m));
    if b.len() > 0 {
        law_batch_of_the_child_is_its_messages(d, m, a, b.drop_last(), msg);
        assert((a + b).drop_last() =~= a + b.drop_last());
        assert((a + b).last() == b.last());
    } else {
        assert(a + b =~= a);
    }
}

proof fn lemma_notifying_keeps(d: DataView, m: Metrics, ms: Seq<MessageView>)
    requires
        d.init_done,
    ensures
        ({
            let e = notified_in_turn(d, m, ms).0;
            e == (DataView { notifications: e.notifications, ..d })
        }),
    decreases ms.len(),
{
    if ms.len() > 0 {
        lemma_notifying_keeps(d, m, ms.drop_last());
    }
}

proof fn lemma_flush_dropped(d: DataView, m: Metrics, ms: Seq<MessageView>)
    requires
        d.init_done,
        d.stream == Stream::Dropped,
    ensures
        notified_in_turn(d, m, ms) == (d, m),
    decreases ms.len(),
{
    if ms.len() > 0 {
        lemma_flush_dropped(d, m, ms.drop_last());
    }
}

/// The requests of a POST wait under its ticket, and nothing has come for them yet. Other
/// requests and other exchanges are left alone, and the next exchange gets another ticket.
pub proof fn law_requests_of_a_post_wait(d: DataView, ids: Seq<Seq<char>>, other: Seq<char>)
    requires
        d.next_ticket < u64::MAX,
    ensures
        ({
            let ticket = decimal(d.next_ticket as nat);
            let e = registered(d, ids);
            &&& forall|i: int|
                0 <= i < ids.len() ==> e.pending.dom().contains(#[trigger] ids[i])
                    && e.pending[ids[i]] == ticket
            &&& !ids.contains(other) ==> e.pending.dom().contains(other)
                == d.pending.dom().contains(other) && e.pending[other] == d.pending[other]
            &&& e.inboxes.dom().contains(ticket)
            &&& e.inboxes[ticket].len() == 0
            &&& other != ticket ==> e.inboxes.dom().contains(other) == d.inboxes.dom().contains(
                other,
            ) && e.inboxes[other] == d.inboxes[other]
            &&& decimal(e.next_ticket as nat) != ticket
            &&& e == (DataView {
                pending: e.pending,
                inboxes: e.inboxes,
                next_ticket: (d.next_ticket + 1) as u64,
                ..d
            })
        }),
{
    let ticket = decimal(d.next_ticket as nat);
    lemma_awaited(d.pending, ids, ticket);
    law_number_is_read_back(d.next_ticket as nat, u64::MAX as nat);
    law_number_is_read_back((d.next_ticket + 1) as nat, u64::MAX as nat);
    assert forall|i: int| 0 <= i < ids.len() implies registered(d, ids).pending.dom().contains(
        #[trigger] ids[i],
    ) && registered(d, ids).pending[ids[i]] == ticket by {
        assert(ids.contains(ids[i]));
    }
}

proof fn lemma_awaited(
    pending: Map<Seq<char>, Seq<char>>,
    ids: Seq<Seq<char>>,
    ticket: Seq<char>,
)
    ensures
        forall|id: Seq<char>| #[trigger]
            awaited(pending, ids, ticket).dom().contains(id) <==> pending.dom().contains(id)
                || ids.contains(id),
        forall|id: Seq<char>|
            ids.contains(id) ==> #[trigger] awaited(pending, ids, ticket)[id] == ticket,
        forall|id: Seq<char>|
            !ids.contains(id) ==> #[trigger] awaited(pending, ids, ticket)[id] == pending[id],
    decreases ids.len(),
{
    if ids.len() > 0 {
        let rest = ids.drop_last();
        lemma_awaited(pending, rest, ticket);
        assert forall|id: Seq<char>| #[trigger] ids.contains(id) <==> rest.contains(id) || id
            == ids.last() by {
            if ids.contains(id) {
                let k = choose|k: int| 0 <= k < ids.len() && ids[k] == id;
                if k < rest.len() {
                    assert(rest[k] == id);
                }
            }
            if rest.contains(id) {
                let k = choose|k: int| 0 <= k < rest.len() && rest[k] == id;
                assert(ids[k] == id);
            }
            if id == ids.last() {
                assert(ids[ids.len() - 1] == id);
            }
        }
        let before = awaited(pending, rest, ticket);
        let after = awaited(pending, ids, ticket);
        assert(after == before.insert(ids.last(), ticket));
        assert forall|id: Seq<char>| #[trigger] after.dom().contains(id) <==> pending.dom().contains(
            id,
        ) || ids.contains(id) by {
            assert(before.dom().contains(id) <==> pending.dom().contains(id) || rest.contains(id));
        }
        assert forall|id: Seq<char>| ids.contains(id) implies #[trigger] after[id] == ticket by {
            assert(rest.contains(id) ==> before[id] == ticket);
        }
        assert forall|id: Seq<char>| !ids.contains(id) implies #[trigger] after[id]
            == pending[id] by {
            assert(!rest.contains(id) ==> before[id] == pending[id]);
        }
    } else {
        assert forall|id: Seq<char>| !#[trigger] ids.contains(id) by {
        }
    }
}

/// From the request to its answer: a POST of one request that the child answers, by a result
/// or by an error, is over at the next look, and its body is the event that holds that very
/// answer.
pub proof fn law_request_gets_its_answer(
    d: DataView,
    m: Metrics,
    id: Seq<char>,
    msg: MessageView,
    elapsed: u64,
)
    requires
        msg.id == Some(id),
        msg.method is None,
        msg.result is Some || msg.error is Some,
        elapsed < RESPONSE_TIMEOUT_MS,
    ensures
        ({
            let ticket = decimal(d.next_ticket as nat);
            let waiting = registered(d, seq![id]);
            let told = message_routed(waiting, m, msg).0;
            let (_, x, over) = advanced(told, started(ticket, seq![id]), elapsed);
            &&& over
            &&& answers_text(x.ids, 0, x.responses) == "event: message\ndata: "@ + message_text(
                msg,
            ) + "\n\n"@
        }),
{
    let ticket = decimal(d.next_ticket as nat);
    let ids = seq![id];
    assert(ids[0] == id);
    let waiting = registered(d, ids);
    lemma_awaited(d.pending, ids, ticket);
    law_answer_of_the_child_reaches_its_post(waiting, m, msg, id);
    let told = message_routed(waiting, m, msg).0;
    let x = started(ticket, ids);
    assert(x.waiting.contains(id));
    let (_, y, over) = advanced(told, x, elapsed);
    assert(told.inboxes[ticket] == seq![msg]);
    assert(y.waiting =~= Set::<Seq<char>>::empty()) by {
        assert forall|k: Seq<char>| !y.waiting.contains(k) by {
            if ids.to_set().contains(k) {
                let j = choose|j: int| 0 <= j < ids.len() && ids[j] == k;
            }
        }
    }
    let rest = y.responses.remove(id);
    assert(answers_text(ids, 1, rest) =~= Seq::<char>::empty());
    assert(answers_text(ids, 0, y.responses) =~= event_text(msg));
}

/// While an answer is still awaited and time is left, an exchange goes on; it takes answers
/// in the order in which they came, and each once. It is over when the last came, when none
/// can come any more, or when time is up.
pub proof fn law_exchange_waits_for_its_answers(d: DataView, x: ExchangeView, elapsed: u64)
    requires
        d.inboxes.dom().contains(x.ticket),
    ensures
        ({
            let (e, y, over) = advanced(d, x, elapsed);
            let inbox = d.inboxes[x.ticket];
            let done = x.waiting == Set::<Seq<char>>::empty() || elapsed >= RESPONSE_TIMEOUT_MS;
            let more = exists|id: Seq<char>| #[trigger]
                d.pending.dom().contains(id) && d.pending[id] == x.ticket;
            &&& done ==> over && e == d && y == x
            &&& !done && inbox.len() > 0 ==> e.inboxes[x.ticket] == inbox.skip(1) && e == (
                DataView { inboxes: e.inboxes, ..d }) && (inbox[0].id matches Some(id)
                ==> y.responses == x.responses.insert(id, inbox[0]) && (forall|k: Seq<char>| #[trigger]
                y.waiting.contains(k) <==> x.waiting.contains(k) && k != id)) && over == (
                forall|k: Seq<char>| !#[trigger] y.waiting.contains(k))
            &&& !done && inbox.len() == 0 ==> e == d && y == x && over == !more
            &&& y.ids == x.ids && y.ticket == x.ticket
            &&& forall|t: Seq<char>|
                t != x.ticket ==> #[trigger] e.inboxes[t] == d.inboxes[t]
        }),
{
    let (e, y, over) = advanced(d, x, elapsed);
    if over {
        if y.waiting =~= Set::<Seq<char>>::empty() {
            assert forall|k: Seq<char>| !#[trigger] y.waiting.contains(k) by {
            }
        }
    }
    if forall|k: Seq<char>| !#[trigger] y.waiting.contains(k) {
        assert(y.waiting =~= Set::<Seq<char>>::empty());
    }
}

/// When the child dies, every request that waits is answered: its exchange gets an error
/// under its id that says so, and nothing waits any more.
pub proof fn law_dead_child_is_told_to_all(d: DataView, e: DataView, id: Seq<char>)
    requires
        is_failed(d, e),
        d.pending.dom().contains(id),
        json_value(id) == Some(id),
        d.inboxes.dom().contains(d.pending[id]),
        forall|other: Seq<char>|
            other != id && #[trigger] d.pending.dom().contains(other) ==> d.pending[other]
                != d.pending[id],
        d.inboxes[d.pending[id]].len() < RESPONSE_CHANNEL_CAP,
    ensures
        ({
            let ticket = d.pending[id];
            let told = e.inboxes[ticket].last();
            &&& e.pending.dom().is_empty()
            &&& e.child_failed
            &&& e.inboxes[ticket].drop_last() == d.inboxes[ticket]
            &&& told.id == Some(id)
            &&& told.method is None && told.result is None
            &&& told == error_message(Some(id), -32603, "Child process dead"@)
        }),
{
    let ids = choose|ids: Seq<Seq<char>>| #[trigger]
        enumerates(ids, d.pending.dom()) && e == (DataView {
            pending: Map::empty(),
            inboxes: failed_in_turn(d.inboxes, d.pending, ids, "Child process dead"@),
            child_failed: true,
            ..d
        });
    assert(ids.contains(id));
    assert forall|k: int| 0 <= k < ids.len() implies d.pending.dom().contains(#[trigger] ids[k]) by {
        assert(ids.contains(ids[k]));
    }
    lemma_failed_in_turn(d.inboxes, d.pending, ids, "Child process dead"@, id);
    assert(e.pending.dom() =~= Set::<Seq<char>>::empty());
    assert(e.inboxes[d.pending[id]].drop_last() =~= d.inboxes[d.pending[id]]);
}

proof fn lemma_failed_in_turn(
    inboxes: Map<Seq<char>, Seq<MessageView>>,
    pending: Map<Seq<char>, Seq<char>>,
    ids: Seq<Seq<char>>,
    text: Seq<char>,
    id: Seq<char>,
)
    requires
        ids.no_duplicates(),
        forall|k: int| 0 <= k < ids.len() ==> pending.dom().contains(#[trigger] ids[k]),
        inboxes.dom().contains(pending[id]),
        inboxes[pending[id]].len() < RESPONSE_CHANNEL_CAP,
        forall|other: Seq<char>|
            other != id && #[trigger] pending.dom().contains(other) ==> pending[other]
                != pending[id],
    ensures
        ({
            let after = failed_in_turn(inboxes, pending, ids, text);
            &&& after.dom().contains(pending[id])
            &&& after[pending[id]] == (if ids.contains(id) {
                inboxes[pending[id]].push(failure(id, text))
            } else {
                inboxes[pending[id]]
            })
        }),
    decreases ids.len(),
{
    if ids.len() > 0 {
        let rest = ids.drop_last();
        assert forall|k: int| 0 <= k < rest.len() implies pending.dom().contains(
            #[trigger] rest[k],
        ) by {
            assert(rest[k] == ids[k]);
        }
        lemma_failed_in_turn(inboxes, pending, rest, text, id);
        assert(pending.dom().contains(ids[ids.len() - 1]));
        if ids.contains(id) {
            let k = choose|k: int| 0 <= k < ids.len() && ids[k] == id;
            if k < rest.len() {
                assert(rest[k] == id);
                assert(ids.last() != id);
            } else if rest.contains(id) {
                let j = choose|j: int| 0 <= j < rest.len() && rest[j] == id;
                assert(ids[j] == id);
            }
        } else {
            assert(!rest.contains(id)) by {
                if rest.contains(id) {
                    let j = choose|j: int| 0 <= j < rest.len() && rest[j] == id;
                    assert(ids[j] == id);
                }
            }
            assert(ids.last() != id) by {
                assert(ids[ids.len() - 1] == ids.last());
            }
        }
    }
}

/// A request whose session is gone is answered by an error under its id; the answers that
/// came stay as they are.
pub proof fn law_gone_session_is_told(x: ExchangeView, id: Seq<char>)
    requires
        json_value(id) == Some(id),
    ensures
        ({
            let y = abandoned(x);
            &&& y.ids == x.ids && y.ticket == x.ticket
            &&& y.waiting == Set::<Seq<char>>::empty()
            &&& x.waiting.contains(id) ==> y.responses.dom().contains(id) && y.responses[id]
                == error_message(Some(id), -32603, "Child process dead"@)
            &&& !x.waiting.contains(id) ==> y.responses.dom().contains(id)
                == x.responses.dom().contains(id)
            &&& !x.waiting.contains(id) && x.responses.dom().contains(id) ==> y.responses[id]
                == x.responses[id]
        }),
{
}

/// A request that has no answer when its exchange ends is told so in its place, under its
/// id.
pub proof fn law_unanswered_request_is_told(
    ids: Seq<Seq<char>>,
    from: int,
    responses: Map<Seq<char>, MessageView>,
)
    requires
        0 <= from < ids.len(),
        json_value(ids[from]) == Some(ids[from]),
        !responses.dom().contains(ids[from]),
    ensures
        answers_text(ids, from, responses) == "event: message\ndata: "@ + message_text(
            error_message(Some(ids[from]), -32603, "Internal error"@),
        ) + "\n\n"@ + answers_text(ids, from + 1, responses),
{
}

} // verus!
