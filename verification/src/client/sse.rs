//! The client of an event stream: reading `text/event-stream`, finding the endpoint to
//! post to, waiting before a new connection, and keeping what cannot be sent yet.

use std::collections::VecDeque;

use vstd::prelude::*;
use vstd::string::*;

use crate::client::http::{http_error_text, HttpClientError};
use crate::text::{
    after_prefix, chars_of, decimal, decimal_text, find_char, index_of, last_index_of,
    lemma_index_of, lemma_index_of_is, lemma_last_index_of_is, parse_number, parsed_number, piece, rfind_char, same, starts_with, text_of,
};

verus! {

/// The first wait before a new connection, in milliseconds.
pub const RECONNECT_INITIAL_MS: u64 = 1000;

/// The longest wait before a new connection, in milliseconds.
pub const RECONNECT_MAX_MS: u64 = 30000;

/// How many messages are kept while there is no connection.
pub const OUTGOING_BUFFER_CAP: usize = 256;

/// An event of a stream.
#[derive(Debug, PartialEq, Eq)]
pub struct SseEvent {
    pub event_type: String,
    /// The data lines, joined by line breaks.
    pub data: String,
    pub id: String,
}

#[verifier::ext_equal]
pub struct EventView {
    pub event_type: Seq<char>,
    pub data: Seq<char>,
    pub id: Seq<char>,
}

impl View for SseEvent {
    type V = EventView;

    open spec fn view(&self) -> EventView {
        EventView { event_type: self.event_type@, data: self.data@, id: self.id@ }
    }
}

pub open spec fn events_view(v: Seq<SseEvent>) -> Seq<EventView> {
    Seq::new(v.len(), |i: int| v[i]@)
}

impl SseEvent {
    /// Whether the event names the endpoint to post to.
    pub fn is_endpoint(&self) -> (r: bool)
        ensures
            r == (self@.event_type == "endpoint"@),
    {
        same(self.event_type.as_str(), "endpoint")
    }
}

// ---- Parsing ------------------------------------------------------------------------

/// What is known of the event that is being read, and of the stream.
#[verifier::ext_equal]
pub struct Fields {
    pub event_type: Seq<char>,
    pub data: Seq<char>,
    pub has_data: bool,
    pub id: Seq<char>,
    pub last_id: Seq<char>,
    pub retry_ms: Option<u64>,
}

/// The first place at or after `from` that holds a line break, or the length.
pub open spec fn break_at(s: Seq<char>, from: int) -> int
    decreases s.len() - from,
{
    if from >= s.len() {
        s.len() as int
    } else if s[from] == '\n' || s[from] == '\r' {
        from
    } else {
        break_at(s, from + 1)
    }
}

/// Where the first complete line ends and the next one begins. A line ends with a line
/// feed, a carriage return, or both; after a carriage return at the very end a line feed
/// may still come.
pub open spec fn line_span(s: Seq<char>) -> Option<(int, int)> {
    let at = break_at(s, 0);
    if at >= s.len() {
        None
    } else if s[at] == '\n' {
        Some((at, at + 1))
    } else if at + 1 >= s.len() {
        None
    } else if s[at + 1] == '\n' {
        Some((at, at + 2))
    } else {
        Some((at, at + 1))
    }
}

/// The name and the value on a line. One space after the colon does not count.
pub open spec fn field_of(line: Seq<char>) -> (Seq<char>, Seq<char>) {
    let at = index_of(line, ':', 0);
    if at >= line.len() {
        (line, seq![])
    } else if at + 1 < line.len() && line[at + 1] == ' ' {
        (line.take(at), line.skip(at + 2))
    } else {
        (line.take(at), line.skip(at + 1))
    }
}

/// The effect of a field. A repeated `data` starts a new line, an `id` with a null
/// character and a `retry` that is no number are ignored, and so is any other field.
pub open spec fn with_field(f: Fields, name: Seq<char>, value: Seq<char>) -> Fields {
    if name == "event"@ {
        Fields { event_type: value, ..f }
    } else if name == "data"@ {
        Fields {
            data: if f.has_data {
                f.data.push('\n') + value
            } else {
                f.data + value
            },
            has_data: true,
            ..f
        }
    } else if name == "id"@ {
        if value.contains('\0') {
            f
        } else {
            Fields { id: value, ..f }
        }
    } else if name == "retry"@ {
        match parsed_number(value, u64::MAX as nat) {
            Some(ms) => Fields { retry_ms: Some(ms as u64), ..f },
            None => f,
        }
    } else {
        f
    }
}

/// The effect of a blank line: the event is complete, if there was any data.
pub open spec fn dispatched(f: Fields) -> (Fields, Option<EventView>) {
    if !f.has_data {
        (Fields { event_type: seq![], ..f }, None)
    } else {
        (
            Fields {
                event_type: seq![],
                data: seq![],
                has_data: false,
                id: seq![],
                last_id: if f.id.len() > 0 {
                    f.id
                } else {
                    f.last_id
                },
                ..f
            },
            Some(
                EventView {
                    event_type: if f.event_type.len() == 0 {
                        "message"@
                    } else {
                        f.event_type
                    },
                    data: f.data,
                    id: f.id,
                },
            ),
        )
    }
}

/// The effect of a line: blank lines complete an event, lines that begin with a colon are
/// comments, the others are fields.
pub open spec fn with_line(f: Fields, line: Seq<char>) -> (Fields, Option<EventView>) {
    if line.len() == 0 {
        dispatched(f)
    } else if line[0] == ':' {
        (f, None)
    } else {
        (with_field(f, field_of(line).0, field_of(line).1), None)
    }
}

pub open spec fn one(e: Option<EventView>) -> Seq<EventView> {
    match e {
        Some(v) => seq![v],
        None => seq![],
    }
}

/// What comes of a text: the fields after its complete lines, what is left of it, and the
/// events on the way.
pub open spec fn parsed(f: Fields, s: Seq<char>) -> (Fields, Seq<char>, Seq<EventView>)
    decreases s.len(),
    via parsed_decreases
{
    match line_span(s) {
        None => (f, s, seq![]),
        Some((end, next)) => {
            let (g, e) = with_line(f, s.take(end));
            let (h, rest, es) = parsed(g, s.skip(next));
            (h, rest, one(e) + es)
        },
    }
}

#[via_fn]
proof fn parsed_decreases(f: Fields, s: Seq<char>) {
    lemma_break_at(s, 0);
}

proof fn lemma_break_at(s: Seq<char>, from: int)
    requires
        0 <= from <= s.len(),
    ensures
        from <= break_at(s, from) <= s.len(),
        forall|k: int| from <= k < break_at(s, from) ==> s[k] != '\n' && s[k] != '\r',
        break_at(s, from) < s.len() ==> s[break_at(s, from)] == '\n' || s[break_at(s, from)]
            == '\r',
    decreases s.len() - from,
{
    if from < s.len() && s[from] != '\n' && s[from] != '\r' {
        lemma_break_at(s, from + 1);
    }
}

proof fn lemma_break_at_is(s: Seq<char>, from: int, at: int)
    requires
        0 <= from <= at < s.len(),
        s[at] == '\n' || s[at] == '\r',
        forall|k: int| from <= k < at ==> s[k] != '\n' && s[k] != '\r',
    ensures
        break_at(s, from) == at,
    decreases at - from,
{
    if from < at {
        lemma_break_at_is(s, from + 1, at);
    }
}

/// A line that ends with a line feed has its effect before what follows it.
pub proof fn lemma_first_line(f: Fields, line: Seq<char>, rest: Seq<char>)
    requires
        !line.contains('\n'),
        !line.contains('\r'),
    ensures
        parsed(f, line.push('\n') + rest) == ({
            let (g, e) = with_line(f, line);
            let (h, left, es) = parsed(g, rest);
            (h, left, one(e) + es)
        }),
{
    let s = line.push('\n') + rest;
    let n = line.len() as int;
    assert forall|k: int| 0 <= k < n implies s[k] != '\n' && s[k] != '\r' by {
        assert(s[k] == line[k]);
        assert(line.contains(line[k]));
    }
    lemma_break_at_is(s, 0, n);
    assert(s.take(n) =~= line);
    assert(s.skip(n + 1) =~= rest);
}

/// What a parser has read and not used yet.
#[verifier::ext_equal]
pub struct ParserView {
    pub fields: Fields,
    pub rest: Seq<char>,
}

/// Reads events from a stream, piece by piece.
pub struct SseParser {
    event_type: String,
    data_buf: String,
    has_data: bool,
    event_id: String,
    last_event_id: String,
    retry_ms: Option<u64>,
    line_buf: Vec<char>,
}

impl View for SseParser {
    type V = ParserView;

    closed spec fn view(&self) -> ParserView {
        ParserView { fields: self.fields(), rest: self.line_buf@ }
    }
}

pub open spec fn no_fields() -> Fields {
    Fields {
        event_type: seq![],
        data: seq![],
        has_data: false,
        id: seq![],
        last_id: seq![],
        retry_ms: None,
    }
}

impl SseParser {
    spec fn fields(&self) -> Fields {
        Fields {
            event_type: self.event_type@,
            data: self.data_buf@,
            has_data: self.has_data,
            id: self.event_id@,
            last_id: self.last_event_id@,
            retry_ms: self.retry_ms,
        }
    }

    pub fn new() -> (r: SseParser)
        ensures
            r@ == (ParserView { fields: no_fields(), rest: seq![] }),
    {
        SseParser {
            event_type: String::new(),
            data_buf: String::new(),
            has_data: false,
            event_id: String::new(),
            last_event_id: String::new(),
            retry_ms: None,
            line_buf: Vec::new(),
        }
    }

    /// Takes in a piece of the stream and gives the events that it completes.
    pub fn feed(&mut self, chunk: &str) -> (r: Vec<SseEvent>)
        ensures
            ({
                let p = parsed(old(self)@.fields, old(self)@.rest + chunk@);
                &&& final(self)@ == (ParserView { fields: p.0, rest: p.1 })
                &&& events_view(r@) == p.2
            }),
    {
        let mut events: Vec<SseEvent> = Vec::new();
        let mut buf: Vec<char> = Vec::new();
        std::mem::swap(&mut buf, &mut self.line_buf);
        let mut more = chars_of(chunk);
        buf.append(&mut more);
        let ghost all = old(self)@.rest + chunk@;
        assert(buf@ =~= all);
        let ghost whole = parsed(old(self)@.fields, all);
        let mut pos: usize = 0;
        assert(all.skip(0) =~= all);
        assert(events_view(events@) + whole.2 =~= whole.2);
        loop
            invariant
                pos <= buf.len(),
                buf@ == all,
                all == old(self)@.rest + chunk@,
                whole == parsed(old(self)@.fields, all),
                self.line_buf@.len() == 0,
                whole.0 == parsed(self.fields(), all.skip(pos as int)).0,
                whole.1 == parsed(self.fields(), all.skip(pos as int)).1,
                whole.2 == events_view(events@) + parsed(self.fields(), all.skip(pos as int)).2,
            decreases buf.len() - pos,
        {
            let ghost s = all.skip(pos as int);
            let mut at: usize = pos;
            while at < buf.len() && buf[at] != '\n' && buf[at] != '\r'
                invariant
                    pos <= at <= buf.len(),
                    buf@ == all,
                    s == all.skip(pos as int),
                    break_at(s, 0) == break_at(s, at - pos),
                decreases buf.len() - at,
            {
                assert(s[at - pos] == buf[at as int]);
                at += 1;
            }
            if at < buf.len() {
                assert(s[at - pos] == buf[at as int]);
            }
            if at == buf.len() || (buf[at] == '\r' && at + 1 == buf.len()) {
                let mut left: Vec<char> = Vec::new();
                left.extend_from_slice(vstd::slice::slice_subrange(buf.as_slice(), pos, buf.len()));
                assert(left@ =~= s);
                self.line_buf = left;
                assert(whole.2 =~= events_view(events@));
                return events;
            }
            let next: usize = if buf[at] == '\r' && buf[at + 1] == '\n' {
                at + 2
            } else {
                at + 1
            };
            let line = piece(&buf, pos, at);
            proof {
                if at + 1 < buf.len() {
                    assert(s[at + 1 - pos] == buf[at + 1]);
                }
                assert(line@ =~= s.take(at - pos));
                assert(s.skip(next - pos) =~= all.skip(next as int));
            }
            let ghost before = events_view(events@);
            let ghost g = with_line(self.fields(), line@);
            let ghost tail = parsed(g.0, all.skip(next as int)).2;
            if let Some(event) = self.process_line(line.as_str()) {
                events.push(event);
                assert(events_view(events@) =~= before.push(event@));
                assert(events_view(events@) + tail =~= before + (one(g.1) + tail));
            } else {
                assert(before + (one(g.1) + tail) =~= before + tail);
            }
            pos = next;
        }
    }

    /// The last id that an event had, for a new connection.
    pub fn last_event_id(&self) -> (r: &str)
        ensures
            r@ == self@.fields.last_id,
    {
        self.last_event_id.as_str()
    }

    /// The wait in milliseconds that the server asked for.
    pub fn retry_interval(&self) -> (r: Option<u64>)
        ensures
            r == self@.fields.retry_ms,
    {
        self.retry_ms
    }

    fn process_line(&mut self, line: &str) -> (r: Option<SseEvent>)
        ensures
            final(self).fields() == with_line(old(self).fields(), line@).0,
            final(self).line_buf == old(self).line_buf,
            match with_line(old(self).fields(), line@).1 {
                Some(e) => r matches Some(x) && x@ == e,
                None => r is None,
            },
    {
        let v = chars_of(line);
        if v.len() == 0 {
            return self.dispatch_event();
        }
        if v[0] == ':' {
            return None;
        }
        let at: usize = find_char(&v, ':', 0);
        let (field, value): (String, String) = if at == v.len() {
            (text_of(&v), String::new())
        } else if at + 1 < v.len() && v[at + 1] == ' ' {
            (piece(&v, 0, at), piece(&v, at + 2, v.len()))
        } else {
            (piece(&v, 0, at), piece(&v, at + 1, v.len()))
        };
        proof {
            let l = line@;
            assert(field@ =~= field_of(l).0);
            assert(value@ =~= field_of(l).1);
        }
        let name = field.as_str();
        if same(name, "event") {
            self.event_type = value;
        } else if same(name, "data") {
            if self.has_data {
                self.data_buf.push('\n');
            }
            self.has_data = true;
            self.data_buf.append(value.as_str());
        } else if same(name, "id") {
            let w = chars_of(value.as_str());
            let k: usize = find_char(&w, '\0', 0);
            if k == w.len() {
                assert(!value@.contains('\0'));
                self.event_id = value;
            } else {
                assert(value@[k as int] == '\0');
            }
        } else if same(name, "retry") {
            if let Some(ms) = parse_number(value.as_str(), u64::MAX) {
                self.retry_ms = Some(ms);
            }
        }
        None
    }

    fn dispatch_event(&mut self) -> (r: Option<SseEvent>)
        ensures
            final(self).fields() == dispatched(old(self).fields()).0,
            final(self).line_buf == old(self).line_buf,
            match dispatched(old(self).fields()).1 {
                Some(e) => r matches Some(x) && x@ == e,
                None => r is None,
            },
    {
        if !self.has_data {
            self.event_type = String::new();
            return None;
        }
        let mut event_type = String::new();
        std::mem::swap(&mut event_type, &mut self.event_type);
        if event_type.as_str().is_empty() {
            event_type = "message".to_owned();
        }
        let mut data = String::new();
        std::mem::swap(&mut data, &mut self.data_buf);
        let mut id = String::new();
        std::mem::swap(&mut id, &mut self.event_id);
        if !id.as_str().is_empty() {
            self.last_event_id = id.clone();
        }
        self.has_data = false;
        let e = SseEvent { event_type, data, id };
        assert(self.fields() =~= dispatched(old(self).fields()).0);
        Some(e)
    }
}

impl Default for SseParser {
    fn default() -> (r: SseParser)
        ensures
            r@ == (ParserView { fields: no_fields(), rest: seq![] }),
    {
        SseParser::new()
    }
}

/// A complete line is found whatever follows it.
proof fn lemma_line_span_stays(s: Seq<char>, more: Seq<char>)
    requires
        line_span(s) is Some,
    ensures
        line_span(s + more) == line_span(s),
        0 <= (line_span(s)->0).0 < (line_span(s)->0).1 <= s.len(),
{
    lemma_break_at(s, 0);
    let at = break_at(s, 0);
    let t = s + more;
    assert forall|k: int| 0 <= k < at implies t[k] != '\n' && t[k] != '\r' by {
        assert(t[k] == s[k]);
    }
    assert(t[at] == s[at]);
    lemma_break_at_is(t, 0, at);
    if at + 1 < s.len() {
        assert(t[at + 1] == s[at + 1]);
    }
}

/// The events do not depend on how the stream was cut into pieces: feeding two pieces
/// comes to the same as feeding them as one.
pub proof fn law_events_ignore_chunks(f: Fields, a: Seq<char>, b: Seq<char>)
    ensures
        ({
            let first = parsed(f, a);
            let second = parsed(first.0, first.1 + b);
            parsed(f, a + b) == (second.0, second.1, first.2 + second.2)
        }),
    decreases a.len(),
{
    let first = parsed(f, a);
    let second = parsed(first.0, first.1 + b);
    match line_span(a) {
        None => {
            assert(first.2 + second.2 =~= second.2);
        },
        Some((end, next)) => {
            lemma_line_span_stays(a, b);
            assert((a + b).take(end) =~= a.take(end));
            assert((a + b).skip(next) =~= a.skip(next) + b);
            let (g, e) = with_line(f, a.take(end));
            law_events_ignore_chunks(g, a.skip(next), b);
            let tail = parsed(g, a.skip(next)).2;
            assert(one(e) + (tail + second.2) =~= (one(e) + tail) + second.2);
        },
    }
}

// ---- Waiting ----------------------------------------------------------------------------

/// How long to wait before the next attempt to connect.
#[derive(Debug)]
pub struct ReconnectState {
    pub current_delay_ms: u64,
    pub attempts: u32,
}

/// Twice the wait, up to the longest.
pub open spec fn doubled(ms: u64) -> u64 {
    if 2 * ms > RECONNECT_MAX_MS {
        RECONNECT_MAX_MS
    } else {
        (2 * ms) as u64
    }
}

impl ReconnectState {
    pub open spec fn delay(&self) -> u64 {
        self.current_delay_ms
    }

    pub open spec fn wf(&self) -> bool {
        self.delay() <= RECONNECT_MAX_MS
    }

    pub fn new() -> (r: ReconnectState)
        ensures
            r.wf(),
            r.delay() == RECONNECT_INITIAL_MS,
            r.attempts == 0,
    {
        ReconnectState { current_delay_ms: RECONNECT_INITIAL_MS, attempts: 0 }
    }

    /// The wait before the next attempt, in milliseconds. The one after it is twice as long.
    pub fn next_delay(&mut self) -> (r: u64)
        requires
            old(self).wf(),
            old(self).attempts < u32::MAX,
        ensures
            final(self).wf(),
            r == old(self).delay(),
            r <= RECONNECT_MAX_MS,
            final(self).attempts == old(self).attempts + 1,
            final(self).delay() == doubled(old(self).delay()),
    {
        let delay = self.current_delay_ms;
        self.attempts = self.attempts + 1;
        self.current_delay_ms = if delay * 2 > RECONNECT_MAX_MS {
            RECONNECT_MAX_MS
        } else {
            delay * 2
        };
        delay
    }

    /// Starts again after a connection came about.
    pub fn reset(&mut self)
        ensures
            final(self).wf(),
            final(self).delay() == RECONNECT_INITIAL_MS,
            final(self).attempts == 0,
    {
        self.current_delay_ms = RECONNECT_INITIAL_MS;
        self.attempts = 0;
    }

    /// Takes the wait that the server asked for, up to the longest.
    pub fn set_retry(&mut self, interval_ms: u64)
        ensures
            final(self).wf(),
            final(self).delay() == (if interval_ms > RECONNECT_MAX_MS {
                RECONNECT_MAX_MS
            } else {
                interval_ms
            }),
            final(self).attempts == old(self).attempts,
    {
        self.current_delay_ms = if interval_ms > RECONNECT_MAX_MS {
            RECONNECT_MAX_MS
        } else {
            interval_ms
        };
    }
}

impl Default for ReconnectState {
    fn default() -> (r: ReconnectState)
        ensures
            r.wf(),
            r.delay() == RECONNECT_INITIAL_MS,
            r.attempts == 0,
    {
        ReconnectState::new()
    }
}

/// The wait after `n` failed attempts.
pub open spec fn wait_after(n: nat) -> u64
    decreases n,
{
    if n == 0 {
        RECONNECT_INITIAL_MS
    } else {
        doubled(wait_after((n - 1) as nat))
    }
}

/// The wait never shrinks from attempt to attempt, never exceeds the longest, and reaches
/// it with the sixth attempt.
pub proof fn law_wait_grows_to_the_longest(n: nat)
    ensures
        wait_after(n) <= wait_after(n + 1) <= RECONNECT_MAX_MS,
        n >= 5 ==> wait_after(n) == RECONNECT_MAX_MS,
    decreases n,
{
    if n > 0 {
        law_wait_grows_to_the_longest((n - 1) as nat);
    }
    if n == 5 {
        reveal_with_fuel(wait_after, 6);
    }
}

// ---- Keeping what cannot be sent -----------------------------------------------------------

/// Why the client of an event stream gives up on something.
#[derive(Debug)]
pub enum SseClientError {
    BufferFull { cap: usize },
    Http(HttpClientError),
    NotConnected,
    NoEndpoint,
    StreamEnded,
}

pub open spec fn sse_error_text(e: SseClientError) -> Seq<char> {
    match e {
        SseClientError::BufferFull { cap } => "outgoing buffer full ("@ + decimal(cap as nat)
            + " messages)"@,
        SseClientError::Http(e) => "HTTP error: "@ + http_error_text(e),
        SseClientError::NotConnected => "not connected"@,
        SseClientError::NoEndpoint => "endpoint URL not yet discovered"@,
        SseClientError::StreamEnded => "SSE stream ended"@,
    }
}

impl SseClientError {
    /// The error in words.
    pub fn to_string(&self) -> (r: String)
        ensures
            r@ == sse_error_text(*self),
    {
        match self {
            SseClientError::BufferFull { cap } => {
                let n = decimal_text(*cap as u64);
                "outgoing buffer full (".to_owned().concat(n.as_str()).concat(" messages)")
            },
            SseClientError::Http(e) => {
                let t = e.to_string();
                "HTTP error: ".to_owned().concat(t.as_str())
            },
            SseClientError::NotConnected => "not connected".to_owned(),
            SseClientError::NoEndpoint => "endpoint URL not yet discovered".to_owned(),
            SseClientError::StreamEnded => "SSE stream ended".to_owned(),
        }
    }
}

/// Messages that wait for a connection, in the order in which they came.
#[derive(Debug)]
pub struct OutgoingBuffer {
    queue: VecDeque<Vec<u8>>,
    capacity: usize,
}

impl View for OutgoingBuffer {
    type V = Seq<Vec<u8>>;

    closed spec fn view(&self) -> Seq<Vec<u8>> {
        self.queue@
    }
}

impl OutgoingBuffer {
    pub closed spec fn limit(&self) -> usize {
        self.capacity
    }

    #[verifier::type_invariant]
    spec fn wf(self) -> bool {
        self.queue@.len() <= self.capacity
    }

    pub fn new() -> (r: OutgoingBuffer)
        ensures
            r@ == Seq::<Vec<u8>>::empty(),
            r.limit() == OUTGOING_BUFFER_CAP,
    {
        OutgoingBuffer { queue: VecDeque::new(), capacity: OUTGOING_BUFFER_CAP }
    }

    pub fn with_capacity(capacity: usize) -> (r: OutgoingBuffer)
        ensures
            r@ == Seq::<Vec<u8>>::empty(),
            r.limit() == capacity,
    {
        OutgoingBuffer { queue: VecDeque::new(), capacity }
    }

    /// Keeps a message, where there is room.
    pub fn push(&mut self, message: Vec<u8>) -> (r: Result<(), SseClientError>)
        ensures
            final(self).limit() == old(self).limit(),
            final(self)@.len() <= final(self).limit(),
            old(self)@.len() < old(self).limit() ==> r is Ok && final(self)@ == old(self)@.push(
                message,
            ),
            old(self)@.len() >= old(self).limit() ==> final(self)@ == old(self)@ && (r matches Err(
                SseClientError::BufferFull { cap },
            ) && cap == old(self).limit()),
    {
        proof {
            use_type_invariant(&*self);
        }
        if self.queue.len() >= self.capacity {
            return Err(SseClientError::BufferFull { cap: self.capacity });
        }
        let mut queue: VecDeque<Vec<u8>> = VecDeque::new();
        std::mem::swap(&mut queue, &mut self.queue);
        queue.push_back(message);
        self.queue = queue;
        Ok(())
    }

    /// Gives all messages, the oldest first, and keeps none.
    pub fn drain(&mut self) -> (r: Vec<Vec<u8>>)
        ensures
            r@ == old(self)@,
            final(self)@ == Seq::<Vec<u8>>::empty(),
            final(self).limit() == old(self).limit(),
    {
        let mut out: Vec<Vec<u8>> = Vec::new();
        let mut queue: VecDeque<Vec<u8>> = VecDeque::new();
        std::mem::swap(&mut queue, &mut self.queue);
        let ghost all = queue@;
        assert(out@ + queue@ =~= all);
        while queue.len() > 0
            invariant
                out@ + queue@ == all,
            decreases queue@.len(),
        {
            let ghost left = queue@;
            let ghost taken = out@;
            if let Some(m) = queue.pop_front() {
                out.push(m);
                assert(out@ + queue@ =~= taken + left);
            }
        }
        assert(out@ =~= all);
        out
    }

    pub fn len(&self) -> (r: usize)
        ensures
            r == self@.len(),
    {
        self.queue.len()
    }

    pub fn is_empty(&self) -> (r: bool)
        ensures
            r == (self@.len() == 0),
    {
        self.queue.len() == 0
    }

    pub fn is_full(&self) -> (r: bool)
        ensures
            r == (self@.len() >= self.limit()),
    {
        self.queue.len() >= self.capacity
    }

    pub fn capacity(&self) -> (r: usize)
        ensures
            r == self.limit(),
    {
        self.capacity
    }
}

impl Default for OutgoingBuffer {
    fn default() -> (r: OutgoingBuffer)
        ensures
            r@ == Seq::<Vec<u8>>::empty(),
            r.limit() == OUTGOING_BUFFER_CAP,
    {
        OutgoingBuffer::new()
    }
}

// ---- The endpoint ------------------------------------------------------------------------------

pub open spec fn is_absolute_url(url: Seq<char>) -> bool {
    "http://"@.is_prefix_of(url) || "https://"@.is_prefix_of(url)
}

/// The scheme of a URL and what follows it.
pub open spec fn scheme_and_rest(url: Seq<char>) -> Option<(Seq<char>, Seq<char>)> {
    if "https://"@.is_prefix_of(url) {
        Some(("https"@, url.skip("https://"@.len() as int)))
    } else if "http://"@.is_prefix_of(url) {
        Some(("http"@, url.skip("http://"@.len() as int)))
    } else {
        None
    }
}

/// The part of a path up to its last slash.
pub open spec fn directory(path: Seq<char>) -> Seq<char> {
    let at = last_index_of(path, '/', path.len() as int);
    if at < 0 {
        "/"@
    } else {
        path.take(at + 1)
    }
}

pub open spec fn least(a: int, b: int) -> int {
    if a < b {
        a
    } else {
        b
    }
}

/// Where the query or the fragment of a URL begins, from `from` on.
pub open spec fn query_start(rest: Seq<char>, from: int) -> int {
    least(index_of(rest, '?', from), index_of(rest, '#', from))
}

/// Where the authority of a URL ends, which stands first in `rest`.
pub open spec fn authority_end(rest: Seq<char>) -> int {
    least(index_of(rest, '/', 0), query_start(rest, 0))
}

/// The path behind the authority, without query and fragment: a slash where there is none.
pub open spec fn path_behind(rest: Seq<char>) -> Seq<char> {
    let at = authority_end(rest);
    let end = query_start(rest, at);
    if at < end {
        rest.subrange(at, end)
    } else {
        "/"@
    }
}

/// The endpoint as seen from the stream: an absolute URL stays as it is, `//host` gets the
/// scheme, a path the scheme and authority, and anything else the directory of the stream
/// too. The query of the stream plays no part.
pub open spec fn endpoint_url(sse_url: Seq<char>, endpoint: Seq<char>) -> Seq<char> {
    if is_absolute_url(endpoint) {
        endpoint
    } else {
        match scheme_and_rest(sse_url) {
            None => endpoint,
            Some((scheme, rest)) => {
                let authority = rest.take(authority_end(rest));
                if "//"@.is_prefix_of(endpoint) {
                    scheme + "://"@ + endpoint.skip("//"@.len() as int)
                } else if "/"@.is_prefix_of(endpoint) {
                    scheme + "://"@ + authority + endpoint
                } else {
                    scheme + "://"@ + authority + directory(path_behind(rest)) + endpoint
                }
            },
        }
    }
}

/// The part of a path up to its last slash.
pub fn directory_of(path: &str) -> (r: String)
    ensures
        r@ == directory(path@),
{
    let v = chars_of(path);
    match rfind_char(&v, '/') {
        Some(i) => {
            let r = piece(&v, 0, i + 1);
            assert(r@ =~= path@.take(i + 1));
            r
        },
        None => "/".to_owned(),
    }
}

/// Finds where the query or the fragment of a URL begins.
fn find_query(v: &Vec<char>, from: usize) -> (r: usize)
    requires
        from <= v.len(),
    ensures
        r == query_start(v@, from as int),
        from <= r <= v.len(),
{
    let query: usize = find_char(v, '?', from);
    let fragment: usize = find_char(v, '#', from);
    if query < fragment {
        query
    } else {
        fragment
    }
}

/// Resolves the endpoint that a server named against the URL of its stream.
pub fn resolve_endpoint_url(sse_url: &str, endpoint: &str) -> (r: String)
    ensures
        r@ == endpoint_url(sse_url@, endpoint@),
{
    if starts_with(endpoint, "http://") || starts_with(endpoint, "https://") {
        return endpoint.to_owned();
    }
    let (scheme, rest): (&str, String) = match after_prefix(sse_url, "https://") {
        Some(rest) => ("https", rest),
        None => match after_prefix(sse_url, "http://") {
            Some(rest) => ("http", rest),
            None => return endpoint.to_owned(),
        },
    };
    let v = chars_of(rest.as_str());
    let slash: usize = find_char(&v, '/', 0);
    let query: usize = find_query(&v, 0);
    let at: usize = if slash < query {
        slash
    } else {
        query
    };
    let authority = piece(&v, 0, at);
    assert(authority@ =~= rest@.take(at as int));
    if let Some(host) = after_prefix(endpoint, "//") {
        return scheme.to_owned().concat("://").concat(host.as_str());
    }
    let base = scheme.to_owned().concat("://").concat(authority.as_str());
    if starts_with(endpoint, "/") {
        return base.concat(endpoint);
    }
    let end: usize = find_query(&v, at);
    let path = if at < end {
        piece(&v, at, end)
    } else {
        "/".to_owned()
    };
    let dir = directory_of(path.as_str());
    base.concat(dir.as_str()).concat(endpoint)
}

/// Whether a URL ends with its path.
pub open spec fn ends_with_path(url: Seq<char>) -> bool {
    forall|i: int| 0 <= i < url.len() ==> #[trigger] url[i] != '?' && url[i] != '#'
}

/// Neither the query nor the fragment of the stream's URL has a part in where messages are
/// posted.
pub proof fn law_query_of_the_stream_is_ignored(
    url: Seq<char>,
    mark: char,
    query: Seq<char>,
    endpoint: Seq<char>,
)
    requires
        ends_with_path(url),
        mark == '?' || mark == '#',
        scheme_and_rest(url) is Some,
    ensures
        endpoint_url(url + seq![mark] + query, endpoint) == endpoint_url(url, endpoint),
{
    let long = url + seq![mark] + query;
    reveal_strlit("https://");
    reveal_strlit("http://");
    let (scheme, rest) = scheme_and_rest(url)->Some_0;
    let n = (url.len() - rest.len()) as int;
    if "https://"@.is_prefix_of(url) {
        assert(long.subrange(0, 8) =~= url.subrange(0, 8));
    } else {
        assert(url.subrange(0, 7)[4] == "http://"@[4]);
        assert(long[4] == url[4]);
        assert(long.subrange(0, 7) =~= url.subrange(0, 7));
        if "https://"@.is_prefix_of(long) {
            assert(long.subrange(0, 8)[4] == "https://"@[4]);
        }
    }
    let rest2 = long.skip(n);
    assert(rest =~= url.skip(n));
    assert(rest2 =~= rest + seq![mark] + query);
    assert(scheme_and_rest(long) == Some((scheme, rest2)));
    assert forall|i: int| 0 <= i < rest.len() implies #[trigger] rest2[i] == url[i + n] && rest2[i]
        == rest[i] by {}
    assert(rest2[rest.len() as int] == mark);
    lemma_index_of(rest, '/', 0);
    lemma_index_of(rest, '?', 0);
    lemma_index_of(rest, '#', 0);
    lemma_index_of(rest2, '/', 0);
    lemma_index_of(rest2, '?', 0);
    lemma_index_of(rest2, '#', 0);
    let at = authority_end(rest);
    let slash = index_of(rest, '/', 0);
    assert forall|i: int| 0 <= i < rest.len() implies #[trigger] rest[i] != '?' && rest[i] != '#' by {
        assert(rest[i] == url[i + n]);
    }
    assert(at == slash);
    if slash < rest.len() {
        assert(rest2[slash] == '/');
    }
    assert(query_start(rest2, 0) == rest.len());
    assert(authority_end(rest2) == at);
    assert(rest2.take(at) =~= rest.take(at));
    lemma_index_of(rest, '?', at);
    lemma_index_of(rest, '#', at);
    lemma_index_of(rest2, '?', at);
    lemma_index_of(rest2, '#', at);
    assert(query_start(rest, at) == rest.len());
    assert(query_start(rest2, at) == rest.len());
    assert(rest2.subrange(at, rest.len() as int) =~= rest.subrange(at, rest.len() as int));
}

/// A line ends with a line feed, with both a carriage return and a line feed, or with a
/// carriage return alone: it is the same line.
pub proof fn law_line_breaks_are_alike(f: Fields, line: Seq<char>, rest: Seq<char>)
    requires
        !line.contains('\n'),
        !line.contains('\r'),
    ensures
        parsed(f, line.push('\r').push('\n') + rest) == parsed(f, line.push('\n') + rest),
        rest.len() > 0 && rest[0] != '\n' ==> parsed(f, line.push('\r') + rest) == parsed(
            f,
            line.push('\n') + rest,
        ),
{
    lemma_first_line(f, line, rest);
    let n = line.len() as int;
    let both = line.push('\r').push('\n') + rest;
    let alone = line.push('\r') + rest;
    assert forall|k: int| 0 <= k < n implies both[k] != '\n' && both[k] != '\r' && alone[k] != '\n'
        && alone[k] != '\r' by {
        assert(both[k] == line[k] && alone[k] == line[k]);
        assert(line.contains(line[k]));
    }
    assert(both[n] == '\r' && both[n + 1] == '\n' && alone[n] == '\r');
    lemma_break_at_is(both, 0, n);
    assert(both.take(n) =~= line);
    assert(both.skip(n + 2) =~= rest);
    if rest.len() > 0 && rest[0] != '\n' {
        assert(alone[n + 1] == rest[0]);
        lemma_break_at_is(alone, 0, n);
        assert(alone.take(n) =~= line);
        assert(alone.skip(n + 1) =~= rest);
    }
}

/// A blank line ends an event: where there was data it is given, with its kind and its id,
/// and the next event begins with nothing; where there was none, only the kind is forgotten.
pub proof fn law_blank_line_ends_the_event(f: Fields, rest: Seq<char>)
    ensures
        ({
            let (h, left, es) = parsed(f, seq!['\n'] + rest);
            let none = Seq::<char>::empty();
            let g = Fields {
                event_type: none,
                data: if f.has_data {
                    none
                } else {
                    f.data
                },
                has_data: false,
                id: if f.has_data {
                    none
                } else {
                    f.id
                },
                last_id: if f.has_data && f.id.len() > 0 {
                    f.id
                } else {
                    f.last_id
                },
                retry_ms: f.retry_ms,
            };
            let (h2, left2, more) = parsed(g, rest);
            &&& h == h2 && left == left2
            &&& !f.has_data ==> es == more
            &&& f.has_data ==> es.len() == more.len() + 1 && es.skip(1) == more && es[0].data
                == f.data && es[0].id == f.id && es[0].event_type == (if f.event_type.len() == 0 {
                "message"@
            } else {
                f.event_type
            })
        }),
{
    let none = Seq::<char>::empty();
    lemma_first_line(f, none, rest);
    assert(none.push('\n') + rest =~= seq!['\n'] + rest);
    let (g, e) = with_line(f, none);
    let more = parsed(g, rest).2;
    if f.has_data {
        assert((one(e) + more).skip(1) =~= more);
    } else {
        assert(one(e) + more =~= more);
    }
}

/// A line with a name, a colon and a value has its effect and gives no event: it sets the
/// kind, adds a line of data, sets the id unless there is a null character in it, or sets how
/// long to wait where it is a number. Any other name is ignored. A space behind the colon does
/// not count.
pub proof fn law_field_is_taken(
    f: Fields,
    name: Seq<char>,
    value: Seq<char>,
    rest: Seq<char>,
)
    requires
        name.len() > 0,
        !name.contains(':'),
        !name.contains('\n'),
        !name.contains('\r'),
        !value.contains('\n'),
        !value.contains('\r'),
    ensures
        ({
            let line = name + seq![':', ' '] + value;
            let number = parsed_number(value, u64::MAX as nat);
            let g = Fields {
                event_type: if name == "event"@ {
                    value
                } else {
                    f.event_type
                },
                data: if name == "data"@ && f.has_data {
                    f.data + seq!['\n'] + value
                } else if name == "data"@ {
                    f.data + value
                } else {
                    f.data
                },
                has_data: f.has_data || name == "data"@,
                id: if name == "id"@ && !value.contains('\0') {
                    value
                } else {
                    f.id
                },
                last_id: f.last_id,
                retry_ms: if name == "retry"@ && number is Some {
                    Some(number->Some_0 as u64)
                } else {
                    f.retry_ms
                },
            };
            &&& parsed(f, line.push('\n') + rest) == parsed(g, rest)
            &&& value.len() == 0 || value[0] != ' ' ==> parsed(
                f,
                (name + seq![':'] + value).push('\n') + rest,
            ) == parsed(g, rest)
        }),
{
    reveal_strlit("event");
    reveal_strlit("data");
    reveal_strlit("id");
    reveal_strlit("retry");
    assert("event"@.len() == 5 && "data"@.len() == 4 && "id"@.len() == 2 && "retry"@.len() == 5);
    assert("event"@[0] == 'e' && "retry"@[0] == 'r');
    let n = name.len() as int;
    let spaced = name + seq![':', ' '] + value;
    let tight = name + seq![':'] + value;
    assert forall|k: int| 0 <= k < n implies spaced[k] != ':' && tight[k] != ':' by {
        assert(spaced[k] == name[k] && tight[k] == name[k]);
        assert(name.contains(name[k]));
    }
    assert(spaced[n] == ':' && spaced[n + 1] == ' ' && tight[n] == ':');
    lemma_index_of_is(spaced, ':', 0, n);
    lemma_index_of_is(tight, ':', 0, n);
    assert(spaced.take(n) =~= name);
    assert(spaced.skip(n + 2) =~= value);
    assert(tight.take(n) =~= name);
    assert(tight.skip(n + 1) =~= value);
    assert(spaced[0] == name[0] && tight[0] == name[0]);
    assert(name.contains(name[0]));
    assert forall|k: int| 0 <= k < spaced.len() implies spaced[k] != '\n' && spaced[k] != '\r' by {
        if k < n {
            assert(name.contains(name[k]));
        } else if k >= n + 2 {
            assert(spaced[k] == value[k - n - 2]);
            assert(value.contains(value[k - n - 2]));
        }
    }
    assert forall|k: int| 0 <= k < tight.len() implies tight[k] != '\n' && tight[k] != '\r' by {
        if k < n {
            assert(name.contains(name[k]));
        } else if k >= n + 1 {
            assert(tight[k] == value[k - n - 1]);
            assert(value.contains(value[k - n - 1]));
        }
    }
    lemma_first_line(f, spaced, rest);
    lemma_first_line(f, tight, rest);
    let g = with_field(f, name, value);
    assert(f.data.push('\n') + value =~= f.data + seq!['\n'] + value);
    assert(one(None) + parsed(g, rest).2 =~= parsed(g, rest).2);
    if value.len() > 0 && value[0] != ' ' {
        assert(tight[n + 1] == value[0]);
    }
}

/// A line that begins with a colon is a comment and has no effect.
pub proof fn law_comment_is_ignored(f: Fields, words: Seq<char>, rest: Seq<char>)
    requires
        !words.contains('\n'),
        !words.contains('\r'),
    ensures
        parsed(f, (seq![':'] + words).push('\n') + rest) == parsed(f, rest),
{
    let line = seq![':'] + words;
    assert forall|k: int| 0 <= k < line.len() implies line[k] != '\n' && line[k] != '\r' by {
        if k > 0 {
            assert(line[k] == words[k - 1]);
            assert(words.contains(words[k - 1]));
        }
    }
    lemma_first_line(f, line, rest);
    assert(one(None) + parsed(f, rest).2 =~= parsed(f, rest).2);
}

/// What is not a whole line yet is kept, and gives no event.
pub proof fn law_unfinished_line_is_kept(f: Fields, line: Seq<char>)
    requires
        !line.contains('\n'),
        !line.contains('\r'),
    ensures
        parsed(f, line) == (f, line, Seq::<EventView>::empty()),
{
    lemma_break_at(line, 0);
    if break_at(line, 0) < line.len() {
        assert(line.contains(line[break_at(line, 0)]));
    }
}

/// The waits are one second, two, four and so on, and half a minute at most.
pub proof fn law_wait_doubles(n: nat)
    ensures
        wait_after(0) == 1_000,
        2 * wait_after(n) <= 30_000 ==> wait_after(n + 1) == 2 * wait_after(n),
        2 * wait_after(n) > 30_000 ==> wait_after(n + 1) == 30_000,
{
}

/// Where a server tells a client to post: an absolute URL is taken as it is, a path is taken
/// on the host of the stream, and anything else beside the last part of the stream's path.
pub proof fn law_endpoint_is_resolved(
    secure: bool,
    authority: Seq<char>,
    folder: Seq<char>,
    page: Seq<char>,
    endpoint: Seq<char>,
)
    requires
        forall|i: int|
            0 <= i < authority.len() ==> #[trigger] authority[i] != '/' && authority[i] != '?'
                && authority[i] != '#',
        forall|i: int| 0 <= i < folder.len() ==> #[trigger] folder[i] != '?' && folder[i] != '#',
        folder.len() > 0,
        folder[0] == '/',
        folder.last() == '/',
        forall|i: int|
            0 <= i < page.len() ==> #[trigger] page[i] != '/' && page[i] != '?' && page[i] != '#',
    ensures
        ({
            let scheme = if secure {
                "https://"@
            } else {
                "http://"@
            };
            let url = scheme + authority + folder + page;
            let absolute = "http://"@.is_prefix_of(endpoint) || "https://"@.is_prefix_of(endpoint);
            let rooted = endpoint.len() > 0 && endpoint[0] == '/';
            let hosted = rooted && endpoint.len() > 1 && endpoint[1] == '/';
            let r = endpoint_url(url, endpoint);
            &&& absolute ==> r == endpoint
            &&& !absolute && hosted ==> r == scheme + endpoint.skip(2)
            &&& !absolute && rooted && !hosted ==> r == scheme + authority + endpoint
            &&& !absolute && !rooted ==> r == scheme + authority + folder + endpoint
        }),
{
    reveal_strlit("https://");
    reveal_strlit("http://");
    reveal_strlit("https");
    reveal_strlit("http");
    reveal_strlit("://");
    reveal_strlit("//");
    reveal_strlit("/");
    let scheme = if secure {
        "https://"@
    } else {
        "http://"@
    };
    let rest = authority + folder + page;
    let url = scheme + authority + folder + page;
    assert(url =~= scheme + rest);
    let n = scheme.len() as int;
    assert(url.subrange(0, n) =~= scheme);
    assert(url.skip(n) =~= rest);
    if !secure {
        assert(url[4] == scheme[4]);
        assert(!"https://"@.is_prefix_of(url)) by {
            if "https://"@.is_prefix_of(url) {
                assert(url.subrange(0, 8)[4] == "https://"@[4]);
            }
        }
    }
    let word = if secure {
        "https"@
    } else {
        "http"@
    };
    assert(scheme_and_rest(url) == Some((word, rest)));
    assert(word + "://"@ =~= scheme);
    let a = authority.len() as int;
    let b = a + folder.len();
    assert forall|i: int| 0 <= i < rest.len() implies #[trigger] rest[i] != '?' && rest[i] != '#'
        && (i < a || i >= b ==> rest[i] != '/') by {
        if i < a {
            assert(rest[i] == authority[i]);
        } else if i < b {
            assert(rest[i] == folder[i - a]);
        } else {
            assert(rest[i] == page[i - b]);
        }
    }
    assert(rest[a] == folder[0]);
    assert(rest[b - 1] == folder.last());
    lemma_index_of_is(rest, '/', 0, a);
    lemma_index_of_is(rest, '?', 0, rest.len() as int);
    lemma_index_of_is(rest, '#', 0, rest.len() as int);
    lemma_index_of_is(rest, '?', a, rest.len() as int);
    lemma_index_of_is(rest, '#', a, rest.len() as int);
    assert(authority_end(rest) == a);
    assert(rest.take(a) =~= authority);
    let path = path_behind(rest);
    assert(path =~= folder + page);
    let k = (folder.len() - 1) as int;
    assert(path[k] == '/');
    assert forall|i: int| k < i < path.len() implies path[i] != '/' by {
        assert(path[i] == page[i - folder.len()]);
    }
    lemma_last_index_of_is(path, '/', path.len() as int, k);
    assert(directory(path) =~= folder);
    if endpoint.len() > 0 && endpoint[0] == '/' {
        assert(endpoint.subrange(0, 1) =~= "/"@);
        if endpoint.len() > 1 && endpoint[1] == '/' {
            assert(endpoint.subrange(0, 2) =~= "//"@);
            assert(word + "://"@ + endpoint.skip(2) =~= scheme + endpoint.skip(2));
        } else if "//"@.is_prefix_of(endpoint) {
            assert(endpoint.subrange(0, 2)[1] == '/');
        }
    } else {
        if "/"@.is_prefix_of(endpoint) {
            assert(endpoint.subrange(0, 1)[0] == '/');
        }
        if "//"@.is_prefix_of(endpoint) {
            assert(endpoint.subrange(0, 2)[0] == '/');
        }
    }
}

/// The words of an error of the stream hold what went wrong.
pub proof fn law_stream_error_keeps_its_words(e: SseClientError)
    ensures
        e matches SseClientError::BufferFull { cap } ==> sse_error_text(e)
            == "outgoing buffer full ("@ + decimal(cap as nat) + " messages)"@,
        e matches SseClientError::Http(h) ==> sse_error_text(e) == "HTTP error: "@
            + http_error_text(h),
        e is NotConnected ==> sse_error_text(e) == "not connected"@,
        e is NoEndpoint ==> sse_error_text(e) == "endpoint URL not yet discovered"@,
        e is StreamEnded ==> sse_error_text(e) == "SSE stream ended"@,
{
}

} // verus!
