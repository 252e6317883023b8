//! From a remote event stream to stdio: what the server sends goes to stdout, what comes in
//! on stdin is posted to the server. The first message has to be a request to initialize;
//! where it is not, the gateway makes one.

use vstd::prelude::*;
use vstd::string::*;

use crate::cli::Header;
use crate::client::sse::{endpoint_url, resolve_endpoint_url, EventView, SseEvent};
use crate::gateway::sse::{into_messages, messages_of};
use crate::json::{
    integer_member, is_json, is_plain, is_value, is_written, json_integer_member, json_with_member,
    object_text, quote, quoted, set_member, write_object, RawValue,
};
use crate::jsonrpc::{
    error_message, line_error, line_is, messages_view, parse_line, raw_view, MessageView,
    ParsedView, RawMessage,
};
use crate::pairs::push_pair;
use crate::system::{random_bytes, unix_time_ms};
use crate::text::{
    chars_of, decimal, decimal_text, is_digit, lemma_decimal_digits, lemma_unquoted, piece, same,
    starts_with, trim_quotes, unquoted,
};

verus! {

/// The name under which the gateway makes itself known to a server.
pub const FALLBACK_CLIENT_NAME: &'static str = "supergateway";

/// The version of the gateway.
pub const VERSION: &'static str = "0.1.0";

/// The code of errors that have none of their own.
pub const CLIENT_ERROR_CODE: i32 = -32000;

/// The text of errors that have none of their own.
pub const CLIENT_ERROR_MESSAGE: &'static str = "Internal error";

// ---- Initialization ----------------------------------------------------------------------------

/// The digit of a byte in base 36.
pub open spec fn base36_digit(b: u8) -> char {
    if b % 36 < 10 {
        (48 + b % 36) as char
    } else {
        (87 + b % 36) as char
    }
}

/// An id made of a time and random bytes.
pub open spec fn init_id_text(ts: nat, random: Seq<u8>) -> Seq<char> {
    "init_"@ + decimal(ts) + "_"@ + Seq::new(random.len(), |i: int| base36_digit(random[i]))
}

/// Whether a text is an id that the gateway makes: a time, and nine digits at random.
pub open spec fn is_init_id(s: Seq<char>) -> bool {
    exists|ts: nat, random: Seq<u8>|
        random.len() == 9 && s == #[trigger] init_id_text(ts, random)
}

/// An id of the gateway is written in JSON as it is, between quotes.
pub proof fn lemma_init_id(ts: nat, random: Seq<u8>)
    ensures
        is_plain(init_id_text(ts, random)),
        init_id_text(ts, random).len() > 0,
{
    reveal_strlit("init_");
    reveal_strlit("_");
    let s = init_id_text(ts, random);
    let d = decimal(ts);
    lemma_decimal_digits(ts);
    assert forall|i: int| 0 <= i < s.len() implies ' ' <= #[trigger] s[i] && s[i] != '"' && s[i]
        != '\\' by {
        if 5 <= i < 5 + d.len() {
            assert(is_digit(d[i - 5]));
        } else if i >= 6 + d.len() {
            let b = random[i - 6 - d.len()];
            assert(s[i] == base36_digit(b));
        }
    }
}

/// The digits of the bytes in base 36.
fn base36(bytes: &[u8]) -> (r: String)
    ensures
        r@ == Seq::new(bytes@.len(), |i: int| base36_digit(bytes@[i])),
{
    let mut out = String::new();
    let mut i: usize = 0;
    while i < bytes.len()
        invariant
            i <= bytes.len(),
            out@ == Seq::new(i as nat, |k: int| base36_digit(bytes@[k])),
        decreases bytes.len() - i,
    {
        let d: u8 = bytes[i] % 36;
        let c: char = if d < 10 {
            (48 + d) as char
        } else {
            (87 + d) as char
        };
        out.push(c);
        assert(out@ =~= Seq::new((i + 1) as nat, |k: int| base36_digit(bytes@[k])));
        i += 1;
    }
    out
}

/// Makes an id of a time and random bytes.
pub fn init_id(ts: u64, random: &[u8]) -> (r: String)
    ensures
        r@ == init_id_text(ts as nat, random@),
{
    let time = decimal_text(ts);
    let digits = base36(random);
    "init_".to_owned().concat(time.as_str()).concat("_").concat(digits.as_str())
}

/// Makes an id of the present time and nine digits at random.
pub fn generate_init_id() -> (r: String)
    ensures
        is_init_id(r@),
        is_plain(r@),
        r@.len() > 0,
{
    let bytes = random_bytes();
    let mut random: Vec<u8> = Vec::new();
    random.push(bytes[0]);
    random.push(bytes[1]);
    random.push(bytes[2]);
    random.push(bytes[3]);
    random.push(bytes[4]);
    random.push(bytes[5]);
    random.push(bytes[7]);
    random.push(bytes[9]);
    random.push(bytes[10]);
    let ts: u64 = unix_time_ms();
    proof {
        lemma_init_id(ts as nat, random@);
    }
    init_id(ts, random.as_slice())
}

/// The parameters of the request to initialize that the gateway makes.
pub open spec fn fallback_params(version: Seq<char>) -> Seq<char> {
    let roots = object_text(seq![("listChanged"@, "true"@)]);
    let sampling = object_text(seq![]);
    let capabilities = object_text(seq![("roots"@, roots), ("sampling"@, sampling)]);
    let info = object_text(
        seq![("name"@, quoted(FALLBACK_CLIENT_NAME@)), ("version"@, quoted(VERSION@))],
    );
    object_text(
        seq![
            ("capabilities"@, capabilities),
            ("clientInfo"@, info),
            ("protocolVersion"@, quoted(version)),
        ],
    )
}

/// A text between quotes.
pub open spec fn between_quotes(s: Seq<char>) -> Seq<char> {
    seq!['"'] + s + seq!['"']
}

/// The request to initialize that the gateway makes.
pub open spec fn fallback_init(id: Seq<char>, version: Seq<char>) -> MessageView {
    MessageView {
        jsonrpc: "2.0"@,
        id: Some(between_quotes(id)),
        method: Some("initialize"@),
        params: Some(fallback_params(version)),
        result: None,
        error: None,
        extra: seq![],
    }
}

/// The notification that initialization is done.
pub open spec fn initialized_notification() -> MessageView {
    MessageView {
        jsonrpc: "2.0"@,
        id: None,
        method: Some("notifications/initialized"@),
        params: None,
        result: None,
        error: None,
        extra: seq![],
    }
}

/// An object of the given members.
fn json_object(members: &Vec<(String, String)>) -> (r: RawValue)
    requires
        forall|i: int|
            0 <= i < members.deep_view().len() ==> is_json(
                (#[trigger] members.deep_view()[i]).1,
            ),
    ensures
        r@ == object_text(members.deep_view()),
        is_json(r@),
{
    let text = write_object(members);
    assert(is_written(object_text(members.deep_view())));
    RawValue::written(text)
}

/// Makes the request to initialize for a client that did not. The id is what stands between
/// the quotes of a JSON string.
pub fn build_fallback_init(id: &str, protocol_version: &str) -> (r: RawMessage)
    requires
        is_value(between_quotes(id@)),
    ensures
        r@ == fallback_init(id@, protocol_version@),
{
    let mut m: Vec<(String, String)> = Vec::new();
    push_pair(&mut m, "listChanged", "true".to_owned());
    assert(m.deep_view() =~= seq![("listChanged"@, "true"@)]);
    let roots = json_object(&m);
    let none: Vec<(String, String)> = Vec::new();
    assert(none.deep_view() =~= Seq::<(Seq<char>, Seq<char>)>::empty());
    let sampling = json_object(&none);
    let mut c: Vec<(String, String)> = Vec::new();
    push_pair(&mut c, "roots", roots.get().to_owned());
    push_pair(&mut c, "sampling", sampling.get().to_owned());
    assert(c.deep_view() =~= seq![("roots"@, roots@), ("sampling"@, sampling@)]);
    let capabilities = json_object(&c);
    let mut n: Vec<(String, String)> = Vec::new();
    push_pair(&mut n, "name", quote(FALLBACK_CLIENT_NAME));
    push_pair(&mut n, "version", quote(VERSION));
    assert(n.deep_view() =~= seq![
        ("name"@, quoted(FALLBACK_CLIENT_NAME@)),
        ("version"@, quoted(VERSION@)),
    ]);
    let info = json_object(&n);
    let mut p: Vec<(String, String)> = Vec::new();
    push_pair(&mut p, "capabilities", capabilities.get().to_owned());
    push_pair(&mut p, "clientInfo", info.get().to_owned());
    push_pair(&mut p, "protocolVersion", quote(protocol_version));
    assert(p.deep_view() =~= seq![
        ("capabilities"@, capabilities@),
        ("clientInfo"@, info@),
        ("protocolVersion"@, quoted(protocol_version@)),
    ]);
    let params = json_object(&p);
    proof {
        reveal_strlit("\"");
    }
    let text = "\"".to_owned().concat(id).concat("\"");
    assert(text@ =~= between_quotes(id@));
    let msg = RawMessage {
        jsonrpc: "2.0".to_owned(),
        id: Some(RawValue::of(text)),
        method: Some("initialize".to_owned()),
        params: Some(params),
        result: None,
        error: None,
        extra: Vec::new(),
    };
    assert(msg@ =~= fallback_init(id@, protocol_version@));
    msg
}

/// Makes the request to initialize under an id that needs no escape.
pub(crate) fn build_plain_init(id: &str, protocol_version: &str) -> (r: RawMessage)
    requires
        is_plain(id@),
    ensures
        r@ == fallback_init(id@, protocol_version@),
{
    let text = quote(id);
    assert(text@ =~= between_quotes(id@));
    build_fallback_init(id, protocol_version)
}

/// Makes the notification that initialization is done.
pub fn build_initialized_notification() -> (r: RawMessage)
    ensures
        r@ == initialized_notification(),
{
    let msg = RawMessage {
        jsonrpc: "2.0".to_owned(),
        id: None,
        method: Some("notifications/initialized".to_owned()),
        params: None,
        result: None,
        error: None,
        extra: Vec::new(),
    };
    assert(msg@ =~= initialized_notification());
    msg
}

/// A request to initialize with the version that is asked for, where its parameters are an
/// object; any other message as it is.
pub open spec fn intercepted(msg: MessageView, version: Seq<char>) -> MessageView {
    if msg.is_initialize_request() && msg.params is Some {
        with_params(
            msg,
            json_with_member(msg.params->Some_0, "protocolVersion"@, version),
        )
    } else {
        msg
    }
}

/// A message with other parameters, if there are any.
pub open spec fn with_params(msg: MessageView, params: Option<Seq<char>>) -> MessageView {
    match params {
        Some(p) => MessageView { params: Some(p), ..msg },
        None => msg,
    }
}

/// Puts other parameters into a message, if there are any.
pub fn replace_params(msg: RawMessage, params: Option<RawValue>) -> (r: RawMessage)
    ensures
        r@ == with_params(msg@, raw_view(params)),
{
    match params {
        Some(p) => {
            let ghost v = msg@;
            let mut out = msg;
            out.params = Some(p);
            assert(out@ =~= with_params(v, Some(p@)));
            out
        },
        None => msg,
    }
}

/// Sets the version of a request to initialize.
pub fn intercept_protocol_version(msg: RawMessage, version: &str) -> (r: RawMessage)
    ensures
        r@ == intercepted(msg@, version@),
{
    if !msg.is_initialize_request() {
        return msg;
    }
    let params: Option<RawValue> = match &msg.params {
        None => return msg,
        Some(p) => match set_member(p.get(), "protocolVersion", version) {
            Some(text) => Some(RawValue::of(text)),
            None => None,
        },
    };
    replace_params(msg, params)
}

// ---- Errors --------------------------------------------------------------------------------------

/// The end of the digits that begin at `from`.
pub open spec fn digits_end(s: Seq<char>, from: int) -> int
    decreases s.len() - from,
{
    if from < s.len() && is_digit(s[from]) {
        digits_end(s, from + 1)
    } else {
        from
    }
}

/// Where the text behind a prefix with an error code begins, if there is such a prefix.
pub open spec fn after_error_prefix(s: Seq<char>) -> Option<int> {
    let mark = "MCP error "@;
    let from = mark.len() + (if s.len() > mark.len() && s[mark.len() as int] == '-' {
        1int
    } else {
        0
    });
    let to = digits_end(s, from);
    if s.len() >= mark.len() && s.take(mark.len() as int) == mark && to > from && to + 2 <= s.len()
        && s[to] == ':' && s[to + 1] == ' ' {
        Some(to + 2)
    } else {
        None
    }
}

/// The message of an error without a prefix that repeats its code.
pub open spec fn without_error_prefix(s: Seq<char>) -> Seq<char> {
    match after_error_prefix(s) {
        Some(n) => s.skip(n),
        None => s,
    }
}

/// Takes the prefix away that repeats the code of an error.
pub fn strip_error_prefix(message: &str) -> (r: String)
    ensures
        r@ == without_error_prefix(message@),
{
    proof {
        reveal_strlit("MCP error ");
    }
    if !starts_with(message, "MCP error ") {
        return message.to_owned();
    }
    let v = chars_of(message);
    let from: usize = if v.len() > 10 && v[10] == '-' {
        11
    } else {
        10
    };
    let mut to: usize = from;
    while to < v.len() && v[to] >= '0' && v[to] <= '9'
        invariant
            from <= to <= v.len(),
            digits_end(v@, from as int) == digits_end(v@, to as int),
        decreases v.len() - to,
    {
        to += 1;
    }
    if to > from && v.len() >= 2 && to <= v.len() - 2 && v[to] == ':' && v[to + 1] == ' ' {
        let r = piece(&v, to + 2, v.len());
        assert(r@ =~= message@.skip(to + 2));
        r
    } else {
        message.to_owned()
    }
}

/// The code as it is kept: what a number of 32 bits takes of it.
pub fn narrow_code(code: Option<i64>) -> (r: Option<i32>)
    ensures
        r == (match code {
            Some(c) => Some(c as i32),
            None => None,
        }),
{
    match code {
        Some(c) => Some(
            #[verifier::truncate]
            (c as i32),
        ),
        None => None,
    }
}

/// The code of the error that a message reports, where it reports one.
pub fn extract_error_code(msg: &RawMessage) -> (r: Option<i32>)
    ensures
        r == (match msg@.error {
            Some(e) => match json_integer_member(e, "code"@) {
                Some(c) => Some(c as i32),
                None => None,
            },
            None => None,
        }),
{
    match &msg.error {
        Some(e) => narrow_code(integer_member(e.get(), "code")),
        None => None,
    }
}

/// The text of an error: without a prefix, and never empty.
pub open spec fn client_error_text(message: Seq<char>) -> Seq<char> {
    if without_error_prefix(message).len() == 0 {
        CLIENT_ERROR_MESSAGE@
    } else {
        without_error_prefix(message)
    }
}

/// Makes the answer that reports an error to the client.
pub fn make_error_response(id: Option<RawValue>, message: &str, code: Option<i32>) -> (r: RawMessage)
    ensures
        r@ == error_message(
            raw_view(id),
            match code {
                Some(c) => c as int,
                None => CLIENT_ERROR_CODE as int,
            },
            client_error_text(message@),
        ),
{
    let stripped = strip_error_prefix(message);
    let number: i32 = match code {
        Some(c) => c,
        None => CLIENT_ERROR_CODE,
    };
    if stripped.as_str().is_empty() {
        RawMessage::error_response(id, number, CLIENT_ERROR_MESSAGE)
    } else {
        RawMessage::error_response(id, number, stripped.as_str())
    }
}

// ---- The gateway -----------------------------------------------------------------------------------

/// How far initialization has come.
#[derive(Debug)]
pub enum InitPhase {
    /// Nothing was sent yet.
    Pending,
    /// The gateway has sent a request of its own, under this id.
    WaitingSyntheticInit(String),
    /// The client's request was passed on.
    WaitingPassthroughInit,
    /// It is done.
    Ready,
}

#[verifier::ext_equal]
pub enum PhaseView {
    Pending,
    WaitingSyntheticInit(Seq<char>),
    WaitingPassthroughInit,
    Ready,
}

impl View for InitPhase {
    type V = PhaseView;

    open spec fn view(&self) -> PhaseView {
        match self {
            InitPhase::Pending => PhaseView::Pending,
            InitPhase::WaitingSyntheticInit(id) => PhaseView::WaitingSyntheticInit(id@),
            InitPhase::WaitingPassthroughInit => PhaseView::WaitingPassthroughInit,
            InitPhase::Ready => PhaseView::Ready,
        }
    }
}

/// What is done with an event of the server.
pub struct SseEventResult {
    /// What goes to stdout.
    pub stdout: Vec<RawMessage>,
    /// What is posted to the server.
    pub post: Vec<RawMessage>,
}

/// What is done with a message of the client.
pub enum StdinAction {
    /// The messages are posted.
    Post(Vec<RawMessage>),
    /// The request to initialize is posted; the message waits.
    PostInit(RawMessage),
    /// The message waits.
    Buffered,
}

#[verifier::ext_equal]
pub enum StdinView {
    Post(Seq<MessageView>),
    PostInit(MessageView),
    Buffered,
}

impl View for StdinAction {
    type V = StdinView;

    open spec fn view(&self) -> StdinView {
        match self {
            StdinAction::Post(ms) => StdinView::Post(messages_view(ms@)),
            StdinAction::PostInit(m) => StdinView::PostInit(m@),
            StdinAction::Buffered => StdinView::Buffered,
        }
    }
}

/// The gateway.
pub struct SseToStdioGateway {
    pub sse_url: String,
    pub protocol_version: String,
    pub headers: Vec<Header>,
    pub endpoint: Option<String>,
    pub phase: InitPhase,
    pub pending: Vec<RawMessage>,
}

/// What changes as messages come and go.
#[verifier::ext_equal]
pub struct ClientState {
    /// Where messages are posted, once the server has said so.
    pub endpoint: Option<Seq<char>>,
    pub phase: PhaseView,
    /// What waits until initialization is done.
    pub pending: Seq<MessageView>,
}

/// Whether the message answers the request under the id.
pub open spec fn answers(msg: MessageView, id: Seq<char>) -> bool {
    msg.is_response() && msg.id is Some && unquoted(msg.id->Some_0) == id
}

/// Where the first answer to the request stands from `from` on, or the length.
pub open spec fn answer_place(ms: Seq<MessageView>, id: Seq<char>, from: int) -> int
    decreases ms.len() - from,
{
    if from >= ms.len() {
        ms.len() as int
    } else if answers(ms[from], id) {
        from
    } else {
        answer_place(ms, id, from + 1)
    }
}

pub proof fn lemma_answer_place(ms: Seq<MessageView>, id: Seq<char>, from: int)
    requires
        0 <= from <= ms.len(),
    ensures
        from <= answer_place(ms, id, from) <= ms.len(),
        answer_place(ms, id, from) < ms.len() ==> answers(ms[answer_place(ms, id, from)], id),
        forall|k: int| from <= k < answer_place(ms, id, from) ==> !answers(#[trigger] ms[k], id),
    decreases ms.len() - from,
{
    if from < ms.len() && !answers(ms[from], id) {
        lemma_answer_place(ms, id, from + 1);
    }
}

pub open spec fn has_response(ms: Seq<MessageView>) -> bool {
    exists|i: int| 0 <= i < ms.len() && (#[trigger] ms[i]).is_response()
}

/// After messages of the server: the state, what goes to stdout, and what is posted. The
/// answer to a request that the gateway made is kept from the client; with it, what waited
/// is posted.
pub open spec fn messages_received(s: ClientState, ms: Seq<MessageView>) -> (
    ClientState,
    Seq<MessageView>,
    Seq<MessageView>,
) {
    match s.phase {
        PhaseView::WaitingSyntheticInit(id) => {
            let at = answer_place(ms, id, 0);
            if at < ms.len() {
                (
                    ClientState { phase: PhaseView::Ready, pending: seq![], ..s },
                    ms.remove(at),
                    seq![initialized_notification()] + s.pending,
                )
            } else {
                (s, ms, seq![])
            }
        },
        PhaseView::WaitingPassthroughInit => (
            ClientState {
                phase: if has_response(ms) {
                    PhaseView::Ready
                } else {
                    s.phase
                },
                ..s
            },
            ms,
            seq![],
        ),
        _ => (s, ms, seq![]),
    }
}

/// Whether `out` and `post` are what is done with an event of the server, and `t` is the
/// state after it.
pub open spec fn event_taken(
    s: ClientState,
    sse_url: Seq<char>,
    e: EventView,
    out: Seq<MessageView>,
    post: Seq<MessageView>,
    t: ClientState,
) -> bool {
    if e.event_type == "endpoint"@ {
        t == (ClientState { endpoint: Some(endpoint_url(sse_url, e.data)), ..s }) && out == Seq::<
            MessageView,
        >::empty() && post == Seq::<MessageView>::empty()
    } else if e.event_type != "message"@ || line_error(e.data) is Some {
        t == s && out == Seq::<MessageView>::empty() && post == Seq::<MessageView>::empty()
    } else {
        exists|p: ParsedView| #[trigger]
            line_is(e.data, p) && (t, out, post) == messages_received(s, messages_of(p))
    }
}

/// What is done with a message of the client, and the state after it. Where a request to
/// initialize has to be made, it gets the id.
pub open spec fn stdin_taken(
    s: ClientState,
    version: Seq<char>,
    msg: MessageView,
    id: Seq<char>,
) -> (ClientState, StdinView) {
    match s.phase {
        PhaseView::Pending => if msg.is_initialize_request() {
            (
                ClientState { phase: PhaseView::WaitingPassthroughInit, ..s },
                StdinView::Post(seq![intercepted(msg, version)]),
            )
        } else {
            (
                ClientState {
                    phase: PhaseView::WaitingSyntheticInit(id),
                    pending: s.pending.push(msg),
                    ..s
                },
                StdinView::PostInit(fallback_init(id, version)),
            )
        },
        PhaseView::WaitingSyntheticInit(_) => (
            ClientState { pending: s.pending.push(msg), ..s },
            StdinView::Buffered,
        ),
        _ => (s, StdinView::Post(seq![msg])),
    }
}

pub open spec fn endpoint_view(e: Option<String>) -> Option<Seq<char>> {
    match e {
        Some(url) => Some(url@),
        None => None,
    }
}

/// Takes the first answer to the request out of the messages. Says whether there was one.
pub fn take_answer(ms: &mut Vec<RawMessage>, id: &str) -> (r: bool)
    ensures
        ({
            let before = messages_view(old(ms)@);
            let at = answer_place(before, id@, 0);
            &&& r == (at < before.len())
            &&& messages_view(final(ms)@) == (if r {
                before.remove(at)
            } else {
                before
            })
        }),
{
    let ghost before = messages_view(ms@);
    let at: usize = find_answer(ms, id);
    proof {
        lemma_answer_place(before, id@, 0);
    }
    if at < ms.len() {
        ms.remove(at);
        assert(messages_view(ms@) =~= before.remove(at as int));
        true
    } else {
        false
    }
}

/// Where the first answer to the request stands.
pub fn find_answer(ms: &Vec<RawMessage>, id: &str) -> (r: usize)
    ensures
        r == answer_place(messages_view(ms@), id@, 0),
        r <= ms.len(),
{
    let ghost all = messages_view(ms@);
    let mut i: usize = 0;
    while i < ms.len()
        invariant
            i <= ms.len(),
            all == messages_view(ms@),
            answer_place(all, id@, 0) == answer_place(all, id@, i as int),
        decreases ms.len() - i,
    {
        assert(all[i as int] == ms[i as int]@);
        if ms[i].is_response() {
            if let Some(raw) = &ms[i].id {
                let text = trim_quotes(raw.get());
                if same(text.as_str(), id) {
                    return i;
                }
            }
        }
        i += 1;
    }
    i
}

fn any_response(ms: &Vec<RawMessage>) -> (r: bool)
    ensures
        r == has_response(messages_view(ms@)),
{
    let ghost all = messages_view(ms@);
    let mut i: usize = 0;
    while i < ms.len()
        invariant
            i <= ms.len(),
            all == messages_view(ms@),
            forall|k: int| 0 <= k < i ==> !(#[trigger] all[k]).is_response(),
        decreases ms.len() - i,
    {
        if ms[i].is_response() {
            assert(all[i as int].is_response());
            return true;
        }
        i += 1;
    }
    false
}

impl SseToStdioGateway {
    pub open spec fn state(self) -> ClientState {
        ClientState {
            endpoint: endpoint_view(self.endpoint),
            phase: self.phase@,
            pending: messages_view(self.pending@),
        }
    }

    /// Whether only the state differs.
    pub open spec fn same_setup(self, other: SseToStdioGateway) -> bool {
        &&& self.sse_url == other.sse_url
        &&& self.protocol_version == other.protocol_version
        &&& self.headers == other.headers
    }

    pub fn new(sse_url: String, protocol_version: String, headers: Vec<Header>) -> (r:
        SseToStdioGateway)
        ensures
            r.sse_url == sse_url,
            r.protocol_version == protocol_version,
            r.headers == headers,
            r.state() == (ClientState {
                endpoint: None,
                phase: PhaseView::Pending,
                pending: seq![],
            }),
    {
        let r = SseToStdioGateway {
            sse_url,
            protocol_version,
            headers,
            endpoint: None,
            phase: InitPhase::Pending,
            pending: Vec::new(),
        };
        assert(r.state().pending =~= Seq::<MessageView>::empty());
        r
    }

    /// Where messages are posted, once the server has said so.
    pub fn endpoint_url(&self) -> (r: Option<String>)
        ensures
            endpoint_view(r) == self.state().endpoint,
    {
        match &self.endpoint {
            Some(url) => Some(url.clone()),
            None => None,
        }
    }

    /// Whether initialization is done.
    pub fn is_initialized(&self) -> (r: bool)
        ensures
            r == (self.state().phase == PhaseView::Ready),
    {
        match &self.phase {
            InitPhase::Ready => true,
            _ => false,
        }
    }

    /// Decides about an event of the server.
    pub fn handle_sse_event(&mut self, event: &SseEvent) -> (r: SseEventResult)
        ensures
            final(self).same_setup(*old(self)),
            event_taken(
                old(self).state(),
                old(self).sse_url@,
                event@,
                messages_view(r.stdout@),
                messages_view(r.post@),
                final(self).state(),
            ),
    {
        let none: Vec<RawMessage> = Vec::new();
        let nothing: Vec<RawMessage> = Vec::new();
        assert(messages_view(none@) =~= Seq::<MessageView>::empty());
        assert(messages_view(nothing@) =~= Seq::<MessageView>::empty());
        if event.is_endpoint() {
            let url = resolve_endpoint_url(self.sse_url.as_str(), event.data.as_str());
            self.endpoint = Some(url);
            return SseEventResult { stdout: none, post: nothing };
        }
        if !same(event.event_type.as_str(), "message") {
            return SseEventResult { stdout: none, post: nothing };
        }
        match parse_line(event.data.as_str()) {
            Err(_) => SseEventResult { stdout: none, post: nothing },
            Ok(parsed) => {
                let ghost p = parsed@;
                let ms = into_messages(parsed);
                assert(line_is(event@.data, p));
                self.handle_messages(ms)
            },
        }
    }

    /// Decides about messages of the server.
    pub fn handle_messages(&mut self, messages: Vec<RawMessage>) -> (r: SseEventResult)
        ensures
            final(self).same_setup(*old(self)),
            (final(self).state(), messages_view(r.stdout@), messages_view(r.post@))
                == messages_received(old(self).state(), messages_view(messages@)),
    {
        let ghost s = self.state();
        let ghost all = messages_view(messages@);
        let none: Vec<RawMessage> = Vec::new();
        assert(messages_view(none@) =~= Seq::<MessageView>::empty());
        match &self.phase {
            InitPhase::WaitingSyntheticInit(id) => {
                let mut stdout = messages;
                if take_answer(&mut stdout, id.as_str()) {
                    self.phase = InitPhase::Ready;
                    let mut post: Vec<RawMessage> = Vec::new();
                    post.push(build_initialized_notification());
                    let ghost first = post@;
                    let mut waiting: Vec<RawMessage> = Vec::new();
                    std::mem::swap(&mut waiting, &mut self.pending);
                    let ghost kept = waiting@;
                    post.append(&mut waiting);
                    assert(messages_view(first) =~= seq![initialized_notification()]);
                    assert(messages_view(post@) =~= messages_view(first) + messages_view(kept));
                    assert(self.state().pending =~= Seq::<MessageView>::empty());
                    SseEventResult { stdout, post }
                } else {
                    SseEventResult { stdout, post: none }
                }
            },
            InitPhase::WaitingPassthroughInit => {
                if any_response(&messages) {
                    self.phase = InitPhase::Ready;
                }
                SseEventResult { stdout: messages, post: none }
            },
            _ => SseEventResult { stdout: messages, post: none },
        }
    }

    /// Decides about a message of the client. A request to initialize that has to be made
    /// gets an id at random.
    pub fn handle_stdin_message(&mut self, msg: RawMessage) -> (r: StdinAction)
        ensures
            final(self).same_setup(*old(self)),
            exists|id: Seq<char>|
                is_init_id(id) && (final(self).state(), r@) == #[trigger] stdin_taken(
                    old(self).state(),
                    old(self).protocol_version@,
                    msg@,
                    id,
                ),
    {
        let id = generate_init_id();
        self.handle_stdin_as(msg, id)
    }

    /// Decides about a message of the client. A request to initialize that has to be made
    /// gets the id.
    pub fn handle_stdin_as(&mut self, msg: RawMessage, id: String) -> (r: StdinAction)
        requires
            is_plain(id@),
        ensures
            final(self).same_setup(*old(self)),
            (final(self).state(), r@) == stdin_taken(
                old(self).state(),
                old(self).protocol_version@,
                msg@,
                id@,
            ),
    {
        let ghost s = self.state();
        let ghost v = msg@;
        match &self.phase {
            InitPhase::Pending => if msg.is_initialize_request() {
                let out = intercept_protocol_version(msg, self.protocol_version.as_str());
                self.phase = InitPhase::WaitingPassthroughInit;
                let mut list: Vec<RawMessage> = Vec::new();
                list.push(out);
                assert(messages_view(list@) =~= seq![out@]);
                StdinAction::Post(list)
            } else {
                let init = build_plain_init(id.as_str(), self.protocol_version.as_str());
                self.phase = InitPhase::WaitingSyntheticInit(id);
                self.pending.push(msg);
                assert(self.state().pending =~= s.pending.push(v));
                StdinAction::PostInit(init)
            },
            InitPhase::WaitingSyntheticInit(_) => {
                self.pending.push(msg);
                assert(self.state().pending =~= s.pending.push(v));
                StdinAction::Buffered
            },
            _ => {
                let mut list: Vec<RawMessage> = Vec::new();
                list.push(msg);
                assert(messages_view(list@) =~= seq![v]);
                StdinAction::Post(list)
            },
        }
    }
}

// ---- Laws ------------------------------------------------------------------------------------------

/// A client that does not initialize is initialized: the answer to the gateway's request is
/// kept from it, and then its message is posted, behind the notification that initialization
/// is done.
pub proof fn law_first_message_is_posted_after_initialization(
    s: ClientState,
    version: Seq<char>,
    msg: MessageView,
    ts: nat,
    random: Seq<u8>,
    answer: MessageView,
)
    requires
        s.phase == PhaseView::Pending,
        s.pending.len() == 0,
        !msg.is_initialize_request(),
        answer.is_response(),
        answer.id == fallback_init(init_id_text(ts, random), version).id,
    ensures
        ({
            let (t, a) = stdin_taken(s, version, msg, init_id_text(ts, random));
            let (u, out, post) = messages_received(t, seq![answer]);
            &&& a is PostInit
            &&& out.len() == 0
            &&& post == seq![initialized_notification(), msg]
            &&& u == (ClientState { phase: PhaseView::Ready, pending: seq![], ..s })
        }),
{
    let id = init_id_text(ts, random);
    lemma_init_id(ts, random);
    assert(!id.contains('"'));
    lemma_unquoted(id);
    let (t, a) = stdin_taken(s, version, msg, id);
    let (u, out, post) = messages_received(t, seq![answer]);
    assert(answers(answer, id));
    assert(seq![answer][0] == answer);
    assert(answer_place(seq![answer], id, 0) == 0);
    assert(out =~= Seq::<MessageView>::empty());
    assert(post =~= seq![initialized_notification(), msg]);
}

/// Messages of the client keep their order while they wait.
pub proof fn law_waiting_messages_keep_their_order(
    s: ClientState,
    version: Seq<char>,
    msg: MessageView,
    id: Seq<char>,
)
    requires
        s.phase is WaitingSyntheticInit,
    ensures
        stdin_taken(s, version, msg, id).0.pending == s.pending.push(msg),
        stdin_taken(s, version, msg, id).0.phase == s.phase,
        stdin_taken(s, version, msg, id).1 == StdinView::Buffered,
{
}

/// Once initialization is done, messages pass unchanged in both directions.
pub proof fn law_ready_is_transparent(
    s: ClientState,
    version: Seq<char>,
    msg: MessageView,
    id: Seq<char>,
    ms: Seq<MessageView>,
)
    requires
        s.phase == PhaseView::Ready,
    ensures
        stdin_taken(s, version, msg, id) == (s, StdinView::Post(seq![msg])),
        messages_received(s, ms) == (s, ms, Seq::<MessageView>::empty()),
{
}

/// A prefix that repeats the code of an error is taken away, and the message behind it is
/// left as it is.
pub proof fn law_error_prefix_is_taken_away(code: nat, negative: bool, message: Seq<char>)
    ensures
        without_error_prefix(
            "MCP error "@ + (if negative {
                seq!['-']
            } else {
                seq![]
            }) + decimal(code) + ": "@ + message,
        ) == message,
{
    reveal_strlit("MCP error ");
    reveal_strlit(": ");
    let sign = if negative {
        seq!['-']
    } else {
        Seq::<char>::empty()
    };
    let d = decimal(code);
    let s = "MCP error "@ + sign + d + ": "@ + message;
    lemma_decimal_digits(code);
    let from = 10 + sign.len() as int;
    let to = from + d.len();
    assert(s.take(10) =~= "MCP error "@);
    assert forall|k: int| from <= k < to implies is_digit(#[trigger] s[k]) by {
        assert(s[k] == d[k - from]);
    }
    assert(s[to] == ':' && s[to + 1] == ' ');
    if !negative {
        assert(s[10] == d[0] && is_digit(d[0]));
    }
    lemma_digits_end(s, from, to);
    assert(s.skip(to + 2) =~= message);
}

proof fn lemma_digits_end(s: Seq<char>, from: int, to: int)
    requires
        0 <= from <= to < s.len(),
        forall|k: int| from <= k < to ==> is_digit(#[trigger] s[k]),
        !is_digit(s[to]),
    ensures
        digits_end(s, from) == to,
    decreases to - from,
{
    if from < to {
        lemma_digits_end(s, from + 1, to);
    }
}

/// No message of the client is lost or changed: it is posted, alone and as it is, or it is
/// the last of those that wait. A request to initialize that comes first is posted too, with
/// nothing changed but its parameters; where another message comes first, the gateway asks to
/// initialize under the id that was given.
pub proof fn law_message_of_the_client_is_posted_or_kept(
    s: ClientState,
    version: Seq<char>,
    msg: MessageView,
    id: Seq<char>,
)
    ensures
        ({
            let (t, a) = stdin_taken(s, version, msg, id);
            let asks = msg.id is Some && msg.method == Some("initialize"@);
            let first = s.phase == PhaseView::Pending;
            &&& t.endpoint == s.endpoint
            &&& s.phase == PhaseView::Ready || s.phase == PhaseView::WaitingPassthroughInit ==> t
                == s && a is Post && a->Post_0.len() == 1 && a->Post_0[0] == msg
            &&& s.phase is WaitingSyntheticInit ==> a is Buffered && t.phase == s.phase
                && t.pending.len() == s.pending.len() + 1 && t.pending.last() == msg
                && t.pending.drop_last() == s.pending
            &&& first && asks ==> {
                &&& t.phase == PhaseView::WaitingPassthroughInit
                &&& t.pending == s.pending
                &&& a is Post
                &&& a->Post_0.len() == 1
                &&& a->Post_0[0] == (MessageView { params: a->Post_0[0].params, ..msg })
                &&& a->Post_0[0].params is Some == msg.params is Some
            }
            &&& first && !asks ==> {
                &&& t.phase == PhaseView::WaitingSyntheticInit(id)
                &&& t.pending.len() == s.pending.len() + 1
                &&& t.pending.last() == msg
                &&& t.pending.drop_last() == s.pending
                &&& a is PostInit
                &&& a->PostInit_0.jsonrpc == "2.0"@
                &&& a->PostInit_0.id == Some(seq!['"'] + id + seq!['"'])
                &&& a->PostInit_0.method == Some("initialize"@)
                &&& a->PostInit_0.params is Some
                &&& a->PostInit_0.result is None && a->PostInit_0.error is None
            }
        }),
{
    assert(s.pending.push(msg).drop_last() =~= s.pending);
}

/// The version that is asked for is set in a request to initialize that has parameters, where
/// they are an object; no other member of the message, and no other message, is touched.
pub proof fn law_only_the_version_is_set(msg: MessageView, version: Seq<char>)
    ensures
        ({
            let out = intercepted(msg, version);
            let asks = msg.id is Some && msg.method == Some("initialize"@) && msg.params is Some;
            let set = json_with_member(msg.params->Some_0, "protocolVersion"@, version);
            &&& out == (MessageView { params: out.params, ..msg })
            &&& asks && set is Some ==> out.params == set
            &&& !asks || set is None ==> out == msg
        }),
{
}

/// What the server says goes to the client, all of it, in its order and unchanged. The one
/// exception is the answer to a request to initialize that the gateway made: with it, the
/// server is told that initialization is done and then gets what waited, in its order. Where
/// the client asked itself, the first answer ends initialization.
pub proof fn law_messages_of_the_server_reach_the_client(s: ClientState, ms: Seq<MessageView>)
    ensures
        ({
            let (t, out, post) = messages_received(s, ms);
            let answered = exists|i: int|
                0 <= i < ms.len() && (#[trigger] ms[i]).id is Some && ms[i].method is None && (
                ms[i].result is Some || ms[i].error is Some);
            &&& t.endpoint == s.endpoint
            &&& s.phase == PhaseView::Ready || s.phase == PhaseView::Pending ==> out == ms && t == s
                && post.len() == 0
            &&& s.phase == PhaseView::WaitingPassthroughInit ==> out == ms && post.len() == 0
                && t.pending == s.pending && t.phase == (if answered {
                PhaseView::Ready
            } else {
                s.phase
            })
            &&& s.phase is WaitingSyntheticInit ==> {
                let id = s.phase->WaitingSyntheticInit_0;
                let comes = exists|i: int|
                    0 <= i < ms.len() && (#[trigger] ms[i]).id is Some && ms[i].method is None && (
                    ms[i].result is Some || ms[i].error is Some) && unquoted(ms[i].id->Some_0)
                        == id;
                &&& !comes ==> out == ms && t == s && post.len() == 0
                &&& comes ==> {
                    &&& t.phase == PhaseView::Ready
                    &&& t.pending.len() == 0
                    &&& post.len() == s.pending.len() + 1
                    &&& post[0].method == Some("notifications/initialized"@)
                    &&& post[0].id is None
                    &&& post.skip(1) == s.pending
                    &&& exists|at: int|
                        0 <= at < ms.len() && (#[trigger] ms[at]).id is Some && unquoted(
                            ms[at].id->Some_0,
                        ) == id && ms[at].method is None && out == ms.remove(at)
                }
            }
        }),
{
    let (t, out, post) = messages_received(s, ms);
    if has_response(ms) {
        let i = choose|i: int| 0 <= i < ms.len() && (#[trigger] ms[i]).is_response();
        assert(ms[i].id is Some && ms[i].method is None);
    }
    if s.phase is WaitingSyntheticInit {
        let id = s.phase->WaitingSyntheticInit_0;
        let at = answer_place(ms, id, 0);
        lemma_answer_place(ms, id, 0);
        if at < ms.len() {
            assert(answers(ms[at], id));
            assert(post.skip(1) =~= s.pending);
        } else {
            assert forall|i: int| 0 <= i < ms.len() implies !((#[trigger] ms[i]).id is Some
                && ms[i].method is None && (ms[i].result is Some || ms[i].error is Some)
                && unquoted(ms[i].id->Some_0) == id) by {
                assert(!answers(ms[i], id));
            }
        }
    }
}

/// An event of the server tells where to post, or holds messages, or is passed over. The
/// messages of an event are dealt with as they are; nothing else changes anything.
pub proof fn law_event_is_an_endpoint_or_messages(
    s: ClientState,
    sse_url: Seq<char>,
    e: EventView,
    out: Seq<MessageView>,
    post: Seq<MessageView>,
    t: ClientState,
)
    requires
        event_taken(s, sse_url, e, out, post, t),
    ensures
        e.event_type == "endpoint"@ ==> t == (ClientState {
            endpoint: Some(endpoint_url(sse_url, e.data)),
            ..s
        }) && out.len() == 0 && post.len() == 0,
        e.event_type == "message"@ && line_error(e.data) is None ==> exists|p: ParsedView|
            #[trigger]
            line_is(e.data, p) && (t, out, post) == messages_received(
                s,
                match p {
                    ParsedView::Single(m) => seq![m],
                    ParsedView::Batch(ms) => ms,
                },
            ),
        e.event_type != "endpoint"@ && (e.event_type != "message"@ || line_error(e.data) is Some)
            ==> t == s && out.len() == 0 && post.len() == 0,
{
    reveal_strlit("endpoint");
    reveal_strlit("message");
    assert("endpoint"@.len() != "message"@.len());
    if e.event_type == "message"@ && line_error(e.data) is None {
        let p = choose|p: ParsedView| #[trigger]
            line_is(e.data, p) && (t, out, post) == messages_received(s, messages_of(p));
        assert(line_is(e.data, p));
    }
}

/// An id of the gateway names the time, and ends with one character for each random byte,
/// a digit or a small letter.
pub proof fn law_init_id_has_its_form(ts: nat, random: Seq<u8>, i: int)
    requires
        0 <= i < random.len(),
    ensures
        ({
            let s = init_id_text(ts, random);
            let c = s[s.len() - random.len() + i];
            &&& s.len() == 6 + decimal(ts).len() + random.len()
            &&& s.take(5) == "init_"@
            &&& s.subrange(5, 5 + decimal(ts).len() as int) == decimal(ts)
            &&& s[5 + decimal(ts).len() as int] == '_'
            &&& '0' <= c <= '9' || 'a' <= c <= 'z'
            &&& random[i] % 36 < 10 ==> c as int == '0' as int + random[i] % 36
            &&& random[i] % 36 >= 10 ==> c as int == 'a' as int + random[i] % 36 - 10
        }),
{
    reveal_strlit("init_");
    reveal_strlit("_");
    let s = init_id_text(ts, random);
    assert(s.take(5) =~= "init_"@);
    assert(s.subrange(5, 5 + decimal(ts).len() as int) =~= decimal(ts));
    assert(s[s.len() - random.len() + i] == base36_digit(random[i]));
}

/// A text that does not begin with the prefix of an error keeps all its words; no error is
/// reported without words.
pub proof fn law_error_keeps_its_words(message: Seq<char>)
    ensures
        !("MCP error "@.is_prefix_of(message)) && message.len() > 0 ==> client_error_text(message)
            == message,
        client_error_text(message).len() > 0,
        message.len() == 0 ==> client_error_text(message) == "Internal error"@,
{
    reveal_strlit("MCP error ");
    reveal_strlit("Internal error");
    let mark = "MCP error "@;
    if message.len() >= 10 && message.take(10) == mark {
        assert(mark.is_prefix_of(message));
    }
}

} // verus!
