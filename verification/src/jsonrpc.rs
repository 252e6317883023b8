//! JSON-RPC 2.0 messages, carried without a look into what they transport.

use vstd::prelude::*;
use vstd::string::*;
use vstd::utf8::{encode_scalar, encode_utf8};

use crate::json::{
    all_json, all_values, array_elements, array_text, elements_text, is_json, is_value, is_written,
    json_elements, json_members, json_string, law_array_is_written_element_by_element, members_text,
    object_members, object_text, quote, quoted, string_value, write_array, write_object, RawValue,
};
use crate::members::{list_names, member_names, names_of};
use crate::pairs::{
    distinct, first_value, get_value, has_name, lemma_distinct_add, lemma_first_value_add,
    lemma_first_value_of_distinct,
    lemma_map_of_contains, lemma_map_of_distinct, lemma_place_of, map_of, push_pair, Pairs,
};
use crate::text::{is_some_text, same, signed_decimal, signed_decimal_text};

verus! {

/// A message in wire format. The same shape carries requests, responses,
/// notifications and errors; the payloads are JSON texts that nobody interprets.
#[derive(Debug)]
pub struct RawMessage {
    pub jsonrpc: String,
    /// Absent in a notification. Present, if only as `null`, where a response is due.
    pub id: Option<RawValue>,
    pub method: Option<String>,
    pub params: Option<RawValue>,
    pub result: Option<RawValue>,
    pub error: Option<RawValue>,
    /// Members that JSON-RPC does not know, such as `_meta`.
    pub extra: Vec<(String, RawValue)>,
}

/// What a message holds.
#[verifier::ext_equal]
pub struct MessageView {
    pub jsonrpc: Seq<char>,
    pub id: Option<Seq<char>>,
    pub method: Option<Seq<char>>,
    pub params: Option<Seq<char>>,
    pub result: Option<Seq<char>>,
    pub error: Option<Seq<char>>,
    pub extra: Pairs,
}

pub open spec fn raw_view(v: Option<RawValue>) -> Option<Seq<char>> {
    match v {
        Some(r) => Some(r@),
        None => None,
    }
}

pub open spec fn text_view(v: Option<String>) -> Option<Seq<char>> {
    match v {
        Some(s) => Some(s@),
        None => None,
    }
}

pub open spec fn extra_view(v: Seq<(String, RawValue)>) -> Pairs {
    Seq::new(v.len(), |i: int| (v[i].0@, v[i].1@))
}

impl View for RawMessage {
    type V = MessageView;

    open spec fn view(&self) -> MessageView {
        MessageView {
            jsonrpc: self.jsonrpc@,
            id: raw_view(self.id),
            method: text_view(self.method),
            params: raw_view(self.params),
            result: raw_view(self.result),
            error: raw_view(self.error),
            extra: extra_view(self.extra@),
        }
    }
}

pub open spec fn messages_view(v: Seq<RawMessage>) -> Seq<MessageView> {
    Seq::new(v.len(), |i: int| v[i]@)
}

impl MessageView {
    pub open spec fn is_request(self) -> bool {
        self.id is Some && self.method is Some
    }

    pub open spec fn is_response(self) -> bool {
        self.id is Some && self.method is None && (self.result is Some || self.error is Some)
    }

    pub open spec fn is_notification(self) -> bool {
        self.id is None && self.method is Some
    }

    pub open spec fn is_initialize_request(self) -> bool {
        self.is_request() && self.method == Some("initialize"@)
    }

    /// Whether the payloads are JSON values, the extra names are distinct and none
    /// of them is a name that JSON-RPC knows.
    pub open spec fn is_valid(self) -> bool {
        &&& (self.id matches Some(v) ==> is_value(v))
        &&& (self.params matches Some(v) ==> is_value(v))
        &&& (self.result matches Some(v) ==> is_value(v))
        &&& (self.error matches Some(v) ==> is_value(v))
        &&& distinct(self.extra)
        &&& all_values(self.extra)
        &&& forall|i: int| 0 <= i < self.extra.len() ==> !is_known((#[trigger] self.extra[i]).0)
    }
}

/// The names that JSON-RPC gives a meaning.
pub open spec fn is_known(name: Seq<char>) -> bool {
    ||| name == "jsonrpc"@
    ||| name == "id"@
    ||| name == "method"@
    ||| name == "params"@
    ||| name == "result"@
    ||| name == "error"@
}

fn known(name: &str) -> (r: bool)
    ensures
        r == is_known(name@),
{
    same(name, "jsonrpc") || same(name, "id") || same(name, "method") || same(name, "params")
        || same(name, "result") || same(name, "error")
}

pub open spec fn optional_member(name: Seq<char>, value: Option<Seq<char>>) -> Pairs {
    match value {
        Some(v) => seq![(name, v)],
        None => seq![],
    }
}

pub open spec fn quoted_option(s: Option<Seq<char>>) -> Option<Seq<char>> {
    match s {
        Some(v) => Some(quoted(v)),
        None => None,
    }
}

/// The members that a message is written with, in their order.
pub open spec fn message_members(m: MessageView) -> Pairs {
    seq![("jsonrpc"@, quoted(m.jsonrpc))] + optional_member("id"@, m.id) + optional_member(
        "method"@,
        quoted_option(m.method),
    ) + optional_member("params"@, m.params) + optional_member("result"@, m.result)
        + optional_member("error"@, m.error) + m.extra
}

/// The JSON text of a message.
pub open spec fn message_text(m: MessageView) -> Seq<char> {
    object_text(message_members(m))
}

/// The JSON text of a batch.
pub open spec fn batch_text(ms: Seq<MessageView>) -> Seq<char> {
    array_text(Seq::new(ms.len(), |i: int| message_text(ms[i])))
}

/// The error object of a response.
pub open spec fn error_object(code: int, message: Seq<char>) -> Seq<char> {
    object_text(seq![("code"@, signed_decimal(code)), ("message"@, quoted(message))])
}

/// The response that reports an error; where no id is known it answers `null`.
pub open spec fn error_message(id: Option<Seq<char>>, code: int, message: Seq<char>) -> MessageView {
    MessageView {
        jsonrpc: "2.0"@,
        id: Some(
            match id {
                Some(v) => v,
                None => "null"@,
            },
        ),
        method: None,
        params: None,
        result: None,
        error: Some(error_object(code, message)),
        extra: seq![],
    }
}

// ---- Reading ----------------------------------------------------------------------

/// What is wrong with an object that is no message.
#[derive(Clone, Copy, PartialEq, Eq, Structural, Debug)]
pub enum Problem {
    MissingVersion,
    VersionNotString,
    MethodNotString,
}

/// Why a text is no message.
#[derive(Debug)]
pub enum ParseError {
    /// The text is not JSON of the expected shape; the message says why.
    Syntax(String),
    /// A member that a message has once occurs again.
    Repeated(String),
    Message(Problem),
}

pub enum ParseErrorView {
    Syntax(Seq<char>),
    Repeated(Seq<char>),
    Message(Problem),
}

impl View for ParseError {
    type V = ParseErrorView;

    open spec fn view(&self) -> ParseErrorView {
        match self {
            ParseError::Syntax(s) => ParseErrorView::Syntax(s@),
            ParseError::Repeated(s) => ParseErrorView::Repeated(s@),
            ParseError::Message(p) => ParseErrorView::Message(*p),
        }
    }
}

pub open spec fn problem_text(p: Problem) -> Seq<char> {
    match p {
        Problem::MissingVersion => "missing field `jsonrpc`"@,
        Problem::VersionNotString => "invalid type: `jsonrpc` must be a string"@,
        Problem::MethodNotString => "invalid type: `method` must be a string"@,
    }
}

pub open spec fn parse_error_text(e: ParseErrorView) -> Seq<char> {
    match e {
        ParseErrorView::Syntax(s) => s,
        ParseErrorView::Repeated(s) => "duplicate field `"@ + s + "`"@,
        ParseErrorView::Message(p) => problem_text(p),
    }
}

impl ParseError {
    /// The error in words.
    pub fn message(&self) -> (r: String)
        ensures
            r@ == parse_error_text(self@),
    {
        match self {
            ParseError::Syntax(s) => s.clone(),
            ParseError::Repeated(s) => "duplicate field `".to_owned().concat(s.as_str()).concat(
                "`",
            ),
            ParseError::Message(Problem::MissingVersion) => "missing field `jsonrpc`".to_owned(),
            ParseError::Message(Problem::VersionNotString) =>
                "invalid type: `jsonrpc` must be a string".to_owned(),
            ParseError::Message(Problem::MethodNotString) =>
                "invalid type: `method` must be a string".to_owned(),
        }
    }
}

/// The value of a member, where there is one.
pub open spec fn member(m: Map<Seq<char>, Seq<char>>, name: Seq<char>) -> Option<Seq<char>> {
    if m.dom().contains(name) {
        Some(m[name])
    } else {
        None
    }
}

/// The value of a member for which `null` counts as absent.
pub open spec fn present(m: Map<Seq<char>, Seq<char>>, name: Seq<char>) -> Option<Seq<char>> {
    if m.dom().contains(name) && m[name] != "null"@ {
        Some(m[name])
    } else {
        None
    }
}

/// What keeps the members of an object from being a message.
pub open spec fn problem_of(m: Map<Seq<char>, Seq<char>>) -> Option<Problem> {
    if member(m, "jsonrpc"@) is None {
        Some(Problem::MissingVersion)
    } else if json_string(m["jsonrpc"@]) is None {
        Some(Problem::VersionNotString)
    } else if present(m, "method"@) is Some && json_string(m["method"@]) is None {
        Some(Problem::MethodNotString)
    } else {
        None
    }
}

/// Whether the members of an object are the message `v`.
pub open spec fn reads_as(m: Map<Seq<char>, Seq<char>>, v: MessageView) -> bool {
    &&& problem_of(m) is None
    &&& Some(v.jsonrpc) == json_string(m["jsonrpc"@])
    &&& v.id == member(m, "id"@)
    &&& v.method == (if present(m, "method"@) is Some {
        json_string(m["method"@])
    } else {
        None
    })
    &&& v.params == present(m, "params"@)
    &&& v.result == present(m, "result"@)
    &&& v.error == present(m, "error"@)
    &&& v.is_valid()
    &&& forall|name: Seq<char>| #[trigger]
        map_of(v.extra).dom().contains(name) <==> m.dom().contains(name) && !is_known(name)
    &&& forall|name: Seq<char>|
        m.dom().contains(name) && !#[trigger] is_known(name) ==> map_of(v.extra)[name] == m[name]
}

/// The first name from `at` on that JSON-RPC knows and that occurred before.
pub open spec fn repeated(names: Seq<Seq<char>>, at: int) -> Option<Seq<char>>
    decreases names.len() - at,
{
    if at >= names.len() {
        None
    } else if is_known(names[at]) && names.take(at).contains(names[at]) {
        Some(names[at])
    } else {
        repeated(names, at + 1)
    }
}

/// Why the text of an object is no message.
pub open spec fn message_error(text: Seq<char>) -> Option<ParseErrorView> {
    match json_members(text) {
        Err(e) => Some(ParseErrorView::Syntax(e)),
        Ok(m) => match repeated(member_names(text), 0) {
            Some(name) => Some(ParseErrorView::Repeated(name)),
            None => match problem_of(m) {
                Some(p) => Some(ParseErrorView::Message(p)),
                None => None,
            },
        },
    }
}

/// Whether the text of an object is the message `v`.
pub open spec fn text_is(text: Seq<char>, v: MessageView) -> bool {
    json_members(text) is Ok && repeated(member_names(text), 0) is None && reads_as(
        json_members(text)->Ok_0,
        v,
    )
}

/// The first error among the elements of a batch from `from` on.
pub open spec fn elements_error(es: Seq<Seq<char>>, from: int) -> Option<ParseErrorView>
    decreases es.len() - from,
{
    if from >= es.len() {
        None
    } else if message_error(es[from]) is Some {
        message_error(es[from])
    } else {
        elements_error(es, from + 1)
    }
}

/// Why the text of an array is no batch.
pub open spec fn batch_error(text: Seq<char>) -> Option<ParseErrorView> {
    match json_elements(text) {
        Err(e) => Some(ParseErrorView::Syntax(e)),
        Ok(es) => elements_error(es, 0),
    }
}

pub open spec fn is_blank_byte(b: u8) -> bool {
    b == 0x20 || b == 0x09 || b == 0x0a || b == 0x0c || b == 0x0d
}

/// The place of the first byte from `from` on that is no white space.
pub open spec fn first_mark(bytes: Seq<u8>, from: int) -> int
    decreases bytes.len() - from,
{
    if from >= bytes.len() {
        bytes.len() as int
    } else if !is_blank_byte(bytes[from]) {
        from
    } else {
        first_mark(bytes, from + 1)
    }
}

/// Whether a line holds a batch: its first mark opens an array.
pub open spec fn is_batch_line(line: Seq<char>) -> bool {
    let bytes = encode_utf8(line);
    let at = first_mark(bytes, 0);
    at < bytes.len() && bytes[at] == 0x5b
}

/// Why a line is neither a message nor a batch.
pub open spec fn line_error(line: Seq<char>) -> Option<ParseErrorView> {
    if is_batch_line(line) {
        batch_error(line)
    } else {
        message_error(line)
    }
}

/// A line is a single message or a batch of them.
#[derive(Debug)]
pub enum Parsed {
    Single(RawMessage),
    Batch(Vec<RawMessage>),
}

pub enum ParsedView {
    Single(MessageView),
    Batch(Seq<MessageView>),
}

impl View for Parsed {
    type V = ParsedView;

    open spec fn view(&self) -> ParsedView {
        match self {
            Parsed::Single(m) => ParsedView::Single(m@),
            Parsed::Batch(ms) => ParsedView::Batch(messages_view(ms@)),
        }
    }
}

/// Whether a line reads as `p`.
pub open spec fn line_is(line: Seq<char>, p: ParsedView) -> bool {
    match p {
        ParsedView::Single(m) => !is_batch_line(line) && text_is(line, m),
        ParsedView::Batch(ms) => is_batch_line(line) && json_elements(line) is Ok && ({
            let es = json_elements(line)->Ok_0;
            es.len() == ms.len() && forall|i: int|
                0 <= i < ms.len() ==> #[trigger] text_is(es[i], ms[i])
        }),
    }
}

pub fn blank_byte(b: u8) -> (r: bool)
    ensures
        r == is_blank_byte(b),
{
    b == 0x20 || b == 0x09 || b == 0x0a || b == 0x0c || b == 0x0d
}

fn batch_line(line: &str) -> (r: bool)
    ensures
        r == is_batch_line(line@),
{
    let bytes: &[u8] = line.as_bytes();
    let mut i: usize = 0;
    while i < bytes.len() && blank_byte(bytes[i])
        invariant
            i <= bytes.len(),
            first_mark(bytes@, 0) == first_mark(bytes@, i as int),
        decreases bytes.len() - i,
    {
        i += 1;
    }
    i < bytes.len() && bytes[i] == 0x5b
}

fn present_value(v: &Vec<(String, String)>, name: &str) -> (r: Option<RawValue>)
    requires
        distinct(v.deep_view()),
        all_values(v.deep_view()),
    ensures
        raw_view(r) == present(map_of(v.deep_view()), name@),
        r matches Some(x) ==> is_value(x@),
{
    proof {
        lemma_first_value_of_distinct(v.deep_view(), name@);
        lemma_place_of(v.deep_view(), name@, 0);
    }
    match get_value(v, name) {
        Some(s) => if same(s, "null") {
            None
        } else {
            Some(RawValue::of(s.to_owned()))
        },
        None => None,
    }
}

/// Whether the pair is one of the first `n`.
spec fn among(ps: Pairs, n: int, p: (Seq<char>, Seq<char>)) -> bool {
    exists|j: int| 0 <= j < n && #[trigger] ps[j] == p
}

/// Takes the members of an object as a message.
pub fn message_of_members(v: Vec<(String, String)>) -> (r: Result<RawMessage, Problem>)
    requires
        distinct(v.deep_view()),
        all_values(v.deep_view()),
    ensures
        r matches Ok(m) ==> reads_as(map_of(v.deep_view()), m@),
        r matches Err(p) ==> problem_of(map_of(v.deep_view())) == Some(p),
        version_read_back(map_of(v.deep_view())),
        !(r matches Err(Problem::MissingVersion)) && !(r matches Err(Problem::VersionNotString))
            ==> method_read_back(map_of(v.deep_view())),
{
    let ghost d = v.deep_view();
    let ghost m = map_of(d);
    proof {
        lemma_first_value_of_distinct(d, "jsonrpc"@);
        lemma_first_value_of_distinct(d, "id"@);
        lemma_first_value_of_distinct(d, "method"@);
        lemma_place_of(d, "id"@, 0);
    }
    let jsonrpc = match get_value(&v, "jsonrpc") {
        None => return Err(Problem::MissingVersion),
        Some(s) => match string_value(s) {
            None => return Err(Problem::VersionNotString),
            Some(t) => t,
        },
    };
    let id = match get_value(&v, "id") {
        Some(s) => Some(RawValue::of(s.to_owned())),
        None => None,
    };
    let method = match get_value(&v, "method") {
        None => None,
        Some(s) => if same(s, "null") {
            None
        } else {
            match string_value(s) {
                None => return Err(Problem::MethodNotString),
                Some(t) => Some(t),
            }
        },
    };
    let params = present_value(&v, "params");
    let result = present_value(&v, "result");
    let error = present_value(&v, "error");
    let mut extra: Vec<(String, RawValue)> = Vec::new();
    let ghost mut e: Pairs = seq![];
    assert(extra_view(extra@) =~= e);
    let mut i: usize = 0;
    while i < v.len()
        invariant
            i <= v.len(),
            d == v.deep_view(),
            distinct(d),
            all_values(d),
            e == extra_view(extra@),
            all_values(e),
            forall|k: int|
                0 <= k < e.len() ==> !is_known((#[trigger] e[k]).0) && among(d, i as int, e[k]),
            forall|j: int|
                0 <= j < i && !is_known((#[trigger] d[j]).0) ==> among(e, e.len() as int, d[j]),
            distinct(e),
        decreases v.len() - i,
    {
        proof {
            assert forall|k: int| 0 <= k < e.len() implies among(d, i + 1, #[trigger] e[k]) by {
                let j = choose|j: int| 0 <= j < i && #[trigger] d[j] == e[k];
                assert(d[j] == e[k]);
            }
        }
        if !known(v[i].0.as_str()) {
            assert(d[i as int].1 == v[i as int].1@);
            extra.push((v[i].0.clone(), RawValue::of(v[i].1.clone())));
            proof {
                let before = e;
                let now = e.push(d[i as int]);
                assert(extra_view(extra@) =~= now);
                assert(among(d, i + 1, d[i as int]));
                assert forall|j: int| 0 <= j < i + 1 && !is_known((#[trigger] d[j]).0) implies among(
                    now,
                    now.len() as int,
                    d[j],
                ) by {
                    if j < i {
                        let k = choose|k: int|
                            0 <= k < before.len() && #[trigger] before[k] == d[j];
                        assert(now[k] == d[j]);
                    } else {
                        assert(now[before.len() as int] == d[j]);
                    }
                }
                assert forall|a: int, b: int|
                    0 <= a < now.len() && 0 <= b < now.len() && (#[trigger] now[a]).0 == (
                    #[trigger] now[b]).0 implies a == b by {
                    if a < before.len() && b < before.len() {
                        assert(before[a].0 == before[b].0);
                    } else if a < before.len() {
                        let j = choose|j: int| 0 <= j < i && #[trigger] d[j] == before[a];
                        assert(d[j].0 == d[i as int].0);
                    } else if b < before.len() {
                        let j = choose|j: int| 0 <= j < i && #[trigger] d[j] == before[b];
                        assert(d[j].0 == d[i as int].0);
                    }
                }
                e = now;
            }
        }
        i += 1;
    }
    let msg = RawMessage { jsonrpc, id, method, params, result, error, extra };
    proof {
        assert(msg@.extra == e);
        assert(msg@.is_valid());
        assert forall|name: Seq<char>| #[trigger]
            map_of(e).dom().contains(name) <==> m.dom().contains(name) && !is_known(name) by {
            lemma_map_of_contains(e, name);
            lemma_map_of_contains(d, name);
            if has_name(e, name) {
                let k = choose|k: int| 0 <= k < e.len() && (#[trigger] e[k]).0 == name;
                let j = choose|j: int| 0 <= j < i && #[trigger] d[j] == e[k];
                assert(d[j].0 == name);
            }
            if has_name(d, name) && !is_known(name) {
                let j = choose|j: int| 0 <= j < d.len() && (#[trigger] d[j]).0 == name;
                let k = choose|k: int| 0 <= k < e.len() && #[trigger] e[k] == d[j];
                assert(e[k].0 == name);
            }
        }
        assert forall|name: Seq<char>|
            m.dom().contains(name) && !#[trigger] is_known(name) implies map_of(e)[name]
            == m[name] by {
            lemma_map_of_contains(d, name);
            let j = choose|j: int| 0 <= j < d.len() && (#[trigger] d[j]).0 == name;
            let k = choose|k: int| 0 <= k < e.len() && #[trigger] e[k] == d[j];
            lemma_map_of_distinct(d, j);
            lemma_map_of_distinct(e, k);
        }
    }
    Ok(msg)
}

impl RawMessage {
    /// A request has an id and a method.
    pub fn is_request(&self) -> (r: bool)
        ensures
            r == self@.is_request(),
    {
        self.id.is_some() && self.method.is_some()
    }

    /// A response has an id, a result or an error, and no method.
    pub fn is_response(&self) -> (r: bool)
        ensures
            r == self@.is_response(),
    {
        self.id.is_some() && (self.result.is_some() || self.error.is_some())
            && self.method.is_none()
    }

    /// A notification has a method and no id, not even `null`.
    pub fn is_notification(&self) -> (r: bool)
        ensures
            r == self@.is_notification(),
    {
        self.method.is_some() && self.id.is_none()
    }

    /// A request for the method `initialize`.
    pub fn is_initialize_request(&self) -> (r: bool)
        ensures
            r == self@.is_initialize_request(),
    {
        self.is_request() && is_some_text(&self.method, "initialize")
    }

    pub fn method_str(&self) -> (r: Option<&str>)
        ensures
            r is Some <==> self@.method is Some,
            r matches Some(s) ==> self@.method == Some(s@),
    {
        match &self.method {
            Some(s) => Some(s.as_str()),
            None => None,
        }
    }

    /// Builds the response that reports an error.
    pub fn error_response(id: Option<RawValue>, code: i32, message: &str) -> (r: RawMessage)
        ensures
            r@ == error_message(raw_view(id), code as int, message@),
    {
        let mut members: Vec<(String, String)> = Vec::new();
        push_pair(&mut members, "code", signed_decimal_text(code as i64));
        push_pair(&mut members, "message", quote(message));
        proof {
            let ms = seq![
                ("code"@, signed_decimal(code as int)),
                ("message"@, quoted(message@)),
            ];
            assert(members.deep_view() =~= ms);
            assert(is_json(ms[0].1) && is_json(ms[1].1));
            assert(all_json(ms));
            assert(is_written(object_text(ms)));
        }
        let error = RawValue::written(write_object(&members));
        let response_id = match id {
            Some(v) => v,
            None => null_value(),
        };
        RawMessage {
            jsonrpc: "2.0".to_owned(),
            id: Some(response_id),
            method: None,
            params: None,
            result: None,
            error: Some(error),
            extra: Vec::new(),
        }
    }

    /// The JSON text of the message.
    pub fn to_json(&self) -> (r: String)
        ensures
            r@ == message_text(self@),
    {
        let mut members: Vec<(String, String)> = Vec::new();
        push_pair(&mut members, "jsonrpc", quote(self.jsonrpc.as_str()));
        push_value(&mut members, "id", &self.id);
        if let Some(m) = &self.method {
            push_pair(&mut members, "method", quote(m.as_str()));
        }
        push_value(&mut members, "params", &self.params);
        push_value(&mut members, "result", &self.result);
        push_value(&mut members, "error", &self.error);
        let ghost core = members.deep_view();
        let mut i: usize = 0;
        while i < self.extra.len()
            invariant
                i <= self.extra.len(),
                members.deep_view() == core + self@.extra.take(i as int),
            decreases self.extra.len() - i,
        {
            push_pair(&mut members, self.extra[i].0.as_str(), self.extra[i].1.get().to_owned());
            assert(self@.extra.take(i + 1) =~= self@.extra.take(i as int).push(
                self@.extra[i as int],
            ));
            i += 1;
            assert(members.deep_view() =~= core + self@.extra.take(i as int));
        }
        assert(members.deep_view() =~= message_members(self@));
        write_object(&members)
    }
}

/// Whether two messages hold the same; the order of extra members does not count.
pub open spec fn same_message(a: MessageView, b: MessageView) -> bool {
    &&& a.jsonrpc == b.jsonrpc
    &&& a.id == b.id
    &&& a.method == b.method
    &&& a.params == b.params
    &&& a.result == b.result
    &&& a.error == b.error
    &&& map_of(a.extra) == map_of(b.extra)
}

/// Whether no payload but the id is a bare `null`, which reads as an absent one.
pub open spec fn no_null(m: MessageView) -> bool {
    m.params != Some("null"@) && m.result != Some("null"@) && m.error != Some("null"@)
}

/// The text of a message is read back as that message.
pub open spec fn message_read_back(text: Seq<char>, r: Result<RawMessage, ParseError>) -> bool {
    forall|m: MessageView| #[trigger]
        message_text(m) == text && m.is_valid() && no_null(m) ==> (r matches Ok(x)
            && same_message(x@, m))
}

pub open spec fn version_read_back(m: Map<Seq<char>, Seq<char>>) -> bool {
    forall|s: Seq<char>|
        m.dom().contains("jsonrpc"@) && m["jsonrpc"@] == #[trigger] quoted(s) ==> json_string(
            m["jsonrpc"@],
        ) == Some(s)
}

pub open spec fn method_read_back(m: Map<Seq<char>, Seq<char>>) -> bool {
    forall|s: Seq<char>|
        present(m, "method"@) is Some && m["method"@] == #[trigger] quoted(s) ==> json_string(
            m["method"@],
        ) == Some(s)
}

proof fn lemma_known_names()
    ensures
        "jsonrpc"@ != "id"@,
        "jsonrpc"@ != "method"@,
        "jsonrpc"@ != "params"@,
        "jsonrpc"@ != "result"@,
        "jsonrpc"@ != "error"@,
        "id"@ != "method"@,
        "id"@ != "params"@,
        "id"@ != "result"@,
        "id"@ != "error"@,
        "method"@ != "params"@,
        "method"@ != "result"@,
        "method"@ != "error"@,
        "params"@ != "result"@,
        "params"@ != "error"@,
        "result"@ != "error"@,
{
    reveal_strlit("jsonrpc");
    reveal_strlit("id");
    reveal_strlit("method");
    reveal_strlit("params");
    reveal_strlit("result");
    reveal_strlit("error");
    assert("jsonrpc"@.len() == 7 && "id"@.len() == 2 && "error"@.len() == 5);
    assert("method"@[0] == 'm' && "params"@[0] == 'p' && "result"@[0] == 'r');
    assert("method"@.len() == 6 && "params"@.len() == 6 && "result"@.len() == 6);
}

proof fn lemma_optional_member(name: Seq<char>, value: Option<Seq<char>>)
    ensures
        distinct(optional_member(name, value)),
        forall|other: Seq<char>| #[trigger]
            first_value(optional_member(name, value), other) == (if other == name {
                value
            } else {
                None
            }),
{
    let ps = optional_member(name, value);
    assert forall|other: Seq<char>| #[trigger] first_value(ps, other) == (if other == name {
        value
    } else {
        None
    }) by {
        lemma_place_of(ps, other, 0);
        if ps.len() > 0 {
            assert(ps[0] == (name, value->0));
        }
    }
}

/// The members of a valid message are distinct and JSON, and hold what the message
/// holds.
proof fn lemma_message_members(m: MessageView)
    requires
        m.is_valid(),
    ensures
        distinct(message_members(m)),
        all_json(message_members(m)),
        first_value(message_members(m), "jsonrpc"@) == Some(quoted(m.jsonrpc)),
        first_value(message_members(m), "id"@) == m.id,
        first_value(message_members(m), "method"@) == quoted_option(m.method),
        first_value(message_members(m), "params"@) == m.params,
        first_value(message_members(m), "result"@) == m.result,
        first_value(message_members(m), "error"@) == m.error,
        forall|name: Seq<char>|
            !is_known(name) ==> #[trigger] first_value(message_members(m), name) == first_value(
                m.extra,
                name,
            ),
{
    lemma_known_names();
    let p0 = optional_member("jsonrpc"@, Some(quoted(m.jsonrpc)));
    let p1 = optional_member("id"@, m.id);
    let p2 = optional_member("method"@, quoted_option(m.method));
    let p3 = optional_member("params"@, m.params);
    let p4 = optional_member("result"@, m.result);
    let p5 = optional_member("error"@, m.error);
    lemma_optional_member("jsonrpc"@, Some(quoted(m.jsonrpc)));
    lemma_optional_member("id"@, m.id);
    lemma_optional_member("method"@, quoted_option(m.method));
    lemma_optional_member("params"@, m.params);
    lemma_optional_member("result"@, m.result);
    lemma_optional_member("error"@, m.error);
    let q1 = p0 + p1;
    let q2 = q1 + p2;
    let q3 = q2 + p3;
    let q4 = q3 + p4;
    let q5 = q4 + p5;
    let all = q5 + m.extra;
    assert(all =~= message_members(m));
    lemma_distinct_add(p0, p1);
    lemma_distinct_add(q1, p2);
    lemma_distinct_add(q2, p3);
    lemma_distinct_add(q3, p4);
    lemma_distinct_add(q4, p5);
    assert(forall|i: int| 0 <= i < q5.len() ==> is_known((#[trigger] q5[i]).0));
    lemma_distinct_add(q5, m.extra);
    assert forall|i: int| 0 <= i < all.len() implies is_json((#[trigger] all[i]).1) by {
        if i < q5.len() {
            assert(q5[i] == all[i]);
        } else {
            assert(m.extra[i - q5.len()] == all[i]);
        }
    }
    assert forall|name: Seq<char>| #[trigger] first_value(all, name) == (if name == "jsonrpc"@ {
        Some(quoted(m.jsonrpc))
    } else if name == "id"@ && m.id is Some {
        m.id
    } else if name == "method"@ && m.method is Some {
        quoted_option(m.method)
    } else if name == "params"@ && m.params is Some {
        m.params
    } else if name == "result"@ && m.result is Some {
        m.result
    } else if name == "error"@ && m.error is Some {
        m.error
    } else {
        first_value(m.extra, name)
    }) by {
        lemma_first_value_add(p0, p1, name);
        lemma_first_value_add(q1, p2, name);
        lemma_first_value_add(q2, p3, name);
        lemma_first_value_add(q3, p4, name);
        lemma_first_value_add(q4, p5, name);
        lemma_first_value_add(q5, m.extra, name);
    }
    assert forall|name: Seq<char>| is_known(name) implies #[trigger] first_value(
        m.extra,
        name,
    ) is None by {
        lemma_place_of(m.extra, name, 0);
    }
    assert(first_value(m.extra, "id"@) is None);
    assert(first_value(m.extra, "method"@) is None);
    assert(first_value(m.extra, "params"@) is None);
    assert(first_value(m.extra, "result"@) is None);
    assert(first_value(m.extra, "error"@) is None);
}

/// What is read from the members of a message is that message.
proof fn lemma_reads_back(m: MessageView, ps: Pairs, x: MessageView)
    requires
        m.is_valid(),
        no_null(m),
        map_of(ps) == map_of(message_members(m)),
        reads_as(map_of(ps), x),
        version_read_back(map_of(ps)),
        method_read_back(map_of(ps)),
    ensures
        same_message(x, m),
{
    let all = message_members(m);
    let map = map_of(all);
    lemma_message_members(m);
    lemma_first_value_of_distinct(all, "jsonrpc"@);
    lemma_first_value_of_distinct(all, "id"@);
    lemma_first_value_of_distinct(all, "method"@);
    lemma_first_value_of_distinct(all, "params"@);
    lemma_first_value_of_distinct(all, "result"@);
    lemma_first_value_of_distinct(all, "error"@);
    lemma_quoted_is_not_null(m.method);
    assert(map_of(x.extra) =~= map_of(m.extra)) by {
        assert forall|name: Seq<char>| #[trigger]
            map_of(x.extra).dom().contains(name) <==> map_of(m.extra).dom().contains(name) by {
            lemma_first_value_of_distinct(all, name);
            lemma_first_value_of_distinct(m.extra, name);
            lemma_place_of(m.extra, name, 0);
        }
        assert forall|name: Seq<char>| #[trigger]
            map_of(x.extra).dom().contains(name) implies map_of(x.extra)[name] == map_of(
            m.extra,
        )[name] by {
            lemma_first_value_of_distinct(all, name);
            lemma_first_value_of_distinct(m.extra, name);
            assert(!is_known(name));
        }
    }
}

proof fn lemma_quoted_is_not_null(s: Option<Seq<char>>)
    ensures
        quoted_option(s) != Some("null"@),
{
    reveal_strlit("null");
    if s is Some {
        assert(quoted(s->0)[0] == '"');
        assert("null"@[0] == 'n');
    }
}

/// Whether the name is one of the first `n`.
fn listed_before(names: &Vec<String>, n: usize, name: &str) -> (r: bool)
    requires
        n <= names.len(),
    ensures
        r == names.deep_view().take(n as int).contains(name@),
{
    let ghost d = names.deep_view();
    let mut i: usize = 0;
    while i < n
        invariant
            i <= n <= names.len(),
            d == names.deep_view(),
            forall|k: int| 0 <= k < i ==> d[k] != name@,
        decreases n - i,
    {
        if same(names[i].as_str(), name) {
            assert(d.take(n as int)[i as int] == name@);
            return true;
        }
        i += 1;
    }
    false
}

fn find_repeated(names: &Vec<String>) -> (r: Option<String>)
    ensures
        r is Some <==> repeated(names.deep_view(), 0) is Some,
        r matches Some(s) ==> repeated(names.deep_view(), 0) == Some(s@),
{
    let ghost d = names.deep_view();
    let mut i: usize = 0;
    while i < names.len()
        invariant
            i <= names.len(),
            d == names.deep_view(),
            repeated(d, 0) == repeated(d, i as int),
        decreases names.len() - i,
    {
        if known(names[i].as_str()) && listed_before(names, i, names[i].as_str()) {
            return Some(names[i].clone());
        }
        i += 1;
    }
    None
}

proof fn lemma_distinct_not_repeated(ms: Pairs, at: int)
    requires
        distinct(ms),
        0 <= at,
    ensures
        repeated(names_of(ms), at) is None,
    decreases ms.len() - at,
{
    let names = names_of(ms);
    if at < names.len() {
        if names.take(at).contains(names[at]) {
            let k = choose|k: int| 0 <= k < names.take(at).len() && names.take(at)[k] == names[at];
            assert(ms[k].0 == ms[at].0);
        }
        lemma_distinct_not_repeated(ms, at + 1);
    }
}

/// Reads the text of an object as a message.
pub fn parse_message(text: &str) -> (r: Result<RawMessage, ParseError>)
    ensures
        r matches Ok(m) ==> message_error(text@) is None && text_is(text@, m@),
        r matches Err(e) ==> message_error(text@) == Some(e@),
        message_read_back(text@, r),
{
    match object_members(text) {
        Err(e) => {
            proof {
                assert forall|m: MessageView| #[trigger]
                    message_text(m) == text@ && m.is_valid() && no_null(m) implies false by {
                    lemma_message_members(m);
                    assert(object_text(message_members(m)) == text@);
                }
            }
            Err(ParseError::Syntax(e))
        },
        Ok(v) => {
            let ghost ps = v.deep_view();
            let names = list_names(text);
            proof {
                assert forall|m: MessageView| #[trigger]
                    message_text(m) == text@ && m.is_valid() && no_null(m) implies repeated(
                    names.deep_view(),
                    0,
                ) is None by {
                    lemma_message_members(m);
                    assert(object_text(message_members(m)) == text@);
                    lemma_distinct_not_repeated(message_members(m), 0);
                }
            }
            if let Some(name) = find_repeated(&names) {
                return Err(ParseError::Repeated(name));
            }
            let r = match message_of_members(v) {
                Ok(m) => Ok(m),
                Err(p) => Err(ParseError::Message(p)),
            };
            proof {
                assert forall|m: MessageView| #[trigger]
                    message_text(m) == text@ && m.is_valid() && no_null(m) implies (r matches Ok(
                    x,
                ) && same_message(x@, m)) by {
                    lemma_message_members(m);
                    assert(object_text(message_members(m)) == text@);
                    let all = message_members(m);
                    lemma_first_value_of_distinct(all, "jsonrpc"@);
                    lemma_first_value_of_distinct(all, "method"@);
                    if r is Ok {
                        lemma_reads_back(m, ps, r->Ok_0@);
                    }
                }
            }
            r
        },
    }
}

/// A text that begins with a brace begins with its byte.
pub proof fn lemma_first_byte(text: Seq<char>)
    requires
        text.len() > 0,
        text[0] == '{',
    ensures
        encode_utf8(text).len() > 0,
        encode_utf8(text)[0] == 0x7b,
        !is_batch_line(text),
{
    reveal_with_fuel(encode_utf8, 2);
    assert((0x7bu32 & 0x7f) as u8 == 0x7b) by (bit_vector);
    assert(encode_scalar(0x7b) =~= seq![0x7bu8]);
}

/// The text of a message is read back as a single message, that one.
pub open spec fn line_read_back(text: Seq<char>, r: Result<Parsed, ParseError>) -> bool {
    forall|m: MessageView| #[trigger]
        message_text(m) == text && m.is_valid() && no_null(m) ==> (r matches Ok(
            Parsed::Single(x),
        ) && same_message(x@, m))
}

/// Reads a line as a message or a batch: a batch where its first character that is
/// no white space opens an array.
pub fn parse_line(line: &str) -> (r: Result<Parsed, ParseError>)
    ensures
        r matches Ok(p) ==> line_error(line@) is None && line_is(line@, p@),
        r matches Err(e) ==> line_error(line@) == Some(e@),
        line_read_back(line@, r),
{
    if !batch_line(line) {
        return match parse_message(line) {
            Ok(m) => Ok(Parsed::Single(m)),
            Err(e) => Err(e),
        };
    }
    proof {
        assert forall|m: MessageView| #[trigger] message_text(m) != line@ by {
            if message_text(m) == line@ {
                assert(message_text(m)[0] == '{');
                lemma_first_byte(line@);
            }
        }
    }
    let es = match array_elements(line) {
        Err(e) => return Err(ParseError::Syntax(e)),
        Ok(es) => es,
    };
    let ghost d = es.deep_view();
    let mut out: Vec<RawMessage> = Vec::new();
    let mut i: usize = 0;
    while i < es.len()
        invariant
            i <= es.len(),
            d == es.deep_view(),
            out.len() == i,
            elements_error(d, 0) == elements_error(d, i as int),
            forall|k: int| 0 <= k < i ==> #[trigger] text_is(d[k], out[k]@),
            is_batch_line(line@),
            json_elements(line@) is Ok,
            json_elements(line@)->Ok_0 == d,
            forall|m: MessageView| #[trigger] message_text(m) != line@,
        decreases es.len() - i,
    {
        match parse_message(es[i].as_str()) {
            Ok(m) => {
                out.push(m);
            },
            Err(e) => return Err(e),
        }
        i += 1;
    }
    proof {
        let ms = messages_view(out@);
        assert forall|k: int| 0 <= k < ms.len() implies #[trigger] text_is(d[k], ms[k]) by {
            assert(text_is(d[k], out[k]@));
        }
    }
    Ok(Parsed::Batch(out))
}

/// The JSON text of a batch of messages.
pub fn batch_to_json(ms: &Vec<RawMessage>) -> (r: String)
    ensures
        r@ == batch_text(messages_view(ms@)),
{
    let mut es: Vec<String> = Vec::new();
    let mut i: usize = 0;
    while i < ms.len()
        invariant
            i <= ms.len(),
            es.len() == i,
            forall|k: int| 0 <= k < i ==> (#[trigger] es[k])@ == message_text(ms[k]@),
        decreases ms.len() - i,
    {
        es.push(ms[i].to_json());
        i += 1;
    }
    assert(es.deep_view() =~= Seq::new(
        ms@.len(),
        |k: int| message_text(messages_view(ms@)[k]),
    ));
    write_array(&es)
}

impl Default for RawMessage {
    fn default() -> (r: RawMessage)
        ensures
            r@ == (MessageView {
                jsonrpc: "2.0"@,
                id: None,
                method: None,
                params: None,
                result: None,
                error: None,
                extra: seq![],
            }),
    {
        RawMessage {
            jsonrpc: "2.0".to_owned(),
            id: None,
            method: None,
            params: None,
            result: None,
            error: None,
            extra: Vec::new(),
        }
    }
}

fn clone_raw(v: &Option<RawValue>) -> (r: Option<RawValue>)
    ensures
        raw_view(r) == raw_view(*v),
{
    match v {
        Some(x) => Some(x.clone()),
        None => None,
    }
}

impl Clone for RawMessage {
    fn clone(&self) -> (r: RawMessage)
        ensures
            r@ == self@,
    {
        let mut extra: Vec<(String, RawValue)> = Vec::new();
        let mut i: usize = 0;
        while i < self.extra.len()
            invariant
                i <= self.extra.len(),
                extra.len() == i,
                forall|k: int|
                    0 <= k < i ==> (#[trigger] extra[k]).0@ == self.extra[k].0@ && extra[k].1@
                        == self.extra[k].1@,
            decreases self.extra.len() - i,
        {
            extra.push((self.extra[i].0.clone(), self.extra[i].1.clone()));
            i += 1;
        }
        let method = match &self.method {
            Some(s) => Some(s.clone()),
            None => None,
        };
        let r = RawMessage {
            jsonrpc: self.jsonrpc.clone(),
            id: clone_raw(&self.id),
            method,
            params: clone_raw(&self.params),
            result: clone_raw(&self.result),
            error: clone_raw(&self.error),
            extra,
        };
        assert(r@.extra =~= self@.extra);
        r
    }
}

/// The JSON value `null`.
fn null_value() -> (r: RawValue)
    ensures
        r@ == "null"@,
{
    RawValue::written("null".to_owned())
}

fn push_value(members: &mut Vec<(String, String)>, name: &str, value: &Option<RawValue>)
    ensures
        final(members).deep_view() == old(members).deep_view() + optional_member(
            name@,
            raw_view(*value),
        ),
{
    if let Some(v) = value {
        push_pair(members, name, v.get().to_owned());
    }
    assert(members.deep_view() =~= old(members).deep_view() + optional_member(
        name@,
        raw_view(*value),
    ));
}

/// A message with an id and a method is a request, one with an id, no method, and a result or
/// an error is an answer, and one with a method and no id is a notification. A request to
/// initialize is a request for the method of that name.
pub proof fn law_kinds_of_messages(m: MessageView)
    ensures
        m.is_request() <==> m.id is Some && m.method is Some,
        m.is_response() <==> m.id is Some && m.method is None && (m.result is Some
            || m.error is Some),
        m.is_notification() <==> m.id is None && m.method is Some,
        m.is_initialize_request() <==> m.id is Some && m.method == Some("initialize"@),
{
}

/// A text is read as the message that its members say: each member has the value that stands
/// in the text, `null` stands for an absent value except for an id, and members that JSON-RPC
/// does not know are kept.
pub proof fn law_message_is_what_its_members_say(text: Seq<char>, v: MessageView, name: Seq<char>)
    requires
        text_is(text, v),
    ensures
        json_members(text) is Ok,
        ({
            let m = json_members(text)->Ok_0;
            let null = "null"@;
            &&& m.dom().contains("jsonrpc"@) && json_string(m["jsonrpc"@]) == Some(v.jsonrpc)
            &&& v.id is Some <==> m.dom().contains("id"@)
            &&& v.id is Some ==> v.id->Some_0 == m["id"@]
            &&& v.method is Some <==> m.dom().contains("method"@) && m["method"@] != null
            &&& v.method is Some ==> json_string(m["method"@]) == v.method
            &&& v.params is Some <==> m.dom().contains("params"@) && m["params"@] != null
            &&& v.params is Some ==> v.params->Some_0 == m["params"@]
            &&& v.result is Some <==> m.dom().contains("result"@) && m["result"@] != null
            &&& v.result is Some ==> v.result->Some_0 == m["result"@]
            &&& v.error is Some <==> m.dom().contains("error"@) && m["error"@] != null
            &&& v.error is Some ==> v.error->Some_0 == m["error"@]
            &&& name != "jsonrpc"@ && name != "id"@ && name != "method"@ && name != "params"@
                && name != "result"@ && name != "error"@ ==> (map_of(v.extra).dom().contains(name)
                <==> m.dom().contains(name)) && (m.dom().contains(name) ==> map_of(v.extra)[name]
                == m[name])
        }),
{
    let m = json_members(text)->Ok_0;
    assert(is_known(name) || !is_known(name));
    assert(map_of(v.extra).dom().contains(name) <==> m.dom().contains(name) && !is_known(name));
}

/// An object is a message exactly where it is JSON, no member that JSON-RPC knows stands in
/// it twice, its version is a string, and so is its method, if it has one.
pub proof fn law_object_is_a_message(text: Seq<char>)
    ensures
        message_error(text) is None <==> json_members(text) is Ok && {
            let m = json_members(text)->Ok_0;
            let names = member_names(text);
            &&& m.dom().contains("jsonrpc"@)
            &&& json_string(m["jsonrpc"@]) is Some
            &&& m.dom().contains("method"@) && m["method"@] != "null"@ ==> json_string(
                m["method"@],
            ) is Some
            &&& forall|i: int, j: int|
                #![trigger names[i], names[j]]
                0 <= i < j < names.len() && names[i] == names[j] ==> names[i] != "jsonrpc"@
                    && names[i] != "id"@ && names[i] != "method"@ && names[i] != "params"@
                    && names[i] != "result"@ && names[i] != "error"@
        },
{
    let names = member_names(text);
    lemma_repeated(names, 0);
}

proof fn lemma_repeated(names: Seq<Seq<char>>, at: int)
    requires
        0 <= at <= names.len(),
    ensures
        repeated(names, at) is None <==> forall|i: int, j: int|
            #![trigger names[i], names[j]]
            0 <= i < j < names.len() && at <= j && names[i] == names[j] ==> !is_known(names[i]),
    decreases names.len() - at,
{
    if at < names.len() {
        lemma_repeated(names, at + 1);
        let before = names.take(at);
        if is_known(names[at]) && before.contains(names[at]) {
            let i = choose|i: int| 0 <= i < before.len() && before[i] == names[at];
            assert(names[i] == names[at]);
        } else {
            assert forall|i: int, j: int|
                #![trigger names[i], names[j]]
                0 <= i < j < names.len() && at <= j && names[i] == names[j] && repeated(
                    names,
                    at + 1,
                ) is None implies !is_known(names[i]) by {
                if j == at {
                    assert(before[i] == names[at]);
                }
            }
        }
    }
}

/// A line is a batch exactly where its first byte that is no white space opens an array.
pub proof fn law_bracket_makes_a_batch(line: Seq<char>)
    ensures
        is_batch_line(line) <==> exists|at: int|
            #![trigger encode_utf8(line)[at]]
            0 <= at < encode_utf8(line).len() && encode_utf8(line)[at] == 0x5b && forall|k: int|
                0 <= k < at ==> is_blank_byte(#[trigger] encode_utf8(line)[k]),
{
    let bytes = encode_utf8(line);
    let first = first_mark(bytes, 0);
    lemma_first_mark(bytes, 0);
    if is_batch_line(line) {
        assert(bytes[first] == 0x5b);
    }
    if exists|at: int|
        #![trigger encode_utf8(line)[at]]
        0 <= at < encode_utf8(line).len() && encode_utf8(line)[at] == 0x5b && forall|k: int|
            0 <= k < at ==> is_blank_byte(#[trigger] encode_utf8(line)[k]) {
        let at = choose|at: int|
            #![trigger encode_utf8(line)[at]]
            0 <= at < encode_utf8(line).len() && encode_utf8(line)[at] == 0x5b && forall|k: int|
                0 <= k < at ==> is_blank_byte(#[trigger] encode_utf8(line)[k]);
        if at < first {
            assert(is_blank_byte(bytes[at]));
        } else if first < at {
            assert(is_blank_byte(bytes[first]));
        }
    }
}

proof fn lemma_first_mark(bytes: Seq<u8>, from: int)
    requires
        0 <= from <= bytes.len(),
    ensures
        from <= first_mark(bytes, from) <= bytes.len(),
        first_mark(bytes, from) < bytes.len() ==> !is_blank_byte(bytes[first_mark(bytes, from)]),
        forall|k: int| from <= k < first_mark(bytes, from) ==> is_blank_byte(#[trigger] bytes[k]),
    decreases bytes.len() - from,
{
    if from < bytes.len() && is_blank_byte(bytes[from]) {
        lemma_first_mark(bytes, from + 1);
    }
}

/// A line that is no batch is one message. A batch is an array, whose elements are its
/// messages, all of them and in their order; it is refused where one of them is none.
pub proof fn law_line_is_a_message_or_a_batch(line: Seq<char>, p: ParsedView)
    ensures
        line_is(line, p) && !is_batch_line(line) ==> p is Single && text_is(line, p->Single_0),
        line_is(line, p) && is_batch_line(line) ==> p is Batch && json_elements(line) is Ok
            && p->Batch_0.len() == json_elements(line)->Ok_0.len() && (forall|i: int|
            0 <= i < p->Batch_0.len() ==> #[trigger] text_is(
                json_elements(line)->Ok_0[i],
                p->Batch_0[i],
            )),
        !is_batch_line(line) ==> line_error(line) == message_error(line),
        is_batch_line(line) ==> (line_error(line) is None <==> json_elements(line) is Ok && (
        forall|i: int|
            0 <= i < json_elements(line)->Ok_0.len() ==> (#[trigger] message_error(
                json_elements(line)->Ok_0[i],
            )) is None)),
{
    if is_batch_line(line) && json_elements(line) is Ok {
        lemma_elements_error(json_elements(line)->Ok_0, 0);
    }
}

proof fn lemma_elements_error(es: Seq<Seq<char>>, from: int)
    requires
        0 <= from,
    ensures
        elements_error(es, from) is None <==> forall|i: int|
            from <= i < es.len() ==> (#[trigger] message_error(es[i])) is None,
    decreases es.len() - from,
{
    if from < es.len() {
        lemma_elements_error(es, from + 1);
    }
}

/// An answer that reports an error has the id that was asked under, or `null` where none is
/// known, and an error with the code and the words that were given, and nothing else.
pub proof fn law_error_is_reported(id: Option<Seq<char>>, code: int, message: Seq<char>)
    ensures
        ({
            let m = error_message(id, code, message);
            &&& m.jsonrpc == "2.0"@
            &&& id is Some ==> m.id == id
            &&& id is None ==> m.id == Some("null"@)
            &&& m.method is None && m.params is None && m.result is None
            &&& m.extra.len() == 0
            &&& m.error == Some(
                "{\"code\":"@ + signed_decimal(code) + ",\"message\":"@ + quoted(message) + "}"@,
            )
        }),
{
    reveal_strlit("code");
    reveal_strlit("message");
    reveal_strlit("{\"code\":");
    reveal_strlit(",\"message\":");
    reveal_strlit("}");
    let ms = seq![("code"@, signed_decimal(code)), ("message"@, quoted(message))];
    assert(quoted("code"@) =~= seq!['"', 'c', 'o', 'd', 'e', '"']);
    assert(quoted("message"@) =~= seq!['"', 'm', 'e', 's', 's', 'a', 'g', 'e', '"']);
    reveal_with_fuel(members_text, 3);
    assert(object_text(ms) =~= "{\"code\":"@ + signed_decimal(code) + ",\"message\":"@ + quoted(
        message,
    ) + "}"@);
}

/// The text of a batch is the texts of its messages, in their order, between brackets and
/// parted by commas.
pub proof fn law_batch_holds_its_messages(a: Seq<MessageView>, b: Seq<MessageView>, m: MessageView)
    requires
        a.len() > 0,
        b.len() > 0,
    ensures
        batch_text(Seq::<MessageView>::empty()) == seq!['[', ']'],
        batch_text(seq![m]) == seq!['['] + message_text(m) + seq![']'],
        batch_text(a + b) == batch_text(a).drop_last() + seq![','] + batch_text(b).skip(1),
{
    let f = |ms: Seq<MessageView>| Seq::new(ms.len(), |i: int| message_text(ms[i]));
    reveal_with_fuel(elements_text, 3);
    assert(batch_text(Seq::<MessageView>::empty()) =~= seq!['[', ']']);
    assert(batch_text(seq![m]) =~= seq!['['] + message_text(m) + seq![']']);
    let (x, y) = (f(a), f(b));
    assert(f(a + b) =~= x + y);
    lemma_elements_text(x, y);
}

proof fn lemma_elements_text(x: Seq<Seq<char>>, y: Seq<Seq<char>>)
    requires
        y.len() > 0,
        x.len() > 0,
    ensures
        array_text(x + y) == array_text(x).drop_last() + seq![','] + array_text(y).skip(1),
{
    lemma_elements_front(x, y, 0);
    lemma_elements_back(x, y, 0);
    let e = elements_text(x, 0);
    let tail = elements_text(x + y, x.len() as int);
    lemma_elements_end(x, 0);
    assert(array_text(x).drop_last() =~= seq!['['] + e.drop_last());
    assert(array_text(y).skip(1) =~= elements_text(y, 0));
    assert(array_text(x + y) =~= array_text(x).drop_last() + seq![','] + array_text(y).skip(1));
}

proof fn lemma_elements_end(x: Seq<Seq<char>>, from: int)
    requires
        0 <= from <= x.len(),
    ensures
        elements_text(x, from).len() > 0,
        elements_text(x, from).last() == ']',
    decreases x.len() - from,
{
    if from < x.len() {
        lemma_elements_end(x, from + 1);
    }
}

/// What stands before the elements of the second list.
proof fn lemma_elements_front(x: Seq<Seq<char>>, y: Seq<Seq<char>>, from: int)
    requires
        0 <= from <= x.len(),
    ensures
        elements_text(x + y, from) == elements_text(x, from).drop_last()
            + elements_text(x + y, x.len() as int),
    decreases x.len() - from,
{
    let rest = elements_text(x + y, x.len() as int);
    if from < x.len() {
        lemma_elements_front(x, y, from + 1);
        lemma_elements_end(x, from + 1);
        assert((x + y)[from] == x[from]);
        assert(elements_text(x + y, from) =~= elements_text(
            x,
            from,
        ).drop_last() + rest);
    } else {
        assert(elements_text(x, from) =~= seq![']']);
        assert(seq![']'].drop_last() + rest =~= rest);
    }
}

/// The elements of the second list behind those of the first.
proof fn lemma_elements_back(x: Seq<Seq<char>>, y: Seq<Seq<char>>, from: int)
    requires
        0 <= from <= y.len(),
        x.len() > 0,
    ensures
        elements_text(x + y, x.len() + from) == (if from == 0 && y.len() > 0 {
            seq![','] + elements_text(y, 0)
        } else {
            elements_text(y, from)
        }),
    decreases y.len() - from,
{
    if from < y.len() {
        lemma_elements_back(x, y, from + 1);
        assert((x + y)[x.len() + from] == y[from]);
        if from == 0 {
            assert(elements_text(x + y, x.len() + from) =~= seq![',']
                + elements_text(y, 0));
        }
    }
}

/// The text of a message holds every member that the message has, the unknown ones too, and no
/// other.
pub proof fn law_text_holds_every_member(m: MessageView, i: int)
    ensures
        ({
            let all = message_members(m);
            let n = |o: Option<Seq<char>>|
                if o is Some {
                    1int
                } else {
                    0int
                };
            &&& message_text(m) == object_text(all)
            &&& all.contains(("jsonrpc"@, quoted(m.jsonrpc)))
            &&& m.id is Some ==> all.contains(("id"@, m.id->Some_0))
            &&& m.method is Some ==> all.contains(("method"@, quoted(m.method->Some_0)))
            &&& m.params is Some ==> all.contains(("params"@, m.params->Some_0))
            &&& m.result is Some ==> all.contains(("result"@, m.result->Some_0))
            &&& m.error is Some ==> all.contains(("error"@, m.error->Some_0))
            &&& 0 <= i < m.extra.len() ==> all.contains(m.extra[i])
            &&& all.len() == 1 + n(m.id) + n(m.method) + n(m.params) + n(m.result) + n(m.error)
                + m.extra.len()
        }),
{
    let all = message_members(m);
    let a = 1 + optional_member("id"@, m.id).len() as int;
    let b = a + optional_member("method"@, quoted_option(m.method)).len();
    let c = b + optional_member("params"@, m.params).len();
    let d = c + optional_member("result"@, m.result).len();
    let e = d + optional_member("error"@, m.error).len();
    assert(all[0] == ("jsonrpc"@, quoted(m.jsonrpc)));
    if m.id is Some {
        assert(all[1] == ("id"@, m.id->Some_0));
    }
    if m.method is Some {
        assert(all[a] == ("method"@, quoted(m.method->Some_0)));
    }
    if m.params is Some {
        assert(all[b] == ("params"@, m.params->Some_0));
    }
    if m.result is Some {
        assert(all[c] == ("result"@, m.result->Some_0));
    }
    if m.error is Some {
        assert(all[d] == ("error"@, m.error->Some_0));
    }
    if 0 <= i < m.extra.len() {
        assert(all[e + i] == m.extra[i]);
    }
}

/// The text of a batch is the texts of its messages in their order.
pub proof fn law_batch_text_holds_its_messages(ms: Seq<MessageView>, m: MessageView)
    ensures
        ({
            let before = batch_text(ms);
            let comma = if ms.len() == 0 {
                Seq::<char>::empty()
            } else {
                seq![',']
            };
            &&& before.len() > 0
            &&& batch_text(ms.push(m)) == before.drop_last() + comma + message_text(m) + seq![']']
        }),
{
    let es = Seq::new(ms.len(), |i: int| message_text(ms[i]));
    let all = Seq::new(ms.push(m).len(), |i: int| message_text(ms.push(m)[i]));
    assert(all =~= es.push(message_text(m)));
    law_array_is_written_element_by_element(es, message_text(m));
}

} // verus!
