//! HTTP/1.1 and WebSocket on the wire: heads of requests and answers, the handshake, and
//! frames.

use vstd::arithmetic::div_mod::{lemma_div_denominator, lemma_fundamental_div_mod};
use vstd::prelude::*;
use vstd::string::*;
use vstd::utf8::encode_utf8;

use crate::client::http::{get_header, header_value};
use crate::cors::str_view;
use crate::pairs::{first_value, get_value, set_value, with_value, Pairs};
use crate::text::{
    after_prefix, chars_of, decimal, decimal_text, find_char, find_gap, find_solid, first_gap,
    first_solid, index_of, is_digit, is_space, law_number_is_read_back,
    law_only_white_space_is_trimmed, law_parts_lie_between_separators, lemma_decimal_digits,
    lemma_index_of_is, parse_number, parsed_number, piece, same, split, split_text,
    to_unicode_lower, to_unicode_upper, trim, trimmed, unicode_lower, unicode_upper,
};

verus! {

// ---- Requests ----------------------------------------------------------------------

/// A request.
#[derive(Debug)]
pub struct HttpRequest {
    /// In upper case.
    pub method: String,
    /// Without the query.
    pub path: String,
    /// What follows the question mark.
    pub query: String,
    /// Names in lower case.
    pub headers: Vec<(String, String)>,
    pub body: Vec<u8>,
}

/// A piece of a query: the name before the first equals sign and the value after it, if
/// there is one.
pub open spec fn query_part(part: Seq<char>) -> (Seq<char>, Option<Seq<char>>) {
    let at = index_of(part, '=', 0);
    if at < part.len() {
        (part.take(at), Some(part.skip(at + 1)))
    } else {
        (part, None)
    }
}

/// The value of the first piece of the name from `from` on.
pub open spec fn query_value(parts: Seq<Seq<char>>, key: Seq<char>, from: int) -> Option<Seq<char>>
    decreases parts.len() - from,
{
    if from >= parts.len() {
        None
    } else if query_part(parts[from]).0 == key {
        query_part(parts[from]).1
    } else {
        query_value(parts, key, from + 1)
    }
}

/// Takes a piece of a query apart.
pub fn split_query_part(part: &str) -> (r: (String, Option<String>))
    ensures
        r.0@ == query_part(part@).0,
        r.1 is Some <==> query_part(part@).1 is Some,
        r.1 matches Some(v) ==> query_part(part@).1 == Some(v@),
{
    let v = chars_of(part);
    let at: usize = find_char(&v, '=', 0);
    if at < v.len() {
        let k = piece(&v, 0, at);
        let x = piece(&v, at + 1, v.len());
        assert(k@ =~= part@.take(at as int));
        assert(x@ =~= part@.skip(at + 1));
        (k, Some(x))
    } else {
        (part.to_owned(), None)
    }
}

impl HttpRequest {
    /// The header of that name, whatever its case.
    pub fn header(&self, name: &str) -> (r: Option<&str>)
        ensures
            str_view(r) == header_value(self.headers.deep_view(), name@),
    {
        get_header(&self.headers, name)
    }

    /// The value of a parameter in the query.
    pub fn query_param(&self, key: &str) -> (r: Option<String>)
        ensures
            r is Some <==> query_value(split(self.query@, '&'), key@, 0) is Some,
            r matches Some(v) ==> query_value(split(self.query@, '&'), key@, 0) == Some(v@),
    {
        let parts = split_text(self.query.as_str(), '&');
        let ghost d = parts.deep_view();
        let mut i: usize = 0;
        while i < parts.len()
            invariant
                i <= parts.len(),
                d == parts.deep_view(),
                d == split(self.query@, '&'),
                query_value(d, key@, 0) == query_value(d, key@, i as int),
            decreases parts.len() - i,
        {
            let (k, v) = split_query_part(parts[i].as_str());
            if same(k.as_str(), key) {
                return v;
            }
            i += 1;
        }
        None
    }
}

/// What the first line of a request asks for.
pub struct Target {
    pub method: Seq<char>,
    pub path: Seq<char>,
    pub query: Seq<char>,
}

/// The first line of a request: a method, a space, and a path that may have a query; a
/// version may follow.
pub open spec fn request_target(line: Seq<char>) -> Option<Target> {
    let t = trimmed(line);
    let sp = index_of(t, ' ', 0);
    if t.len() == 0 || sp >= t.len() {
        None
    } else {
        let rest = t.skip(sp + 1);
        let full = rest.take(index_of(rest, ' ', 0));
        let q = index_of(full, '?', 0);
        Some(
            Target {
                method: unicode_upper(t.take(sp)),
                path: full.take(q),
                query: if q < full.len() {
                    full.skip(q + 1)
                } else {
                    seq![]
                },
            },
        )
    }
}

/// A line in the head of a message.
pub enum HeadLine {
    /// The head is complete.
    Blank,
    /// No header: ignored.
    Junk,
    Field(Seq<char>, Seq<char>),
}

pub open spec fn head_line(line: Seq<char>) -> HeadLine {
    let t = trimmed(line);
    let at = index_of(t, ':', 0);
    if t.len() == 0 {
        HeadLine::Blank
    } else if at >= t.len() {
        HeadLine::Junk
    } else {
        HeadLine::Field(unicode_lower(trimmed(t.take(at))), trimmed(t.skip(at + 1)))
    }
}

/// The headers on the lines from `from` up to the first blank one, after those in `hs`;
/// where a name occurs again, its last value counts.
pub open spec fn head_fields(lines: Seq<Seq<char>>, from: int, hs: Pairs) -> Pairs
    decreases lines.len() - from,
{
    if from >= lines.len() {
        hs
    } else {
        match head_line(lines[from]) {
            HeadLine::Blank => hs,
            HeadLine::Junk => head_fields(lines, from + 1, hs),
            HeadLine::Field(name, value) => head_fields(
                lines,
                from + 1,
                with_value(hs, name, value),
            ),
        }
    }
}

/// The last length that a head states, `n` where it states none. A length that is no number
/// counts as none.
pub open spec fn head_length(lines: Seq<Seq<char>>, from: int, n: Option<nat>) -> Option<nat>
    decreases lines.len() - from,
{
    if from >= lines.len() {
        n
    } else {
        match head_line(lines[from]) {
            HeadLine::Blank => n,
            HeadLine::Junk => head_length(lines, from + 1, n),
            HeadLine::Field(name, value) => head_length(
                lines,
                from + 1,
                if name == "content-length"@ {
                    parsed_number(value, usize::MAX as nat)
                } else {
                    n
                },
            ),
        }
    }
}

/// A line in the head of a message, taken apart.
enum Field {
    Blank,
    Junk,
    Pair(String, String),
}

fn parse_head_line(line: &str) -> (r: Field)
    ensures
        match head_line(line@) {
            HeadLine::Blank => r is Blank,
            HeadLine::Junk => r is Junk,
            HeadLine::Field(n, v) => r matches Field::Pair(a, b) && a@ == n && b@ == v,
        },
{
    let t = trim(line);
    let v = chars_of(t.as_str());
    if v.len() == 0 {
        return Field::Blank;
    }
    let at: usize = find_char(&v, ':', 0);
    if at == v.len() {
        return Field::Junk;
    }
    let a = piece(&v, 0, at);
    let b = piece(&v, at + 1, v.len());
    assert(a@ =~= t@.take(at as int));
    assert(b@ =~= t@.skip(at + 1));
    let name = to_unicode_lower(trim(a.as_str()).as_str());
    Field::Pair(name, trim(b.as_str()))
}

/// Whether a line ends the head of a message.
pub fn is_head_end(line: &str) -> (r: bool)
    ensures
        r == (head_line(line@) is Blank),
{
    let t = trim(line);
    t.as_str().is_empty()
}

/// The fields of a head, with the length of the body.
struct Head {
    headers: Vec<(String, String)>,
    length: Option<usize>,
}

fn parse_fields(lines: &Vec<String>, from: usize) -> (r: Head)
    requires
        from <= lines.len(),
    ensures
        r.headers.deep_view() == head_fields(lines.deep_view(), from as int, seq![]),
        match head_length(lines.deep_view(), from as int, None) {
            Some(n) => r.length == Some(n as usize) && n <= usize::MAX,
            None => r.length is None,
        },
{
    let ghost d = lines.deep_view();
    let mut headers: Vec<(String, String)> = Vec::new();
    let mut length: Option<usize> = None;
    let ghost mut n: Option<nat> = None;
    assert(headers.deep_view() =~= seq![]);
    let mut i: usize = from;
    while i < lines.len()
        invariant
            from <= i <= lines.len(),
            d == lines.deep_view(),
            head_fields(d, from as int, seq![]) == head_fields(d, i as int, headers.deep_view()),
            head_length(d, from as int, None) == head_length(d, i as int, n),
            match n {
                Some(k) => length == Some(k as usize) && k <= usize::MAX,
                None => length is None,
            },
        decreases lines.len() - i,
    {
        match parse_head_line(lines[i].as_str()) {
            Field::Blank => return Head { headers, length },
            Field::Junk => {},
            Field::Pair(name, value) => {
                if same(name.as_str(), "content-length") {
                    proof {
                        n = parsed_number(value@, usize::MAX as nat);
                    }
                    length = match parse_number(value.as_str(), usize::MAX as u64) {
                        Some(k) => Some(k as usize),
                        None => None,
                    };
                }
                set_value(&mut headers, name, value);
            },
        }
        i += 1;
    }
    Head { headers, length }
}

/// Reads the head of a request, given its lines. The body is as long as the head says; it
/// is still to be read.
pub fn parse_request(lines: &Vec<String>) -> (r: Option<(HttpRequest, usize)>)
    ensures
        ({
            let d = lines.deep_view();
            match (if d.len() > 0 {
                request_target(d[0])
            } else {
                None
            }) {
                None => r is None,
                Some(t) => {
                    &&& r is Some
                    &&& (r->0).0.method@ == t.method
                    &&& (r->0).0.path@ == t.path
                    &&& (r->0).0.query@ == t.query
                    &&& (r->0).0.headers.deep_view() == head_fields(d, 1, seq![])
                    &&& (r->0).0.body@ == Seq::<u8>::empty()
                    &&& (r->0).1 == (match head_length(d, 1, None) {
                        Some(n) => n,
                        None => 0,
                    })
                },
            }
        }),
{
    if lines.len() == 0 {
        return None;
    }
    let t = trim(lines[0].as_str());
    let v = chars_of(t.as_str());
    if v.len() == 0 {
        return None;
    }
    let sp: usize = find_char(&v, ' ', 0);
    if sp == v.len() {
        return None;
    }
    let m = piece(&v, 0, sp);
    let rest = piece(&v, sp + 1, v.len());
    assert(m@ =~= t@.take(sp as int));
    assert(rest@ =~= t@.skip(sp + 1));
    let method = to_unicode_upper(m.as_str());
    let w = chars_of(rest.as_str());
    let end: usize = find_char(&w, ' ', 0);
    let full = piece(&w, 0, end);
    assert(full@ =~= rest@.take(end as int));
    let f = chars_of(full.as_str());
    let q: usize = find_char(&f, '?', 0);
    let path = piece(&f, 0, q);
    assert(path@ =~= full@.take(q as int));
    let query = if q < f.len() {
        piece(&f, q + 1, f.len())
    } else {
        String::new()
    };
    assert(q < f.len() ==> query@ =~= full@.skip(q + 1));
    let head = parse_fields(lines, 1);
    let length: usize = match head.length {
        Some(n) => n,
        None => 0,
    };
    Some((HttpRequest { method, path, query, headers: head.headers, body: Vec::new() }, length))
}

// ---- Answers --------------------------------------------------------------------------

/// Headers as lines, from `from` on.
pub open spec fn header_lines(hs: Pairs, from: int) -> Seq<char>
    decreases hs.len() - from,
{
    if from >= hs.len() {
        seq![]
    } else {
        hs[from].0 + ": "@ + hs[from].1 + "\r\n"@ + header_lines(hs, from + 1)
    }
}

/// Writes headers as lines.
pub fn push_header_lines(out: &mut String, headers: &Vec<(String, String)>)
    ensures
        final(out)@ == old(out)@ + header_lines(headers.deep_view(), 0),
{
    let ghost d = headers.deep_view();
    let ghost start = out@;
    let mut i: usize = 0;
    while i < headers.len()
        invariant
            i <= headers.len(),
            d == headers.deep_view(),
            out@ + header_lines(d, i as int) == start + header_lines(d, 0),
        decreases headers.len() - i,
    {
        let ghost before = out@;
        out.append(headers[i].0.as_str());
        out.append(": ");
        out.append(headers[i].1.as_str());
        out.append("\r\n");
        assert(out@ + header_lines(d, i + 1) =~= before + header_lines(d, i as int));
        i += 1;
    }
    assert(out@ =~= out@ + header_lines(d, i as int));
}

/// The head of an answer whose body has the given length.
pub open spec fn response_head(
    status: u16,
    reason: Seq<char>,
    headers: Pairs,
    length: nat,
) -> Seq<char> {
    "HTTP/1.1 "@ + decimal(status as nat) + " "@ + reason + "\r\n"@ + header_lines(headers, 0)
        + "Content-Length: "@ + decimal(length) + "\r\n"@ + "Connection: close\r\n"@ + "\r\n"@
}

/// Writes a complete answer.
pub fn write_response(
    out: &mut Vec<u8>,
    status: u16,
    reason: &str,
    headers: &Vec<(String, String)>,
    body: &[u8],
)
    ensures
        final(out)@ == old(out)@ + encode_utf8(
            response_head(status, reason@, headers.deep_view(), body@.len()),
        ) + body@,
{
    let mut head = String::new();
    let s = decimal_text(status as u64);
    let n = decimal_text(body.len() as u64);
    head.append("HTTP/1.1 ");
    head.append(s.as_str());
    head.append(" ");
    head.append(reason);
    head.append("\r\n");
    push_header_lines(&mut head, headers);
    head.append("Content-Length: ");
    head.append(n.as_str());
    head.append("\r\n");
    head.append("Connection: close\r\n");
    head.append("\r\n");
    assert(head@ =~= response_head(status, reason@, headers.deep_view(), body@.len()));
    let ghost before = out@;
    out.extend_from_slice(head.as_str().as_bytes());
    out.extend_from_slice(body);
    assert(out@ =~= before + encode_utf8(head@) + body@);
}

/// The head of an event stream.
pub open spec fn stream_head(headers: Pairs) -> Seq<char> {
    "HTTP/1.1 200 OK\r\n"@ + header_lines(headers, 0) + "\r\n"@
}

/// Writes the head of an event stream; the events follow.
pub fn write_sse_response_headers(out: &mut Vec<u8>, headers: &Vec<(String, String)>)
    ensures
        final(out)@ == old(out)@ + encode_utf8(stream_head(headers.deep_view())),
{
    let mut head = String::new();
    head.append("HTTP/1.1 200 OK\r\n");
    push_header_lines(&mut head, headers);
    head.append("\r\n");
    assert(head@ =~= stream_head(headers.deep_view()));
    out.extend_from_slice(head.as_str().as_bytes());
}

/// Writes an error in plain text.
pub fn write_error(out: &mut Vec<u8>, status: u16, reason: &str, body: &str)
    ensures
        final(out)@ == old(out)@ + encode_utf8(
            response_head(
                status,
                reason@,
                seq![("Content-Type"@, "text/plain"@)],
                encode_utf8(body@).len(),
            ),
        ) + encode_utf8(body@),
{
    let mut headers: Vec<(String, String)> = Vec::new();
    headers.push(("Content-Type".to_owned(), "text/plain".to_owned()));
    assert(headers.deep_view() =~= seq![("Content-Type"@, "text/plain"@)]);
    write_response(out, status, reason, &headers, body.as_bytes());
}

// ---- The handshake ------------------------------------------------------------------------

pub open spec fn rotated(x: u32, n: u32) -> u32 {
    (x << n) | (x >> ((32 - n) as u32))
}

fn rotate(x: u32, n: u32) -> (r: u32)
    requires
        0 < n < 32,
    ensures
        r == rotated(x, n),
{
    (x << n) | (x >> (32 - n))
}

/// Four bytes as a number, the highest first.
pub open spec fn word(b: Seq<u8>, at: int) -> u32 {
    (b[at] * 0x100_0000 + b[at + 1] * 0x1_0000 + b[at + 2] * 0x100 + b[at + 3]) as u32
}

/// A number as eight bytes, the highest first.
pub open spec fn bytes8(n: u64) -> Seq<u8> {
    seq![
        (n / 0x100_0000_0000_0000) as u8,
        (n / 0x1_0000_0000_0000 % 0x100) as u8,
        (n / 0x100_0000_0000 % 0x100) as u8,
        (n / 0x1_0000_0000 % 0x100) as u8,
        (n / 0x100_0000 % 0x100) as u8,
        (n / 0x1_0000 % 0x100) as u8,
        (n / 0x100 % 0x100) as u8,
        (n % 0x100) as u8,
    ]
}

fn push_bytes8(out: &mut Vec<u8>, n: u64)
    ensures
        final(out)@ == old(out)@ + bytes8(n),
{
    let ghost before = out@;
    out.push((n / 0x100_0000_0000_0000) as u8);
    out.push((n / 0x1_0000_0000_0000 % 0x100) as u8);
    out.push((n / 0x100_0000_0000 % 0x100) as u8);
    out.push((n / 0x1_0000_0000 % 0x100) as u8);
    out.push((n / 0x100_0000 % 0x100) as u8);
    out.push((n / 0x1_0000 % 0x100) as u8);
    out.push((n / 0x100 % 0x100) as u8);
    out.push((n % 0x100) as u8);
    assert(out@ =~= before + bytes8(n));
}

/// How many zero bytes make the message, a mark and its length fill whole blocks.
pub open spec fn zero_count(len: nat) -> nat {
    ((119 - len % 64) % 64) as nat
}

/// A message as SHA-1 works on it.
pub open spec fn sha1_padded(data: Seq<u8>) -> Seq<u8> {
    data + seq![0x80u8] + Seq::new(zero_count(data.len()), |i: int| 0u8) + bytes8(
        (data.len() * 8 % 0x1_0000_0000_0000_0000) as u64,
    )
}

/// The words that a block of 64 bytes is expanded to.
pub open spec fn sha1_word(block: Seq<u8>, t: int) -> u32
    decreases t,
{
    if t < 16 {
        word(block, 4 * t)
    } else {
        rotated(
            sha1_word(block, t - 3) ^ sha1_word(block, t - 8) ^ sha1_word(block, t - 14)
                ^ sha1_word(block, t - 16),
            1,
        )
    }
}

/// The five words that SHA-1 works with.
pub struct Sha1State {
    pub a: u32,
    pub b: u32,
    pub c: u32,
    pub d: u32,
    pub e: u32,
}

pub open spec fn sha1_mix(t: int, b: u32, c: u32, d: u32) -> u32 {
    if t < 20 {
        (b & c) | (!b & d)
    } else if t < 40 {
        b ^ c ^ d
    } else if t < 60 {
        (b & c) | (b & d) | (c & d)
    } else {
        b ^ c ^ d
    }
}

pub open spec fn sha1_constant(t: int) -> u32 {
    if t < 20 {
        0x5A827999
    } else if t < 40 {
        0x6ED9EBA1
    } else if t < 60 {
        0x8F1BBCDC
    } else {
        0xCA62C1D6
    }
}

pub open spec fn plus(x: u32, y: u32) -> u32 {
    ((x + y) % 0x1_0000_0000) as u32
}

fn wrapping_plus(x: u32, y: u32) -> (r: u32)
    ensures
        r == plus(x, y),
{
    x.wrapping_add(y)
}

pub open spec fn sha1_round(t: int, s: Sha1State, w: u32) -> Sha1State {
    Sha1State {
        a: plus(
            plus(plus(plus(rotated(s.a, 5), sha1_mix(t, s.b, s.c, s.d)), s.e), sha1_constant(t)),
            w,
        ),
        b: s.a,
        c: rotated(s.b, 30),
        d: s.c,
        e: s.d,
    }
}

/// After the first `t` rounds on a block.
pub open spec fn sha1_rounds(block: Seq<u8>, s: Sha1State, t: int) -> Sha1State
    decreases t,
{
    if t <= 0 {
        s
    } else {
        sha1_round(t - 1, sha1_rounds(block, s, t - 1), sha1_word(block, t - 1))
    }
}

pub open spec fn sha1_start() -> Sha1State {
    Sha1State { a: 0x67452301, b: 0xEFCDAB89, c: 0x98BADCFE, d: 0x10325476, e: 0xC3D2E1F0 }
}

/// After the first `n` blocks.
pub open spec fn sha1_blocks(padded: Seq<u8>, n: int) -> Sha1State
    decreases n,
{
    if n <= 0 {
        sha1_start()
    } else {
        let h = sha1_blocks(padded, n - 1);
        let r = sha1_rounds(padded.subrange(64 * (n - 1), 64 * n), h, 80);
        Sha1State {
            a: plus(h.a, r.a),
            b: plus(h.b, r.b),
            c: plus(h.c, r.c),
            d: plus(h.d, r.d),
            e: plus(h.e, r.e),
        }
    }
}

/// A number as four bytes, the highest first.
pub open spec fn bytes4(n: u32) -> Seq<u8> {
    seq![
        (n / 0x100_0000) as u8,
        (n / 0x1_0000 % 0x100) as u8,
        (n / 0x100 % 0x100) as u8,
        (n % 0x100) as u8,
    ]
}

fn push_bytes4(out: &mut Vec<u8>, n: u32)
    ensures
        final(out)@ == old(out)@ + bytes4(n),
{
    let ghost before = out@;
    out.push((n / 0x100_0000) as u8);
    out.push((n / 0x1_0000 % 0x100) as u8);
    out.push((n / 0x100 % 0x100) as u8);
    out.push((n % 0x100) as u8);
    assert(out@ =~= before + bytes4(n));
}

/// The SHA-1 digest of a message.
pub open spec fn sha1(data: Seq<u8>) -> Seq<u8> {
    let p = sha1_padded(data);
    let h = sha1_blocks(p, p.len() as int / 64);
    bytes4(h.a) + bytes4(h.b) + bytes4(h.c) + bytes4(h.d) + bytes4(h.e)
}

fn sha1_expand(block: &[u8]) -> (r: Vec<u32>)
    requires
        block@.len() == 64,
    ensures
        r.len() == 80,
        forall|t: int| 0 <= t < 80 ==> r[t] == sha1_word(block@, t),
{
    let mut w: Vec<u32> = Vec::new();
    let mut i: usize = 0;
    while i < 80
        invariant
            i <= 80,
            block@.len() == 64,
            w.len() == i,
            forall|t: int| 0 <= t < i ==> w[t] == sha1_word(block@, t),
        decreases 80 - i,
    {
        let x: u32 = if i < 16 {
            (block[4 * i] as u32) * 0x100_0000 + (block[4 * i + 1] as u32) * 0x1_0000 + (block[4 * i
                + 2] as u32) * 0x100 + (block[4 * i + 3] as u32)
        } else {
            rotate(w[i - 3] ^ w[i - 8] ^ w[i - 14] ^ w[i - 16], 1)
        };
        w.push(x);
        i += 1;
    }
    w
}

fn sha1_compress(h: Sha1State, block: &[u8]) -> (r: Sha1State)
    requires
        block@.len() == 64,
    ensures
        r == sha1_rounds(block@, h, 80),
{
    let w = sha1_expand(block);
    let mut s = h;
    let mut t: usize = 0;
    while t < 80
        invariant
            t <= 80,
            block@.len() == 64,
            w.len() == 80,
            forall|k: int| 0 <= k < 80 ==> w[k] == sha1_word(block@, k),
            s == sha1_rounds(block@, h, t as int),
        decreases 80 - t,
    {
        let f: u32 = if t < 20 {
            (s.b & s.c) | (!s.b & s.d)
        } else if t < 40 {
            s.b ^ s.c ^ s.d
        } else if t < 60 {
            (s.b & s.c) | (s.b & s.d) | (s.c & s.d)
        } else {
            s.b ^ s.c ^ s.d
        };
        let k: u32 = if t < 20 {
            0x5A827999
        } else if t < 40 {
            0x6ED9EBA1
        } else if t < 60 {
            0x8F1BBCDC
        } else {
            0xCA62C1D6
        };
        let sum = wrapping_plus(
            wrapping_plus(wrapping_plus(wrapping_plus(rotate(s.a, 5), f), s.e), k),
            w[t],
        );
        s = Sha1State { a: sum, b: s.a, c: rotate(s.b, 30), d: s.c, e: s.d };
        t += 1;
    }
    s
}

/// Computes the SHA-1 digest.
pub fn sha1_bytes(data: &[u8]) -> (r: Vec<u8>)
    ensures
        r@ == sha1(data@),
        r@.len() == 20,
{
    let bits: u64 = (data.len() as u64).wrapping_mul(8);
    let zeros: usize = (119 - data.len() % 64) % 64;
    let mut p: Vec<u8> = Vec::new();
    p.extend_from_slice(data);
    p.push(0x80);
    let ghost marked = p@;
    let mut i: usize = 0;
    while i < zeros
        invariant
            i <= zeros,
            p@ == marked + Seq::new(i as nat, |k: int| 0u8),
        decreases zeros - i,
    {
        p.push(0);
        i += 1;
        assert(p@ =~= marked + Seq::new(i as nat, |k: int| 0u8));
    }
    push_bytes8(&mut p, bits);
    assert(p@ =~= sha1_padded(data@));
    let mut h = Sha1State {
        a: 0x67452301,
        b: 0xEFCDAB89,
        c: 0x98BADCFE,
        d: 0x10325476,
        e: 0xC3D2E1F0,
    };
    let blocks: usize = p.len() / 64;
    let mut n: usize = 0;
    while n < blocks
        invariant
            n <= blocks,
            blocks == p.len() / 64,
            h == sha1_blocks(p@, n as int),
        decreases blocks - n,
    {
        let block = vstd::slice::slice_subrange(p.as_slice(), 64 * n, 64 * n + 64);
        let r = sha1_compress(Sha1State { a: h.a, b: h.b, c: h.c, d: h.d, e: h.e }, block);
        assert(block@ == p@.subrange(64 * (n + 1 - 1), 64 * (n + 1)));
        h = Sha1State {
            a: wrapping_plus(h.a, r.a),
            b: wrapping_plus(h.b, r.b),
            c: wrapping_plus(h.c, r.c),
            d: wrapping_plus(h.d, r.d),
            e: wrapping_plus(h.e, r.e),
        };
        n += 1;
    }
    let mut out: Vec<u8> = Vec::new();
    push_bytes4(&mut out, h.a);
    push_bytes4(&mut out, h.b);
    push_bytes4(&mut out, h.c);
    push_bytes4(&mut out, h.d);
    push_bytes4(&mut out, h.e);
    assert(out@ =~= sha1(data@));
    out
}

/// The character for six bits.
pub open spec fn base64_char(k: int) -> char {
    if k < 26 {
        (65 + k) as char
    } else if k < 52 {
        (97 + k - 26) as char
    } else if k < 62 {
        (48 + k - 52) as char
    } else if k == 62 {
        '+'
    } else {
        '/'
    }
}

fn base64_digit(k: u32) -> (r: char)
    requires
        k < 64,
    ensures
        r == base64_char(k as int),
{
    if k < 26 {
        (65 + k as u8) as char
    } else if k < 52 {
        (97 + (k as u8 - 26)) as char
    } else if k < 62 {
        (48 + (k as u8 - 52)) as char
    } else if k == 62 {
        '+'
    } else {
        '/'
    }
}

/// Up to three bytes as a number of 24 bits; what is missing counts as zero.
pub open spec fn base64_group(data: Seq<u8>, from: int) -> int {
    data[from] * 0x1_0000 + (if from + 1 < data.len() {
        data[from + 1] * 0x100
    } else {
        0
    }) + (if from + 2 < data.len() {
        data[from + 2] as int
    } else {
        0
    })
}

/// The base64 notation of the bytes from `from` on, with padding.
pub open spec fn base64_from(data: Seq<u8>, from: int) -> Seq<char>
    decreases data.len() + 3 - from,
{
    if from >= data.len() {
        seq![]
    } else {
        let n = base64_group(data, from);
        seq![
            base64_char(n / 0x4_0000),
            base64_char(n / 0x1000 % 64),
            if from + 1 < data.len() {
                base64_char(n / 64 % 64)
            } else {
                '='
            },
            if from + 2 < data.len() {
                base64_char(n % 64)
            } else {
                '='
            },
        ] + base64_from(data, from + 3)
    }
}

/// Encodes bytes in base64.
pub fn base64_encode(data: &[u8]) -> (r: String)
    ensures
        r@ == base64_from(data@, 0),
{
    let mut out = String::new();
    let mut i: usize = 0;
    assert(out@ + base64_from(data@, 0) =~= base64_from(data@, 0));
    while i < data.len()
        invariant
            i <= data.len() || i <= usize::MAX - 3,
            out@ + base64_from(data@, i as int) == base64_from(data@, 0),
        decreases data.len() - i,
    {
        let left: usize = data.len() - i;
        let b0: u32 = data[i] as u32;
        let b1: u32 = if left > 1 {
            data[i + 1] as u32
        } else {
            0
        };
        let b2: u32 = if left > 2 {
            data[i + 2] as u32
        } else {
            0
        };
        let n: u32 = b0 * 0x1_0000 + b1 * 0x100 + b2;
        let ghost before = out@;
        out.push(base64_digit(n / 0x4_0000));
        out.push(base64_digit(n / 0x1000 % 64));
        out.push(
            if left > 1 {
                base64_digit(n / 64 % 64)
            } else {
                '='
            },
        );
        out.push(
            if left > 2 {
                base64_digit(n % 64)
            } else {
                '='
            },
        );
        assert(n == base64_group(data@, i as int));
        assert(out@ + base64_from(data@, i + 3) =~= before + base64_from(data@, i as int));
        if left <= 3 {
            assert(base64_from(data@, i + 3) =~= seq![]);
            assert(out@ =~= out@ + base64_from(data@, i + 3));
            return out;
        }
        i += 3;
    }
    assert(out@ =~= out@ + base64_from(data@, i as int));
    out
}

/// The answer to the key of a handshake.
pub open spec fn accept_key(client_key: Seq<char>) -> Seq<char> {
    base64_from(sha1(encode_utf8(client_key + "258EAFA5-E914-47DA-95CA-C5AB0DC85B11"@)), 0)
}

/// Computes the answer to the key of a handshake.
pub fn ws_accept_key(client_key: &str) -> (r: String)
    ensures
        r@ == accept_key(client_key@),
{
    let input = client_key.to_owned().concat("258EAFA5-E914-47DA-95CA-C5AB0DC85B11");
    let digest = sha1_bytes(input.as_str().as_bytes());
    base64_encode(digest.as_slice())
}

// ---- Frames -------------------------------------------------------------------------------

/// A WebSocket frame.
#[derive(Debug)]
pub struct WsFrame {
    pub fin: bool,
    pub opcode: u8,
    pub payload: Vec<u8>,
}

#[verifier::ext_equal]
pub struct FrameView {
    pub fin: bool,
    pub opcode: u8,
    pub payload: Seq<u8>,
}

impl View for WsFrame {
    type V = FrameView;

    open spec fn view(&self) -> FrameView {
        FrameView { fin: self.fin, opcode: self.opcode, payload: self.payload@ }
    }
}

impl WsFrame {
    pub fn is_close(&self) -> (r: bool)
        ensures
            r == (self.opcode == 0x8),
    {
        self.opcode == 0x8
    }

    pub fn is_text(&self) -> (r: bool)
        ensures
            r == (self.opcode == 0x1),
    {
        self.opcode == 0x1
    }

    pub fn is_ping(&self) -> (r: bool)
        ensures
            r == (self.opcode == 0x9),
    {
        self.opcode == 0x9
    }
}

/// Two bytes as a number, the higher first.
pub open spec fn number2(b: Seq<u8>, at: int) -> int {
    b[at] * 0x100 + b[at + 1]
}

/// Eight bytes as a number, the highest first.
pub open spec fn number8(b: Seq<u8>, at: int) -> int {
    b[at] * 0x100_0000_0000_0000 + b[at + 1] * 0x1_0000_0000_0000 + b[at + 2] * 0x100_0000_0000
        + b[at + 3] * 0x1_0000_0000 + b[at + 4] * 0x100_0000 + b[at + 5] * 0x1_0000 + b[at + 6]
        * 0x100 + b[at + 7]
}

/// How many bytes after the first two give the length.
pub open spec fn length_size(len7: int) -> int {
    if len7 == 126 {
        2
    } else if len7 == 127 {
        8
    } else {
        0
    }
}

/// The length of the payload, given that its notation is complete.
pub open spec fn payload_length(b: Seq<u8>) -> int {
    let len7 = b[1] as int % 128;
    if len7 == 126 {
        number2(b, 2)
    } else if len7 == 127 {
        number8(b, 2)
    } else {
        len7
    }
}

/// A payload under a mask of four bytes.
pub open spec fn masked(payload: Seq<u8>, key: Seq<u8>) -> Seq<u8> {
    Seq::new(payload.len(), |i: int| payload[i] ^ key[i % 4])
}

/// The frame at the beginning of the bytes, with the number of bytes that it takes; nothing
/// where it is not complete.
pub open spec fn frame_of(b: Seq<u8>) -> Option<(FrameView, int)> {
    if b.len() < 2 {
        None
    } else {
        let ext = length_size(b[1] as int % 128);
        let has_key = b[1] >= 128;
        let start = 2 + ext + (if has_key {
            4int
        } else {
            0
        });
        if b.len() < start || b.len() < start + payload_length(b) {
            None
        } else {
            let end = start + payload_length(b);
            let raw = b.subrange(start, end);
            Some(
                (
                    FrameView {
                        fin: b[0] >= 128,
                        opcode: (b[0] as int % 16) as u8,
                        payload: if has_key {
                            masked(raw, b.subrange(2 + ext, start))
                        } else {
                            raw
                        },
                    },
                    end,
                ),
            )
        }
    }
}

/// Reads a frame from the beginning of the bytes; says how many bytes it took.
pub fn ws_read_frame(input: &[u8]) -> (r: Option<(WsFrame, usize)>)
    ensures
        match frame_of(input@) {
            None => r is None,
            Some((f, n)) => r matches Some(x) && x.0@ == f && x.1 == n,
        },
{
    if input.len() < 2 {
        return None;
    }
    let len7: u8 = input[1] % 128;
    let ext: usize = if len7 == 126 {
        2
    } else if len7 == 127 {
        8
    } else {
        0
    };
    let has_key: bool = input[1] >= 128;
    let start: usize = 2 + ext + (if has_key {
        4usize
    } else {
        0usize
    });
    if input.len() < start {
        return None;
    }
    let length: u64 = if len7 == 126 {
        (input[2] as u64) * 0x100 + (input[3] as u64)
    } else if len7 == 127 {
        (input[2] as u64) * 0x100_0000_0000_0000 + (input[3] as u64) * 0x1_0000_0000_0000 + (
        input[4] as u64) * 0x100_0000_0000 + (input[5] as u64) * 0x1_0000_0000 + (input[6] as u64)
            * 0x100_0000 + (input[7] as u64) * 0x1_0000 + (input[8] as u64) * 0x100 + (
        input[9] as u64)
    } else {
        len7 as u64
    };
    assert(length == payload_length(input@));
    if length > (input.len() - start) as u64 {
        return None;
    }
    let n: usize = length as usize;
    let end: usize = start + n;
    let ghost raw = input@.subrange(start as int, end as int);
    let ghost key = input@.subrange(2 + ext, start as int);
    let mut payload: Vec<u8> = Vec::new();
    let mut i: usize = 0;
    while i < n
        invariant
            i <= n,
            n <= input.len() - start,
            end == start + n,
            start == 2 + ext + (if has_key {
                4int
            } else {
                0
            }),
            raw == input@.subrange(start as int, end as int),
            key == input@.subrange(2 + ext, start as int),
            payload.len() == i,
            forall|k: int|
                0 <= k < i ==> payload[k] == (if has_key {
                    masked(raw, key)[k]
                } else {
                    raw[k]
                }),
        decreases n - i,
    {
        let b = input[start + i];
        if has_key {
            assert(key[i as int % 4] == input@[2 + ext + i as int % 4]);
            payload.push(b ^ input[2 + ext + i % 4]);
        } else {
            payload.push(b);
        }
        i += 1;
    }
    let frame = WsFrame { fin: input[0] >= 128, opcode: input[0] % 16, payload };
    assert(frame@.payload =~= (if has_key {
        masked(raw, key)
    } else {
        raw
    }));
    Some((frame, end))
}

/// The notation of a length, without the bit for a mask.
pub open spec fn length_bytes(n: nat) -> Seq<u8> {
    if n < 126 {
        seq![n as u8]
    } else if n < 65536 {
        seq![126u8, (n / 0x100) as u8, (n % 0x100) as u8]
    } else {
        seq![127u8] + bytes8(n as u64)
    }
}

/// An unmasked text frame.
pub open spec fn text_frame(payload: Seq<u8>) -> Seq<u8> {
    seq![0x81u8] + length_bytes(payload.len()) + payload
}

/// Writes an unmasked text frame.
pub fn ws_write_text_frame(out: &mut Vec<u8>, payload: &[u8])
    ensures
        final(out)@ == old(out)@ + text_frame(payload@),
{
    let ghost before = out@;
    out.push(0x81);
    let n: usize = payload.len();
    if n < 126 {
        out.push(n as u8);
    } else if n < 65536 {
        out.push(126);
        out.push((n / 0x100) as u8);
        out.push((n % 0x100) as u8);
    } else {
        out.push(127);
        push_bytes8(out, n as u64);
    }
    assert(out@ =~= before + seq![0x81u8] + length_bytes(n as nat));
    out.extend_from_slice(payload);
    assert(out@ =~= before + text_frame(payload@));
}

/// A control frame. Its length has one byte, which takes what a byte can of it.
pub open spec fn control_frame(first: u8, payload: Seq<u8>) -> Seq<u8> {
    seq![first, (payload.len() % 256) as u8] + payload
}

/// The payload of a close frame: a code and a reason.
pub open spec fn close_payload(code: u16, reason: Seq<char>) -> Seq<u8> {
    seq![(code / 0x100) as u8, (code % 0x100) as u8] + encode_utf8(reason)
}

/// Writes a close frame.
pub fn ws_write_close_frame(out: &mut Vec<u8>, code: u16, reason: &str)
    ensures
        final(out)@ == old(out)@ + control_frame(0x88, close_payload(code, reason@)),
{
    let mut payload: Vec<u8> = Vec::new();
    payload.push((code / 0x100) as u8);
    payload.push((code % 0x100) as u8);
    payload.extend_from_slice(reason.as_bytes());
    assert(payload@ =~= close_payload(code, reason@));
    let ghost before = out@;
    out.push(0x88);
    out.push((payload.len() % 256) as u8);
    out.extend_from_slice(payload.as_slice());
    assert(out@ =~= before + control_frame(0x88, payload@));
}

/// Writes a pong frame.
pub fn ws_write_pong_frame(out: &mut Vec<u8>, payload: &[u8])
    ensures
        final(out)@ == old(out)@ + control_frame(0x8A, payload@),
{
    let ghost before = out@;
    out.push(0x8A);
    out.push((payload.len() % 256) as u8);
    out.extend_from_slice(payload);
    assert(out@ =~= before + control_frame(0x8A, payload@));
}

/// A frame as the wire has it: the marks, the length, a mask where there is one, and the
/// payload under it.
pub open spec fn frame_bytes(f: FrameView, key: Option<Seq<u8>>) -> Seq<u8> {
    let first = (f.opcode + (if f.fin {
        128int
    } else {
        0
    })) as u8;
    let length = length_bytes(f.payload.len());
    match key {
        None => seq![first] + length + f.payload,
        Some(k) => seq![first] + length.update(0, (length[0] + 128) as u8) + k + masked(
            f.payload,
            k,
        ),
    }
}

/// Masking a payload twice gives it back.
pub proof fn law_mask_is_its_own_inverse(payload: Seq<u8>, key: Seq<u8>)
    ensures
        masked(masked(payload, key), key) == payload,
{
    assert forall|i: int| 0 <= i < payload.len() implies #[trigger] masked(
        masked(payload, key),
        key,
    )[i] == payload[i] by {
        let x = payload[i];
        let k = key[i % 4];
        assert((x ^ k) ^ k == x) by (bit_vector);
    }
    assert(masked(masked(payload, key), key) =~= payload);
}

/// A number is its quotient and remainder by 256, and further quotients are taken of
/// that quotient.
proof fn lemma_next_byte(n: int, unit: int)
    requires
        n >= 0,
        unit > 0,
    ensures
        n / unit == 256 * (n / (unit * 256)) + n / unit % 256,
{
    lemma_div_denominator(n, unit, 256);
    lemma_fundamental_div_mod(n / unit, 256);
}

proof fn lemma_number8(n: u64)
    ensures
        number8(bytes8(n), 0) == n,
{
    let m = n as int;
    lemma_next_byte(m, 1);
    lemma_next_byte(m, 0x100);
    lemma_next_byte(m, 0x1_0000);
    lemma_next_byte(m, 0x100_0000);
    lemma_next_byte(m, 0x1_0000_0000);
    lemma_next_byte(m, 0x100_0000_0000);
    lemma_next_byte(m, 0x1_0000_0000_0000);
    let b = bytes8(n);
    assert(b[0] == m / 0x100_0000_0000_0000);
    assert(b[1] == m / 0x1_0000_0000_0000 % 256);
    assert(b[2] == m / 0x100_0000_0000 % 256);
    assert(b[3] == m / 0x1_0000_0000 % 256);
    assert(b[4] == m / 0x100_0000 % 256);
    assert(b[5] == m / 0x1_0000 % 256);
    assert(b[6] == m / 0x100 % 256);
    assert(b[7] == m % 256);
}

/// A frame that was written is the frame that is read, whatever follows it, masked or not.
#[verifier::rlimit(60)]
#[verifier::spinoff_prover]
pub proof fn law_frame_reads_back(f: FrameView, key: Option<Seq<u8>>, rest: Seq<u8>)
    requires
        f.opcode < 16,
        f.payload.len() <= u64::MAX,
        key matches Some(k) ==> k.len() == 4,
    ensures
        frame_of(frame_bytes(f, key) + rest) == Some((f, frame_bytes(f, key).len() as int)),
{
    let n = f.payload.len();
    let w = frame_bytes(f, key);
    let b = w + rest;
    let length = length_bytes(n);
    let len7 = b[1] as int % 128;
    let ext = length_size(len7);
    assert(b[0] == w[0]);
    assert(b[1] == w[1]);
    assert(length.len() == 1 + ext);
    assert(payload_length(b) == n) by {
        if n >= 65536 {
            lemma_number8(n as u64);
            assert forall|i: int| 0 <= i < 8 implies b[2 + i] == #[trigger] bytes8(n as u64)[i] by {
                assert(b[2 + i] == w[2 + i]);
                assert(w[2 + i] == length[1 + i]);
            }
            assert(number8(b, 2) == number8(bytes8(n as u64), 0));
        } else if n >= 126 {
            assert(b[2] == w[2] && b[3] == w[3]);
            assert(w[2] == length[1] && w[3] == length[2]);
            assert(n == n / 0x100 * 0x100 + n % 0x100);
        }
    }
    let start = 2 + ext + (if key is Some {
        4int
    } else {
        0
    });
    let raw = b.subrange(start, start + n);
    match key {
        None => {
            assert(raw =~= f.payload);
        },
        Some(k) => {
            assert(b.subrange(2 + ext, start) =~= k);
            assert(raw =~= masked(f.payload, k));
            law_mask_is_its_own_inverse(f.payload, k);
        },
    }
    assert((f.opcode + 128) % 16 == f.opcode);
    assert(w.len() == start + n);
}

/// The text frames that the gateway writes are frames with one unmasked text.
pub proof fn law_text_frame_reads_back(payload: Seq<u8>, rest: Seq<u8>)
    requires
        payload.len() <= u64::MAX,
    ensures
        frame_of(text_frame(payload) + rest) == Some(
            (FrameView { fin: true, opcode: 1, payload }, text_frame(payload).len() as int),
        ),
{
    law_frame_reads_back(FrameView { fin: true, opcode: 1, payload }, None, rest);
}

// ---- Requests to other servers -------------------------------------------------------------

/// Where a URL leads.
#[derive(Debug)]
pub struct ParsedHttpUrl {
    pub host: String,
    pub port: u16,
    pub path_and_query: String,
}

pub struct UrlView {
    pub host: Seq<char>,
    pub port: nat,
    pub path: Seq<char>,
}

/// A URL without its scheme.
pub open spec fn url_rest(url: Seq<char>) -> Option<Seq<char>> {
    if "http://"@.is_prefix_of(url) {
        Some(url.skip("http://"@.len() as int))
    } else if "https://"@.is_prefix_of(url) {
        Some(url.skip("https://"@.len() as int))
    } else {
        None
    }
}

/// The host, the port (80 where none is given) and the path (a slash where none is given).
pub open spec fn url_view(url: Seq<char>) -> Option<UrlView> {
    match url_rest(url) {
        None => None,
        Some(rest) => {
            let slash = index_of(rest, '/', 0);
            let authority = rest.take(slash);
            let path = if slash < rest.len() {
                rest.skip(slash)
            } else {
                "/"@
            };
            let colon = index_of(authority, ':', 0);
            if colon >= authority.len() {
                Some(UrlView { host: authority, port: 80, path })
            } else {
                match parsed_number(authority.skip(colon + 1), u16::MAX as nat) {
                    Some(port) => Some(UrlView { host: authority.take(colon), port, path }),
                    None => None,
                }
            }
        },
    }
}

impl ParsedHttpUrl {
    /// Takes a URL of the form `http://host[:port]/path?query` apart.
    pub fn parse(url: &str) -> (r: Option<ParsedHttpUrl>)
        ensures
            match url_view(url@) {
                None => r is None,
                Some(u) => r matches Some(p) && p.host@ == u.host && p.port == u.port
                    && p.path_and_query@ == u.path,
            },
    {
        let rest = match after_prefix(url, "http://") {
            Some(rest) => rest,
            None => match after_prefix(url, "https://") {
                Some(rest) => rest,
                None => return None,
            },
        };
        let v = chars_of(rest.as_str());
        let slash: usize = find_char(&v, '/', 0);
        let authority = piece(&v, 0, slash);
        assert(authority@ =~= rest@.take(slash as int));
        let path_and_query = if slash < v.len() {
            piece(&v, slash, v.len())
        } else {
            "/".to_owned()
        };
        assert(slash < v.len() ==> path_and_query@ =~= rest@.skip(slash as int));
        let a = chars_of(authority.as_str());
        let colon: usize = find_char(&a, ':', 0);
        if colon == a.len() {
            return Some(ParsedHttpUrl { host: authority, port: 80, path_and_query });
        }
        let host = piece(&a, 0, colon);
        let p = piece(&a, colon + 1, a.len());
        assert(host@ =~= authority@.take(colon as int));
        assert(p@ =~= authority@.skip(colon + 1));
        match parse_number(p.as_str(), u16::MAX as u64) {
            Some(port) => Some(ParsedHttpUrl { host, port: port as u16, path_and_query }),
            None => None,
        }
    }

    /// The address to connect to.
    pub fn addr(&self) -> (r: String)
        ensures
            r@ == self.host@ + ":"@ + decimal(self.port as nat),
    {
        let p = decimal_text(self.port as u64);
        self.host.clone().concat(":").concat(p.as_str())
    }

    /// The value of the host header: the port only where it is not the usual one.
    pub fn host_header(&self) -> (r: String)
        ensures
            r@ == host_text(self.host@, self.port),
    {
        if self.port == 80 {
            self.host.clone()
        } else {
            self.addr()
        }
    }
}

pub open spec fn host_text(host: Seq<char>, port: u16) -> Seq<char> {
    if port == 80 {
        host
    } else {
        host + ":"@ + decimal(port as nat)
    }
}

/// A request that is ready to be sent, and where to.
#[derive(Debug)]
pub struct Outgoing {
    pub addr: String,
    pub bytes: Vec<u8>,
}

/// Whether `o` carries the request with this head and body to the server of the URL.
pub open spec fn goes_out(o: Outgoing, u: UrlView, head: Seq<char>, body: Seq<u8>) -> bool {
    o.addr@ == u.host + ":"@ + decimal(u.port) && o.bytes@ == encode_utf8(head) + body
}

pub open spec fn post_head(u: UrlView, headers: Pairs, length: nat) -> Seq<char> {
    "POST "@ + u.path + " HTTP/1.1\r\nHost: "@ + host_text(u.host, u.port as u16)
        + "\r\nContent-Length: "@ + decimal(length)
        + "\r\nContent-Type: application/json\r\nAccept: application/json, text/event-stream\r\n"@
        + header_lines(headers, 0) + "Connection: close\r\n\r\n"@
}

pub open spec fn get_head(u: UrlView, headers: Pairs, last_event_id: Option<Seq<char>>) -> Seq<char> {
    "GET "@ + u.path + " HTTP/1.1\r\nHost: "@ + host_text(u.host, u.port as u16)
        + "\r\nAccept: text/event-stream\r\n"@ + (match last_event_id {
        Some(id) => if id.len() > 0 {
            "Last-Event-ID: "@ + id + "\r\n"@
        } else {
            seq![]
        },
        None => seq![],
    }) + header_lines(headers, 0) + "Connection: keep-alive\r\n\r\n"@
}

pub open spec fn delete_head(u: UrlView, headers: Pairs) -> Seq<char> {
    "DELETE "@ + u.path + " HTTP/1.1\r\nHost: "@ + host_text(u.host, u.port as u16)
        + "\r\nContent-Length: 0\r\n"@ + header_lines(headers, 0) + "Connection: close\r\n\r\n"@
}

/// Composes a POST with a JSON body; nothing where the URL is none.
pub fn http_post(url: &str, custom_headers: &Vec<(String, String)>, body: &[u8]) -> (r: Option<
    Outgoing,
>)
    ensures
        match url_view(url@) {
            None => r is None,
            Some(u) => r matches Some(o) && goes_out(
                o,
                u,
                post_head(u, custom_headers.deep_view(), body@.len()),
                body@,
            ),
        },
{
    let parsed = match ParsedHttpUrl::parse(url) {
        Some(p) => p,
        None => return None,
    };
    let ghost u = url_view(url@)->0;
    let host = parsed.host_header();
    let n = decimal_text(body.len() as u64);
    let mut head = String::new();
    head.append("POST ");
    head.append(parsed.path_and_query.as_str());
    head.append(" HTTP/1.1\r\nHost: ");
    head.append(host.as_str());
    head.append("\r\nContent-Length: ");
    head.append(n.as_str());
    head.append(
        "\r\nContent-Type: application/json\r\nAccept: application/json, text/event-stream\r\n",
    );
    push_header_lines(&mut head, custom_headers);
    head.append("Connection: close\r\n\r\n");
    assert(head@ =~= post_head(u, custom_headers.deep_view(), body@.len()));
    let mut bytes: Vec<u8> = Vec::new();
    bytes.extend_from_slice(head.as_str().as_bytes());
    bytes.extend_from_slice(body);
    assert(bytes@ =~= encode_utf8(head@) + body@);
    Some(Outgoing { addr: parsed.addr(), bytes })
}

/// Composes a GET for an event stream; nothing where the URL is none.
pub fn http_get_sse(
    url: &str,
    custom_headers: &Vec<(String, String)>,
    last_event_id: Option<&str>,
) -> (r: Option<Outgoing>)
    ensures
        match url_view(url@) {
            None => r is None,
            Some(u) => r matches Some(o) && goes_out(
                o,
                u,
                get_head(u, custom_headers.deep_view(), str_view(last_event_id)),
                seq![],
            ),
        },
{
    let parsed = match ParsedHttpUrl::parse(url) {
        Some(p) => p,
        None => return None,
    };
    let ghost u = url_view(url@)->0;
    let host = parsed.host_header();
    let mut head = String::new();
    head.append("GET ");
    head.append(parsed.path_and_query.as_str());
    head.append(" HTTP/1.1\r\nHost: ");
    head.append(host.as_str());
    head.append("\r\nAccept: text/event-stream\r\n");
    if let Some(id) = last_event_id {
        if !id.is_empty() {
            head.append("Last-Event-ID: ");
            head.append(id);
            head.append("\r\n");
        }
    }
    push_header_lines(&mut head, custom_headers);
    head.append("Connection: keep-alive\r\n\r\n");
    assert(head@ =~= get_head(u, custom_headers.deep_view(), str_view(last_event_id)));
    let mut bytes: Vec<u8> = Vec::new();
    bytes.extend_from_slice(head.as_str().as_bytes());
    assert(bytes@ =~= encode_utf8(head@) + seq![]);
    Some(Outgoing { addr: parsed.addr(), bytes })
}

/// Composes a DELETE; nothing where the URL is none.
pub fn http_delete(url: &str, custom_headers: &Vec<(String, String)>) -> (r: Option<Outgoing>)
    ensures
        match url_view(url@) {
            None => r is None,
            Some(u) => r matches Some(o) && goes_out(
                o,
                u,
                delete_head(u, custom_headers.deep_view()),
                seq![],
            ),
        },
{
    let parsed = match ParsedHttpUrl::parse(url) {
        Some(p) => p,
        None => return None,
    };
    let ghost u = url_view(url@)->0;
    let host = parsed.host_header();
    let mut head = String::new();
    head.append("DELETE ");
    head.append(parsed.path_and_query.as_str());
    head.append(" HTTP/1.1\r\nHost: ");
    head.append(host.as_str());
    head.append("\r\nContent-Length: 0\r\n");
    push_header_lines(&mut head, custom_headers);
    head.append("Connection: close\r\n\r\n");
    assert(head@ =~= delete_head(u, custom_headers.deep_view()));
    let mut bytes: Vec<u8> = Vec::new();
    bytes.extend_from_slice(head.as_str().as_bytes());
    assert(bytes@ =~= encode_utf8(head@) + seq![]);
    Some(Outgoing { addr: parsed.addr(), bytes })
}

/// An answer of another server.
#[derive(Debug)]
pub struct HttpResponse {
    pub status: u16,
    /// Names in lower case.
    pub headers: Vec<(String, String)>,
    pub body: Vec<u8>,
}

impl HttpResponse {
    /// The header of that name, which is to be given in lower case.
    pub fn header(&self, name: &str) -> (r: Option<&str>)
        ensures
            str_view(r) == first_value(self.headers.deep_view(), name@),
    {
        get_value(&self.headers, name)
    }
}

/// The second word of a line.
pub open spec fn second_word(s: Seq<char>) -> Option<Seq<char>> {
    let from = first_solid(s, first_gap(s, first_solid(s, 0)));
    if from < s.len() {
        Some(s.subrange(from, first_gap(s, from)))
    } else {
        None
    }
}

/// The status on the first line of an answer; zero where there is none.
pub open spec fn status_of(line: Seq<char>) -> nat {
    match second_word(line) {
        Some(w) => match parsed_number(w, u16::MAX as nat) {
            Some(n) => n,
            None => 0,
        },
        None => 0,
    }
}

/// Reads the status from the first line of an answer.
pub fn parse_status(line: &str) -> (r: u16)
    ensures
        r == status_of(line@),
{
    let v = chars_of(line);
    let a: usize = find_solid(&v, 0);
    let b: usize = find_gap(&v, a);
    let from: usize = find_solid(&v, b);
    if from == v.len() {
        return 0;
    }
    let to: usize = find_gap(&v, from);
    let w = piece(&v, from, to);
    match parse_number(w.as_str(), u16::MAX as u64) {
        Some(n) => n as u16,
        None => 0,
    }
}

/// Reads the head of an answer, given its lines. Gives the answer without its body, and the
/// length of the body; where the head states none, the body ends with the connection.
pub fn read_http_response(lines: &Vec<String>) -> (r: (HttpResponse, Option<usize>))
    ensures
        ({
            let d = lines.deep_view();
            &&& r.0.status == (if d.len() > 0 {
                status_of(d[0])
            } else {
                0
            })
            &&& r.0.headers.deep_view() == head_fields(d, 1, seq![])
            &&& r.0.body@ == Seq::<u8>::empty()
            &&& match head_length(d, 1, None) {
                Some(n) => r.1 == Some(n as usize) && n <= usize::MAX,
                None => r.1 is None,
            }
        }),
{
    if lines.len() == 0 {
        let headers: Vec<(String, String)> = Vec::new();
        assert(headers.deep_view() =~= seq![]);
        return (HttpResponse { status: 0, headers, body: Vec::new() }, None);
    }
    let status = parse_status(lines[0].as_str());
    let head = parse_fields(lines, 1);
    (HttpResponse { status, headers: head.headers, body: Vec::new() }, head.length)
}

// ---- Laws --------------------------------------------------------------------------

/// The first line of a request gives the method, the path before the question mark and the
/// query behind it, whatever version follows.
#[verifier::rlimit(30)]
#[verifier::spinoff_prover]
pub proof fn law_request_line_is_read(
    method: Seq<char>,
    path: Seq<char>,
    query: Seq<char>,
    version: Seq<char>,
)
    requires
        method.len() > 0,
        !method.contains(' '),
        !is_space(method[0]),
        !path.contains(' '),
        !path.contains('?'),
        !query.contains(' '),
        version.len() > 0,
        !is_space(version.last()),
    ensures
        request_target(
            method + seq![' '] + path + seq!['?'] + query + seq![' '] + version + seq!['\r', '\n'],
        ) == Some(Target { method: unicode_upper(method), path, query }),
        request_target(method + seq![' '] + path + seq![' '] + version + seq!['\r', '\n']) == Some(
            Target { method: unicode_upper(method), path, query: Seq::empty() },
        ),
{
    let asked = path + seq!['?'] + query;
    assert forall|k: int| 0 <= k < asked.len() implies asked[k] != ' ' by {
        if k < path.len() {
            assert(path.contains(path[k]));
        } else if k > path.len() {
            assert(asked[k] == query[k - path.len() - 1]);
            assert(query.contains(query[k - path.len() - 1]));
        }
    }
    assert forall|k: int| 0 <= k < path.len() implies path[k] != ' ' && path[k] != '?' by {
        assert(path.contains(path[k]));
    }
    lemma_request_line(method, asked, version);
    lemma_request_line(method, path, version);
    assert forall|k: int| 0 <= k < path.len() implies asked[k] != '?' by {
        assert(asked[k] == path[k]);
    }
    assert(asked[path.len() as int] == '?');
    lemma_index_of_is(asked, '?', 0, path.len() as int);
    lemma_index_of_is(path, '?', 0, path.len() as int);
    assert(asked.take(path.len() as int) =~= path);
    assert(asked.skip(path.len() as int + 1) =~= query);
    assert(path.take(path.len() as int) =~= path);
    assert(method + seq![' '] + path + seq!['?'] + query + seq![' '] + version + seq!['\r', '\n']
        =~= method + seq![' '] + asked + seq![' '] + version + seq!['\r', '\n']);
}

#[verifier::rlimit(30)]
#[verifier::spinoff_prover]
proof fn lemma_request_line(method: Seq<char>, full: Seq<char>, version: Seq<char>)
    requires
        method.len() > 0,
        !method.contains(' '),
        !is_space(method[0]),
        forall|k: int| 0 <= k < full.len() ==> full[k] != ' ',
        version.len() > 0,
        !is_space(version.last()),
    ensures
        ({
            let q = index_of(full, '?', 0);
            request_target(method + seq![' '] + full + seq![' '] + version + seq!['\r', '\n'])
                == Some(
                Target {
                    method: unicode_upper(method),
                    path: full.take(q),
                    query: if q < full.len() {
                        full.skip(q + 1)
                    } else {
                        seq![]
                    },
                },
            )
        }),
{
    let t = method + seq![' '] + full + seq![' '] + version;
    let line = t + seq!['\r', '\n'];
    let none = Seq::<char>::empty();
    assert(t[0] == method[0]);
    assert(t.last() == version.last());
    assert(none + t + seq!['\r', '\n'] =~= line);
    law_only_white_space_is_trimmed(none, t, seq!['\r', '\n']);
    let n = method.len() as int;
    assert forall|k: int| 0 <= k < n implies t[k] != ' ' by {
        assert(t[k] == method[k]);
        assert(method.contains(method[k]));
    }
    assert(t[n] == ' ');
    lemma_index_of_is(t, ' ', 0, n);
    assert(t.take(n) =~= method);
    let rest = t.skip(n + 1);
    assert(rest =~= full + seq![' '] + version);
    let m = full.len() as int;
    assert forall|k: int| 0 <= k < m implies rest[k] != ' ' by {
        assert(rest[k] == full[k]);
    }
    assert(rest[m] == ' ');
    lemma_index_of_is(rest, ' ', 0, m);
    assert(rest.take(m) =~= full);
    assert(method + seq![' '] + full + seq![' '] + version + seq!['\r', '\n'] =~= line);
}

/// A line of a head is a name, a colon and a value; the case of the name and white space round
/// both do not count.
#[verifier::rlimit(30)]
#[verifier::spinoff_prover]
pub proof fn law_header_line_is_read(name: Seq<char>, value: Seq<char>)
    requires
        name.len() > 0,
        !is_space(name[0]),
        !name.contains(':'),
        value.len() > 0,
        !is_space(value.last()),
    ensures
        head_line(name + seq![':'] + value) == HeadLine::Field(
            unicode_lower(trimmed(name)),
            trimmed(value),
        ),
{
    let none = Seq::<char>::empty();
    let line = name + seq![':'] + value;
    let n = name.len() as int;
    assert forall|k: int| 0 <= k < n implies line[k] != ':' by {
        assert(line[k] == name[k]);
        assert(name.contains(name[k]));
    }
    assert(line[n] == ':');
    assert(line[0] == name[0]);
    assert(line.last() == value.last());
    law_only_white_space_is_trimmed(none, line, none);
    assert(none + line + none =~= line);
    lemma_index_of_is(line, ':', 0, n);
    assert(line.take(n) =~= name);
    assert(line.skip(n + 1) =~= value);
}

/// A line of white space ends the head, and a line without a colon is no header.
#[verifier::rlimit(30)]
#[verifier::spinoff_prover]
pub proof fn law_blank_line_ends_the_head(blank: Seq<char>, word: Seq<char>)
    requires
        forall|i: int| 0 <= i < blank.len() ==> is_space(#[trigger] blank[i]),
        word.len() > 0,
        !is_space(word[0]),
        !is_space(word.last()),
        !word.contains(':'),
    ensures
        head_line(blank) == HeadLine::Blank,
        head_line(word) == HeadLine::Junk,
{
    let none = Seq::<char>::empty();
    law_only_white_space_is_trimmed(blank, word, none);
    law_only_white_space_is_trimmed(none, word, none);
    assert(none + word + none =~= word);
    assert forall|k: int| 0 <= k < word.len() implies word[k] != ':' by {
        assert(word.contains(word[k]));
    }
    lemma_index_of_is(word, ':', 0, word.len() as int);
}

/// The headers of a head are noted one after the other, the last of a name counts, and the
/// length of the body is the one that was said last. What follows a blank line does not
/// belong to the head.
pub proof fn law_headers_are_noted(
    lines: Seq<Seq<char>>,
    line: Seq<char>,
    name: Seq<char>,
    value: Seq<char>,
    behind: Seq<Seq<char>>,
)
    requires
        forall|i: int| 0 <= i < lines.len() ==> !(head_line(#[trigger] lines[i]) is Blank),
        head_line(line) == HeadLine::Field(name, value),
    ensures
        head_fields(Seq::empty(), 0, Seq::empty()) == Seq::<(Seq<char>, Seq<char>)>::empty(),
        head_fields(lines.push(line), 0, Seq::empty()) == with_value(
            head_fields(lines, 0, Seq::empty()),
            name,
            value,
        ),
        head_fields(lines.push(Seq::empty()) + behind, 0, Seq::empty()) == head_fields(
            lines,
            0,
            Seq::empty(),
        ),
        name == "content-length"@ ==> head_length(lines.push(line), 0, None) == parsed_number(
            value,
            usize::MAX as nat,
        ),
        name != "content-length"@ ==> head_length(lines.push(line), 0, None) == head_length(
            lines,
            0,
            None,
        ),
        head_length(lines.push(Seq::empty()) + behind, 0, None) == head_length(lines, 0, None),
{
    law_blank_line_ends_the_head(Seq::empty(), seq!['x']);
    lemma_last_header(lines, line, name, value, 0, Seq::empty(), None);
    lemma_blank_line(lines, behind, 0, Seq::empty(), None);
}

proof fn lemma_last_header(
    lines: Seq<Seq<char>>,
    line: Seq<char>,
    name: Seq<char>,
    value: Seq<char>,
    from: int,
    hs: Pairs,
    n: Option<nat>,
)
    requires
        0 <= from <= lines.len(),
        forall|i: int| 0 <= i < lines.len() ==> !(head_line(#[trigger] lines[i]) is Blank),
        head_line(line) == HeadLine::Field(name, value),
    ensures
        head_fields(lines.push(line), from, hs) == with_value(
            head_fields(lines, from, hs),
            name,
            value,
        ),
        head_length(lines.push(line), from, n) == (if name == "content-length"@ {
            parsed_number(value, usize::MAX as nat)
        } else {
            head_length(lines, from, n)
        }),
    decreases lines.len() - from,
{
    let all = lines.push(line);
    if from < lines.len() {
        assert(all[from] == lines[from]);
        match head_line(lines[from]) {
            HeadLine::Field(a, b) => {
                let m = if a == "content-length"@ {
                    parsed_number(b, usize::MAX as nat)
                } else {
                    n
                };
                lemma_last_header(lines, line, name, value, from + 1, with_value(hs, a, b), m);
            },
            _ => {
                lemma_last_header(lines, line, name, value, from + 1, hs, n);
            },
        }
    } else {
        assert(all[from] == line);
        let m = if name == "content-length"@ {
            parsed_number(value, usize::MAX as nat)
        } else {
            n
        };
        assert(head_fields(all, from + 1, with_value(hs, name, value)) == with_value(
            hs,
            name,
            value,
        ));
        assert(head_length(all, from + 1, m) == m);
    }
}

proof fn lemma_blank_line(
    lines: Seq<Seq<char>>,
    behind: Seq<Seq<char>>,
    from: int,
    hs: Pairs,
    n: Option<nat>,
)
    requires
        0 <= from <= lines.len(),
        forall|i: int| 0 <= i < lines.len() ==> !(head_line(#[trigger] lines[i]) is Blank),
        head_line(Seq::empty()) is Blank,
    ensures
        head_fields(lines.push(Seq::empty()) + behind, from, hs) == head_fields(lines, from, hs),
        head_length(lines.push(Seq::empty()) + behind, from, n) == head_length(lines, from, n),
    decreases lines.len() - from,
{
    let all = lines.push(Seq::empty()) + behind;
    if from < lines.len() {
        assert(all[from] == lines[from]);
        match head_line(lines[from]) {
            HeadLine::Field(a, b) => {
                let m = if a == "content-length"@ {
                    parsed_number(b, usize::MAX as nat)
                } else {
                    n
                };
                lemma_blank_line(lines, behind, from + 1, with_value(hs, a, b), m);
            },
            _ => {
                lemma_blank_line(lines, behind, from + 1, hs, n);
            },
        }
    } else {
        assert(all[from] == Seq::<char>::empty());
    }
}

/// The value of a name in a query is what stands between its equals sign and the next
/// ampersand, and the first part of that name counts.
pub proof fn law_query_value_is_found(
    key: Seq<char>,
    value: Seq<char>,
    rest: Seq<char>,
    other: Seq<char>,
)
    requires
        !key.contains('&'),
        !key.contains('='),
        !value.contains('&'),
        !other.contains('&'),
        !other.contains('='),
    ensures
        query_value(split(key + seq!['='] + value, '&'), key, 0) == Some(value),
        query_value(split(key + seq!['='] + value + seq!['&'] + rest, '&'), key, 0) == Some(value),
        other != key ==> query_value(
            split(other + seq!['='] + value + seq!['&'] + rest, '&'),
            key,
            0,
        ) == query_value(split(rest, '&'), key, 0),
        other != key ==> query_value(split(other + seq!['='] + value, '&'), key, 0) is None,
{
    let part = key + seq!['='] + value;
    let stray = other + seq!['='] + value;
    lemma_query_part(key, value);
    lemma_query_part(other, value);
    law_parts_lie_between_separators(part, '&', rest);
    law_parts_lie_between_separators(stray, '&', rest);
    let parts = split(rest, '&');
    assert((seq![part] + parts)[0] == part);
    assert((seq![stray] + parts)[0] == stray);
    lemma_query_value_behind(stray, parts, key, 0);
    assert(seq![part][0] == part && seq![stray][0] == stray);
    assert(query_value(seq![stray], key, 1) is None);
}

proof fn lemma_query_part(key: Seq<char>, value: Seq<char>)
    requires
        !key.contains('&'),
        !key.contains('='),
        !value.contains('&'),
    ensures
        query_part(key + seq!['='] + value) == (key, Some(value)),
        !(key + seq!['='] + value).contains('&'),
{
    let part = key + seq!['='] + value;
    let n = key.len() as int;
    assert forall|k: int| 0 <= k < n implies part[k] != '=' by {
        assert(part[k] == key[k]);
        assert(key.contains(key[k]));
    }
    assert(part[n] == '=');
    lemma_index_of_is(part, '=', 0, n);
    assert(part.take(n) =~= key);
    assert(part.skip(n + 1) =~= value);
    assert forall|k: int| 0 <= k < part.len() implies part[k] != '&' by {
        if k < n {
            assert(key.contains(key[k]));
        } else if k > n {
            assert(part[k] == value[k - n - 1]);
            assert(value.contains(value[k - n - 1]));
        }
    }
}

proof fn lemma_query_value_behind(first: Seq<char>, parts: Seq<Seq<char>>, key: Seq<char>, from: int)
    requires
        0 <= from <= parts.len(),
    ensures
        query_value(seq![first] + parts, key, from + 1) == query_value(parts, key, from),
    decreases parts.len() - from,
{
    if from < parts.len() {
        assert((seq![first] + parts)[from + 1] == parts[from]);
        lemma_query_value_behind(first, parts, key, from + 1);
    }
}

/// Headers are written one behind the other, each on its line.
pub proof fn law_headers_are_written_in_order(hs: Pairs, name: Seq<char>, value: Seq<char>)
    ensures
        header_lines(Seq::empty(), 0) == Seq::<char>::empty(),
        header_lines(hs.push((name, value)), 0) == header_lines(hs, 0) + name + ": "@ + value
            + "\r\n"@,
{
    lemma_header_lines_end(hs, name, value, 0);
}

proof fn lemma_header_lines_end(hs: Pairs, name: Seq<char>, value: Seq<char>, from: int)
    requires
        0 <= from <= hs.len(),
    ensures
        header_lines(hs.push((name, value)), from) == header_lines(hs, from) + name + ": "@ + value
            + "\r\n"@,
    decreases hs.len() - from,
{
    let all = hs.push((name, value));
    if from < hs.len() {
        assert(all[from] == hs[from]);
        lemma_header_lines_end(hs, name, value, from + 1);
        assert(header_lines(all, from) =~= header_lines(hs, from) + name + ": "@ + value + "\r\n"@);
    } else {
        assert(all[from] == (name, value));
        assert(header_lines(all, from + 1) =~= Seq::<char>::empty());
        assert(header_lines(hs, from) =~= Seq::<char>::empty());
        assert(header_lines(all, from) =~= header_lines(hs, from) + name + ": "@ + value + "\r\n"@);
    }
}

/// The status of an answer is the number behind the version.
#[verifier::rlimit(30)]
#[verifier::spinoff_prover]
pub proof fn law_status_is_read(version: Seq<char>, status: u16, reason: Seq<char>)
    requires
        version.len() > 0,
        forall|i: int| 0 <= i < version.len() ==> !is_space(#[trigger] version[i]),
    ensures
        status_of(version + seq![' '] + decimal(status as nat) + seq![' '] + reason) == status,
{
    let d = decimal(status as nat);
    let line = version + seq![' '] + d + seq![' '] + reason;
    let n = version.len() as int;
    lemma_decimal_digits(status as nat);
    assert(!is_space(version[0]));
    assert(line[0] == version[0]);
    lemma_gap_is(line, 0, n);
    assert(line[n] == ' ');
    assert(is_digit(d[0]));
    assert(line[n + 1] == d[0]);
    assert(first_solid(line, n + 1) == n + 1);
    assert(first_solid(line, n) == n + 1);
    let m = n + 1 + d.len();
    assert forall|k: int| n + 1 <= k < m implies !is_space(line[k]) by {
        assert(line[k] == d[k - n - 1]);
        assert(is_digit(d[k - n - 1]));
    }
    assert(line[m] == ' ');
    lemma_gap_is(line, n + 1, m);
    assert(line.subrange(n + 1, m) =~= d);
    law_number_is_read_back(status as nat, u16::MAX as nat);
}

proof fn lemma_gap_is(s: Seq<char>, from: int, at: int)
    requires
        0 <= from <= at < s.len(),
        is_space(s[at]),
        forall|k: int| from <= k < at ==> !is_space(s[k]),
    ensures
        first_gap(s, from) == at,
    decreases at - from,
{
    if from < at {
        lemma_gap_is(s, from + 1, at);
    }
}

/// A URL gives its host, the port that was said or 80, and what follows, or a slash.
pub proof fn law_url_is_read(secure: bool, host: Seq<char>, port: u16, path: Seq<char>)
    requires
        !host.contains('/'),
        !host.contains(':'),
        path.len() > 0,
        path[0] == '/',
    ensures
        ({
            let scheme = if secure {
                "https://"@
            } else {
                "http://"@
            };
            let numbered = seq![':'] + decimal(port as nat);
            &&& url_view(scheme + host + path) == Some(UrlView { host, port: 80, path })
            &&& url_view(scheme + host) == Some(UrlView { host, port: 80, path: "/"@ })
            &&& url_view(scheme + (host + numbered) + path) == Some(
                UrlView { host, port: port as nat, path },
            )
            &&& url_view(scheme + (host + numbered)) == Some(
                UrlView { host, port: port as nat, path: "/"@ },
            )
        }),
{
    let none = Seq::<char>::empty();
    let d = decimal(port as nat);
    let numbered = seq![':'] + d;
    lemma_decimal_digits(port as nat);
    law_number_is_read_back(port as nat, u16::MAX as nat);
    let n = host.len() as int;
    let long = host + numbered;
    assert forall|k: int| 0 <= k < n implies host[k] != '/' && host[k] != ':' by {
        assert(host.contains(host[k]));
    }
    assert forall|k: int| 0 <= k < long.len() implies long[k] != '/' by {
        if k < n {
            assert(long[k] == host[k]);
        } else if k > n {
            assert(long[k] == d[k - n - 1]);
            assert(is_digit(d[k - n - 1]));
        }
    }
    assert forall|k: int| 0 <= k < n implies long[k] != ':' by {
        assert(long[k] == host[k]);
    }
    assert(long[n] == ':');
    lemma_index_of_is(long, ':', 0, n);
    lemma_index_of_is(host, ':', 0, n);
    assert(long.take(n) =~= host);
    assert(long.skip(n + 1) =~= d);
    lemma_url(secure, host, path);
    lemma_url(secure, host, none);
    lemma_url(secure, long, path);
    lemma_url(secure, long, none);
    let scheme = if secure {
        "https://"@
    } else {
        "http://"@
    };
    assert(scheme + host + none =~= scheme + host);
    assert(scheme + long + none =~= scheme + long);
}

proof fn lemma_url(secure: bool, authority: Seq<char>, path: Seq<char>)
    requires
        forall|k: int| 0 <= k < authority.len() ==> authority[k] != '/',
        path.len() > 0 ==> path[0] == '/',
    ensures
        ({
            let scheme = if secure {
                "https://"@
            } else {
                "http://"@
            };
            let rest = authority + path;
            &&& url_rest(scheme + authority + path) == Some(rest)
            &&& index_of(rest, '/', 0) == authority.len()
            &&& rest.take(authority.len() as int) == authority
            &&& rest.skip(authority.len() as int) == path
        }),
{
    reveal_strlit("https://");
    reveal_strlit("http://");
    let scheme = if secure {
        "https://"@
    } else {
        "http://"@
    };
    let rest = authority + path;
    let url = scheme + authority + path;
    let n = scheme.len() as int;
    assert(url =~= scheme + rest);
    assert(url.subrange(0, n) =~= scheme);
    assert(url.skip(n) =~= rest);
    if secure {
        assert(url[4] == 's');
        assert(!"http://"@.is_prefix_of(url)) by {
            if "http://"@.is_prefix_of(url) {
                assert(url.subrange(0, 7)[4] == ':');
            }
        }
    }
    let a = authority.len() as int;
    assert forall|k: int| 0 <= k < a implies rest[k] != '/' by {
        assert(rest[k] == authority[k]);
    }
    if path.len() > 0 {
        assert(rest[a] == path[0]);
    }
    lemma_index_of_is(rest, '/', 0, a);
    assert(rest.take(a) =~= authority);
    assert(rest.skip(a) =~= path);
}

/// Four places in the alphabet, of six bits each, stand for the three bytes that those bits
/// make.
pub proof fn law_three_bytes_are_four_characters(i: int, j: int, k: int, l: int, rest: Seq<u8>)
    requires
        0 <= i < 64,
        0 <= j < 64,
        0 <= k < 64,
        0 <= l < 64,
    ensures
        base64_from(
            seq![
                (i * 4 + j / 16) as u8,
                (j % 16 * 16 + k / 4) as u8,
                (k % 4 * 64 + l) as u8,
            ] + rest,
            0,
        ) == seq![base64_char(i), base64_char(j), base64_char(k), base64_char(l)] + base64_from(
            rest,
            0,
        ),
{
    let a = (i * 4 + j / 16) as u8;
    let b = (j % 16 * 16 + k / 4) as u8;
    let c = (k % 4 * 64 + l) as u8;
    let data = seq![a, b, c];
    let all = data + rest;
    assert(all[0] == a && all[1] == b && all[2] == c);
    lemma_sextets(i, j, k, l);
    lemma_base64_behind(data, rest, 0);
    let n = base64_group(all, 0);
    assert(n == a * 0x1_0000 + b * 0x100 + c);
    assert(base64_from(all, 0) =~= seq![
        base64_char(n / 0x4_0000),
        base64_char(n / 0x1000 % 64),
        base64_char(n / 64 % 64),
        base64_char(n % 64),
    ] + base64_from(all, 3));
}

/// Of one byte two characters are written and of two bytes three, filled up with equals signs.
pub proof fn law_last_characters_are_filled_up(i: int, j: int, k: int)
    requires
        0 <= i < 64,
        0 <= j < 64,
        0 <= k < 64,
        k % 4 == 0,
    ensures
        base64_from(seq![(i * 4 + j / 16) as u8, (j % 16 * 16 + k / 4) as u8], 0) == seq![
            base64_char(i),
            base64_char(j),
            base64_char(k),
            '=',
        ],
        j % 16 == 0 ==> base64_from(seq![(i * 4 + j / 16) as u8], 0) == seq![
            base64_char(i),
            base64_char(j),
            '=',
            '=',
        ],
{
    let a = (i * 4 + j / 16) as u8;
    let b = (j % 16 * 16 + k / 4) as u8;
    let two = seq![a, b];
    let one = seq![a];
    lemma_sextets(i, j, k, 0);
    let n = base64_group(two, 0);
    assert(n == a * 0x1_0000 + b * 0x100 + 0u8);
    assert(base64_from(two, 3) =~= Seq::<char>::empty());
    assert(base64_from(two, 0) =~= seq![
        base64_char(n / 0x4_0000),
        base64_char(n / 0x1000 % 64),
        base64_char(n / 64 % 64),
        '=',
    ]);
    if j % 16 == 0 {
        lemma_sextets(i, j, 0, 0);
        let m = base64_group(one, 0);
        assert(m == a * 0x1_0000 + 0u8 * 0x100 + 0u8);
        assert(base64_from(one, 3) =~= Seq::<char>::empty());
        assert(base64_from(one, 0) =~= seq![
            base64_char(m / 0x4_0000),
            base64_char(m / 0x1000 % 64),
            '=',
            '=',
        ]);
    }
}

#[verifier::spinoff_prover]
proof fn lemma_sextets(i: int, j: int, k: int, l: int)
    requires
        0 <= i < 64,
        0 <= j < 64,
        0 <= k < 64,
        0 <= l < 64,
    ensures
        ({
            let a = (i * 4 + j / 16) as u8;
            let b = (j % 16 * 16 + k / 4) as u8;
            let c = (k % 4 * 64 + l) as u8;
            let n = a * 0x1_0000 + b * 0x100 + c;
            &&& n / 0x4_0000 == i
            &&& n / 0x1000 % 64 == j
            &&& n / 64 % 64 == k
            &&& n % 64 == l
        }),
{
    let a = i * 4 + j / 16;
    let b = j % 16 * 16 + k / 4;
    let c = k % 4 * 64 + l;
    let n = a * 0x1_0000 + b * 0x100 + c;
    assert(0 <= a < 256 && 0 <= b < 256 && 0 <= c < 256);
    assert(n == i * 0x4_0000 + j * 0x1000 + k * 64 + l);
    let rest = j * 0x1000 + k * 64 + l;
    assert(0 <= rest < 0x4_0000);
    assert(n / 0x4_0000 == i);
    assert(n / 0x1000 == i * 64 + j);
    assert(n / 64 == (i * 64 + j) * 64 + k);
}

proof fn lemma_base64_behind(data: Seq<u8>, rest: Seq<u8>, from: int)
    requires
        data.len() == 3,
        0 <= from <= rest.len() + 3,
    ensures
        base64_from(data + rest, 3 + from) == base64_from(rest, from),
    decreases rest.len() + 3 - from,
{
    let all = data + rest;
    if from < rest.len() {
        assert(all[3 + from] == rest[from]);
        if from + 1 < rest.len() {
            assert(all[3 + from + 1] == rest[from + 1]);
        }
        if from + 2 < rest.len() {
            assert(all[3 + from + 2] == rest[from + 2]);
        }
        lemma_base64_behind(data, rest, from + 3);
    }
}

/// The alphabet has sixty-four different characters.
pub proof fn law_alphabet_has_no_doubles(i: int, j: int)
    requires
        0 <= i < j < 64,
    ensures
        base64_char(i) != base64_char(j),
        base64_char(i) != '=',
        base64_char(j) != '=',
        base64_char(0) == 'A',
        base64_char(26) == 'a',
        base64_char(52) == '0',
        base64_char(62) == '+',
        base64_char(63) == '/',
{
}

/// An answer is its status and reason on one line, its headers in their order, the length of
/// its body and a blank line.
pub proof fn law_answer_head_is_written(status: u16, reason: Seq<char>, hs: Pairs, length: nat)
    ensures
        response_head(status, reason, hs, length) == ("HTTP/1.1 "@ + decimal(status as nat) + " "@
            + reason + "\r\n"@) + header_lines(hs, 0) + ("Content-Length: "@ + decimal(length)
            + "\r\n"@ + "Connection: close\r\n"@ + "\r\n"@),
        stream_head(hs) == "HTTP/1.1 200 OK\r\n"@ + header_lines(hs, 0) + "\r\n"@,
{
    let start = "HTTP/1.1 "@ + decimal(status as nat) + " "@ + reason + "\r\n"@;
    let end = "Content-Length: "@ + decimal(length) + "\r\n"@ + "Connection: close\r\n"@ + "\r\n"@;
    assert(response_head(status, reason, hs, length) =~= start + header_lines(hs, 0) + end);
}

/// A request to another server names the path and the host, with the port unless it is the
/// usual one; one with a body says how long it is and that it is JSON, one for a stream says so
/// and names the last event that was seen, and each carries the headers asked for.
pub proof fn law_outgoing_request_is_written(
    host: Seq<char>,
    port: u16,
    path: Seq<char>,
    hs: Pairs,
    length: nat,
    id: Seq<char>,
)
    requires
        id.len() > 0,
    ensures
        ({
            let u = UrlView { host, port: port as nat, path };
            let named = if port == 80 {
                host
            } else {
                host + ":"@ + decimal(port as nat)
            };
            let first = path + " HTTP/1.1\r\nHost: "@ + named;
            let kind =
                "\r\nContent-Type: application/json\r\nAccept: application/json, text/event-stream\r\n"@;
            &&& post_head(u, hs, length) == "POST "@ + first + "\r\nContent-Length: "@ + decimal(
                length,
            ) + kind + header_lines(hs, 0) + "Connection: close\r\n\r\n"@
            &&& get_head(u, hs, None) == "GET "@ + first + "\r\nAccept: text/event-stream\r\n"@
                + header_lines(hs, 0) + "Connection: keep-alive\r\n\r\n"@
            &&& get_head(u, hs, Some(id)) == "GET "@ + first + "\r\nAccept: text/event-stream\r\n"@
                + ("Last-Event-ID: "@ + id + "\r\n"@) + header_lines(hs, 0)
                + "Connection: keep-alive\r\n\r\n"@
            &&& delete_head(u, hs) == "DELETE "@ + first + "\r\nContent-Length: 0\r\n"@
                + header_lines(hs, 0) + "Connection: close\r\n\r\n"@
        }),
{
    let u = UrlView { host, port: port as nat, path };
    let named = if port == 80 {
        host
    } else {
        host + ":"@ + decimal(port as nat)
    };
    let first = path + " HTTP/1.1\r\nHost: "@ + named;
    let kind =
        "\r\nContent-Type: application/json\r\nAccept: application/json, text/event-stream\r\n"@;
    assert(host_text(u.host, u.port as u16) == named);
    assert(post_head(u, hs, length) =~= "POST "@ + first + "\r\nContent-Length: "@ + decimal(length)
        + kind + header_lines(hs, 0) + "Connection: close\r\n\r\n"@);
    assert(get_head(u, hs, None) =~= "GET "@ + first + "\r\nAccept: text/event-stream\r\n"@
        + header_lines(hs, 0) + "Connection: keep-alive\r\n\r\n"@);
    assert(get_head(u, hs, Some(id)) =~= "GET "@ + first + "\r\nAccept: text/event-stream\r\n"@ + (
    "Last-Event-ID: "@ + id + "\r\n"@) + header_lines(hs, 0) + "Connection: keep-alive\r\n\r\n"@);
    assert(delete_head(u, hs) =~= "DELETE "@ + first + "\r\nContent-Length: 0\r\n"@ + header_lines(
        hs,
        0,
    ) + "Connection: close\r\n\r\n"@);
}

} // verus!
