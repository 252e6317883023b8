//! Newline-delimited JSON-RPC on the standard streams of a child process.

use vstd::prelude::*;
use vstd::string::*;
use vstd::utf8::{
    decode_utf8, encode_scalar, encode_utf8, encode_utf8_decode_utf8, encode_utf8_valid_utf8,
    valid_utf8,
};

use crate::json::members_text;
use crate::jsonrpc::{
    blank_byte, is_blank_byte, lemma_first_byte, line_error, line_is, message_members,
    message_text, no_null, parse_error_text, parse_line, same_message, MessageView, Parsed,
    RawMessage,
};
use crate::cli::LogLevel;
use crate::observe::{counted, Logger, LoggerView, Metrics};
use crate::pairs::Pairs;
use crate::text::{decimal, decimal_text, take_chars, utf8_lossy, utf8_text, utf8_text_lossy};

verus! {

/// The largest message, in bytes.
pub const MAX_MESSAGE_SIZE: usize = 16_777_216;

/// The usual limit for a line that is not complete yet, in bytes.
pub const DEFAULT_PARTIAL_BUFFER: usize = 67_108_864;

/// Lines on stderr are cut to this many bytes.
pub const STDERR_MAX_LINE: usize = 4096;

/// How many characters of a bad line the log shows.
pub const ERROR_PREVIEW_LEN: usize = 200;

/// What ends the reading of a stream.
#[derive(Debug)]
pub enum CodecError {
    InvalidUtf8,
    BufferOverflow { size: usize, limit: usize },
    Io(String),
}

pub open spec fn codec_error_text(e: CodecError) -> Seq<char> {
    match e {
        CodecError::InvalidUtf8 => "invalid UTF-8 on stdout (protocol violation)"@,
        CodecError::BufferOverflow { size, limit } => "partial buffer overflow ("@ + decimal(
            size as nat,
        ) + " bytes exceeds "@ + decimal(limit as nat) + " byte limit)"@,
        CodecError::Io(e) => e@,
    }
}

impl CodecError {
    /// The error in words.
    pub fn to_string(&self) -> (r: String)
        ensures
            r@ == codec_error_text(*self),
    {
        match self {
            CodecError::InvalidUtf8 => "invalid UTF-8 on stdout (protocol violation)".to_owned(),
            CodecError::BufferOverflow { size, limit } => {
                let s = decimal_text(*size as u64);
                let l = decimal_text(*limit as u64);
                "partial buffer overflow (".to_owned().concat(s.as_str()).concat(
                    " bytes exceeds ",
                ).concat(l.as_str()).concat(" byte limit)")
            },
            CodecError::Io(e) => e.clone(),
        }
    }

    /// Whether the child has to be killed: it broke the protocol.
    pub fn is_fatal(&self) -> (r: bool)
        ensures
            r == !(self is Io),
    {
        match self {
            CodecError::Io(_) => false,
            _ => true,
        }
    }
}

// ---- Lines ------------------------------------------------------------------------

/// The place of the first newline at or after `from`, or the length.
pub open spec fn newline_at(bytes: Seq<u8>, from: int) -> int
    decreases bytes.len() - from,
{
    if from >= bytes.len() {
        bytes.len() as int
    } else if bytes[from] == 0x0a {
        from
    } else {
        newline_at(bytes, from + 1)
    }
}

pub proof fn lemma_newline_at(bytes: Seq<u8>, from: int)
    requires
        0 <= from <= bytes.len(),
    ensures
        from <= newline_at(bytes, from) <= bytes.len(),
        newline_at(bytes, from) < bytes.len() ==> bytes[newline_at(bytes, from)] == 0x0a,
        forall|k: int| from <= k < newline_at(bytes, from) ==> bytes[k] != 0x0a,
    decreases bytes.len() - from,
{
    if from < bytes.len() && bytes[from] != 0x0a {
        lemma_newline_at(bytes, from + 1);
    }
}

/// What stands between the child and its reader: the beginning of a line, bytes that
/// nobody has looked at, and whether more can come.
#[verifier::ext_equal]
pub struct Stream {
    pub line: Seq<u8>,
    pub fresh: Seq<u8>,
    pub ended: bool,
}

/// What a look for a complete line finds.
pub enum LineStep {
    Line(Seq<u8>),
    Overflow(nat),
    More,
    End,
}

/// Looks for a line: up to the next newline, or up to the end of the stream. A line that
/// is not complete must not exceed the limit; one that does is dropped.
pub open spec fn next_line(s: Stream, limit: nat) -> (LineStep, Stream) {
    let at = newline_at(s.fresh, 0);
    let rest = Stream { line: s.line + s.fresh, fresh: seq![], ended: s.ended };
    if at < s.fresh.len() {
        (
            LineStep::Line(s.line + s.fresh.take(at)),
            Stream { line: seq![], fresh: s.fresh.skip(at + 1), ended: s.ended },
        )
    } else if s.fresh.len() > 0 && rest.line.len() > limit {
        (LineStep::Overflow(rest.line.len()), Stream { line: seq![], ..rest })
    } else if !s.ended {
        (LineStep::More, rest)
    } else if rest.line.len() == 0 {
        (LineStep::End, rest)
    } else {
        (LineStep::Line(rest.line), Stream { line: seq![], fresh: seq![], ended: true })
    }
}

/// A line without the carriage return at its end.
pub open spec fn without_return(raw: Seq<u8>) -> Seq<u8> {
    if raw.len() > 0 && raw.last() == 0x0d {
        raw.drop_last()
    } else {
        raw
    }
}

pub open spec fn is_blank_line(raw: Seq<u8>) -> bool {
    forall|i: int| 0 <= i < raw.len() ==> is_blank_byte(#[trigger] raw[i])
}

/// What a line is good for.
pub enum LineKind {
    Blank,
    NotText,
    /// Skipped, and logged with these words.
    Faulty(Seq<char>),
    Message(Seq<char>),
}

pub open spec fn preview(line: Seq<char>) -> Seq<char> {
    if line.len() <= ERROR_PREVIEW_LEN {
        line
    } else {
        line.take(ERROR_PREVIEW_LEN as int)
    }
}

pub open spec fn oversize_text(line: Seq<char>, size: nat) -> Seq<char> {
    "message exceeds 16MB limit ("@ + decimal(size) + " bytes), skipping: "@ + preview(line)
}

pub open spec fn parse_fault_text(line: Seq<char>) -> Seq<char> {
    "JSON parse error: "@ + parse_error_text(line_error(line)->0) + " — skipping: "@ + preview(line)
}

pub open spec fn line_kind(raw: Seq<u8>) -> LineKind {
    let bytes = without_return(raw);
    let line = decode_utf8(bytes);
    if is_blank_line(bytes) {
        LineKind::Blank
    } else if !valid_utf8(bytes) {
        LineKind::NotText
    } else if bytes.len() > MAX_MESSAGE_SIZE {
        LineKind::Faulty(oversize_text(line, bytes.len()))
    } else if line_error(line) is Some {
        LineKind::Faulty(parse_fault_text(line))
    } else {
        LineKind::Message(line)
    }
}

/// What a reader of messages meets next.
pub enum MessageStep {
    Message(Seq<char>),
    NotText,
    Overflow(nat),
    More,
    End,
}

/// The next message on a stream, the stream after it, and what is logged about the
/// faulty lines that were skipped on the way.
pub open spec fn next_message(s: Stream, limit: nat) -> (MessageStep, Stream, Seq<Seq<char>>)
    decreases s.fresh.len() + s.line.len(),
    via next_message_decreases
{
    let (step, rest) = next_line(s, limit);
    match step {
        LineStep::Overflow(n) => (MessageStep::Overflow(n), rest, seq![]),
        LineStep::More => (MessageStep::More, rest, seq![]),
        LineStep::End => (MessageStep::End, rest, seq![]),
        LineStep::Line(raw) => match line_kind(raw) {
            LineKind::Message(line) => (MessageStep::Message(line), rest, seq![]),
            LineKind::NotText => (MessageStep::NotText, rest, seq![]),
            LineKind::Blank => next_message(rest, limit),
            LineKind::Faulty(words) => {
                let (end, after, log) = next_message(rest, limit);
                (end, after, seq![words] + log)
            },
        },
    }
}

#[via_fn]
proof fn next_message_decreases(s: Stream, limit: nat) {
    lemma_newline_at(s.fresh, 0);
}

/// The counter after `n` more.
pub open spec fn counted_by(c: u64, n: nat) -> u64
    decreases n,
{
    if n == 0 {
        c
    } else {
        counted_by(counted(c), (n - 1) as nat)
    }
}

/// The log after an error line for each of the texts.
pub open spec fn logged_errors(log: LoggerView, texts: Seq<Seq<char>>) -> LoggerView
    decreases texts.len(),
{
    if texts.len() == 0 {
        log
    } else {
        logged_errors(log.error(texts[0]), texts.drop_first())
    }
}

/// Everything that is logged on the way to the next message.
pub open spec fn all_errors(r: (MessageStep, Stream, Seq<Seq<char>>)) -> Seq<Seq<char>> {
    if r.0 is NotText {
        r.2.push("invalid UTF-8 on stdout — killing child"@)
    } else {
        r.2
    }
}

/// A line that was read, or the reason why there is none.
enum LineRead {
    Line(Vec<u8>),
    More,
    End,
}

/// What a reader gets.
#[derive(Debug)]
pub enum MessageRead {
    Message(Parsed),
    /// The bytes at hand hold no further message.
    More,
    /// The stream has ended.
    End,
}

/// Reads messages from the standard output of a child. The bytes come in by `push` as
/// they arrive, and `finish` says that no more will come.
pub struct StdoutCodec {
    max_buffer: usize,
    line: Vec<u8>,
    fresh: Vec<u8>,
    next: usize,
    ended: bool,
}

impl View for StdoutCodec {
    type V = Stream;

    closed spec fn view(&self) -> Stream {
        Stream { line: self.line@, fresh: self.fresh@.skip(self.next as int), ended: self.ended }
    }
}

/// Whether the bytes begin with a message as `write_message` writes it. The message must
/// stay on one line and within the limit; a payload other than the id must not be a bare
/// `null`, which reads as an absent one.
pub open spec fn comes_next(s: Stream, m: MessageView) -> bool {
    &&& m.is_valid()
    &&& no_null(m)
    &&& s.line.len() == 0
    &&& message_bytes(message_text(m)).is_prefix_of(s.fresh)
    &&& forall|k: int|
        0 <= k < encode_utf8(message_text(m)).len() ==> #[trigger] encode_utf8(message_text(m))[k]
            != 0x0a
    &&& encode_utf8(message_text(m)).len() <= MAX_MESSAGE_SIZE
}

/// A message that was written is the message that is read.
pub open spec fn written_is_read(s: Stream, r: Result<MessageRead, CodecError>) -> bool {
    forall|m: MessageView| #[trigger]
        comes_next(s, m) ==> (r matches Ok(MessageRead::Message(Parsed::Single(x)))
            && same_message(x@, m))
}

/// Whether the line that was found is that of the message.
spec fn is_line_of(step: LineStep, m: MessageView) -> bool {
    &&& step == LineStep::Line(encode_utf8(message_text(m)))
    &&& without_return(encode_utf8(message_text(m))) == encode_utf8(message_text(m))
    &&& !is_blank_line(encode_utf8(message_text(m)))
    &&& valid_utf8(encode_utf8(message_text(m)))
    &&& decode_utf8(encode_utf8(message_text(m))) == message_text(m)
    &&& encode_utf8(message_text(m)).len() <= MAX_MESSAGE_SIZE
    &&& m.is_valid()
    &&& no_null(m)
}

proof fn lemma_comes_next(s: Stream, m: MessageView, limit: nat)
    requires
        comes_next(s, m),
    ensures
        is_line_of(next_line(s, limit).0, m),
{
    let text = message_text(m);
    let bytes = encode_utf8(text);
    let n = bytes.len() as int;
    let wire = message_bytes(text);
    assert(wire[n] == 0x0a);
    assert(s.fresh[n] == wire[n]);
    assert forall|k: int| 0 <= k < n implies s.fresh[k] != 0x0a by {
        assert(s.fresh[k] == wire[k]);
        assert(wire[k] == bytes[k]);
    }
    lemma_newline_at_is(s.fresh, 0, n);
    assert(s.line + s.fresh.take(n) =~= bytes) by {
        assert forall|k: int| 0 <= k < n implies s.fresh[k] == bytes[k] by {
            assert(s.fresh[k] == wire[k]);
        }
    }
    encode_utf8_valid_utf8(text);
    encode_utf8_decode_utf8(text);
    lemma_message_ends(m);
    assert(!is_blank_byte(bytes[0]));
}

impl StdoutCodec {
    #[verifier::type_invariant]
    spec fn wf(self) -> bool {
        self.next <= self.fresh@.len()
    }

    /// The limit for a line that is not complete yet.
    pub closed spec fn limit(&self) -> usize {
        self.max_buffer
    }

    pub fn new(max_buffer: usize) -> (r: StdoutCodec)
        ensures
            r.limit() == max_buffer,
            r@ == (Stream { line: seq![], fresh: seq![], ended: false }),
    {
        let r = StdoutCodec {
            max_buffer,
            line: Vec::new(),
            fresh: Vec::new(),
            next: 0,
            ended: false,
        };
        assert(r@.fresh =~= seq![]);
        r
    }

    /// Takes in bytes that arrived.
    pub fn push(&mut self, chunk: &[u8])
        ensures
            final(self).limit() == old(self).limit(),
            final(self)@ == (Stream { fresh: old(self)@.fresh + chunk@, ..old(self)@ }),
    {
        proof {
            use_type_invariant(&*self);
        }
        let ghost before = self@;
        let mut fresh: Vec<u8> = Vec::new();
        fresh.extend_from_slice(vstd::slice::slice_subrange(self.fresh.as_slice(), self.next, self.fresh.len()));
        fresh.extend_from_slice(chunk);
        self.next = 0;
        self.fresh = fresh;
        assert(self@.fresh =~= before.fresh + chunk@);
    }

    /// Says that no more bytes will come.
    pub fn finish(&mut self)
        ensures
            final(self).limit() == old(self).limit(),
            final(self)@ == (Stream { ended: true, ..old(self)@ }),
    {
        proof {
            use_type_invariant(&*self);
        }
        self.ended = true;
    }

    fn read_line_raw(&mut self) -> (r: Result<LineRead, CodecError>)
        ensures
            final(self).limit() == old(self).limit(),
            final(self)@ == next_line(old(self)@, old(self).limit() as nat).1,
            match next_line(old(self)@, old(self).limit() as nat).0 {
                LineStep::Line(raw) => r matches Ok(LineRead::Line(v)) && v@ == raw,
                LineStep::Overflow(n) => r matches Err(
                    CodecError::BufferOverflow { size, limit },
                ) && size == n && limit == old(self).limit(),
                LineStep::More => r matches Ok(LineRead::More),
                LineStep::End => r matches Ok(LineRead::End),
            },
    {
        proof {
            use_type_invariant(&*self);
        }
        let ghost s = self@;
        let mut at: usize = self.next;
        let ghost base = self.next as int;
        while at < self.fresh.len() && self.fresh[at] != 0x0a
            invariant
                base == self.next,
                self.next <= at <= self.fresh.len(),
                s == self@,
                newline_at(s.fresh, 0) == newline_at(s.fresh, at - base),
                s.fresh.len() == self.fresh.len() - base,
                forall|k: int| 0 <= k < s.fresh.len() ==> s.fresh[k] == self.fresh@[k + base],
            decreases self.fresh.len() - at,
        {
            assert(s.fresh[at - base] == self.fresh@[at as int]);
            at += 1;
        }
        let mut line: Vec<u8> = Vec::new();
        std::mem::swap(&mut line, &mut self.line);
        line.extend_from_slice(vstd::slice::slice_subrange(self.fresh.as_slice(), self.next, at));
        assert(self@.line =~= seq![]);
        if at < self.fresh.len() {
            assert(s.fresh[at - base] == self.fresh@[at as int]);
            self.next = at + 1;
            assert(line@ =~= s.line + s.fresh.take(at - base));
            assert(self@.fresh =~= s.fresh.skip(at - base + 1));
            return Ok(LineRead::Line(line));
        }
        let any = self.next < self.fresh.len();
        self.next = at;
        assert(line@ =~= s.line + s.fresh);
        assert(self@.fresh =~= seq![]);
        if any && line.len() > self.max_buffer {
            return Err(CodecError::BufferOverflow { size: line.len(), limit: self.max_buffer });
        }
        if !self.ended {
            self.line = line;
            return Ok(LineRead::More);
        }
        if line.len() == 0 {
            return Ok(LineRead::End);
        }
        Ok(LineRead::Line(line))
    }

    /// Reads the next message or batch. Blank lines are skipped. So are lines that are
    /// too long or no message; those are counted and logged.
    pub fn read_message(&mut self, metrics: &mut Metrics, logger: &mut Logger) -> (r: Result<
        MessageRead,
        CodecError,
    >)
        ensures
            final(self).limit() == old(self).limit(),
            ({
                let n = next_message(old(self)@, old(self).limit() as nat);
                &&& final(self)@ == n.1
                &&& *final(metrics) == (Metrics {
                    decode_errors: counted_by(old(metrics).decode_errors, all_errors(n).len()),
                    ..*old(metrics)
                })
                &&& final(logger)@ == logged_errors(old(logger)@, all_errors(n))
                &&& match n.0 {
                    MessageStep::Message(line) => r matches Ok(MessageRead::Message(p)) && line_is(
                        line,
                        p@,
                    ),
                    MessageStep::NotText => r matches Err(CodecError::InvalidUtf8),
                    MessageStep::Overflow(size) => r matches Err(
                        CodecError::BufferOverflow { size: s, limit },
                    ) && s == size && limit == old(self).limit(),
                    MessageStep::More => r matches Ok(MessageRead::More),
                    MessageStep::End => r matches Ok(MessageRead::End),
                }
            }),
            written_is_read(old(self)@, r),
    {
        let ghost limit = self.limit() as nat;
        let ghost whole = next_message(self@, limit);
        let ghost m0 = *metrics;
        let ghost l0 = logger@;
        let ghost mut done: Seq<Seq<char>> = seq![];
        let ghost s0 = self@;
        let ghost mut first = true;
        assert(whole.2 =~= done + next_message(self@, limit).2);
        loop
            invariant
                s0 == old(self)@,
                first ==> self@ == s0,
                !first ==> forall|m: MessageView| !#[trigger] comes_next(s0, m),
                self.limit() == limit,
                limit == old(self).limit(),
                whole == next_message(old(self)@, limit),
                m0 == *old(metrics),
                l0 == old(logger)@,
                whole.0 == next_message(self@, limit).0,
                whole.1 == next_message(self@, limit).1,
                whole.2 == done + next_message(self@, limit).2,
                *metrics == (Metrics {
                    decode_errors: counted_by(m0.decode_errors, done.len()),
                    ..m0
                }),
                logger@ == logged_errors(l0, done),
            decreases self@.fresh.len() + self@.line.len(),
        {
            let ghost s = self@;
            proof {
                lemma_newline_at(s.fresh, 0);
                assert forall|m: MessageView| #[trigger] comes_next(s0, m) implies is_line_of(
                    next_line(s, limit).0,
                    m,
                ) by {
                    if first {
                        lemma_comes_next(s, m, limit);
                    }
                }
                first = false;
            }
            let mut raw = match self.read_line_raw() {
                Err(e) => {
                    assert(whole.2 =~= done);
                    return Err(e);
                },
                Ok(LineRead::More) => {
                    assert(whole.2 =~= done);
                    return Ok(MessageRead::More);
                },
                Ok(LineRead::End) => {
                    assert(whole.2 =~= done);
                    return Ok(MessageRead::End);
                },
                Ok(LineRead::Line(v)) => v,
            };
            let ghost whole_line = raw@;
            if raw.len() > 0 && raw[raw.len() - 1] == 0x0d {
                raw.pop();
            }
            assert(raw@ =~= without_return(whole_line));
            if blank_line(&raw) {
                continue;
            }
            let size: usize = raw.len();
            let ghost bytes = raw@;
            let line = match utf8_text(raw) {
                Some(s) => s,
                None => {
                    let words = "invalid UTF-8 on stdout — killing child";
                    proof {
                        lemma_counted_by_next(m0.decode_errors, done.len());
                        lemma_logged_errors_push(l0, done, words@);
                        assert(whole.2 =~= done);
                    }
                    Metrics::inc(&mut metrics.decode_errors);
                    logger.error(words);
                    return Err(CodecError::InvalidUtf8);
                },
            };
            let words: String = if size > MAX_MESSAGE_SIZE {
                let n = decimal_text(size as u64);
                let p = take_chars(line.as_str(), ERROR_PREVIEW_LEN);
                "message exceeds 16MB limit (".to_owned().concat(n.as_str()).concat(
                    " bytes), skipping: ",
                ).concat(p.as_str())
            } else {
                match parse_line(line.as_str()) {
                    Ok(parsed) => {
                        assert(whole.2 =~= done);
                        return Ok(MessageRead::Message(parsed));
                    },
                    Err(e) => {
                        let t = e.message();
                        let p = take_chars(line.as_str(), ERROR_PREVIEW_LEN);
                        "JSON parse error: ".to_owned().concat(t.as_str()).concat(
                            " — skipping: ",
                        ).concat(p.as_str())
                    },
                }
            };
            Metrics::inc(&mut metrics.decode_errors);
            logger.error(words.as_str());
            proof {
                assert(line_kind(whole_line) == LineKind::Faulty(words@));
                lemma_counted_by_next(m0.decode_errors, done.len());
                lemma_logged_errors_push(l0, done, words@);
                let after = next_message(self@, limit).2;
                assert(done + (seq![words@] + after) =~= done.push(words@) + after);
                done = done.push(words@);
            }
        }
    }
}

proof fn lemma_counted_by_next(c: u64, n: nat)
    ensures
        counted_by(c, n + 1) == counted(counted_by(c, n)),
    decreases n,
{
    reveal_with_fuel(counted_by, 2);
    if n > 0 {
        lemma_counted_by_next(counted(c), (n - 1) as nat);
    }
}

proof fn lemma_logged_errors_push(log: LoggerView, texts: Seq<Seq<char>>, last: Seq<char>)
    ensures
        logged_errors(log, texts.push(last)) == logged_errors(log, texts).error(last),
    decreases texts.len(),
{
    reveal_with_fuel(logged_errors, 2);
    if texts.len() > 0 {
        lemma_logged_errors_push(log.error(texts[0]), texts.drop_first(), last);
        assert(texts.push(last).drop_first() =~= texts.drop_first().push(last));
    } else {
        assert(texts.push(last).drop_first() =~= Seq::<Seq<char>>::empty());
    }
}

fn blank_line(raw: &Vec<u8>) -> (r: bool)
    ensures
        r == is_blank_line(raw@),
{
    let mut i: usize = 0;
    while i < raw.len()
        invariant
            i <= raw.len(),
            forall|k: int| 0 <= k < i ==> is_blank_byte(#[trigger] raw@[k]),
        decreases raw.len() - i,
    {
        if !blank_byte(raw[i]) {
            assert(!is_blank_byte(raw@[i as int]));
            return false;
        }
        i += 1;
    }
    true
}

/// The bytes of a message on the wire: its JSON text and a newline.
pub open spec fn message_bytes(text: Seq<char>) -> Seq<u8> {
    encode_utf8(text).push(0x0a)
}

/// Appends a message to what goes to a child.
pub fn write_message(out: &mut Vec<u8>, msg: &RawMessage)
    ensures
        final(out)@ == old(out)@ + message_bytes(message_text(msg@)),
{
    let json = msg.to_json();
    let ghost before = out@;
    out.extend_from_slice(json.as_str().as_bytes());
    out.push(0x0a);
    assert(out@ =~= before + message_bytes(message_text(msg@)));
}

proof fn lemma_newline_at_is(bytes: Seq<u8>, from: int, at: int)
    requires
        0 <= from <= at <= bytes.len(),
        at < bytes.len() ==> bytes[at] == 0x0a,
        forall|k: int| from <= k < at ==> bytes[k] != 0x0a,
    ensures
        newline_at(bytes, from) == at,
    decreases at - from,
{
    if from < at {
        lemma_newline_at_is(bytes, from + 1, at);
    }
}

/// A stream with more bytes on it.
pub open spec fn fed(s: Stream, more: Seq<u8>) -> Stream {
    Stream { fresh: s.fresh + more, ..s }
}

/// Where there is no complete line yet, looking again with more bytes finds what a look at
/// all of them finds.
proof fn lemma_next_line_goes_on(s: Stream, more: Seq<u8>, limit: nat)
    requires
        next_line(s, limit).0 is More,
    ensures
        next_line(fed(s, more), limit) == next_line(fed(next_line(s, limit).1, more), limit),
{
    let t = fed(s, more);
    let rest = next_line(s, limit).1;
    let u = fed(rest, more);
    let n = s.fresh.len() as int;
    lemma_newline_at(s.fresh, 0);
    lemma_newline_at(more, 0);
    let k = newline_at(more, 0);
    assert(u.fresh =~= more);
    assert forall|j: int| 0 <= j < n + k implies t.fresh[j] != 0x0a by {
        if j >= n {
            assert(t.fresh[j] == more[j - n]);
        }
    }
    lemma_newline_at_is(t.fresh, 0, n + k);
    assert(s.line + t.fresh =~= u.line + u.fresh);
    if k < more.len() {
        assert(s.line + t.fresh.take(n + k) =~= u.line + u.fresh.take(k));
        assert(t.fresh.skip(n + k + 1) =~= u.fresh.skip(k + 1));
    }
}

/// A complete line is found whatever follows it.
proof fn lemma_next_line_stays(s: Stream, more: Seq<u8>, limit: nat)
    requires
        newline_at(s.fresh, 0) < s.fresh.len(),
    ensures
        next_line(fed(s, more), limit).0 == next_line(s, limit).0,
        next_line(fed(s, more), limit).1 == fed(next_line(s, limit).1, more),
{
    let t = fed(s, more);
    lemma_newline_at(s.fresh, 0);
    let at = newline_at(s.fresh, 0);
    assert forall|j: int| 0 <= j < at implies t.fresh[j] != 0x0a by {
        assert(t.fresh[j] == s.fresh[j]);
    }
    lemma_newline_at_is(t.fresh, 0, at);
    assert(t.fresh.take(at) =~= s.fresh.take(at));
    assert(t.fresh.skip(at + 1) =~= s.fresh.skip(at + 1) + more);
}

/// What is read does not depend on how the bytes were cut into pieces: where the bytes at
/// hand hold no further message, going on with more of them comes to the same as having
/// had them all from the start.
pub proof fn law_reading_ignores_chunks(s: Stream, more: Seq<u8>, limit: nat)
    requires
        next_message(s, limit).0 is More,
    ensures
        ({
            let first = next_message(s, limit);
            let after = next_message(fed(first.1, more), limit);
            next_message(fed(s, more), limit) == (after.0, after.1, first.2 + after.2)
        }),
    decreases s.fresh.len() + s.line.len(),
{
    let t = fed(s, more);
    let (step, rest) = next_line(s, limit);
    let first = next_message(s, limit);
    let after = next_message(fed(first.1, more), limit);
    lemma_newline_at(s.fresh, 0);
    if newline_at(s.fresh, 0) < s.fresh.len() {
        lemma_next_line_stays(s, more, limit);
        law_reading_ignores_chunks(rest, more, limit);
        if let LineKind::Faulty(words) = line_kind(step->Line_0) {
            let log = next_message(rest, limit).2;
            assert(seq![words] + (log + after.2) =~= (seq![words] + log) + after.2);
        }
    } else if step is More {
        lemma_next_line_goes_on(s, more, limit);
        assert(first.2 + after.2 =~= after.2);
    }
}

/// A message that was written is the next message that is read, and nothing is skipped
/// on the way. Its text must be one that reads as a message, hold no line break, and stay
/// within the limit.
pub proof fn law_written_message_is_read(m: MessageView, rest: Seq<u8>, ended: bool, limit: nat)
    requires
        line_error(message_text(m)) is None,
        forall|k: int|
            0 <= k < encode_utf8(message_text(m)).len() ==> #[trigger] encode_utf8(message_text(m))[k]
                != 0x0a,
        encode_utf8(message_text(m)).len() <= MAX_MESSAGE_SIZE,
    ensures
        next_message(
            Stream { line: seq![], fresh: message_bytes(message_text(m)) + rest, ended },
            limit,
        ) == (
            MessageStep::Message(message_text(m)),
            Stream { line: seq![], fresh: rest, ended },
            Seq::<Seq<char>>::empty(),
        ),
{
    let text = message_text(m);
    let bytes = encode_utf8(text);
    let s = Stream { line: seq![], fresh: message_bytes(text) + rest, ended };
    assert(s.fresh[bytes.len() as int] == 0x0a);
    assert forall|k: int| 0 <= k < bytes.len() implies s.fresh[k] != 0x0a by {
        assert(s.fresh[k] == bytes[k]);
    }
    lemma_newline_at_is(s.fresh, 0, bytes.len() as int);
    assert(s.line + s.fresh.take(bytes.len() as int) =~= bytes);
    assert(s.fresh.skip(bytes.len() as int + 1) =~= rest);
    encode_utf8_valid_utf8(text);
    encode_utf8_decode_utf8(text);
    lemma_message_ends(m);
    assert(without_return(bytes) == bytes);
    assert(!is_blank_byte(bytes[0]));
}

/// The text of a message begins and ends with a brace.
proof fn lemma_message_ends(m: MessageView)
    ensures
        encode_utf8(message_text(m)).len() > 0,
        encode_utf8(message_text(m))[0] == 0x7b,
        encode_utf8(message_text(m)).last() != 0x0d,
{
    let text = message_text(m);
    assert(text[0] == '{');
    lemma_first_byte(text);
    lemma_members_last(message_members(m), 0);
    assert(text.last() == '}');
    lemma_last_byte(text);
}

proof fn lemma_members_last(ms: Pairs, from: int)
    requires
        0 <= from,
    ensures
        members_text(ms, from).len() > 0,
        members_text(ms, from).last() == '}',
    decreases ms.len() - from,
{
    if from < ms.len() {
        lemma_members_last(ms, from + 1);
    }
}

/// An ASCII character at the end of a text is its last byte.
proof fn lemma_last_byte(text: Seq<char>)
    requires
        text.len() > 0,
        text.last() == '}',
    ensures
        encode_utf8(text).len() > 0,
        encode_utf8(text).last() == 0x7d,
    decreases text.len(),
{
    reveal_with_fuel(encode_utf8, 2);
    if text.len() == 1 {
        assert(text.drop_first() =~= Seq::<char>::empty());
        assert((0x7du32 & 0x7f) as u8 == 0x7d) by (bit_vector);
        assert(encode_scalar(0x7d) =~= seq![0x7du8]);
    } else {
        lemma_last_byte(text.drop_first());
    }
}

/// One line of stderr: without its newline and carriage return, cut to the limit.
pub open spec fn stderr_bytes(raw: Seq<u8>, max_line: nat) -> Seq<u8> {
    let a = if raw.len() > 0 && raw.last() == 0x0a {
        raw.drop_last()
    } else {
        raw
    };
    let b = without_return(a);
    if b.len() > max_line {
        b.take(max_line as int)
    } else {
        b
    }
}

/// Reads a line from what came in on stderr. Gives the text, with replacement characters
/// for what is not UTF-8, and the number of bytes read; nothing where nothing came in.
pub fn read_stderr_line(input: &[u8], max_line: usize) -> (r: (Option<String>, usize))
    ensures
        input@.len() == 0 ==> r.0 is None && r.1 == 0,
        input@.len() > 0 ==> ({
            let at = newline_at(input@, 0);
            let end = if at < input@.len() {
                at + 1
            } else {
                at
            };
            let bytes = stderr_bytes(input@.take(end), max_line as nat);
            &&& r.1 == end
            &&& r.0 matches Some(s) && s@ == utf8_lossy(bytes) && (valid_utf8(bytes) ==> s@
                == decode_utf8(bytes))
        }),
{
    if input.len() == 0 {
        return (None, 0);
    }
    let mut at: usize = 0;
    while at < input.len() && input[at] != 0x0a
        invariant
            at <= input.len(),
            newline_at(input@, 0) == newline_at(input@, at as int),
        decreases input.len() - at,
    {
        at += 1;
    }
    let end: usize = if at < input.len() {
        at + 1
    } else {
        at
    };
    let ghost raw = input@.take(end as int);
    proof {
        lemma_newline_at(input@, 0);
    }
    let mut to: usize = at;
    if to > 0 && input[to - 1] == 0x0d {
        to -= 1;
    }
    if to > max_line {
        to = max_line;
    }
    let line = vstd::slice::slice_subrange(input, 0, to);
    assert(raw.last() == input@[end - 1]);
    assert(line@ =~= stderr_bytes(raw, max_line as nat));
    (Some(utf8_text_lossy(line)), end)
}

/// What becomes of a line that is complete, with what came of it before: a carriage return at
/// its end does not count, blank lines are passed over, a line that is no UTF-8 ends the
/// reading, one that is too long or no JSON-RPC is logged and passed over, and any other is
/// the next message, word for word. What stands behind the line is read afterwards.
pub proof fn law_line_becomes_a_message(
    line: Seq<u8>,
    raw: Seq<u8>,
    rest: Seq<u8>,
    ended: bool,
    limit: nat,
    bytes: Seq<u8>,
)
    requires
        forall|k: int| 0 <= k < raw.len() ==> #[trigger] raw[k] != 0x0a,
        line + raw == bytes.push(0x0d) || (line + raw == bytes && (bytes.len() == 0 || bytes.last()
            != 0x0d)),
    ensures
        ({
            let s = Stream { line, fresh: raw + seq![0x0au8] + rest, ended };
            let behind = Stream { line: seq![], fresh: rest, ended };
            let text = decode_utf8(bytes);
            let blank = forall|i: int| 0 <= i < bytes.len() ==> is_blank_byte(#[trigger] bytes[i]);
            let good = bytes.len() <= 16_777_216 && line_error(text) is None;
            let (step, after, log) = next_message(s, limit);
            let (later, end, later_log) = next_message(behind, limit);
            &&& blank ==> step == later && after == end && log == later_log
            &&& !blank && !valid_utf8(bytes) ==> step is NotText && after == behind && log.len()
                == 0
            &&& !blank && valid_utf8(bytes) && good ==> step == MessageStep::Message(text) && after
                == behind && log.len() == 0
            &&& !blank && valid_utf8(bytes) && !good ==> step == later && after == end
                && log.len() == later_log.len() + 1 && log.skip(1) == later_log
        }),
{
    let s = Stream { line, fresh: raw + seq![0x0au8] + rest, ended };
    let n = raw.len() as int;
    assert(s.fresh[n] == 0x0a);
    assert forall|k: int| 0 <= k < n implies s.fresh[k] != 0x0a by {
        assert(s.fresh[k] == raw[k]);
    }
    lemma_newline_at_is(s.fresh, 0, n);
    assert(s.fresh.take(n) =~= raw);
    assert(s.fresh.skip(n + 1) =~= rest);
    let behind = Stream { line: seq![], fresh: rest, ended };
    assert(next_line(s, limit) == (LineStep::Line(line + raw), behind));
    let (later, end, later_log) = next_message(behind, limit);
    assert(bytes.push(0x0d).drop_last() =~= bytes);
    assert(without_return(line + raw) == bytes);
    if let LineKind::Faulty(words) = line_kind(line + raw) {
        assert((seq![words] + later_log).skip(1) =~= later_log);
    }
}

/// Bytes that hold no complete line are kept until more come, unless they are too many. When
/// the stream has ended, they are the last line; where there are none, that is the end.
pub proof fn law_rest_waits_for_its_line(line: Seq<u8>, raw: Seq<u8>, ended: bool, limit: nat)
    requires
        forall|k: int| 0 <= k < raw.len() ==> #[trigger] raw[k] != 0x0a,
    ensures
        ({
            let s = Stream { line, fresh: raw, ended };
            let (step, after, log) = next_message(s, limit);
            let whole = line + raw;
            let full = raw.len() > 0 && whole.len() > limit;
            &&& full ==> step == MessageStep::Overflow(whole.len()) && log.len() == 0
            &&& !full && !ended ==> step is More && after == (Stream {
                line: whole,
                fresh: seq![],
                ended,
            }) && log.len() == 0
            &&& !full && ended && whole.len() == 0 ==> step is End && log.len() == 0
            &&& !full && ended && whole.len() > 0 && valid_utf8(without_return(whole))
                && !is_blank_line(without_return(whole)) && without_return(whole).len()
                <= 16_777_216 && line_error(decode_utf8(without_return(whole))) is None ==> step
                == MessageStep::Message(decode_utf8(without_return(whole)))
        }),
{
    lemma_newline_at_is(raw, 0, raw.len() as int);
}

/// A message goes to a child as its text in UTF-8, and then a line break.
pub proof fn law_message_is_a_line(text: Seq<char>)
    ensures
        message_bytes(text).len() == encode_utf8(text).len() + 1,
        message_bytes(text).drop_last() == encode_utf8(text),
        message_bytes(text).last() == 0x0a,
{
    assert(message_bytes(text).drop_last() =~= encode_utf8(text));
}

/// A line of stderr is given without its line break and carriage return, up to the limit.
pub proof fn law_line_of_stderr_is_cut(line: Seq<u8>, max_line: nat)
    requires
        line.len() == 0 || (line.last() != 0x0d && line.last() != 0x0a),
    ensures
        ({
            let kept = if line.len() <= max_line {
                line
            } else {
                line.take(max_line as int)
            };
            &&& stderr_bytes(line, max_line) == kept
            &&& stderr_bytes(line.push(0x0a), max_line) == kept
            &&& stderr_bytes(line.push(0x0d).push(0x0a), max_line) == kept
        }),
{
    assert(line.push(0x0a).drop_last() =~= line);
    assert(line.push(0x0d).push(0x0a).drop_last() =~= line.push(0x0d));
    assert(line.push(0x0d).drop_last() =~= line);
}

/// As many are counted as there are, and every error is logged, in its order.
pub proof fn law_faults_are_counted_and_logged(c: u64, n: nat, log: LoggerView, texts: Seq<Seq<char>>)
    requires
        c + n <= u64::MAX,
        log.level != LogLevel::Off,
        log.buffer is None,
    ensures
        counted_by(c, n) == c + n,
        ({
            let after = logged_errors(log, texts);
            &&& after.pending.len() == log.pending.len() + texts.len()
            &&& after.pending.take(log.pending.len() as int) == log.pending
            &&& forall|i: int|
                0 <= i < texts.len() ==> #[trigger] after.pending[log.pending.len() + i] == (
                    true,
                    "[supergateway] "@ + texts[i],
                )
        }),
{
    lemma_counted_by(c, n);
    lemma_all_logged(log, texts);
    let after = logged_errors(log, texts);
    assert(after.pending.take(log.pending.len() as int) =~= log.pending);
}

proof fn lemma_counted_by(c: u64, n: nat)
    requires
        c + n <= u64::MAX,
    ensures
        counted_by(c, n) == c + n,
    decreases n,
{
    if n > 0 {
        lemma_counted_by(counted(c), (n - 1) as nat);
    }
}

proof fn lemma_all_logged(log: LoggerView, texts: Seq<Seq<char>>)
    requires
        log.level != LogLevel::Off,
        log.buffer is None,
    ensures
        logged_errors(log, texts).pending == log.pending + Seq::new(
            texts.len(),
            |i: int| (true, "[supergateway] "@ + texts[i]),
        ),
    decreases texts.len(),
{
    let all = Seq::new(texts.len(), |i: int| (true, "[supergateway] "@ + texts[i]));
    if texts.len() > 0 {
        let rest = texts.drop_first();
        let first = log.error(texts[0]);
        lemma_all_logged(first, rest);
        let some = Seq::new(rest.len(), |i: int| (true, "[supergateway] "@ + rest[i]));
        assert(log.pending.push(all[0]) + some =~= log.pending + all);
    } else {
        assert(log.pending + all =~= log.pending);
    }
}

} // verus!
