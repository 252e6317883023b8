//! Counters and log lines.

use vstd::prelude::*;
use vstd::string::*;

use crate::cli::{LogLevel, OutputTransport};
use crate::text::{decimal, decimal_text};

verus! {

/// What the gateway counts.
#[derive(Clone, Copy, PartialEq, Eq, Structural, Debug)]
pub struct Metrics {
    pub active_sessions: u64,
    pub active_children: u64,
    pub active_clients: u64,
    pub total_requests: u64,
    pub total_spawns: u64,
    pub spawn_failures: u64,
    pub session_timeouts: u64,
    pub forced_kills: u64,
    pub client_disconnects: u64,
    pub backpressure_events: u64,
    pub queue_depth_max: u64,
    pub decode_errors: u64,
    /// Set once the child runs, the transport is bound and the relay is active.
    pub ready: bool,
}

/// One more; a full counter starts again at zero.
pub open spec fn counted(n: u64) -> u64 {
    if n == u64::MAX {
        0
    } else {
        (n + 1) as u64
    }
}

/// One less, but not below zero.
pub open spec fn discounted(n: u64) -> u64 {
    if n == 0 {
        0
    } else {
        (n - 1) as u64
    }
}

pub open spec fn gauge_line(name: Seq<char>, value: u64, change: Seq<char>) -> Seq<char> {
    name + "="@ + decimal(value as nat) + change
}

/// The line that tells the value of a gauge and how it came about.
pub fn gauge_text(name: &str, value: u64, change: &str) -> (r: String)
    ensures
        r@ == gauge_line(name@, value, change@),
{
    name.to_owned().concat("=").concat(decimal_text(value).as_str()).concat(change)
}

pub open spec fn no_metrics() -> Metrics {
    Metrics {
        active_sessions: 0,
        active_children: 0,
        active_clients: 0,
        total_requests: 0,
        total_spawns: 0,
        spawn_failures: 0,
        session_timeouts: 0,
        forced_kills: 0,
        client_disconnects: 0,
        backpressure_events: 0,
        queue_depth_max: 0,
        decode_errors: 0,
        ready: false,
    }
}

pub open spec fn truth(b: bool) -> Seq<char> {
    if b {
        "true"@
    } else {
        "false"@
    }
}

/// All counters as a JSON object.
pub open spec fn snapshot(m: Metrics) -> Seq<char> {
    "{\"active_sessions\":"@ + decimal(m.active_sessions as nat) + ",\"active_children\":"@
        + decimal(m.active_children as nat) + ",\"active_clients\":"@ + decimal(
        m.active_clients as nat,
    ) + ",\"total_requests\":"@ + decimal(m.total_requests as nat) + ",\"total_spawns\":"@
        + decimal(m.total_spawns as nat) + ",\"spawn_failures\":"@ + decimal(
        m.spawn_failures as nat,
    ) + ",\"session_timeouts\":"@ + decimal(m.session_timeouts as nat) + ",\"forced_kills\":"@
        + decimal(m.forced_kills as nat) + ",\"client_disconnects\":"@ + decimal(
        m.client_disconnects as nat,
    ) + ",\"backpressure_events\":"@ + decimal(m.backpressure_events as nat)
        + ",\"queue_depth_max\":"@ + decimal(m.queue_depth_max as nat) + ",\"decode_errors\":"@
        + decimal(m.decode_errors as nat) + ",\"ready\":"@ + truth(m.ready) + "}"@
}

impl Metrics {
    pub fn new() -> (r: Metrics)
        ensures
            r == no_metrics(),
    {
        Metrics {
            active_sessions: 0,
            active_children: 0,
            active_clients: 0,
            total_requests: 0,
            total_spawns: 0,
            spawn_failures: 0,
            session_timeouts: 0,
            forced_kills: 0,
            client_disconnects: 0,
            backpressure_events: 0,
            queue_depth_max: 0,
            decode_errors: 0,
            ready: false,
        }
    }

    /// Marks the gateway as ready.
    pub fn set_ready(&mut self)
        ensures
            *final(self) == (Metrics { ready: true, ..*old(self) }),
    {
        self.ready = true;
    }

    pub fn is_ready(&self) -> (r: bool)
        ensures
            r == self.ready,
    {
        self.ready
    }

    /// Counts one more.
    pub fn inc(counter: &mut u64)
        ensures
            *final(counter) == counted(*old(counter)),
    {
        *counter = counter.wrapping_add(1);
    }

    /// Counts one more and logs the new value.
    pub fn inc_and_log(counter: &mut u64, name: &str, logger: &mut Logger)
        ensures
            *final(counter) == counted(*old(counter)),
            final(logger)@ == old(logger)@.info(
                gauge_line(name@, counted(*old(counter)), " (+1)"@),
            ),
    {
        *counter = counter.wrapping_add(1);
        logger.info(gauge_text(name, *counter, " (+1)").as_str());
    }

    /// Counts one less, but not below zero, and logs the new value.
    pub fn dec_and_log(counter: &mut u64, name: &str, logger: &mut Logger)
        ensures
            *final(counter) == discounted(*old(counter)),
            final(logger)@ == old(logger)@.info(
                gauge_line(name@, discounted(*old(counter)), " (-1)"@),
            ),
    {
        if *counter > 0 {
            *counter = *counter - 1;
        }
        logger.info(gauge_text(name, *counter, " (-1)").as_str());
    }

    /// Counts one less, but not below zero.
    pub fn dec(counter: &mut u64)
        ensures
            *final(counter) == discounted(*old(counter)),
    {
        if *counter > 0 {
            *counter = *counter - 1;
        }
    }

    /// Keeps the larger of the counter and the value.
    pub fn update_max(counter: &mut u64, value: u64)
        ensures
            *final(counter) == (if value > *old(counter) {
                value
            } else {
                *old(counter)
            }),
    {
        if value > *counter {
            *counter = value;
        }
    }

    /// Writes all counters as a JSON object.
    pub fn snapshot_json(&self) -> (r: String)
        ensures
            r@ == snapshot(*self),
    {
        let mut s = String::new();
        push_counter(&mut s, "{\"active_sessions\":", self.active_sessions);
        push_counter(&mut s, ",\"active_children\":", self.active_children);
        push_counter(&mut s, ",\"active_clients\":", self.active_clients);
        push_counter(&mut s, ",\"total_requests\":", self.total_requests);
        push_counter(&mut s, ",\"total_spawns\":", self.total_spawns);
        push_counter(&mut s, ",\"spawn_failures\":", self.spawn_failures);
        push_counter(&mut s, ",\"session_timeouts\":", self.session_timeouts);
        push_counter(&mut s, ",\"forced_kills\":", self.forced_kills);
        push_counter(&mut s, ",\"client_disconnects\":", self.client_disconnects);
        push_counter(&mut s, ",\"backpressure_events\":", self.backpressure_events);
        push_counter(&mut s, ",\"queue_depth_max\":", self.queue_depth_max);
        push_counter(&mut s, ",\"decode_errors\":", self.decode_errors);
        s.append(",\"ready\":");
        s.append(
            if self.ready {
                "true"
            } else {
                "false"
            },
        );
        s.append("}");
        assert(s@ =~= snapshot(*self));
        s
    }
}

impl Default for Metrics {
    fn default() -> (r: Metrics)
        ensures
            r == no_metrics(),
    {
        Metrics::new()
    }
}

fn push_counter(s: &mut String, label: &str, value: u64)
    ensures
        final(s)@ == old(s)@ + label@ + decimal(value as nat),
{
    s.append(label);
    let d = decimal_text(value);
    s.append(d.as_str());
}

/// A line on its way out.
pub struct LogLine {
    pub to_stderr: bool,
    pub text: String,
}

/// Decides which log lines are written, and where. Errors go to stderr. The rest goes to
/// stdout, unless stdout carries the messages of the protocol: then everything goes to
/// stderr. Lines wait to be fetched and printed, or are kept in a buffer.
pub struct Logger {
    level: LogLevel,
    all_stderr: bool,
    buffer: Option<String>,
    pending: Vec<LogLine>,
}

#[verifier::ext_equal]
pub struct LoggerView {
    pub level: LogLevel,
    pub all_stderr: bool,
    pub buffer: Option<Seq<char>>,
    pub pending: Seq<(bool, Seq<char>)>,
}

impl View for Logger {
    type V = LoggerView;

    closed spec fn view(&self) -> LoggerView {
        LoggerView {
            level: self.level,
            all_stderr: self.all_stderr,
            buffer: match self.buffer {
                Some(b) => Some(b@),
                None => None,
            },
            pending: lines_view(self.pending@),
        }
    }
}

pub open spec fn lines_view(v: Seq<LogLine>) -> Seq<(bool, Seq<char>)> {
    Seq::new(v.len(), |i: int| (v[i].to_stderr, v[i].text@))
}

impl LoggerView {
    /// After one more line.
    pub open spec fn line(self, to_stderr: bool, text: Seq<char>) -> LoggerView {
        match self.buffer {
            Some(b) => LoggerView { buffer: Some(b + text + "\n"@), ..self },
            None => LoggerView { pending: self.pending.push((to_stderr, text)), ..self },
        }
    }

    pub open spec fn info(self, msg: Seq<char>) -> LoggerView {
        if self.level == LogLevel::Off {
            self
        } else {
            self.line(self.all_stderr, "[supergateway] "@ + msg)
        }
    }

    pub open spec fn debug(self, msg: Seq<char>) -> LoggerView {
        if self.level != LogLevel::Debug {
            self
        } else {
            self.line(self.all_stderr, "[supergateway] "@ + msg)
        }
    }

    pub open spec fn error(self, msg: Seq<char>) -> LoggerView {
        if self.level == LogLevel::Off {
            self
        } else {
            self.line(true, "[supergateway] "@ + msg)
        }
    }
}

impl Logger {
    /// A logger whose lines wait to be printed.
    pub fn new(output_transport: OutputTransport, level: LogLevel) -> (r: Logger)
        ensures
            r@ == (LoggerView {
                level,
                all_stderr: output_transport == OutputTransport::Stdio,
                buffer: None,
                pending: seq![],
            }),
    {
        let r = Logger {
            level,
            all_stderr: output_transport == OutputTransport::Stdio,
            buffer: None,
            pending: Vec::new(),
        };
        assert(r@.pending =~= seq![]);
        r
    }

    /// A logger whose lines are kept in a buffer.
    pub fn buffered(output_transport: OutputTransport, level: LogLevel) -> (r: Logger)
        ensures
            r@ == (LoggerView {
                level,
                all_stderr: output_transport == OutputTransport::Stdio,
                buffer: Some(seq![]),
                pending: seq![],
            }),
    {
        let r = Logger {
            level,
            all_stderr: output_transport == OutputTransport::Stdio,
            buffer: Some(String::new()),
            pending: Vec::new(),
        };
        assert(r@.pending =~= seq![]);
        r
    }

    /// What the buffer holds.
    pub fn get_output(&self) -> (r: String)
        ensures
            r@ == (match self@.buffer {
                Some(b) => b,
                None => seq![],
            }),
    {
        match &self.buffer {
            Some(b) => b.clone(),
            None => String::new(),
        }
    }

    /// Fetches the lines that wait to be printed.
    pub fn take_pending(&mut self) -> (r: Vec<LogLine>)
        ensures
            lines_view(r@) == old(self)@.pending,
            final(self)@ == (LoggerView { pending: seq![], ..old(self)@ }),
    {
        let mut lines: Vec<LogLine> = Vec::new();
        std::mem::swap(&mut lines, &mut self.pending);
        assert(self@.pending =~= seq![]);
        lines
    }

    /// Whether every line goes to stderr.
    pub fn all_stderr(&self) -> (r: bool)
        ensures
            r == self@.all_stderr,
    {
        self.all_stderr
    }

    pub fn level(&self) -> (r: LogLevel)
        ensures
            r == self@.level,
    {
        self.level
    }

    pub fn is_debug(&self) -> (r: bool)
        ensures
            r == (self@.level == LogLevel::Debug),
    {
        self.level == LogLevel::Debug
    }

    /// Logs a line, unless logging is off.
    pub fn info(&mut self, msg: &str)
        ensures
            final(self)@ == old(self)@.info(msg@),
    {
        if self.level == LogLevel::Off {
            return;
        }
        let to_stderr = self.all_stderr;
        self.write(to_stderr, msg);
    }

    /// Logs a line for debugging.
    pub fn debug(&mut self, msg: &str)
        ensures
            final(self)@ == old(self)@.debug(msg@),
    {
        if self.level != LogLevel::Debug {
            return;
        }
        let to_stderr = self.all_stderr;
        self.write(to_stderr, msg);
    }

    /// Logs an error, unless logging is off.
    pub fn error(&mut self, msg: &str)
        ensures
            final(self)@ == old(self)@.error(msg@),
    {
        if self.level == LogLevel::Off {
            return;
        }
        self.write(true, msg);
    }

    /// Logs what the gateway is and does.
    pub fn startup(&mut self, version: &str, input_desc: &str, output_desc: &str, port: u16)
        ensures
            final(self)@ == old(self)@.info(
                "supergateway v"@ + version@ + " | "@ + input_desc@ + " → "@ + output_desc@
                    + " | port "@ + decimal(port as nat),
            ),
    {
        let p = decimal_text(port as u64);
        let line = "supergateway v".to_owned().concat(version).concat(" | ").concat(
            input_desc,
        ).concat(" → ").concat(output_desc).concat(" | port ").concat(p.as_str());
        self.info(line.as_str());
    }

    fn write(&mut self, to_stderr: bool, msg: &str)
        ensures
            final(self)@ == old(self)@.line(to_stderr, "[supergateway] "@ + msg@),
    {
        let text = "[supergateway] ".to_owned().concat(msg);
        match self.buffer.take() {
            Some(b) => {
                self.buffer = Some(b.concat(text.as_str()).concat("\n"));
            },
            None => {
                let ghost before = self.pending@;
                self.pending.push(LogLine { to_stderr, text });
                assert(lines_view(self.pending@) =~= lines_view(before).push((to_stderr, text@)));
            },
        }
    }
}

/// Where stdout carries messages, no log line goes there.
pub proof fn law_stdout_is_kept_clean(log: LoggerView, msg: Seq<char>)
    requires
        log.all_stderr,
        forall|i: int| 0 <= i < log.pending.len() ==> (#[trigger] log.pending[i]).0,
    ensures
        forall|i: int| 0 <= i < log.info(msg).pending.len() ==> (#[trigger] log.info(msg).pending[i]).0,
        forall|i: int|
            0 <= i < log.debug(msg).pending.len() ==> (#[trigger] log.debug(msg).pending[i]).0,
        forall|i: int|
            0 <= i < log.error(msg).pending.len() ==> (#[trigger] log.error(msg).pending[i]).0,
        log.info(msg).all_stderr,
        log.debug(msg).all_stderr,
        log.error(msg).all_stderr,
{
}

/// With logging off nothing is ever written.
pub proof fn law_off_writes_nothing(log: LoggerView, msg: Seq<char>)
    requires
        log.level == LogLevel::Off,
    ensures
        log.info(msg) == log,
        log.debug(msg) == log,
        log.error(msg) == log,
{
}

/// A counter goes up by one, and a gauge goes down by one but never below zero.
pub proof fn law_counters_count(n: u64)
    ensures
        n < u64::MAX ==> counted(n) == n + 1,
        n > 0 ==> discounted(n) == n - 1,
        discounted(0) == 0,
        n < u64::MAX ==> discounted(counted(n)) == n,
{
}

/// Every level but off writes news and errors, only the debug level writes details, and the
/// line is the last, with its mark before it. Errors go to standard error, and the rest too
/// where standard output belongs to the transport.
pub proof fn law_log_lines_are_written(log: LoggerView, msg: Seq<char>)
    requires
        log.buffer is None,
    ensures
        ({
            let line = "[supergateway] "@ + msg;
            let out = LoggerView { pending: log.pending.push((log.all_stderr, line)), ..log };
            let err = LoggerView { pending: log.pending.push((true, line)), ..log };
            &&& log.level == LogLevel::Info ==> log.info(msg) == out && log.error(msg) == err
                && log.debug(msg) == log
            &&& log.level == LogLevel::Debug ==> log.info(msg) == out && log.error(msg) == err
                && log.debug(msg) == out
        }),
{
}

/// A log that is kept in memory gets the same lines, each with a line break behind it.
pub proof fn law_log_is_kept_in_memory(log: LoggerView, msg: Seq<char>)
    requires
        log.buffer is Some,
        log.level == LogLevel::Debug,
    ensures
        ({
            let kept = LoggerView {
                buffer: Some(log.buffer->Some_0 + ("[supergateway] "@ + msg) + "\n"@),
                ..log
            };
            log.info(msg) == kept && log.error(msg) == kept && log.debug(msg) == kept
        }),
{
}

/// All counters begin at zero and nothing is ready at first.
pub proof fn law_metrics_begin_at_zero(m: Metrics)
    requires
        m == no_metrics(),
    ensures
        !m.ready,
        m.active_sessions == 0 && m.active_children == 0 && m.active_clients == 0,
        m.total_requests == 0 && m.total_spawns == 0 && m.spawn_failures == 0,
        m.session_timeouts == 0 && m.forced_kills == 0 && m.client_disconnects == 0,
        m.backpressure_events == 0 && m.queue_depth_max == 0 && m.decode_errors == 0,
{
}

/// A gauge that moved is logged with its name, its new value and by how much it moved.
pub proof fn law_gauge_is_logged(name: Seq<char>, value: u64)
    ensures
        gauge_line(name, value, " (+1)"@) == name + "="@ + decimal(value as nat) + " (+1)"@,
        gauge_line(name, value, " (-1)"@) == name + "="@ + decimal(value as nat) + " (-1)"@,
{
}

} // verus!
