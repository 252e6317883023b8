//! The life of the child process that serves the protocol.

use vstd::prelude::*;
use vstd::string::*;

use crate::codec::{codec_error_text, message_bytes, write_message, CodecError};
use crate::jsonrpc::{message_text, RawMessage};

verus! {

/// How many messages of a child may wait to be fetched.
pub const STDOUT_CHANNEL_CAP: usize = 256;

/// How long a child may take to end before it is killed, in milliseconds.
pub const KILL_TIMEOUT_MS: u64 = 5000;

/// How long a child may take to end when its owner is gone, in milliseconds.
pub const DROP_TIMEOUT_MS: u64 = 1000;

/// What goes wrong with a child.
#[derive(Debug)]
pub enum ChildError {
    Spawn(String),
    BrokenPipe,
    Codec(CodecError),
    StdoutClosed,
    Io(String),
}

pub open spec fn child_error_text(e: ChildError) -> Seq<char> {
    match e {
        ChildError::Spawn(e) => "failed to spawn child: "@ + e@,
        ChildError::BrokenPipe => "broken pipe to child stdin"@,
        ChildError::Codec(e) => "codec error: "@ + codec_error_text(e),
        ChildError::StdoutClosed => "child stdout closed"@,
        ChildError::Io(e) => "I/O error: "@ + e@,
    }
}

impl ChildError {
    /// The error in words.
    pub fn to_string(&self) -> (r: String)
        ensures
            r@ == child_error_text(*self),
    {
        match self {
            ChildError::Spawn(e) => "failed to spawn child: ".to_owned().concat(e.as_str()),
            ChildError::BrokenPipe => "broken pipe to child stdin".to_owned(),
            ChildError::Codec(e) => {
                let t = e.to_string();
                "codec error: ".to_owned().concat(t.as_str())
            },
            ChildError::StdoutClosed => "child stdout closed".to_owned(),
            ChildError::Io(e) => "I/O error: ".to_owned().concat(e.as_str()),
        }
    }
}

/// What is known of a child.
#[derive(Clone, Copy, PartialEq, Eq, Structural, Debug)]
pub struct ChildState {
    /// It ended, was killed, or broke the protocol.
    pub dead: bool,
    pub stdin_open: bool,
    pub exit_code: Option<i32>,
}

/// How an attempt to write to a child went.
#[derive(Debug)]
pub enum WriteOutcome {
    Written,
    PipeBroken,
    Failed(String),
}

/// What to do while a child is asked to end.
#[derive(Clone, Copy, PartialEq, Eq, Structural, Debug)]
pub enum KillStep {
    /// It is gone.
    Done,
    /// Wait a little and look again.
    Wait,
    /// It had its time: kill it.
    Kill,
}

/// What to do next, `elapsed` milliseconds after the child was asked to end.
pub open spec fn kill_step_of(dead: bool, elapsed: u64, timeout: u64) -> KillStep {
    if dead {
        KillStep::Done
    } else if elapsed < timeout {
        KillStep::Wait
    } else {
        KillStep::Kill
    }
}

impl ChildState {
    /// A child that was just started.
    pub fn started() -> (r: ChildState)
        ensures
            r == (ChildState { dead: false, stdin_open: true, exit_code: None }),
    {
        ChildState { dead: false, stdin_open: true, exit_code: None }
    }

    /// The bytes to write to the child, where it can still be written to.
    pub fn begin_write(&self, msg: &RawMessage) -> (r: Result<Vec<u8>, ChildError>)
        ensures
            self.dead || !self.stdin_open ==> r == Err::<Vec<u8>, ChildError>(
                ChildError::BrokenPipe,
            ),
            !self.dead && self.stdin_open ==> (r matches Ok(bytes) && bytes@ == message_bytes(
                message_text(msg@),
            )),
    {
        if self.dead || !self.stdin_open {
            return Err(ChildError::BrokenPipe);
        }
        let mut out: Vec<u8> = Vec::new();
        write_message(&mut out, msg);
        assert(out@ =~= message_bytes(message_text(msg@)));
        Ok(out)
    }

    /// Takes note of how the write went. A broken pipe means that the child is dead.
    pub fn end_write(&mut self, outcome: WriteOutcome) -> (r: Result<(), ChildError>)
        ensures
            match outcome {
                WriteOutcome::Written => *final(self) == *old(self) && r is Ok,
                WriteOutcome::PipeBroken => *final(self) == (ChildState {
                    dead: true,
                    stdin_open: false,
                    ..*old(self)
                }) && r == Err::<(), ChildError>(ChildError::BrokenPipe),
                WriteOutcome::Failed(e) => *final(self) == *old(self) && r == Err::<(), ChildError>(
                    ChildError::Io(e),
                ),
            },
    {
        match outcome {
            WriteOutcome::Written => Ok(()),
            WriteOutcome::PipeBroken => {
                self.dead = true;
                self.stdin_open = false;
                Err(ChildError::BrokenPipe)
            },
            WriteOutcome::Failed(e) => Err(ChildError::Io(e)),
        }
    }

    /// Takes note of an error on the child's output: a breach of the protocol kills it.
    pub fn read_failed(&mut self, e: &CodecError)
        ensures
            *final(self) == (ChildState { dead: old(self).dead || !(e is Io), ..*old(self) }),
    {
        if e.is_fatal() {
            self.dead = true;
        }
    }

    /// Takes note of the end of the process.
    pub fn exited(&mut self, code: Option<i32>)
        ensures
            *final(self) == (ChildState { dead: true, exit_code: code, ..*old(self) }),
    {
        self.dead = true;
        self.exit_code = code;
    }

    /// Takes note that the input of the child was closed.
    pub fn close_stdin(&mut self)
        ensures
            *final(self) == (ChildState { stdin_open: false, ..*old(self) }),
    {
        self.stdin_open = false;
    }

    /// What to do next with a child that was asked to end `elapsed` milliseconds ago.
    pub fn kill_step(&self, elapsed: u64, timeout: u64) -> (r: KillStep)
        ensures
            r == kill_step_of(self.dead, elapsed, timeout),
    {
        if self.dead {
            KillStep::Done
        } else if elapsed < timeout {
            KillStep::Wait
        } else {
            KillStep::Kill
        }
    }
}

/// What stderr lines of a child are logged as; empty ones are not.
pub fn stderr_log_line(line: &str) -> (r: Option<String>)
    ensures
        line@.len() == 0 ==> r is None,
        line@.len() > 0 ==> (r matches Some(s) && s@ == "[child stderr] "@ + line@),
{
    if line.is_empty() {
        None
    } else {
        Some("[child stderr] ".to_owned().concat(line))
    }
}

/// A child that runs is waited for until its time is over and killed then; one that is gone is
/// left alone.
pub proof fn law_child_has_its_time(elapsed: u64, timeout: u64)
    ensures
        kill_step_of(true, elapsed, timeout) == KillStep::Done,
        elapsed < timeout ==> kill_step_of(false, elapsed, timeout) == KillStep::Wait,
        elapsed >= timeout ==> kill_step_of(false, elapsed, timeout) == KillStep::Kill,
{
}

/// The words of an error of a child hold what went wrong.
pub proof fn law_child_error_keeps_its_words(e: ChildError)
    ensures
        e matches ChildError::Spawn(s) ==> child_error_text(e) == "failed to spawn child: "@ + s@,
        e matches ChildError::Io(s) ==> child_error_text(e) == "I/O error: "@ + s@,
        e matches ChildError::Codec(c) ==> child_error_text(e) == "codec error: "@
            + codec_error_text(c),
        e is BrokenPipe ==> child_error_text(e) == "broken pipe to child stdin"@,
        e is StdoutClosed ==> child_error_text(e) == "child stdout closed"@,
{
}

} // verus!
