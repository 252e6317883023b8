//! Sessions of the stateful HTTP transport.

use vstd::prelude::*;
use vstd::string::*;

use crate::store::Store;
use crate::system::{is_uuid, new_uuid};

verus! {

/// Why a session cannot be used.
#[derive(Clone, Copy, PartialEq, Eq, Structural, Debug)]
pub enum SessionError {
    NotFound,
    Closing,
    MaxSessionsReached,
}

/// The name of a session, or of a client.
#[derive(Debug)]
pub struct SessionId {
    pub value: String,
}

impl View for SessionId {
    type V = Seq<char>;

    open spec fn view(&self) -> Seq<char> {
        self.value@
    }
}

impl SessionId {
    /// A name at random.
    pub fn new() -> (r: SessionId)
        ensures
            is_uuid(r@),
    {
        SessionId { value: new_uuid() }
    }

    /// The name that somebody gave.
    pub fn from_value(value: &str) -> (r: SessionId)
        ensures
            r@ == value@,
    {
        SessionId { value: value.to_owned() }
    }

    pub fn as_str(&self) -> (r: &str)
        ensures
            r@ == self@,
    {
        self.value.as_str()
    }
}

impl Clone for SessionId {
    fn clone(&self) -> (r: SessionId)
        ensures
            r@ == self@,
    {
        SessionId { value: self.value.clone() }
    }
}

/// The limits on sessions.
#[derive(Clone, Copy, PartialEq, Eq, Structural, Debug)]
pub struct SessionManagerConfig {
    pub max_sessions: usize,
    /// How long a session that is deleted waits for requests in progress, in milliseconds.
    pub drain_timeout: u64,
    /// How long a session may be idle, in milliseconds.
    pub session_timeout: Option<u64>,
}

/// A session and what belongs to it.
pub struct Session<D> {
    pub data: D,
    pub closing: bool,
    pub access_count: u64,
    pub timeout_gen: u64,
}

#[verifier::ext_equal]
pub struct SessionState<V> {
    pub data: V,
    /// Whether the session was deleted and only waits for requests in progress.
    pub closing: bool,
    /// How many requests are in progress.
    pub access_count: u64,
    /// How often the session was used. A timer that was set before the last use is stale.
    pub timeout_gen: u64,
}

impl<D: View> View for Session<D> {
    type V = SessionState<D::V>;

    open spec fn view(&self) -> SessionState<D::V> {
        SessionState {
            data: self.data@,
            closing: self.closing,
            access_count: self.access_count,
            timeout_gen: self.timeout_gen,
        }
    }
}

/// The sessions by their ids.
pub struct SessionManager<D> {
    pub config: SessionManagerConfig,
    pub sessions: Store<Session<D>>,
}

pub open spec fn fresh_session<V>(data: V) -> SessionState<V> {
    SessionState { data, closing: false, access_count: 0, timeout_gen: 0 }
}

/// Why a session cannot be used, if it cannot.
pub open spec fn unusable<V>(m: Map<Seq<char>, SessionState<V>>, id: Seq<char>) -> Option<
    SessionError,
> {
    if !m.dom().contains(id) {
        Some(SessionError::NotFound)
    } else if m[id].closing {
        Some(SessionError::Closing)
    } else {
        None
    }
}

/// A session in use by one request more.
pub open spec fn acquired<V>(s: SessionState<V>) -> SessionState<V> {
    SessionState {
        access_count: if s.access_count < u64::MAX {
            (s.access_count + 1) as u64
        } else {
            s.access_count
        },
        timeout_gen: if s.timeout_gen < u64::MAX {
            (s.timeout_gen + 1) as u64
        } else {
            0
        },
        ..s
    }
}

/// A session in use by one request less.
pub open spec fn released<V>(s: SessionState<V>) -> SessionState<V> {
    SessionState {
        access_count: if s.access_count > 0 {
            (s.access_count - 1) as u64
        } else {
            0
        },
        ..s
    }
}

/// Whether a timer that was set at the given use may close the session.
pub open spec fn is_idle<V>(m: Map<Seq<char>, SessionState<V>>, id: Seq<char>, gen: u64) -> bool {
    m.dom().contains(id) && !m[id].closing && m[id].access_count == 0 && m[id].timeout_gen == gen
}

/// Whether a session that was deleted is free to go.
pub open spec fn is_drained<V>(m: Map<Seq<char>, SessionState<V>>, id: Seq<char>) -> bool {
    m.dom().contains(id) && m[id].closing && m[id].access_count == 0
}

impl<D: View> SessionManager<D> {
    pub open spec fn table(self) -> Map<Seq<char>, SessionState<D::V>> {
        self.sessions@
    }

    pub fn new(config: SessionManagerConfig) -> (r: SessionManager<D>)
        ensures
            r.config == config,
            r.table() == Map::<Seq<char>, SessionState<D::V>>::empty(),
    {
        SessionManager { config, sessions: Store::new() }
    }

    /// The number of sessions.
    pub fn len(&self) -> (r: usize)
        ensures
            r == self.table().dom().len(),
    {
        self.sessions.len()
    }

    /// Adds a session, unless there are as many as there may be.
    pub fn create(&mut self, id: SessionId, data: D) -> (r: Result<SessionId, SessionError>)
        ensures
            final(self).config == old(self).config,
            match r {
                Ok(x) => x == id && old(self).table().dom().len() < old(self).config.max_sessions
                    && final(self).table() == old(self).table().insert(
                    id@,
                    fresh_session(data@),
                ),
                Err(e) => e == SessionError::MaxSessionsReached && old(self).table().dom().len()
                    >= old(self).config.max_sessions && final(self).table() == old(self).table(),
            },
    {
        if self.sessions.len() >= self.config.max_sessions {
            return Err(SessionError::MaxSessionsReached);
        }
        self.sessions.insert(
            id.value.clone(),
            Session { data, closing: false, access_count: 0, timeout_gen: 0 },
        );
        Ok(id)
    }

    /// Notes that a request uses a session.
    pub fn acquire(&mut self, id: &SessionId) -> (r: Result<(), SessionError>)
        ensures
            final(self).config == old(self).config,
            match unusable(old(self).table(), id@) {
                Some(e) => r == Err::<(), SessionError>(e) && final(self).table()
                    == old(self).table(),
                None => r is Ok && final(self).table() == old(self).table().insert(
                    id@,
                    acquired(old(self).table()[id@]),
                ),
            },
    {
        let ghost m = self.table();
        match self.sessions.remove(id.as_str()) {
            None => {
                assert(self.table() =~= m);
                Err(SessionError::NotFound)
            },
            Some(mut s) => {
                let closing = s.closing;
                if !closing {
                    if s.access_count < u64::MAX {
                        s.access_count = s.access_count + 1;
                    }
                    s.timeout_gen = s.timeout_gen.wrapping_add(1);
                }
                self.sessions.insert(id.value.clone(), s);
                if closing {
                    assert(self.table() =~= m);
                    Err(SessionError::Closing)
                } else {
                    assert(self.table() =~= m.insert(id@, acquired(m[id@])));
                    Ok(())
                }
            },
        }
    }

    /// Notes that a request is done with a session.
    pub fn release(&mut self, id: &SessionId)
        ensures
            final(self).config == old(self).config,
            final(self).table() == (if old(self).table().dom().contains(id@) {
                old(self).table().insert(id@, released(old(self).table()[id@]))
            } else {
                old(self).table()
            }),
    {
        let ghost m = self.table();
        if let Some(mut s) = self.sessions.remove(id.as_str()) {
            if s.access_count > 0 {
                s.access_count = s.access_count - 1;
            }
            self.sessions.insert(id.value.clone(), s);
            assert(self.table() =~= m.insert(id@, released(m[id@])));
        } else {
            assert(self.table() =~= m);
        }
    }

    /// Starts to delete a session. Says whether this was the first time.
    pub fn begin_delete(&mut self, id: &SessionId) -> (r: Result<bool, SessionError>)
        ensures
            final(self).config == old(self).config,
            match unusable(old(self).table(), id@) {
                Some(SessionError::NotFound) => r == Err::<bool, SessionError>(
                    SessionError::NotFound,
                ) && final(self).table() == old(self).table(),
                Some(_) => r == Ok::<bool, SessionError>(false) && final(self).table()
                    == old(self).table(),
                None => r == Ok::<bool, SessionError>(true) && final(self).table()
                    == old(self).table().insert(
                    id@,
                    SessionState { closing: true, ..old(self).table()[id@] },
                ),
            },
    {
        let ghost m = self.table();
        match self.sessions.remove(id.as_str()) {
            None => {
                assert(self.table() =~= m);
                Err(SessionError::NotFound)
            },
            Some(mut s) => {
                let first = !s.closing;
                s.closing = true;
                self.sessions.insert(id.value.clone(), s);
                if !first {
                    assert(self.table() =~= m);
                }
                Ok(first)
            },
        }
    }

    /// Closes a session that was deleted, once no request uses it. Says whether it did.
    pub fn try_drain_close(&mut self, id: &SessionId) -> (r: bool)
        ensures
            final(self).config == old(self).config,
            r == is_drained(old(self).table(), id@),
            final(self).table() == (if r {
                old(self).table().remove(id@)
            } else {
                old(self).table()
            }),
    {
        let drained = match self.sessions.get(id.as_str()) {
            Some(s) => s.closing && s.access_count == 0,
            None => false,
        };
        if drained {
            self.sessions.remove(id.as_str());
        }
        drained
    }

    /// Closes a session at once. Says whether there was one.
    pub fn complete_close(&mut self, id: &SessionId) -> (r: bool)
        ensures
            final(self).config == old(self).config,
            r == old(self).table().dom().contains(id@),
            final(self).table() == old(self).table().remove(id@),
    {
        self.sessions.remove(id.as_str()).is_some()
    }

    /// Closes a session that nobody has used since. Says whether it did.
    pub fn try_idle_close(&mut self, id: &SessionId, gen: u64) -> (r: bool)
        ensures
            final(self).config == old(self).config,
            r == is_idle(old(self).table(), id@, gen),
            final(self).table() == (if r {
                old(self).table().remove(id@)
            } else {
                old(self).table()
            }),
    {
        let idle = match self.sessions.get(id.as_str()) {
            Some(s) => !s.closing && s.access_count == 0 && s.timeout_gen == gen,
            None => false,
        };
        if idle {
            self.sessions.remove(id.as_str());
        }
        idle
    }

    /// How many requests use a session.
    pub fn access_count(&self, id: &SessionId) -> (r: Option<u64>)
        ensures
            r == (if self.table().dom().contains(id@) {
                Some(self.table()[id@].access_count)
            } else {
                None
            }),
    {
        match self.sessions.get(id.as_str()) {
            Some(s) => Some(s.access_count),
            None => None,
        }
    }

    /// How often a session was used.
    pub fn timeout_gen(&self, id: &SessionId) -> (r: Option<u64>)
        ensures
            r == (if self.table().dom().contains(id@) {
                Some(self.table()[id@].timeout_gen)
            } else {
                None
            }),
    {
        match self.sessions.get(id.as_str()) {
            Some(s) => Some(s.timeout_gen),
            None => None,
        }
    }

    /// Closes all sessions.
    pub fn clear(&mut self)
        ensures
            final(self).config == old(self).config,
            final(self).table() == Map::<Seq<char>, SessionState<D::V>>::empty(),
    {
        self.sessions = Store::new();
    }
}

// ---- Laws ----------------------------------------------------------------------------

/// There are never more sessions than there may be.
pub proof fn law_sessions_are_limited<V>(
    m: Map<Seq<char>, SessionState<V>>,
    id: Seq<char>,
    data: V,
    max: nat,
)
    requires
        m.dom().finite(),
        m.dom().len() < max,
    ensures
        m.insert(id, fresh_session(data)).dom().len() <= max,
{
    assert(m.insert(id, fresh_session(data)).dom() =~= m.dom().insert(id));
}

/// A use of a session makes the timers stale that were set before, and a session in use is
/// never idle.
pub proof fn law_use_stops_timers<V>(m: Map<Seq<char>, SessionState<V>>, id: Seq<char>, gen: u64)
    requires
        is_idle(m, id, gen),
    ensures
        !is_idle(m.insert(id, acquired(m[id])), id, gen),
        !is_idle(m.insert(id, released(acquired(m[id]))), id, gen),
{
}

/// What a request takes of a session it gives back.
pub proof fn law_release_undoes_acquire<V>(s: SessionState<V>)
    requires
        s.access_count < u64::MAX,
    ensures
        released(acquired(s)).access_count == s.access_count,
        released(acquired(s)).data == s.data,
        released(acquired(s)).closing == s.closing,
{
}

/// A session can be used unless there is none of that name or it is being deleted.
pub proof fn law_session_is_usable<V>(m: Map<Seq<char>, SessionState<V>>, id: Seq<char>)
    ensures
        !m.contains_key(id) ==> unusable(m, id) == Some(SessionError::NotFound),
        m.contains_key(id) && m[id].closing ==> unusable(m, id) == Some(SessionError::Closing),
        m.contains_key(id) && !m[id].closing ==> unusable(m, id) is None,
{
}

/// A request in progress is counted until it is done, it makes every timer stale, and it
/// leaves the rest of the session alone.
pub proof fn law_requests_in_progress_are_counted<V>(s: SessionState<V>)
    requires
        s.access_count < u64::MAX,
    ensures
        acquired(s).access_count == s.access_count + 1,
        acquired(s).timeout_gen != s.timeout_gen,
        s.timeout_gen < u64::MAX ==> acquired(s).timeout_gen == s.timeout_gen + 1,
        acquired(s).data == s.data,
        acquired(s).closing == s.closing,
        s.access_count > 0 ==> released(s).access_count == s.access_count - 1,
        s.access_count == 0 ==> released(s).access_count == 0,
        released(s).timeout_gen == s.timeout_gen,
        released(s).data == s.data,
        released(s).closing == s.closing,
{
}

/// A session that a request uses is neither idle nor drained, one that is being deleted is not
/// idle, and only one that is being deleted is drained.
pub proof fn law_session_in_use_stays<V>(m: Map<Seq<char>, SessionState<V>>, id: Seq<char>, gen: u64)
    ensures
        m.contains_key(id) && m[id].access_count > 0 ==> !is_idle(m, id, gen) && !is_drained(m, id),
        m.contains_key(id) && m[id].access_count == 0 && m[id].closing ==> is_drained(m, id)
            && !is_idle(m, id, gen),
        m.contains_key(id) && m[id].access_count == 0 && !m[id].closing ==> !is_drained(m, id) && (
        is_idle(m, id, gen) <==> m[id].timeout_gen == gen),
        !m.contains_key(id) ==> !is_idle(m, id, gen) && !is_drained(m, id),
{
}

/// A new session is not being deleted, nobody uses it and no timer was set for it.
pub proof fn law_session_begins_unused<V>(data: V)
    ensures
        fresh_session(data).data == data,
        !fresh_session(data).closing,
        fresh_session(data).access_count == 0,
        fresh_session(data).timeout_gen == 0,
{
}

} // verus!
