//! The clients of a gateway that broadcasts. Each has a queue of events of bounded length;
//! whoever does not keep up for too long is dropped.

use std::collections::VecDeque;

use vstd::prelude::*;
use vstd::set_lib::{lemma_len_subset, lemma_set_disjoint_lens};

use crate::observe::{counted, discounted, Metrics};
use crate::store::{lists, Store};

verus! {

/// How many events a client's queue holds.
pub const CLIENT_CHANNEL_CAP: usize = 256;

/// How many events are kept for the first client.
pub const EARLY_BUFFER_CAP: usize = 256;

/// How long a client's queue may stay full, in milliseconds.
pub const BACKPRESSURE_TIMEOUT_MS: u64 = 30_000;

/// An event that can be sent to many clients.
pub trait Event: View + Sized {
    fn copy(&self) -> (r: Self)
        ensures
            r@ == self@,
    ;
}

/// What a queue of events holds.
pub open spec fn queue_view<E: View>(q: Seq<E>) -> Seq<E::V> {
    Seq::new(q.len(), |i: int| q[i]@)
}

/// A connected client.
pub struct Client<E> {
    events: VecDeque<E>,
    listening: bool,
    full_since: Option<u64>,
}

#[verifier::ext_equal]
pub struct ClientView<V> {
    /// What waits for the client, the oldest first.
    pub events: Seq<V>,
    /// Whether somebody still takes the events out.
    pub listening: bool,
    /// Since when the queue has been too full for an event, if it is.
    pub full_since: Option<u64>,
}

impl<E: View> View for Client<E> {
    type V = ClientView<E::V>;

    closed spec fn view(&self) -> ClientView<E::V> {
        ClientView {
            events: queue_view(self.events@),
            listening: self.listening,
            full_since: self.full_since,
        }
    }
}

/// What becomes of a client to whom an event was offered.
#[derive(Clone, Copy, PartialEq, Eq, Structural, Debug)]
pub enum Fate {
    /// It stays.
    Stays,
    /// Its queue was full for too long.
    TimedOut,
    /// Nobody listens any more.
    Gone,
}

/// What becomes of a client to whom an event is offered at `now`.
pub open spec fn fate<V>(c: ClientView<V>, now: u64) -> Fate {
    if !c.listening {
        Fate::Gone
    } else if c.events.len() >= CLIENT_CHANNEL_CAP && c.full_since is Some && now
        - c.full_since->Some_0 >= BACKPRESSURE_TIMEOUT_MS {
        Fate::TimedOut
    } else {
        Fate::Stays
    }
}

/// A client after an event was offered to it at `now`: a queue that is full takes no more,
/// and remembers since when.
pub open spec fn offered<V>(c: ClientView<V>, e: V, now: u64) -> ClientView<V> {
    if !c.listening {
        c
    } else if c.events.len() < CLIENT_CHANNEL_CAP {
        ClientView { events: c.events.push(e), full_since: None, ..c }
    } else if c.full_since is None {
        ClientView { full_since: Some(now), ..c }
    } else {
        c
    }
}

impl<E: View> Client<E> {
    fn offer(&mut self, e: E, now: u64) -> (r: Fate)
        ensures
            final(self)@ == offered(old(self)@, e@, now),
            r == fate(old(self)@, now),
    {
        if !self.listening {
            return Fate::Gone;
        }
        if self.events.len() < CLIENT_CHANNEL_CAP {
            self.events.push_back(e);
            self.full_since = None;
            assert(self@ =~= offered(old(self)@, e@, now));
            return Fate::Stays;
        }
        match self.full_since {
            Some(since) => if now >= since && now - since >= BACKPRESSURE_TIMEOUT_MS {
                Fate::TimedOut
            } else {
                Fate::Stays
            },
            None => {
                self.full_since = Some(now);
                Fate::Stays
            },
        }
    }
}

/// A queue that its client still reads though nothing more comes.
pub struct Rest<E> {
    events: VecDeque<E>,
}

impl<E: View> View for Rest<E> {
    type V = Seq<E::V>;

    closed spec fn view(&self) -> Seq<E::V> {
        queue_view(self.events@)
    }
}

/// The clients of a gateway, and what is kept until the first one comes.
pub struct Hub<E> {
    clients: Store<Client<E>>,
    parted: Store<Rest<E>>,
    early: Option<VecDeque<E>>,
}

#[verifier::ext_equal]
pub struct HubView<V> {
    /// The connected clients.
    pub clients: Map<Seq<char>, ClientView<V>>,
    /// What former clients have not read yet.
    pub parted: Map<Seq<char>, Seq<V>>,
    /// What is kept for the first client; nothing once it has come.
    pub early: Option<Seq<V>>,
}

impl<E: View> View for Hub<E> {
    type V = HubView<E::V>;

    closed spec fn view(&self) -> HubView<E::V> {
        HubView {
            clients: self.clients@,
            parted: self.parted@,
            early: match self.early {
                Some(es) => Some(queue_view(es@)),
                None => None,
            },
        }
    }
}

/// Before any client came and any event was sent.
pub open spec fn nobody<V>() -> HubView<V> {
    HubView { clients: Map::empty(), parted: Map::empty(), early: Some(seq![]) }
}

/// `k` more.
pub open spec fn counted_times(n: u64, k: nat) -> u64
    decreases k,
{
    if k == 0 {
        n
    } else {
        counted(counted_times(n, (k - 1) as nat))
    }
}

/// `k` less, but not below zero.
pub open spec fn discounted_times(n: u64, k: nat) -> u64
    decreases k,
{
    if k == 0 {
        n
    } else {
        discounted(discounted_times(n, (k - 1) as nat))
    }
}

/// The counters after `gone` clients left, `late` of them because they did not keep up.
pub open spec fn parted_metrics(m: Metrics, gone: nat, late: nat) -> Metrics {
    Metrics {
        client_disconnects: counted_times(m.client_disconnects, gone),
        active_clients: discounted_times(m.active_clients, gone),
        backpressure_events: counted_times(m.backpressure_events, late),
        ..m
    }
}

/// The table of the clients without one; what it has not read stays readable as long as
/// somebody listens.
pub open spec fn without_client<V>(h: HubView<V>, id: Seq<char>) -> HubView<V> {
    if h.clients.dom().contains(id) {
        HubView {
            clients: h.clients.remove(id),
            parted: if h.clients[id].listening {
                h.parted.insert(id, h.clients[id].events)
            } else {
                h.parted
            },
            ..h
        }
    } else {
        h
    }
}

/// The clients that an event offered at `now` makes leave.
pub open spec fn leavers<V>(clients: Map<Seq<char>, ClientView<V>>, now: u64) -> Set<Seq<char>> {
    Set::new(|id: Seq<char>| clients.dom().contains(id) && fate(clients[id], now) != Fate::Stays)
}

/// Those of them whose queue was full for too long.
pub open spec fn latecomers<V>(clients: Map<Seq<char>, ClientView<V>>, now: u64) -> Set<Seq<char>> {
    Set::new(|id: Seq<char>| clients.dom().contains(id) && fate(clients[id], now) == Fate::TimedOut)
}

/// The clients after an event was offered to each of them at `now`.
pub open spec fn broadcasted<V>(h: HubView<V>, e: V, now: u64) -> HubView<V> {
    HubView {
        clients: Map::new(
            |id: Seq<char>| h.clients.dom().contains(id) && fate(h.clients[id], now) == Fate::Stays,
            |id: Seq<char>| offered(h.clients[id], e, now),
        ),
        parted: Map::new(
            |id: Seq<char>|
                h.parted.dom().contains(id) || latecomers(h.clients, now).contains(id),
            |id: Seq<char>|
                if latecomers(h.clients, now).contains(id) {
                    h.clients[id].events
                } else {
                    h.parted[id]
                },
        ),
        ..h
    }
}

/// Whether an event is kept for the first client rather than sent.
pub open spec fn is_early<V>(h: HubView<V>) -> bool {
    h.early is Some && h.clients.dom().len() == 0
}

/// The clients after an event for all of them: it is kept where no client ever came, as far
/// as there is room, and else offered to each.
pub open spec fn published<V>(h: HubView<V>, e: V, now: u64) -> HubView<V> {
    if is_early(h) {
        HubView {
            early: Some(
                if h.early->Some_0.len() < EARLY_BUFFER_CAP {
                    h.early->Some_0.push(e)
                } else {
                    h.early->Some_0
                },
            ),
            ..h
        }
    } else {
        broadcasted(h, e, now)
    }
}

/// The counters after an event for all clients.
pub open spec fn published_metrics<V>(h: HubView<V>, now: u64, m: Metrics) -> Metrics {
    if is_early(h) {
        m
    } else {
        parted_metrics(m, leavers(h.clients, now).len(), latecomers(h.clients, now).len())
    }
}

/// As many of the events as a queue holds, from the oldest on.
pub open spec fn fitting<V>(events: Seq<V>) -> Seq<V> {
    if events.len() <= CLIENT_CHANNEL_CAP {
        events
    } else {
        events.take(CLIENT_CHANNEL_CAP as int)
    }
}

pub open spec fn event_view<E: View>(e: Option<E>) -> Option<E::V> {
    match e {
        Some(x) => Some(x@),
        None => None,
    }
}

pub open spec fn option_seq<V>(v: Option<V>) -> Seq<V> {
    match v {
        Some(x) => seq![x],
        None => seq![],
    }
}

/// The clients after one more came, which first gets the event that greets it and then
/// what was kept.
pub open spec fn joined<V>(h: HubView<V>, id: Seq<char>, greeting: Option<V>) -> HubView<V> {
    let kept = match h.early {
        Some(es) => es,
        None => seq![],
    };
    HubView {
        clients: h.clients.insert(
            id,
            ClientView {
                events: fitting(option_seq(greeting) + kept),
                listening: true,
                full_since: None,
            },
        ),
        early: None,
        ..h
    }
}

/// The clients after an event for one of them.
pub open spec fn sent<V>(h: HubView<V>, id: Seq<char>, e: V, now: u64) -> HubView<V> {
    if !h.clients.dom().contains(id) {
        h
    } else if fate(h.clients[id], now) == Fate::Stays {
        HubView { clients: h.clients.insert(id, offered(h.clients[id], e, now)), ..h }
    } else {
        without_client(h, id)
    }
}

pub open spec fn sent_metrics<V>(h: HubView<V>, id: Seq<char>, now: u64, m: Metrics) -> Metrics {
    if !h.clients.dom().contains(id) {
        m
    } else {
        match fate(h.clients[id], now) {
            Fate::Stays => m,
            Fate::TimedOut => parted_metrics(m, 1, 1),
            Fate::Gone => parted_metrics(m, 1, 0),
        }
    }
}

/// A queue with one event more, if there is room.
pub open spec fn with_last<V>(events: Seq<V>, e: V) -> Seq<V> {
    if events.len() < CLIENT_CHANNEL_CAP {
        events.push(e)
    } else {
        events
    }
}

/// The clients after all were sent a last event and dropped. A full queue does not get it.
pub open spec fn closed_all<V>(h: HubView<V>, e: V) -> HubView<V> {
    HubView {
        clients: Map::empty(),
        parted: Map::new(
            |id: Seq<char>|
                h.parted.dom().contains(id) || (h.clients.dom().contains(id)
                    && h.clients[id].listening),
            |id: Seq<char>|
                if h.clients.dom().contains(id) && h.clients[id].listening {
                    with_last(h.clients[id].events, e)
                } else {
                    h.parted[id]
                },
        ),
        ..h
    }
}

/// What a client finds in its queue.
pub enum Received<E> {
    Event(E),
    /// Nothing yet.
    Nothing,
    /// Nothing, and nothing will come.
    Closed,
}

impl<E: View> View for Received<E> {
    type V = Received<E::V>;

    open spec fn view(&self) -> Received<E::V> {
        match self {
            Received::Event(e) => Received::Event(e@),
            Received::Nothing => Received::Nothing,
            Received::Closed => Received::Closed,
        }
    }
}

/// What a client takes out of its queue, and what is left.
pub open spec fn received<V>(h: HubView<V>, id: Seq<char>) -> (HubView<V>, Received<V>) {
    if h.clients.dom().contains(id) {
        let c = h.clients[id];
        if c.events.len() > 0 {
            (
                HubView {
                    clients: h.clients.insert(
                        id,
                        ClientView { events: c.events.skip(1), ..c },
                    ),
                    ..h
                },
                Received::Event(c.events[0]),
            )
        } else {
            (h, Received::Nothing)
        }
    } else if h.parted.dom().contains(id) {
        let es = h.parted[id];
        if es.len() > 0 {
            (HubView { parted: h.parted.insert(id, es.skip(1)), ..h }, Received::Event(es[0]))
        } else {
            (HubView { parted: h.parted.remove(id), ..h }, Received::Closed)
        }
    } else {
        (h, Received::Closed)
    }
}

/// The clients after one of them stopped listening.
pub open spec fn hung_up<V>(h: HubView<V>, id: Seq<char>) -> HubView<V> {
    HubView {
        clients: if h.clients.dom().contains(id) {
            h.clients.insert(id, ClientView { listening: false, ..h.clients[id] })
        } else {
            h.clients
        },
        parted: h.parted.remove(id),
        ..h
    }
}

/// Whether the first `n` of the names hold this one.
spec fn among(names: Seq<String>, n: int, id: Seq<char>) -> bool {
    exists|k: int| 0 <= k < n && (#[trigger] names[k])@ == id
}

proof fn lemma_lists_push(v: Seq<String>, w: Seq<String>)
    requires
        w.len() == v.len() + 1,
        w.take(v.len() as int) == v,
    ensures
        forall|id: Seq<char>| #[trigger] lists(w, id) <==> lists(v, id) || id == w.last()@,
{
    assert forall|id: Seq<char>| #[trigger] lists(w, id) <==> lists(v, id) || id == w.last()@ by {
        if lists(v, id) {
            let k = choose|k: int| 0 <= k < v.len() && (#[trigger] v[k])@ == id;
            assert(w[k] == w.take(v.len() as int)[k]);
        }
        if id == w.last()@ {
            assert(w[w.len() - 1]@ == id);
        }
        if lists(w, id) {
            let k = choose|k: int| 0 <= k < w.len() && (#[trigger] w[k])@ == id;
            if k < v.len() {
                assert(v[k] == w.take(v.len() as int)[k]);
            }
        }
    }
}

impl<E: Event> Hub<E> {
    pub fn new() -> (r: Hub<E>)
        ensures
            r@ == nobody::<E::V>(),
    {
        let early: VecDeque<E> = VecDeque::new();
        assert(queue_view(early@) =~= Seq::<E::V>::empty());
        Hub { clients: Store::new(), parted: Store::new(), early: Some(early) }
    }

    /// The number of connected clients.
    pub fn len(&self) -> (r: usize)
        ensures
            r == self@.clients.dom().len(),
            self@.clients.dom().finite(),
    {
        self.clients.len()
    }

    pub fn contains(&self, id: &str) -> (r: bool)
        ensures
            r == self@.clients.dom().contains(id@),
    {
        self.clients.contains(id)
    }

    /// The clients that were found not to keep up.
    pub fn behind(&self) -> (r: Vec<String>)
        ensures
            forall|id: Seq<char>| #[trigger]
                lists(r@, id) <==> self@.clients.dom().contains(id)
                    && self@.clients[id].full_since is Some,
    {
        let names = self.clients.names();
        let mut out: Vec<String> = Vec::new();
        let mut i: usize = 0;
        while i < names.len()
            invariant
                i <= names.len(),
                forall|id: Seq<char>| #[trigger]
                    self@.clients.dom().contains(id) <==> lists(names@, id),
                forall|id: Seq<char>| #[trigger]
                    lists(out@, id) <==> among(names@, i as int, id)
                        && self@.clients[id].full_since is Some,
            decreases names.len() - i,
        {
            let ghost n = names[i as int]@;
            let ghost before = out@;
            assert(lists(names@, n));
            let full = match self.clients.get(names[i].as_str()) {
                Some(c) => c.full_since.is_some(),
                None => false,
            };
            if full {
                out.push(names[i].clone());
                proof {
                    assert(out@.take(before.len() as int) =~= before);
                    lemma_lists_push(before, out@);
                }
            }
            proof {
                assert forall|id: Seq<char>| #[trigger] among(names@, i + 1, id) <==> among(
                    names@,
                    i as int,
                    id,
                ) || id == n by {
                    if id == n {
                        assert(names[i as int]@ == id);
                    }
                    if among(names@, i as int, id) {
                        let k = choose|k: int| 0 <= k < i && (#[trigger] names[k])@ == id;
                        assert(names[k]@ == id);
                    }
                }
            }
            i += 1;
        }
        proof {
            assert forall|id: Seq<char>| #[trigger] lists(out@, id) <==> self@.clients.dom().contains(
                id,
            ) && self@.clients[id].full_since is Some by {
                assert(among(names@, i as int, id) <==> lists(names@, id));
            }
        }
        out
    }

    /// Offers an event to every client. Gives back who left over it.
    pub fn broadcast(&mut self, e: &E, now: u64, metrics: &mut Metrics) -> (r: Vec<String>)
        ensures
            final(self)@ == broadcasted(old(self)@, e@, now),
            forall|id: Seq<char>| #[trigger]
                leavers(old(self)@.clients, now).contains(id) <==> lists(r@, id),
            leavers(old(self)@.clients, now).finite(),
            latecomers(old(self)@.clients, now).finite(),
            *final(metrics) == parted_metrics(
                *old(metrics),
                leavers(old(self)@.clients, now).len(),
                latecomers(old(self)@.clients, now).len(),
            ),
    {
        let names = self.clients.names();
        let ghost h = self@;
        let ghost m = *metrics;
        let ghost mut gone: Set<Seq<char>> = Set::empty();
        let ghost mut late: Set<Seq<char>> = Set::empty();
        let mut left: Vec<String> = Vec::new();
        let mut i: usize = 0;
        while i < names.len()
            invariant
                i <= names.len(),
                h == old(self)@,
                m == *old(metrics),
                forall|id: Seq<char>| #[trigger] h.clients.dom().contains(id) <==> lists(names@, id),
                forall|a: int, b: int|
                    0 <= a < names.len() && 0 <= b < names.len() && (#[trigger] names[a])@ == (
                    #[trigger] names[b])@ ==> a == b,
                self@.early == h.early,
                forall|id: Seq<char>|
                    #![trigger self@.clients.dom().contains(id)]
                    self@.clients.dom().contains(id) <==> h.clients.dom().contains(id) && (among(
                        names@,
                        i as int,
                        id,
                    ) ==> fate(h.clients[id], now) == Fate::Stays),
                forall|id: Seq<char>| #[trigger]
                    self@.clients.dom().contains(id) ==> self@.clients[id] == (if among(
                        names@,
                        i as int,
                        id,
                    ) {
                        offered(h.clients[id], e@, now)
                    } else {
                        h.clients[id]
                    }),
                gone.finite(),
                late.finite(),
                forall|id: Seq<char>| #[trigger] gone.contains(id) <==> lists(left@, id),
                forall|id: Seq<char>| #[trigger]
                    gone.contains(id) <==> leavers(h.clients, now).contains(id) && among(
                        names@,
                        i as int,
                        id,
                    ),
                forall|id: Seq<char>| #[trigger]
                    late.contains(id) <==> latecomers(h.clients, now).contains(id) && among(
                        names@,
                        i as int,
                        id,
                    ),
                forall|id: Seq<char>| #[trigger]
                    self@.parted.dom().contains(id) <==> h.parted.dom().contains(id)
                        || late.contains(id),
                forall|id: Seq<char>| #[trigger]
                    self@.parted.dom().contains(id) ==> self@.parted[id] == (if late.contains(id) {
                        h.clients[id].events
                    } else {
                        h.parted[id]
                    }),
                *metrics == parted_metrics(m, gone.len(), late.len()),
            decreases names.len() - i,
        {
            let ghost id = names[i as int]@;
            let ghost was = self@;
            let ghost gone0 = gone;
            let ghost late0 = late;
            assert(lists(names@, id));
            assert(h.clients.dom().contains(id));
            assert(!among(names@, i as int, id));
            assert forall|x: Seq<char>| #[trigger] among(names@, i + 1, x) <==> among(
                names@,
                i as int,
                x,
            ) || x == id by {
                if x == id {
                    assert(names[i as int]@ == x);
                }
                if among(names@, i as int, x) {
                    let k = choose|k: int| 0 <= k < i && (#[trigger] names[k])@ == x;
                    assert(names[k]@ == x);
                }
            }
            assert(was.clients.dom().contains(id));
            if let Some(mut client) = self.clients.remove(names[i].as_str()) {
                let f = client.offer(e.copy(), now);
                match f {
                    Fate::Stays => {
                        self.clients.insert(names[i].clone(), client);
                    },
                    Fate::TimedOut => {
                        Metrics::inc(&mut metrics.backpressure_events);
                        Metrics::inc(&mut metrics.client_disconnects);
                        Metrics::dec(&mut metrics.active_clients);
                        let rest = Rest { events: client.events };
                        assert(rest@ == h.clients[id].events);
                        self.parted.insert(names[i].clone(), rest);
                        assert(self@.parted == was.parted.insert(id, h.clients[id].events));
                        let ghost before = left@;
                        left.push(names[i].clone());
                        proof {
                            assert(left@.take(before.len() as int) =~= before);
                            lemma_lists_push(before, left@);
                            gone = gone.insert(id);
                            late = late.insert(id);
                        }
                    },
                    Fate::Gone => {
                        Metrics::inc(&mut metrics.client_disconnects);
                        Metrics::dec(&mut metrics.active_clients);
                        let ghost before = left@;
                        left.push(names[i].clone());
                        proof {
                            assert(left@.take(before.len() as int) =~= before);
                            lemma_lists_push(before, left@);
                            gone = gone.insert(id);
                        }
                    },
                }
                assert forall|x: Seq<char>|
                    #![trigger self@.parted.dom().contains(x)]
                    (self@.parted.dom().contains(x) <==> h.parted.dom().contains(x)
                        || late.contains(x)) && (self@.parted.dom().contains(x)
                        ==> self@.parted[x] == (if late.contains(x) {
                        h.clients[x].events
                    } else {
                        h.parted[x]
                    })) by {
                    assert(was.parted.dom().contains(x) <==> h.parted.dom().contains(x)
                        || late0.contains(x));
                    assert(late.contains(x) <==> late0.contains(x) || (x == id && f == Fate::TimedOut));
                }
            }
            i += 1;
        }
        proof {
            assert forall|id: Seq<char>| h.clients.dom().contains(id) implies among(
                names@,
                i as int,
                id,
            ) by {
                assert(lists(names@, id));
            }
            assert(gone =~= leavers(h.clients, now));
            assert(late =~= latecomers(h.clients, now));
            assert(self@.clients =~= broadcasted(h, e@, now).clients);
            assert(self@.parted =~= broadcasted(h, e@, now).parted);
        }
        left
    }

    /// Sends an event to every client, or keeps it for the first one. Gives back who left
    /// over it.
    pub fn publish(&mut self, e: E, now: u64, metrics: &mut Metrics) -> (r: Vec<String>)
        ensures
            final(self)@ == published(old(self)@, e@, now),
            forall|id: Seq<char>| #[trigger]
                lists(r@, id) <==> !is_early(old(self)@) && leavers(
                    old(self)@.clients,
                    now,
                ).contains(id),
            *final(metrics) == published_metrics(old(self)@, now, *old(metrics)),
    {
        if self.early.is_some() && self.clients.len() == 0 {
            let ghost h = self@;
            if let Some(mut early) = self.early.take() {
                let ghost before = early@;
                assert(h.early == Some(queue_view(before)));
                if early.len() < EARLY_BUFFER_CAP {
                    early.push_back(e);
                    assert(queue_view(early@) =~= queue_view(before).push(e@));
                }
                self.early = Some(early);
            }
            assert(self@ =~= published(h, e@, now));
            Vec::new()
        } else {
            self.broadcast(&e, now, metrics)
        }
    }

    /// Takes in a client.
    pub fn join(&mut self, id: String, greeting: Option<E>, metrics: &mut Metrics)
        ensures
            final(self)@ == joined(old(self)@, id@, event_view(greeting)),
            *final(metrics) == (Metrics {
                active_clients: counted(old(metrics).active_clients),
                ..*old(metrics)
            }),
    {
        let ghost h = self@;
        let ghost g = event_view(greeting);
        let mut events: VecDeque<E> = VecDeque::new();
        if let Some(e) = greeting {
            events.push_back(e);
        }
        assert(queue_view(events@) =~= option_seq(g));
        let ghost first = events@;
        if let Some(mut early) = self.early.take() {
            let ghost kept = early@;
            assert(h.early == Some(queue_view(kept)));
            events.append(&mut early);
            assert(queue_view(events@) =~= queue_view(first) + queue_view(kept));
        } else {
            assert(queue_view(events@) =~= queue_view(first) + Seq::<E::V>::empty());
        }
        let ghost all = events@;
        events.truncate(CLIENT_CHANNEL_CAP);
        assert(queue_view(events@) =~= fitting(queue_view(all)));
        self.clients.insert(id, Client { events, listening: true, full_since: None });
        Metrics::inc(&mut metrics.active_clients);
        assert(self@ =~= joined(h, id@, g));
    }

    /// Drops a client. Says whether it was one.
    pub fn part(&mut self, id: &str, metrics: &mut Metrics) -> (r: bool)
        ensures
            final(self)@ == without_client(old(self)@, id@),
            r == old(self)@.clients.dom().contains(id@),
            *final(metrics) == (if r {
                parted_metrics(*old(metrics), 1, 0)
            } else {
                *old(metrics)
            }),
    {
        let ghost h = self@;
        match self.clients.remove(id) {
            Some(client) => {
                if client.listening {
                    self.parted.insert(id.to_owned(), Rest { events: client.events });
                }
                Metrics::inc(&mut metrics.client_disconnects);
                Metrics::dec(&mut metrics.active_clients);
                proof {
                    reveal_with_fuel(counted_times, 2);
                    reveal_with_fuel(discounted_times, 2);
                }
                assert(self@ =~= without_client(h, id@));
                true
            },
            None => {
                assert(self@ =~= h);
                false
            },
        }
    }

    /// Sends an event to one client. Says whether the client left over it.
    pub fn send(&mut self, id: &str, e: E, now: u64, metrics: &mut Metrics) -> (r: bool)
        ensures
            final(self)@ == sent(old(self)@, id@, e@, now),
            r == leavers(old(self)@.clients, now).contains(id@),
            *final(metrics) == sent_metrics(old(self)@, id@, now, *old(metrics)),
    {
        let ghost h = self@;
        let ghost m = *metrics;
        match self.clients.remove(id) {
            Some(mut client) => {
                let f = client.offer(e, now);
                self.clients.insert(id.to_owned(), client);
                if f == Fate::Stays {
                    assert(self@ =~= sent(h, id@, e@, now));
                    return false;
                }
                assert(offered(h.clients[id@], e@, now) == h.clients[id@]);
                assert(self@.clients =~= h.clients);
                assert(self@ =~= h);
                if f == Fate::TimedOut {
                    Metrics::inc(&mut metrics.backpressure_events);
                    proof {
                        reveal_with_fuel(counted_times, 2);
                    }
                }
                self.part(id, metrics)
            },
            None => {
                assert(self@ =~= h);
                false
            },
        }
    }

    /// Takes the next event out of a client's queue.
    pub fn receive(&mut self, id: &str) -> (r: Received<E>)
        ensures
            final(self)@ == received(old(self)@, id@).0,
            r@ == received(old(self)@, id@).1,
    {
        let ghost h = self@;
        if let Some(mut client) = self.clients.remove(id) {
            let ghost es = client.events@;
            let next = client.events.pop_front();
            self.clients.insert(id.to_owned(), client);
            match next {
                Some(e) => {
                    assert(queue_view(es.skip(1)) =~= queue_view(es).skip(1));
                    assert(es.skip(1) =~= es.subrange(1, es.len() as int));
                    assert(self@ =~= received(h, id@).0);
                    Received::Event(e)
                },
                None => {
                    assert(self@ =~= h);
                    Received::Nothing
                },
            }
        } else if let Some(mut rest) = self.parted.remove(id) {
            let ghost es = rest.events@;
            match rest.events.pop_front() {
                Some(e) => {
                    self.parted.insert(id.to_owned(), rest);
                    assert(queue_view(es.skip(1)) =~= queue_view(es).skip(1));
                    assert(es.skip(1) =~= es.subrange(1, es.len() as int));
                    assert(self@ =~= received(h, id@).0);
                    Received::Event(e)
                },
                None => {
                    assert(self@ =~= received(h, id@).0);
                    Received::Closed
                },
            }
        } else {
            assert(self@ =~= h);
            Received::Closed
        }
    }

    /// Notes that nobody takes the events of a client out any more.
    pub fn hang_up(&mut self, id: &str)
        ensures
            final(self)@ == hung_up(old(self)@, id@),
    {
        let ghost h = self@;
        if let Some(mut client) = self.clients.remove(id) {
            client.listening = false;
            self.clients.insert(id.to_owned(), client);
        }
        self.parted.remove(id);
        assert(self@ =~= hung_up(h, id@));
    }

    /// Sends a last event to every client and drops them all. Gives back who they were.
    pub fn close_all(&mut self, e: &E, metrics: &mut Metrics) -> (r: Vec<String>)
        ensures
            forall|id: Seq<char>| #[trigger]
                old(self)@.clients.dom().contains(id) <==> lists(r@, id),
            final(self)@ == closed_all(old(self)@, e@),
            *final(metrics) == parted_metrics(*old(metrics), old(self)@.clients.dom().len(), 0),
    {
        let names = self.clients.names();
        let ghost h = self@;
        let ghost m = *metrics;
        let mut i: usize = 0;
        while i < names.len()
            invariant
                i <= names.len(),
                h == old(self)@,
                m == *old(metrics),
                forall|id: Seq<char>| #[trigger] h.clients.dom().contains(id) <==> lists(names@, id),
                forall|a: int, b: int|
                    0 <= a < names.len() && 0 <= b < names.len() && (#[trigger] names[a])@ == (
                    #[trigger] names[b])@ ==> a == b,
                self@.early == h.early,
                self@.clients.dom().finite(),
                h.clients.dom().finite(),
                self@.clients.dom().len() + i == h.clients.dom().len(),
                forall|id: Seq<char>|
                    #![trigger self@.clients.dom().contains(id)]
                    self@.clients.dom().contains(id) <==> h.clients.dom().contains(id) && !among(
                        names@,
                        i as int,
                        id,
                    ),
                forall|id: Seq<char>| #[trigger]
                    self@.clients.dom().contains(id) ==> self@.clients[id] == h.clients[id],
                forall|id: Seq<char>| #[trigger]
                    self@.parted.dom().contains(id) <==> h.parted.dom().contains(id) || (among(
                        names@,
                        i as int,
                        id,
                    ) && h.clients[id].listening),
                forall|id: Seq<char>| #[trigger]
                    self@.parted.dom().contains(id) ==> self@.parted[id] == (if among(
                        names@,
                        i as int,
                        id,
                    ) && h.clients[id].listening {
                        with_last(h.clients[id].events, e@)
                    } else {
                        h.parted[id]
                    }),
                *metrics == parted_metrics(m, i as nat, 0),
            decreases names.len() - i,
        {
            let ghost id = names[i as int]@;
            let ghost was = self@;
            assert(lists(names@, id));
            assert(h.clients.dom().contains(id));
            assert(!among(names@, i as int, id));
            assert forall|x: Seq<char>| #[trigger] among(names@, i + 1, x) <==> among(
                names@,
                i as int,
                x,
            ) || x == id by {
                if x == id {
                    assert(names[i as int]@ == x);
                }
                if among(names@, i as int, x) {
                    let k = choose|k: int| 0 <= k < i && (#[trigger] names[k])@ == x;
                    assert(names[k]@ == x);
                }
            }
            assert(was.clients.dom().contains(id));
            if let Some(mut client) = self.clients.remove(names[i].as_str()) {
                let ghost es = client.events@;
                if client.listening {
                    if client.events.len() < CLIENT_CHANNEL_CAP {
                        client.events.push_back(e.copy());
                        assert(queue_view(client.events@) =~= queue_view(es).push(e@));
                    }
                    let rest = Rest { events: client.events };
                    assert(rest@ =~= with_last(h.clients[id].events, e@));
                    self.parted.insert(names[i].clone(), rest);
                    assert(self@.parted == was.parted.insert(id, rest@));
                }
                Metrics::inc(&mut metrics.client_disconnects);
                Metrics::dec(&mut metrics.active_clients);
                assert(self@.clients.dom() =~= was.clients.dom().remove(id));
                assert forall|x: Seq<char>|
                    #![trigger self@.parted.dom().contains(x)]
                    (self@.parted.dom().contains(x) <==> h.parted.dom().contains(x) || (among(
                        names@,
                        i + 1,
                        x,
                    ) && h.clients[x].listening)) && (self@.parted.dom().contains(x)
                        ==> self@.parted[x] == (if among(names@, i + 1, x)
                        && h.clients[x].listening {
                        with_last(h.clients[x].events, e@)
                    } else {
                        h.parted[x]
                    })) by {
                    assert(was.parted.dom().contains(x) <==> h.parted.dom().contains(x) || (among(
                        names@,
                        i as int,
                        x,
                    ) && h.clients[x].listening));
                }
            }
            i += 1;
        }
        proof {
            assert forall|id: Seq<char>| h.clients.dom().contains(id) <==> #[trigger] among(
                names@,
                i as int,
                id,
            ) by {
                if h.clients.dom().contains(id) {
                    assert(lists(names@, id));
                }
                if among(names@, i as int, id) {
                    assert(lists(names@, id));
                }
            }
            assert(self@.clients =~= Map::<Seq<char>, ClientView<E::V>>::empty());
            assert(self@.parted =~= closed_all(h, e@).parted);
            assert(self@.clients.dom() =~= Set::<Seq<char>>::empty());
        }
        names
    }
}

// ---- Laws ----------------------------------------------------------------------------

/// Whether no queue is longer than it may be.
pub open spec fn bounded<V>(h: HubView<V>) -> bool {
    &&& forall|id: Seq<char>| #[trigger]
        h.clients.dom().contains(id) ==> h.clients[id].events.len() <= CLIENT_CHANNEL_CAP
    &&& forall|id: Seq<char>| #[trigger]
        h.parted.dom().contains(id) ==> h.parted[id].len() <= CLIENT_CHANNEL_CAP
    &&& h.early is Some ==> h.early->Some_0.len() <= EARLY_BUFFER_CAP
}

/// No queue ever holds more events than it may, whatever is sent and whoever comes or goes.
pub proof fn law_queues_stay_bounded<V>(
    h: HubView<V>,
    id: Seq<char>,
    greeting: Option<V>,
    e: V,
    now: u64,
)
    requires
        bounded(h),
    ensures
        bounded(published(h, e, now)),
        bounded(sent(h, id, e, now)),
        bounded(joined(h, id, greeting)),
        bounded(without_client(h, id)),
        bounded(closed_all(h, e)),
        bounded(received(h, id).0),
        bounded(hung_up(h, id)),
{
}

/// The clients after events for all of them, each at its time.
pub open spec fn published_in_turn<V>(h: HubView<V>, es: Seq<(V, u64)>) -> HubView<V>
    decreases es.len(),
{
    if es.len() == 0 {
        h
    } else {
        published(published_in_turn(h, es.drop_last()), es.last().0, es.last().1)
    }
}

/// What is sent before any client came is kept in its order, up to the bound.
pub proof fn law_early_events_are_kept<V>(h: HubView<V>, es: Seq<(V, u64)>)
    requires
        h.early == Some(Seq::<V>::empty()),
        h.clients.dom().len() == 0,
    ensures
        published_in_turn(h, es) == (HubView {
            early: Some(
                Seq::new(
                    if es.len() <= EARLY_BUFFER_CAP {
                        es.len()
                    } else {
                        EARLY_BUFFER_CAP as nat
                    },
                    |i: int| es[i].0,
                ),
            ),
            ..h
        }),
    decreases es.len(),
{
    if es.len() > 0 {
        law_early_events_are_kept(h, es.drop_last());
    }
    assert(published_in_turn(h, es).early->Some_0 =~= Seq::new(
        if es.len() <= EARLY_BUFFER_CAP {
            es.len()
        } else {
            EARLY_BUFFER_CAP as nat
        },
        |i: int| es[i].0,
    ));
}

/// The first client finds, after its greeting, what was sent before it came: in order, up
/// to the bounds, and nobody else gets it.
pub proof fn law_first_client_gets_early_events<V>(
    h: HubView<V>,
    es: Seq<(V, u64)>,
    id: Seq<char>,
    greeting: V,
)
    requires
        h.early == Some(Seq::<V>::empty()),
        h.clients.dom().len() == 0,
    ensures
        joined(published_in_turn(h, es), id, Some(greeting)).clients[id].events == fitting(
            seq![greeting] + es.map_values(|p: (V, u64)| p.0),
        ),
        joined(published_in_turn(h, es), id, Some(greeting)).early is None,
{
    law_early_events_are_kept(h, es);
    assert(joined(published_in_turn(h, es), id, Some(greeting)).clients[id].events =~= fitting(
        seq![greeting] + es.map_values(|p: (V, u64)| p.0),
    ));
}

/// An event for all reaches every client that listens and has room, behind what waits there
/// already, and ends its trouble with a full queue.
pub proof fn law_broadcast_reaches_everyone<V>(h: HubView<V>, e: V, now: u64, id: Seq<char>)
    requires
        h.clients.dom().contains(id),
        h.clients[id].listening,
        h.clients[id].events.len() < CLIENT_CHANNEL_CAP,
        h.clients.dom().finite(),
    ensures
        published(h, e, now).clients.dom().contains(id),
        published(h, e, now).clients[id] == (ClientView {
            events: h.clients[id].events.push(e),
            listening: true,
            full_since: None,
        }),
{
    if h.clients.dom().len() == 0 {
        h.clients.dom().lemma_len0_is_empty();
    }
}

/// A client that listens is dropped by an event only where its queue has been full for
/// longer than the bound.
pub proof fn law_dropped_only_after_timeout<V>(h: HubView<V>, e: V, now: u64, id: Seq<char>)
    requires
        h.clients.dom().contains(id),
        h.clients[id].listening,
        !published(h, e, now).clients.dom().contains(id) || !sent(
            h,
            id,
            e,
            now,
        ).clients.dom().contains(id),
    ensures
        h.clients[id].events.len() >= CLIENT_CHANNEL_CAP,
        h.clients[id].full_since matches Some(t) && now - t >= BACKPRESSURE_TIMEOUT_MS,
{
}

/// An event for one client reaches that client, behind what waits there, and nobody else
/// notices.
pub proof fn law_event_reaches_its_client<V>(
    h: HubView<V>,
    id: Seq<char>,
    e: V,
    now: u64,
    m: Metrics,
)
    requires
        h.clients.dom().contains(id),
        h.clients[id].listening,
        h.clients[id].events.len() < CLIENT_CHANNEL_CAP,
    ensures
        ({
            let t = sent(h, id, e, now);
            &&& t.clients.dom() == h.clients.dom()
            &&& t.clients[id].events == h.clients[id].events.push(e)
            &&& t.clients[id].listening
            &&& t.clients[id].full_since is None
            &&& forall|other: Seq<char>|
                other != id ==> #[trigger] t.clients[other] == h.clients[other]
            &&& t.parted == h.parted
            &&& t.early == h.early
            &&& sent_metrics(h, id, now, m) == m
        }),
{
    assert(sent(h, id, e, now).clients.dom() =~= h.clients.dom());
}

/// An event for a client that is not there changes nothing.
pub proof fn law_event_for_nobody_is_dropped<V>(
    h: HubView<V>,
    id: Seq<char>,
    e: V,
    now: u64,
    m: Metrics,
)
    requires
        !h.clients.dom().contains(id),
    ensures
        sent(h, id, e, now) == h,
        sent_metrics(h, id, now, m) == m,
{
}

/// A client whose queue is full loses the event, and is dropped once the queue has been full
/// for as long as it may; until then it stays, and what waits in the queue is not touched.
/// What a client that is dropped so has not read can still be read.
pub proof fn law_full_queue_is_borne_for_a_while<V>(
    h: HubView<V>,
    id: Seq<char>,
    e: V,
    now: u64,
)
    requires
        h.clients.dom().contains(id),
        h.clients.dom().finite(),
        h.clients[id].listening,
        h.clients[id].events.len() >= CLIENT_CHANNEL_CAP,
    ensures
        ({
            let c = h.clients[id];
            let a = published(h, e, now);
            let b = sent(h, id, e, now);
            let overdue = c.full_since is Some && now >= c.full_since->Some_0
                + BACKPRESSURE_TIMEOUT_MS;
            &&& overdue ==> !a.clients.dom().contains(id) && !b.clients.dom().contains(id)
                && a.parted.dom().contains(id) && a.parted[id] == c.events
                && b.parted.dom().contains(id) && b.parted[id] == c.events
            &&& !overdue ==> a.clients.dom().contains(id) && b.clients.dom().contains(id)
                && a.clients[id].events == c.events && b.clients[id].events == c.events
                && a.clients[id].full_since == Some(
                if c.full_since is Some {
                    c.full_since->Some_0
                } else {
                    now
                },
            ) && b.clients[id].full_since == a.clients[id].full_since && a.clients[id].listening
                && b.clients[id].listening
        }),
{
    if h.clients.dom().len() == 0 {
        h.clients.dom().lemma_len0_is_empty();
    }
}

/// A client that nobody listens for is dropped by the next event, and what it has not read
/// is forgotten.
pub proof fn law_silent_client_is_dropped<V>(h: HubView<V>, id: Seq<char>, e: V, now: u64)
    requires
        h.clients.dom().contains(id),
        h.clients.dom().finite(),
        !h.clients[id].listening,
    ensures
        !published(h, e, now).clients.dom().contains(id),
        !sent(h, id, e, now).clients.dom().contains(id),
        published(h, e, now).parted.dom().contains(id) == h.parted.dom().contains(id),
        sent(h, id, e, now).parted == h.parted,
{
    if h.clients.dom().len() == 0 {
        h.clients.dom().lemma_len0_is_empty();
    }
}

/// An event for all makes no client appear, and what former clients have not read stays.
pub proof fn law_broadcast_adds_nobody<V>(h: HubView<V>, e: V, now: u64, id: Seq<char>)
    ensures
        ({
            let t = published(h, e, now);
            &&& t.clients.dom().contains(id) ==> h.clients.dom().contains(id)
            &&& h.parted.dom().contains(id) ==> t.parted.dom().contains(id)
            &&& h.parted.dom().contains(id) && !h.clients.dom().contains(id) ==> t.parted[id]
                == h.parted[id]
            &&& h.early is None ==> t.early is None
        }),
{
}

/// A client finds its events in the order in which they were sent, each once. It finds
/// nothing as long as it is connected and nothing waits, and the end once nothing can come.
/// Other clients do not notice.
pub proof fn law_client_reads_in_order<V>(h: HubView<V>, id: Seq<char>, other: Seq<char>)
    requires
        other != id,
    ensures
        ({
            let (t, found) = received(h, id);
            let here = h.clients.dom().contains(id);
            let was_here = !here && h.parted.dom().contains(id);
            &&& here && h.clients[id].events.len() > 0 ==> found == Received::Event(
                h.clients[id].events[0],
            ) && t.clients.dom().contains(id) && t.clients[id].events == h.clients[id].events.skip(1)
                && t.clients[id].listening == h.clients[id].listening && t.clients[id].full_since
                == h.clients[id].full_since && t.parted == h.parted
            &&& here && h.clients[id].events.len() == 0 ==> found is Nothing && t == h
            &&& was_here && h.parted[id].len() > 0 ==> found == Received::Event(h.parted[id][0])
                && t.parted.dom().contains(id) && t.parted[id] == h.parted[id].skip(1)
                && t.clients == h.clients
            &&& was_here && h.parted[id].len() == 0 ==> found is Closed
                && !t.parted.dom().contains(id) && t.clients == h.clients
            &&& !here && !was_here ==> found is Closed && t == h
            &&& t.clients.dom().contains(other) == h.clients.dom().contains(other)
            &&& t.clients[other] == h.clients[other]
            &&& t.parted.dom().contains(other) == h.parted.dom().contains(other)
            &&& t.parted[other] == h.parted[other]
            &&& t.early == h.early
        }),
{
}

/// A client that comes listens, and finds its greeting first and then what was kept for the
/// first client, as far as a queue holds it. The others do not notice; nothing more is kept.
pub proof fn law_client_is_greeted<V>(
    h: HubView<V>,
    id: Seq<char>,
    greeting: Option<V>,
    other: Seq<char>,
)
    requires
        other != id,
    ensures
        ({
            let t = joined(h, id, greeting);
            let c = t.clients[id];
            let n = if greeting is Some {
                1int
            } else {
                0int
            };
            let kept = if h.early is Some {
                h.early->Some_0.len() as int
            } else {
                0int
            };
            &&& t.clients.dom().contains(id)
            &&& c.listening
            &&& c.full_since is None
            &&& c.events.len() == if n + kept <= CLIENT_CHANNEL_CAP {
                n + kept
            } else {
                CLIENT_CHANNEL_CAP as int
            }
            &&& greeting is Some ==> c.events[0] == greeting->Some_0
            &&& forall|i: int| n <= i < c.events.len() ==> #[trigger] c.events[i]
                == h.early->Some_0[i - n]
            &&& t.early is None
            &&& t.clients.dom().contains(other) == h.clients.dom().contains(other)
            &&& t.clients[other] == h.clients[other]
            &&& t.parted == h.parted
        }),
{
}

/// A client that leaves is not there any more. What it has not read can still be read where
/// somebody listens. The others do not notice.
pub proof fn law_client_leaves<V>(h: HubView<V>, id: Seq<char>, other: Seq<char>)
    requires
        other != id,
    ensures
        ({
            let t = without_client(h, id);
            &&& !t.clients.dom().contains(id)
            &&& h.clients.dom().contains(id) && h.clients[id].listening ==> t.parted.dom().contains(
                id,
            ) && t.parted[id] == h.clients[id].events
            &&& !h.clients.dom().contains(id) ==> t == h
            &&& t.clients.dom().contains(other) == h.clients.dom().contains(other)
            &&& t.clients[other] == h.clients[other]
            &&& t.parted.dom().contains(other) == h.parted.dom().contains(other)
            &&& t.parted[other] == h.parted[other]
            &&& t.early == h.early
        }),
{
}

/// A client that hangs up does not listen any more, and finds the end at once where it was
/// dropped before. The others do not notice.
pub proof fn law_client_hangs_up<V>(h: HubView<V>, id: Seq<char>, other: Seq<char>)
    requires
        other != id,
    ensures
        ({
            let t = hung_up(h, id);
            &&& t.clients.dom() == h.clients.dom()
            &&& h.clients.dom().contains(id) ==> !t.clients[id].listening && t.clients[id].events
                == h.clients[id].events
            &&& !h.clients.dom().contains(id) ==> received(t, id).1 is Closed
            &&& t.clients[other] == h.clients[other]
            &&& t.parted.dom().contains(other) == h.parted.dom().contains(other)
            &&& t.parted[other] == h.parted[other]
            &&& t.early == h.early
        }),
{
    assert(hung_up(h, id).clients.dom() =~= h.clients.dom());
}

/// When all are closed, nobody is connected any more, and every client that listens and has
/// room finds the last event behind what waits there.
pub proof fn law_last_event_reaches_everyone<V>(h: HubView<V>, e: V, id: Seq<char>)
    ensures
        ({
            let t = closed_all(h, e);
            let here = h.clients.dom().contains(id) && h.clients[id].listening;
            &&& !t.clients.dom().contains(id)
            &&& here ==> t.parted.dom().contains(id)
            &&& here && h.clients[id].events.len() < CLIENT_CHANNEL_CAP ==> t.parted[id]
                == h.clients[id].events.push(e)
            &&& here && h.clients[id].events.len() >= CLIENT_CHANNEL_CAP ==> t.parted[id]
                == h.clients[id].events
            &&& !here ==> t.parted.dom().contains(id) == h.parted.dom().contains(id)
            &&& !here && h.parted.dom().contains(id) ==> t.parted[id] == h.parted[id]
        }),
{
}

/// The counters tell how many clients left, and how many of them because they did not keep
/// up; no other counter moves.
pub proof fn law_departures_are_counted(m: Metrics, gone: nat, late: nat)
    requires
        m.client_disconnects + gone <= u64::MAX,
        m.backpressure_events + late <= u64::MAX,
        gone <= m.active_clients,
    ensures
        parted_metrics(m, gone, late) == (Metrics {
            client_disconnects: (m.client_disconnects + gone) as u64,
            active_clients: (m.active_clients - gone) as u64,
            backpressure_events: (m.backpressure_events + late) as u64,
            ..m
        }),
{
    lemma_counted_times(m.client_disconnects, gone);
    lemma_counted_times(m.backpressure_events, late);
    lemma_discounted_times(m.active_clients, gone);
}

proof fn lemma_counted_times(n: u64, k: nat)
    requires
        n + k <= u64::MAX,
    ensures
        counted_times(n, k) == n + k,
    decreases k,
{
    if k > 0 {
        lemma_counted_times(n, (k - 1) as nat);
    }
}

proof fn lemma_discounted_times(n: u64, k: nat)
    requires
        k <= n,
    ensures
        discounted_times(n, k) == n - k,
    decreases k,
{
    if k > 0 {
        lemma_discounted_times(n, (k - 1) as nat);
    }
}

/// After an event for all, as many clients are counted as gone as are gone, and no client is
/// counted as late that was not dropped for a queue that stayed full.
pub proof fn law_dropped_clients_are_counted<V>(h: HubView<V>, e: V, now: u64, m: Metrics)
    requires
        h.clients.dom().finite(),
        m.client_disconnects + h.clients.dom().len() <= u64::MAX,
        h.clients.dom().len() <= m.active_clients,
        m.backpressure_events + h.clients.dom().len() <= u64::MAX,
    ensures
        ({
            let t = published(h, e, now);
            let n = published_metrics(h, now, m);
            let gone = h.clients.dom().len() - t.clients.dom().len();
            &&& t.clients.dom().finite()
            &&& t.clients.dom().len() <= h.clients.dom().len()
            &&& n.client_disconnects == m.client_disconnects + gone
            &&& n.active_clients == m.active_clients - gone
            &&& m.backpressure_events <= n.backpressure_events <= m.backpressure_events + gone
            &&& n == (Metrics {
                client_disconnects: n.client_disconnects,
                active_clients: n.active_clients,
                backpressure_events: n.backpressure_events,
                ..m
            })
        }),
{
    let t = published(h, e, now);
    let out = leavers(h.clients, now);
    let late = latecomers(h.clients, now);
    if !is_early(h) {
        let stay = t.clients.dom();
        assert(stay =~= h.clients.dom().difference(out));
        assert(h.clients.dom() =~= stay + out);
        assert(out.subset_of(h.clients.dom()));
        lemma_len_subset(out, h.clients.dom());
        lemma_len_subset(late, out);
        lemma_set_disjoint_lens(stay, out);
        law_departures_are_counted(m, out.len(), late.len());
    }
}

/// At first nobody is connected, and what is sent is kept for the first to come.
pub proof fn law_nobody_is_connected_at_first<V>(e: V, now: u64, id: Seq<char>)
    ensures
        ({
            let h = nobody::<V>();
            &&& h.clients == Map::<Seq<char>, ClientView<V>>::empty()
            &&& published(h, e, now).early == Some(seq![e])
            &&& joined(published(h, e, now), id, None).clients[id].events == seq![e]
        }),
{
    let h = nobody::<V>();
    let g = published(h, e, now);
    assert(g.early->Some_0 =~= seq![e]);
    assert(joined(g, id, None).clients[id].events =~= seq![e]);
}

} // verus!
