//! Requests of many clients to one child: each request goes out under a number of its own,
//! and the answer finds its way back with the id that the client gave.

use std::collections::HashMap;

use vstd::prelude::*;
use vstd::std_specs::hash::spec_keys_iter;
use vstd::std_specs::iter::IteratorSpec;

use crate::json::RawValue;
use crate::observe::counted;
use crate::session::SessionId;
use crate::store::lists;
use crate::text::same;

verus! {

broadcast use vstd::std_specs::hash::group_hash_axioms;

/// A request that waits for its answer.
pub struct Pending {
    client: SessionId,
    original: RawValue,
}

/// Who asked, and under which id.
#[verifier::ext_equal]
pub struct Origin {
    pub client: Seq<char>,
    pub original: Seq<char>,
}

impl View for Pending {
    type V = Origin;

    closed spec fn view(&self) -> Origin {
        Origin { client: self.client@, original: self.original@ }
    }
}

/// The requests that wait, by the number under which they went out.
pub struct IdMultiplexer {
    next_id: u64,
    pending: HashMap<u64, Pending>,
}

#[verifier::ext_equal]
pub struct MuxView {
    pub next_id: u64,
    pub pending: Map<u64, Origin>,
}

spec fn table(m: Map<u64, Pending>) -> Map<u64, Origin> {
    m.map_values(|p: Pending| p@)
}

impl View for IdMultiplexer {
    type V = MuxView;

    closed spec fn view(&self) -> MuxView {
        MuxView { next_id: self.next_id, pending: table(self.pending@) }
    }
}

/// The requests of everybody but one.
pub open spec fn without_owner(m: Map<u64, Origin>, client: Seq<char>) -> Map<u64, Origin> {
    Map::new(|k: u64| m.dom().contains(k) && m[k].client != client, |k: u64| m[k])
}

/// The requests of everybody but the listed.
pub open spec fn without_owners(m: Map<u64, Origin>, clients: Set<Seq<char>>) -> Map<u64, Origin> {
    Map::new(|k: u64| m.dom().contains(k) && !clients.contains(m[k].client), |k: u64| m[k])
}

impl IdMultiplexer {
    pub fn new() -> (r: IdMultiplexer)
        ensures
            r@ == (MuxView { next_id: 1, pending: Map::empty() }),
    {
        let r = IdMultiplexer { next_id: 1, pending: HashMap::new() };
        assert(r@.pending =~= Map::<u64, Origin>::empty());
        r
    }

    /// Gives a request its number.
    pub fn mangle(&mut self, client_id: &SessionId, original_id: &RawValue) -> (r: u64)
        ensures
            r == old(self)@.next_id,
            final(self)@ == (MuxView {
                next_id: counted(old(self)@.next_id),
                pending: old(self)@.pending.insert(
                    r,
                    Origin { client: client_id@, original: original_id@ },
                ),
            }),
    {
        let k: u64 = self.next_id;
        let ghost before = self.pending@;
        let entry = Pending { client: client_id.clone(), original: original_id.clone() };
        let ghost e = entry;
        self.pending.insert(k, entry);
        self.next_id = k.wrapping_add(1);
        assert(table(self.pending@) =~= table(before).insert(k, e@));
        k
    }

    /// Takes the request back that went out under the number.
    pub fn unmangle(&mut self, mangled: u64) -> (r: Option<(SessionId, RawValue)>)
        ensures
            final(self)@ == (MuxView {
                pending: old(self)@.pending.remove(mangled),
                ..old(self)@
            }),
            match r {
                Some(x) => old(self)@.pending.dom().contains(mangled)
                    && old(self)@.pending[mangled] == (Origin {
                    client: x.0@,
                    original: x.1@,
                }),
                None => !old(self)@.pending.dom().contains(mangled),
            },
    {
        let ghost before = self.pending@;
        let found = self.pending.remove(&mangled);
        assert(table(self.pending@) =~= table(before).remove(mangled));
        match found {
            Some(entry) => Some((entry.client, entry.original)),
            None => None,
        }
    }

    /// The numbers of the requests that wait.
    fn numbers(&self) -> (r: Vec<u64>)
        ensures
            forall|k: u64| self@.pending.dom().contains(k) <==> #[trigger] r@.contains(k),
    {
        let mut out: Vec<u64> = Vec::new();
        let ghost dom = self.pending@.dom();
        let ghost all = spec_keys_iter(&self.pending).remaining().unref();
        for k in it: self.pending.keys()
            invariant
                it.seq().unref() == all,
                out@ == all.take(it.index()),
                all.to_set() == dom,
        {
            out.push(*k);
            assert(out@ =~= all.take(it.index() + 1));
        }
        assert(out@ =~= all);
        assert forall|k: u64| dom.contains(k) <==> #[trigger] out@.contains(k) by {
            assert(out@.to_set().contains(k) <==> out@.contains(k));
        }
        out
    }

    /// Forgets the requests of a client.
    pub fn remove_client(&mut self, client_id: &str)
        ensures
            final(self)@ == (MuxView {
                pending: without_owner(old(self)@.pending, client_id@),
                ..old(self)@
            }),
    {
        let numbers = self.numbers();
        let ghost m = self@.pending;
        let mut i: usize = 0;
        assert(self@.pending =~= spared(m, client_id@, numbers@.take(0)));
        while i < numbers.len()
            invariant
                i <= numbers.len(),
                self.next_id == old(self).next_id,
                self@.pending == spared(m, client_id@, numbers@.take(i as int)),
            decreases numbers.len() - i,
        {
            let k: u64 = numbers[i];
            let ghost before = self.pending@;
            let owned = match self.pending.get(&k) {
                Some(entry) => same(entry.client.as_str(), client_id),
                None => false,
            };
            assert(owned <==> before.dom().contains(k) && before[k].client@ == client_id@);
            if owned {
                self.pending.remove(&k);
                assert(table(self.pending@) =~= table(before).remove(k));
            }
            proof {
                let done = numbers@.take(i as int);
                assert(numbers@.take(i + 1) =~= done.push(k));
                assert forall|x: u64| #[trigger] done.push(k).contains(x) <==> done.contains(x) || x
                    == k by {
                    if done.contains(x) {
                        let j = choose|j: int| 0 <= j < done.len() && done[j] == x;
                        assert(done.push(k)[j] == x);
                    }
                    if x == k {
                        assert(done.push(k)[done.len() as int] == x);
                    }
                }
                let was = spared(m, client_id@, done);
                assert(table(before) == was);
                if was.dom().contains(k) {
                    assert(table(before)[k] == before[k]@);
                    assert(m[k] == was[k]);
                } else {
                    assert(!before.dom().contains(k));
                }
                let want = spared(m, client_id@, done.push(k));
                assert(want =~= (if owned {
                    was.remove(k)
                } else {
                    was
                }));
            }
            i += 1;
        }
        assert(numbers@.take(i as int) =~= numbers@);
        assert(self@.pending =~= without_owner(m, client_id@));
    }

    /// Forgets the requests of the listed clients.
    pub fn remove_clients(&mut self, clients: &Vec<String>)
        ensures
            final(self)@ == (MuxView {
                pending: without_owners(
                    old(self)@.pending,
                    Set::new(|id: Seq<char>| lists(clients@, id)),
                ),
                ..old(self)@
            }),
    {
        let ghost m = self@.pending;
        let mut i: usize = 0;
        assert(self@.pending =~= without_owners(m, gone(clients@, 0)));
        while i < clients.len()
            invariant
                i <= clients.len(),
                m == old(self)@.pending,
                self@ == (MuxView {
                    pending: without_owners(m, gone(clients@, i as int)),
                    ..old(self)@
                }),
            decreases clients.len() - i,
        {
            self.remove_client(clients[i].as_str());
            proof {
                let a = gone(clients@, i as int);
                let b = gone(clients@, i + 1);
                let c = clients[i as int]@;
                assert forall|id: Seq<char>| b.contains(id) <==> a.contains(id) || id == c by {
                    if a.contains(id) {
                        let k = choose|k: int| 0 <= k < i && (#[trigger] clients[k])@ == id;
                        assert(clients[k]@ == id);
                    }
                    if id == c {
                        assert(clients[i as int]@ == id);
                    }
                }
                assert(without_owner(without_owners(m, a), c) =~= without_owners(m, b));
            }
            i += 1;
        }
        assert(gone(clients@, i as int) =~= Set::new(|id: Seq<char>| lists(clients@, id)));
    }
}

/// The first `n` of the listed clients.
spec fn gone(clients: Seq<String>, n: int) -> Set<Seq<char>> {
    Set::new(|id: Seq<char>| exists|k: int| 0 <= k < n && (#[trigger] clients[k])@ == id)
}

/// The requests without those of a client among the numbers.
spec fn spared(m: Map<u64, Origin>, client: Seq<char>, numbers: Seq<u64>) -> Map<u64, Origin> {
    Map::new(
        |k: u64| m.dom().contains(k) && !(numbers.contains(k) && m[k].client == client),
        |k: u64| m[k],
    )
}

// ---- Laws ----------------------------------------------------------------------------

/// A request under its number.
pub open spec fn mangled(m: MuxView, o: Origin) -> MuxView {
    MuxView { next_id: counted(m.next_id), pending: m.pending.insert(m.next_id, o) }
}

/// Whether no number that waits is still to be given.
pub open spec fn fresh(m: MuxView) -> bool {
    forall|k: u64| #[trigger] m.pending.dom().contains(k) ==> k < m.next_id
}

/// The answer to a request finds who asked and the id that was given, whatever that id
/// was; the other requests are not touched by it.
pub proof fn law_answer_finds_its_request(m: MuxView, o: Origin)
    requires
        fresh(m),
    ensures
        mangled(m, o).pending.dom().contains(m.next_id),
        mangled(m, o).pending[m.next_id] == o,
        mangled(m, o).pending.remove(m.next_id) == m.pending,
{
    assert(!m.pending.dom().contains(m.next_id));
    assert(mangled(m, o).pending.remove(m.next_id) =~= m.pending);
}

/// Two requests that wait never share a number, not even where their clients gave the same
/// id; forgetting requests keeps it so. This holds until all numbers are used up.
pub proof fn law_numbers_are_fresh(m: MuxView, o: Origin, k: u64, clients: Set<Seq<char>>)
    requires
        fresh(m),
        m.next_id < u64::MAX,
    ensures
        !m.pending.dom().contains(m.next_id),
        fresh(mangled(m, o)),
        fresh(MuxView { pending: m.pending.remove(k), ..m }),
        fresh(MuxView { pending: without_owners(m.pending, clients), ..m }),
{
}

/// When clients leave, their requests are forgotten and those of the others stay as they are.
pub proof fn law_requests_of_others_stay(m: Map<u64, Origin>, clients: Set<Seq<char>>, k: u64)
    requires
        m.contains_key(k),
    ensures
        without_owners(m, clients).contains_key(k) <==> !clients.contains(m[k].client),
        !clients.contains(m[k].client) ==> without_owners(m, clients)[k] == m[k],
        without_owner(m, m[k].client) == without_owners(m, set![m[k].client]),
        !without_owner(m, m[k].client).contains_key(k),
        without_owners(m, clients).dom().subset_of(m.dom()),
{
    let c = m[k].client;
    assert(without_owner(m, c) =~= without_owners(m, set![c]));
}

/// Two requests get two numbers, one after the other, and each is noted with its client.
pub proof fn law_numbers_follow_each_other(m: MuxView, a: Origin, b: Origin)
    requires
        m.next_id < u64::MAX - 1,
    ensures
        ({
            let after = mangled(mangled(m, a), b);
            &&& after.next_id == m.next_id + 2
            &&& after.pending[m.next_id] == a
            &&& after.pending[(m.next_id + 1) as u64] == b
        }),
{
}

} // verus!
