//! A table from names to values.

use vstd::prelude::*;

use crate::text::same;

verus! {

/// A value that may be of no use after some time.
pub trait Expires: View {
    spec fn alive(v: Self::V, now: u64) -> bool;

    /// Whether the value is still of use at `now`.
    fn is_alive(&self, now: u64) -> (r: bool)
        ensures
            r == Self::alive(self@, now),
    ;
}

/// Values by name; a name stands for one value.
pub struct Store<V> {
    entries: Vec<(String, V)>,
}

spec fn map_of_entries<V: View>(es: Seq<(String, V)>) -> Map<Seq<char>, V::V>
    decreases es.len(),
{
    if es.len() == 0 {
        Map::empty()
    } else {
        map_of_entries(es.drop_last()).insert(es.last().0@, es.last().1@)
    }
}

spec fn distinct_names<V>(es: Seq<(String, V)>) -> bool {
    forall|i: int, j: int|
        0 <= i < es.len() && 0 <= j < es.len() && (#[trigger] es[i]).0@ == (#[trigger] es[j]).0@
            ==> i == j
}

spec fn names<V>(es: Seq<(String, V)>, name: Seq<char>) -> bool {
    exists|i: int| 0 <= i < es.len() && (#[trigger] es[i]).0@ == name
}

proof fn lemma_names<V: View>(es: Seq<(String, V)>, name: Seq<char>)
    ensures
        map_of_entries(es).dom().contains(name) <==> names(es, name),
    decreases es.len(),
{
    if es.len() > 0 {
        let rest = es.drop_last();
        lemma_names(rest, name);
        if names(rest, name) {
            let i = choose|i: int| 0 <= i < rest.len() && (#[trigger] rest[i]).0@ == name;
            assert(es[i].0@ == name);
        }
        if names(es, name) {
            let i = choose|i: int| 0 <= i < es.len() && (#[trigger] es[i]).0@ == name;
            if i < rest.len() {
                assert(rest[i].0@ == name);
            }
        }
        if es.last().0@ == name {
            assert(es[es.len() - 1].0@ == name);
        }
    }
}

proof fn lemma_value<V: View>(es: Seq<(String, V)>, i: int)
    requires
        distinct_names(es),
        0 <= i < es.len(),
    ensures
        map_of_entries(es).dom().contains(es[i].0@),
        map_of_entries(es)[es[i].0@] == es[i].1@,
    decreases es.len(),
{
    let rest = es.drop_last();
    assert forall|a: int, b: int|
        0 <= a < rest.len() && 0 <= b < rest.len() && (#[trigger] rest[a]).0@ == (#[trigger] rest[b]).0@
        implies a == b by {
        assert(es[a].0@ == es[b].0@);
    }
    if i < rest.len() {
        lemma_value(rest, i);
        assert(rest[i] == es[i]);
        assert(es[i].0@ != es[es.len() - 1].0@);
    }
}

/// Two lists of entries make the same table where each name of one stands in the other,
/// with the same value.
proof fn lemma_same_table<V: View>(es: Seq<(String, V)>, m: Map<Seq<char>, V::V>)
    requires
        distinct_names(es),
        forall|i: int|
            0 <= i < es.len() ==> m.dom().contains((#[trigger] es[i]).0@) && m[es[i].0@] == es[i].1@,
        forall|name: Seq<char>| #[trigger] m.dom().contains(name) ==> names(es, name),
    ensures
        map_of_entries(es) == m,
{
    let t = map_of_entries(es);
    assert forall|name: Seq<char>| t.dom().contains(name) <==> #[trigger] m.dom().contains(
        name,
    ) by {
        lemma_names(es, name);
        if names(es, name) {
            let i = choose|i: int| 0 <= i < es.len() && (#[trigger] es[i]).0@ == name;
            assert(m.dom().contains(es[i].0@));
        }
    }
    assert forall|name: Seq<char>| #[trigger] t.dom().contains(name) implies t[name] == m[name] by {
        lemma_names(es, name);
        let i = choose|i: int| 0 <= i < es.len() && (#[trigger] es[i]).0@ == name;
        lemma_value(es, i);
    }
    assert(t =~= m);
}

/// Whether the list holds the name.
pub open spec fn lists(v: Seq<String>, name: Seq<char>) -> bool {
    exists|i: int| 0 <= i < v.len() && (#[trigger] v[i])@ == name
}

impl<V: View> View for Store<V> {
    type V = Map<Seq<char>, V::V>;

    closed spec fn view(&self) -> Map<Seq<char>, V::V> {
        map_of_entries(self.entries@)
    }
}

/// The values that are still of use.
pub open spec fn still_alive<V: Expires>(m: Map<Seq<char>, V::V>, now: u64) -> Map<
    Seq<char>,
    V::V,
> {
    Map::new(|name: Seq<char>| m.dom().contains(name) && V::alive(m[name], now), |name: Seq<char>| m[name])
}

impl<V> Store<V> {
    #[verifier::type_invariant]
    spec fn wf(self) -> bool {
        distinct_names(self.entries@)
    }
}

impl<V: View> Store<V> {
    pub fn new() -> (r: Store<V>)
        ensures
            r@ == Map::<Seq<char>, V::V>::empty(),
    {
        Store { entries: Vec::new() }
    }

    fn place(&self, name: &str) -> (r: usize)
        ensures
            r <= self.entries.len(),
            r < self.entries.len() ==> self.entries[r as int].0@ == name@,
            r == self.entries.len() ==> !names(self.entries@, name@),
    {
        let mut i: usize = 0;
        while i < self.entries.len()
            invariant
                i <= self.entries.len(),
                forall|k: int| 0 <= k < i ==> (#[trigger] self.entries@[k]).0@ != name@,
            decreases self.entries.len() - i,
        {
            if same(self.entries[i].0.as_str(), name) {
                return i;
            }
            i += 1;
        }
        i
    }

    /// The value that the name stands for.
    pub fn get(&self, name: &str) -> (r: Option<&V>)
        ensures
            r is Some <==> self@.dom().contains(name@),
            r matches Some(v) ==> v@ == self@[name@],
    {
        proof {
            use_type_invariant(self);
            lemma_names(self.entries@, name@);
        }
        let i: usize = self.place(name);
        if i < self.entries.len() {
            proof {
                lemma_value(self.entries@, i as int);
            }
            Some(&self.entries[i].1)
        } else {
            None
        }
    }

    pub fn contains(&self, name: &str) -> (r: bool)
        ensures
            r == self@.dom().contains(name@),
    {
        self.get(name).is_some()
    }

    pub fn len(&self) -> (r: usize)
        ensures
            r == self@.dom().len(),
            self@.dom().finite(),
    {
        proof {
            use_type_invariant(self);
            lemma_size(self.entries@);
        }
        self.entries.len()
    }

    /// The names that stand for a value, each once.
    pub fn names(&self) -> (r: Vec<String>)
        ensures
            forall|name: Seq<char>| #[trigger] self@.dom().contains(name) <==> lists(r@, name),
            forall|i: int, j: int|
                0 <= i < r.len() && 0 <= j < r.len() && (#[trigger] r[i])@ == (#[trigger] r[j])@
                    ==> i == j,
            self@.dom().finite(),
            r.len() == self@.dom().len(),
    {
        proof {
            use_type_invariant(self);
            lemma_size(self.entries@);
        }
        let mut out: Vec<String> = Vec::new();
        let mut i: usize = 0;
        while i < self.entries.len()
            invariant
                i <= self.entries.len(),
                out.len() == i,
                forall|k: int| 0 <= k < i ==> (#[trigger] out[k])@ == self.entries[k].0@,
            decreases self.entries.len() - i,
        {
            out.push(self.entries[i].0.clone());
            i += 1;
        }
        proof {
            let es = self.entries@;
            assert forall|name: Seq<char>| #[trigger] self@.dom().contains(name) <==> lists(
                out@,
                name,
            ) by {
                lemma_names(es, name);
                if names(es, name) {
                    let k = choose|k: int| 0 <= k < es.len() && (#[trigger] es[k]).0@ == name;
                    assert(out[k]@ == name);
                }
                if lists(out@, name) {
                    let k = choose|k: int| 0 <= k < out.len() && (#[trigger] out[k])@ == name;
                    assert(es[k].0@ == name);
                }
            }
            assert forall|a: int, b: int|
                0 <= a < out.len() && 0 <= b < out.len() && (#[trigger] out[a])@ == (
                #[trigger] out[b])@ implies a == b by {
                assert(es[a].0@ == es[b].0@);
            }
        }
        out
    }

    /// Puts a value under a name, in place of any that stood there.
    pub fn insert(&mut self, name: String, value: V)
        ensures
            final(self)@ == old(self)@.insert(name@, value@),
    {
        proof {
            use_type_invariant(&*self);
        }
        let i: usize = self.place(name.as_str());
        let ghost before = self.entries@;
        let ghost m = self@;
        let mut entries: Vec<(String, V)> = Vec::new();
        std::mem::swap(&mut entries, &mut self.entries);
        if i < entries.len() {
            entries.set(i, (name, value));
        } else {
            entries.push((name, value));
        }
        proof {
            let after = entries@;
            assert forall|a: int, b: int|
                0 <= a < after.len() && 0 <= b < after.len() && (#[trigger] after[a]).0@ == (
                #[trigger] after[b]).0@ implies a == b by {
                if a < before.len() && b < before.len() {
                    assert(before[a].0@ == before[b].0@);
                } else if a < before.len() {
                    assert(before[a].0@ == name@);
                } else if b < before.len() {
                    assert(before[b].0@ == name@);
                }
            }
            let n = m.insert(name@, value@);
            assert forall|k: int| 0 <= k < after.len() implies n.dom().contains(
                (#[trigger] after[k]).0@,
            ) && n[after[k].0@] == after[k].1@ by {
                if k != i {
                    assert(before[k] == after[k]);
                    lemma_value(before, k);
                    assert(after[i as int].0@ == name@);
                }
            }
            assert forall|x: Seq<char>| #[trigger] n.dom().contains(x) implies names(after, x) by {
                if x == name@ {
                    assert(after[i as int].0@ == x);
                } else {
                    lemma_names(before, x);
                    let k = choose|k: int| 0 <= k < before.len() && (#[trigger] before[k]).0@ == x;
                    assert(after[k] == before[k]);
                }
            }
            lemma_same_table(after, n);
        }
        self.entries = entries;
    }

    /// Takes away what the name stands for.
    pub fn remove(&mut self, name: &str) -> (r: Option<V>)
        ensures
            final(self)@ == old(self)@.remove(name@),
            r is Some <==> old(self)@.dom().contains(name@),
            r matches Some(v) ==> v@ == old(self)@[name@],
    {
        proof {
            use_type_invariant(&*self);
            lemma_names(self.entries@, name@);
        }
        let i: usize = self.place(name);
        let ghost before = self.entries@;
        let ghost m = self@;
        if i == self.entries.len() {
            assert(m.remove(name@) =~= m);
            return None;
        }
        proof {
            lemma_value(before, i as int);
        }
        let mut entries: Vec<(String, V)> = Vec::new();
        std::mem::swap(&mut entries, &mut self.entries);
        let (_, value) = entries.remove(i);
        proof {
            let after = entries@;
            assert forall|a: int, b: int|
                0 <= a < after.len() && 0 <= b < after.len() && (#[trigger] after[a]).0@ == (
                #[trigger] after[b]).0@ implies a == b by {
                let c = if a < i { a } else { a + 1 };
                let d = if b < i { b } else { b + 1 };
                assert(before[c].0@ == before[d].0@);
            }
            let n = m.remove(name@);
            assert forall|k: int| 0 <= k < after.len() implies n.dom().contains(
                (#[trigger] after[k]).0@,
            ) && n[after[k].0@] == after[k].1@ by {
                let c = if k < i { k } else { k + 1 };
                assert(before[c] == after[k]);
                lemma_value(before, c);
                assert(before[c].0@ != before[i as int].0@);
            }
            assert forall|x: Seq<char>| #[trigger] n.dom().contains(x) implies names(after, x) by {
                lemma_names(before, x);
                let k = choose|k: int| 0 <= k < before.len() && (#[trigger] before[k]).0@ == x;
                let c = if k < i { k } else { k - 1 };
                assert(after[c] == before[k]);
            }
            lemma_same_table(after, n);
        }
        self.entries = entries;
        Some(value)
    }
}

impl<V: Expires> Store<V> {
    /// Takes away what is of no use any more.
    pub fn retain_alive(&mut self, now: u64)
        ensures
            final(self)@ == still_alive::<V>(old(self)@, now),
    {
        proof {
            use_type_invariant(&*self);
        }
        let ghost before = self.entries@;
        let ghost m = self@;
        let mut entries: Vec<(String, V)> = Vec::new();
        std::mem::swap(&mut entries, &mut self.entries);
        let mut i: usize = 0;
        let ghost n = still_alive::<V>(m, now);
        proof {
            assert forall|x: Seq<char>| #[trigger] n.dom().contains(x) implies names(before, x) by {
                lemma_names(before, x);
            }
            assert forall|k: int| 0 <= k < before.len() implies m.dom().contains(
                (#[trigger] before[k]).0@,
            ) && m[before[k].0@] == before[k].1@ by {
                lemma_value(before, k);
            }
        }
        while i < entries.len()
            invariant
                i <= entries.len(),
                distinct_names(entries@),
                n == still_alive::<V>(m, now),
                forall|k: int|
                    0 <= k < entries.len() ==> m.dom().contains((#[trigger] entries@[k]).0@)
                        && m[entries@[k].0@] == entries@[k].1@,
                forall|k: int| 0 <= k < i ==> V::alive((#[trigger] entries@[k]).1@, now),
                forall|x: Seq<char>| #[trigger] n.dom().contains(x) ==> names(entries@, x),
            decreases entries.len() - i,
        {
            let ghost was = entries@;
            if entries[i].1.is_alive(now) {
                i += 1;
            } else {
                entries.remove(i);
                proof {
                    let after = entries@;
                    assert forall|a: int, b: int|
                        0 <= a < after.len() && 0 <= b < after.len() && (#[trigger] after[a]).0@
                            == (#[trigger] after[b]).0@ implies a == b by {
                        let c = if a < i { a } else { a + 1 };
                        let d = if b < i { b } else { b + 1 };
                        assert(was[c].0@ == was[d].0@);
                    }
                    assert forall|k: int| 0 <= k < after.len() implies m.dom().contains(
                        (#[trigger] after[k]).0@,
                    ) && m[after[k].0@] == after[k].1@ by {
                        let c = if k < i { k } else { k + 1 };
                        assert(after[k] == was[c]);
                    }
                    assert forall|k: int| 0 <= k < i implies V::alive(
                        (#[trigger] after[k]).1@,
                        now,
                    ) by {
                        assert(after[k] == was[k]);
                    }
                    assert forall|x: Seq<char>| #[trigger] n.dom().contains(x) implies names(
                        after,
                        x,
                    ) by {
                        let k = choose|k: int| 0 <= k < was.len() && (#[trigger] was[k]).0@ == x;
                        assert(k != i);
                        let c = if k < i { k } else { k - 1 };
                        assert(after[c] == was[k]);
                    }
                }
            }
        }
        proof {
            assert forall|k: int| 0 <= k < entries.len() implies n.dom().contains(
                (#[trigger] entries@[k]).0@,
            ) && n[entries@[k].0@] == entries@[k].1@ by {}
            lemma_same_table(entries@, n);
        }
        self.entries = entries;
    }
}

proof fn lemma_size<V: View>(es: Seq<(String, V)>)
    requires
        distinct_names(es),
    ensures
        map_of_entries(es).dom().finite(),
        map_of_entries(es).dom().len() == es.len(),
    decreases es.len(),
{
    if es.len() > 0 {
        let rest = es.drop_last();
        assert forall|a: int, b: int|
            0 <= a < rest.len() && 0 <= b < rest.len() && (#[trigger] rest[a]).0@ == (
            #[trigger] rest[b]).0@ implies a == b by {
            assert(es[a].0@ == es[b].0@);
        }
        lemma_size(rest);
        lemma_names(rest, es.last().0@);
        if names(rest, es.last().0@) {
            let i = choose|i: int| 0 <= i < rest.len() && (#[trigger] rest[i]).0@ == es.last().0@;
            assert(es[i].0@ == es[es.len() - 1].0@);
        }
        assert(map_of_entries(es).dom() =~= map_of_entries(rest).dom().insert(es.last().0@));
    } else {
        assert(map_of_entries(es).dom() =~= Set::<Seq<char>>::empty());
    }
}

} // verus!
