//! Lists of named values, as they occur in JSON objects, headers, queries and
//! forms.

use vstd::prelude::*;

use crate::text::same;

verus! {

/// Names with their values, in order.
pub type Pairs = Seq<(Seq<char>, Seq<char>)>;

/// What each name stands for; where a name occurs twice, the last one counts.
pub open spec fn map_of(ps: Pairs) -> Map<Seq<char>, Seq<char>>
    decreases ps.len(),
{
    if ps.len() == 0 {
        Map::empty()
    } else {
        map_of(ps.drop_last()).insert(ps.last().0, ps.last().1)
    }
}

pub open spec fn has_name(ps: Pairs, name: Seq<char>) -> bool {
    exists|i: int| 0 <= i < ps.len() && (#[trigger] ps[i]).0 == name
}

/// Whether every name occurs once.
pub open spec fn distinct(ps: Pairs) -> bool {
    forall|i: int, j: int|
        0 <= i < ps.len() && 0 <= j < ps.len() && (#[trigger] ps[i]).0 == (#[trigger] ps[j]).0
            ==> i == j
}

/// The first place at or after `from` that holds the name, or the length.
pub open spec fn place_of(ps: Pairs, name: Seq<char>, from: int) -> int
    decreases ps.len() - from,
{
    if from >= ps.len() {
        ps.len() as int
    } else if ps[from].0 == name {
        from
    } else {
        place_of(ps, name, from + 1)
    }
}

/// The value that stands first under the name.
pub open spec fn first_value(ps: Pairs, name: Seq<char>) -> Option<Seq<char>> {
    let at = place_of(ps, name, 0);
    if at < ps.len() {
        Some(ps[at].1)
    } else {
        None
    }
}

/// The list with `value` under `name`: in its old place, or at the end.
pub open spec fn with_value(ps: Pairs, name: Seq<char>, value: Seq<char>) -> Pairs {
    let at = place_of(ps, name, 0);
    if at < ps.len() {
        ps.update(at, (ps[at].0, value))
    } else {
        ps.push((name, value))
    }
}

pub proof fn lemma_place_of(ps: Pairs, name: Seq<char>, from: int)
    requires
        0 <= from <= ps.len(),
    ensures
        from <= place_of(ps, name, from) <= ps.len(),
        place_of(ps, name, from) < ps.len() ==> ps[place_of(ps, name, from)].0 == name,
        forall|k: int| from <= k < place_of(ps, name, from) ==> (#[trigger] ps[k]).0 != name,
    decreases ps.len() - from,
{
    if from < ps.len() && ps[from].0 != name {
        lemma_place_of(ps, name, from + 1);
    }
}

pub proof fn lemma_map_of_contains(ps: Pairs, name: Seq<char>)
    ensures
        map_of(ps).dom().contains(name) <==> has_name(ps, name),
    decreases ps.len(),
{
    if ps.len() > 0 {
        let rest = ps.drop_last();
        lemma_map_of_contains(rest, name);
        if has_name(rest, name) {
            let i = choose|i: int| 0 <= i < rest.len() && (#[trigger] rest[i]).0 == name;
            assert(ps[i].0 == name);
        }
        if has_name(ps, name) {
            let i = choose|i: int| 0 <= i < ps.len() && (#[trigger] ps[i]).0 == name;
            if i < rest.len() {
                assert(rest[i].0 == name);
            }
        }
        if ps.last().0 == name {
            assert(ps[ps.len() - 1].0 == name);
        }
    }
}

/// Where names are distinct, a name stands for the value beside it.
pub proof fn lemma_map_of_distinct(ps: Pairs, i: int)
    requires
        distinct(ps),
        0 <= i < ps.len(),
    ensures
        map_of(ps).dom().contains(ps[i].0),
        map_of(ps)[ps[i].0] == ps[i].1,
    decreases ps.len(),
{
    let rest = ps.drop_last();
    assert forall|a: int, b: int|
        0 <= a < rest.len() && 0 <= b < rest.len() && (#[trigger] rest[a]).0 == (#[trigger] rest[b]).0
        implies a == b by {
        assert(ps[a].0 == ps[b].0);
    }
    if i < rest.len() {
        lemma_map_of_distinct(rest, i);
        assert(rest[i] == ps[i]);
        assert(ps[i].0 != ps[ps.len() - 1].0);
    }
}

/// Where names are distinct, looking a name up in the list and in the map is
/// the same.
pub proof fn lemma_first_value_of_distinct(ps: Pairs, name: Seq<char>)
    requires
        distinct(ps),
    ensures
        first_value(ps, name) is Some <==> map_of(ps).dom().contains(name),
        first_value(ps, name) matches Some(v) ==> map_of(ps)[name] == v,
{
    lemma_place_of(ps, name, 0);
    lemma_map_of_contains(ps, name);
    let at = place_of(ps, name, 0);
    if at < ps.len() {
        lemma_map_of_distinct(ps, at);
        assert(has_name(ps, name));
    } else if has_name(ps, name) {
        let i = choose|i: int| 0 <= i < ps.len() && (#[trigger] ps[i]).0 == name;
        assert(ps[i].0 != name);
    }
}

pub proof fn lemma_first_value_add(a: Pairs, b: Pairs, name: Seq<char>)
    ensures
        first_value(a + b, name) == (if first_value(a, name) is Some {
            first_value(a, name)
        } else {
            first_value(b, name)
        }),
{
    let c = a + b;
    lemma_place_of(a, name, 0);
    lemma_place_of(b, name, 0);
    lemma_place_of(c, name, 0);
    let i = place_of(a, name, 0);
    let j = place_of(b, name, 0);
    let k = place_of(c, name, 0);
    if i < a.len() {
        assert(c[i].0 == name);
        if k < i {
            assert(a[k].0 == c[k].0);
        }
        assert(k == i);
    } else if j < b.len() {
        assert(c[a.len() + j].0 == name);
        if k < a.len() {
            assert(a[k].0 == c[k].0);
        } else if k < a.len() + j {
            assert(b[k - a.len()].0 == c[k].0);
        }
        assert(k == a.len() + j);
    } else if k < c.len() {
        if k < a.len() {
            assert(a[k].0 == c[k].0);
        } else {
            assert(b[k - a.len()].0 == c[k].0);
        }
    }
}

pub proof fn lemma_distinct_add(a: Pairs, b: Pairs)
    requires
        distinct(a),
        distinct(b),
        forall|i: int, j: int|
            0 <= i < a.len() && 0 <= j < b.len() ==> (#[trigger] a[i]).0 != (#[trigger] b[j]).0,
    ensures
        distinct(a + b),
{
    let c = a + b;
    assert forall|i: int, j: int|
        0 <= i < c.len() && 0 <= j < c.len() && (#[trigger] c[i]).0 == (#[trigger] c[j]).0
        implies i == j by {
        if i < a.len() && j < a.len() {
            assert(a[i].0 == a[j].0);
        } else if i < a.len() {
            assert(a[i].0 != b[j - a.len()].0);
        } else if j < a.len() {
            assert(a[j].0 != b[i - a.len()].0);
        } else {
            assert(b[i - a.len()].0 == b[j - a.len()].0);
        }
    }
}

/// Finds the name in a list of pairs.
pub fn find_name(v: &Vec<(String, String)>, name: &str) -> (r: usize)
    ensures
        r == place_of(v.deep_view(), name@, 0),
        r <= v.len(),
        r < v.len() ==> v[r as int].0@ == name@,
{
    let mut i: usize = 0;
    while i < v.len()
        invariant
            i <= v.len(),
            place_of(v.deep_view(), name@, 0) == place_of(v.deep_view(), name@, i as int),
        decreases v.len() - i,
    {
        if same(v[i].0.as_str(), name) {
            return i;
        }
        i += 1;
    }
    i
}

/// Looks the name up in a list of pairs.
pub fn get_value<'a>(v: &'a Vec<(String, String)>, name: &str) -> (r: Option<&'a str>)
    ensures
        r is Some <==> first_value(v.deep_view(), name@) is Some,
        r matches Some(s) ==> first_value(v.deep_view(), name@) == Some(s@),
{
    let at: usize = find_name(v, name);
    if at < v.len() {
        Some(v[at].1.as_str())
    } else {
        None
    }
}

/// Adds a pair at the end of a list.
pub fn push_pair(v: &mut Vec<(String, String)>, name: &str, value: String)
    ensures
        final(v).deep_view() == old(v).deep_view().push((name@, value@)),
{
    let ghost before = v.deep_view();
    v.push((name.to_owned(), value));
    assert(v.deep_view() =~= before.push((name@, value@)));
}

/// Puts a value under a name.
pub fn set_value(v: &mut Vec<(String, String)>, name: String, value: String)
    ensures
        final(v).deep_view() == with_value(old(v).deep_view(), name@, value@),
{
    let at: usize = find_name(v, name.as_str());
    if at < v.len() {
        let key = v[at].0.clone();
        let ghost before = v.deep_view();
        v.set(at, (key, value));
        assert(v.deep_view() =~= before.update(at as int, (before[at as int].0, value@)));
    } else {
        let ghost before = v.deep_view();
        v.push((name, value));
        assert(v.deep_view() =~= before.push((name@, value@)));
    }
}

/// A value that was put under a name is found there; what stands under other names stays.
pub proof fn law_value_is_found_again(
    ps: Pairs,
    name: Seq<char>,
    value: Seq<char>,
    other: Seq<char>,
)
    ensures
        first_value(with_value(ps, name, value), name) == Some(value),
        other != name ==> first_value(with_value(ps, name, value), other) == first_value(
            ps,
            other,
        ),
        with_value(ps, name, value).len() <= ps.len() + 1,
{
    let qs = with_value(ps, name, value);
    let at = place_of(ps, name, 0);
    lemma_place_of(ps, name, 0);
    lemma_place_is(qs, name, 0, at);
    if other != name {
        let there = place_of(ps, other, 0);
        lemma_place_of(ps, other, 0);
        if there < ps.len() {
            lemma_place_is(qs, other, 0, there);
        } else {
            lemma_place_is(qs, other, 0, qs.len() as int);
        }
    }
}

/// The place that satisfies what `place_of` promises is the one it gives.
pub proof fn lemma_place_is(ps: Pairs, name: Seq<char>, from: int, at: int)
    requires
        0 <= from <= at <= ps.len(),
        at < ps.len() ==> ps[at].0 == name,
        forall|k: int| from <= k < at ==> (#[trigger] ps[k]).0 != name,
    ensures
        place_of(ps, name, from) == at,
    decreases at - from,
{
    if from < at {
        assert(ps[from].0 != name);
        lemma_place_is(ps, name, from + 1, at);
    }
}

/// Looking a name up finds the value beside its first occurrence, and nothing where it does
/// not occur.
pub proof fn law_first_occurrence_counts(ps: Pairs, name: Seq<char>, i: int)
    ensures
        first_value(ps, name) is None <==> forall|k: int|
            0 <= k < ps.len() ==> (#[trigger] ps[k]).0 != name,
        0 <= i < ps.len() && ps[i].0 == name && (forall|k: int|
            0 <= k < i ==> (#[trigger] ps[k]).0 != name) ==> first_value(ps, name) == Some(ps[i].1),
{
    lemma_place_of(ps, name, 0);
    let at = place_of(ps, name, 0);
    if at < ps.len() {
        assert(ps[at].0 == name);
    }
    if 0 <= i < ps.len() && ps[i].0 == name && (forall|k: int|
        0 <= k < i ==> (#[trigger] ps[k]).0 != name) {
        lemma_place_is(ps, name, 0, i);
    }
}

} // verus!
