//! The names of the members of a JSON object, as often as they occur.

use vstd::prelude::*;
use vstd::string::*;
use vstd::utf8::{
    decode_utf8, encode_utf8, encode_utf8_decode_utf8, encode_utf8_valid_utf8, valid_utf8,
};

use crate::json::{
    all_json, is_json, json_lead, json_string, leading_value, leads, members_text, object_text,
    quoted, string_value,
};
use crate::jsonrpc::{blank_byte, first_mark, is_blank_byte};
use crate::pairs::Pairs;
use crate::text::utf8_text;

verus! {

/// The name that a member has, given the bytes before its colon.
pub open spec fn name_in(key: Seq<u8>) -> Option<Seq<char>> {
    if valid_utf8(key) {
        json_string(decode_utf8(key))
    } else {
        None
    }
}

/// A member of an object: the bytes up to its colon, and where the next one begins, if there
/// is a next one.
pub struct MemberView {
    pub key: Seq<u8>,
    pub next: Option<int>,
}

/// The member that begins at `at`.
pub open spec fn member_at(b: Seq<u8>, at: int) -> Option<MemberView> {
    match json_lead(b.skip(at)) {
        None => None,
        Some(n) => {
            let colon = first_mark(b, at + n);
            if colon >= b.len() {
                None
            } else {
                match json_lead(b.skip(colon + 1)) {
                    None => None,
                    Some(m) => {
                        let end = first_mark(b, colon + 1 + m);
                        Some(
                            MemberView {
                                key: b.subrange(at, at + n),
                                next: if end < b.len() && b[end] == 0x2c {
                                    Some(end + 1)
                                } else {
                                    None
                                },
                            },
                        )
                    },
                }
            }
        },
    }
}

/// The names of the members from `at` on, in their order.
pub open spec fn names_from(b: Seq<u8>, at: int) -> Seq<Seq<char>>
    decreases b.len() - at,
{
    match member_at(b, at) {
        None => seq![],
        Some(m) => (match name_in(m.key) {
            Some(name) => seq![name],
            None => seq![],
        }) + (match m.next {
            Some(next) => if at < next <= b.len() {
                names_from(b, next)
            } else {
                seq![]
            },
            None => seq![],
        }),
    }
}

/// The names of the members of an object, in their order, as often as they occur.
pub open spec fn member_names(text: Seq<char>) -> Seq<Seq<char>> {
    let b = encode_utf8(text);
    let brace = first_mark(b, 0);
    if brace < b.len() && b[brace] == 0x7b {
        names_from(b, brace + 1)
    } else {
        seq![]
    }
}

pub open spec fn names_of(ms: Pairs) -> Seq<Seq<char>> {
    Seq::new(ms.len(), |i: int| ms[i].0)
}

/// The names of an object that was written are read back.
pub open spec fn names_read_back(text: Seq<char>, names: Seq<Seq<char>>) -> bool {
    forall|ms: Pairs| #[trigger]
        object_text(ms) == text && all_json(ms) && ms.len() > 0 ==> names == names_of(ms)
}

// ---- Written objects ------------------------------------------------------------------

/// The text of the members from `from` on, without the comma before them.
spec fn tail(ms: Pairs, from: int) -> Seq<char> {
    quoted(ms[from].0) + seq![':'] + ms[from].1 + members_text(ms, from + 1)
}

proof fn lemma_encode_add(a: Seq<char>, b: Seq<char>)
    ensures
        encode_utf8(a + b) == encode_utf8(a) + encode_utf8(b),
    decreases a.len(),
{
    reveal_with_fuel(encode_utf8, 2);
    if a.len() == 0 {
        assert(a + b =~= b);
        assert(encode_utf8(a) =~= Seq::<u8>::empty());
        assert(encode_utf8(a) + encode_utf8(b) =~= encode_utf8(b));
    } else {
        assert((a + b).drop_first() =~= a.drop_first() + b);
        lemma_encode_add(a.drop_first(), b);
        assert(encode_utf8(a + b) =~= encode_utf8(a) + encode_utf8(b));
    }
}

/// The bytes of a text that begins with an ASCII character.
proof fn lemma_encode_ascii(c: char, rest: Seq<char>)
    requires
        (c as u32) < 0x80,
    ensures
        encode_utf8(seq![c] + rest) == seq![c as u8] + encode_utf8(rest),
{
    let n = c as u32;
    reveal_with_fuel(encode_utf8, 2);
    assert(n < 0x80 ==> (n & 0x7f) as u8 == n as u8) by (bit_vector);
    assert((seq![c] + rest).drop_first() =~= rest);
    assert(encode_utf8(seq![c] + rest) =~= seq![c as u8] + encode_utf8(rest));
}

/// What is found at a written member.
proof fn lemma_written_member(b: Seq<u8>, at: int, ms: Pairs, i: int)
    requires
        0 <= at <= b.len(),
        0 <= i < ms.len(),
        all_json(ms),
        b.skip(at) == encode_utf8(tail(ms, i)),
    ensures
        ({
            let key = encode_utf8(quoted(ms[i].0));
            let value = encode_utf8(ms[i].1);
            let colon = at + key.len();
            let end = colon + 1 + value.len();
            &&& leads(b.skip(at), quoted(ms[i].0), b.skip(colon))
            &&& colon < b.len()
            &&& b[colon] == 0x3a
            &&& leads(b.skip(colon + 1), ms[i].1, b.skip(end))
            &&& end < b.len()
            &&& b.subrange(at, colon) == key
            &&& i + 1 < ms.len() ==> b[end] == 0x2c && b.skip(end + 1) == encode_utf8(
                tail(ms, i + 1),
            )
            &&& i + 1 == ms.len() ==> b[end] == 0x7d
        }),
{
    let name = quoted(ms[i].0);
    let value = ms[i].1;
    let rest = members_text(ms, i + 1);
    let key = encode_utf8(name);
    let colon = at + key.len();
    let end = colon + 1 + encode_utf8(value).len();
    assert(tail(ms, i) =~= name + (seq![':'] + (value + rest)));
    lemma_encode_add(name, seq![':'] + (value + rest));
    lemma_encode_ascii(':', value + rest);
    lemma_encode_add(value, rest);
    let s = b.skip(at);
    assert(s == key + (seq![0x3au8] + (encode_utf8(value) + encode_utf8(rest))));
    assert(b.skip(colon) =~= s.skip(key.len() as int));
    assert(s.skip(key.len() as int) =~= seq![0x3au8] + (encode_utf8(value) + encode_utf8(rest)));
    assert(b[colon] == b.skip(colon)[0]);
    assert(b.skip(colon + 1) =~= b.skip(colon).skip(1));
    assert(b.skip(colon + 1) =~= encode_utf8(value) + encode_utf8(rest));
    assert(b.skip(end) =~= b.skip(colon + 1).skip(encode_utf8(value).len() as int));
    assert(b.skip(end) =~= encode_utf8(rest));
    assert(b.subrange(at, colon) =~= key);
    assert(is_json(name));
    assert(is_json(value));
    if i + 1 < ms.len() {
        assert(rest =~= seq![','] + tail(ms, i + 1));
        lemma_encode_ascii(',', tail(ms, i + 1));
    } else {
        assert(rest =~= seq!['}'] + Seq::<char>::empty());
        lemma_encode_ascii('}', Seq::<char>::empty());
    }
    assert(b.skip(end).len() > 0);
    assert(b[end] == b.skip(end)[0]);
    if i + 1 < ms.len() {
        assert(b.skip(end + 1) =~= b.skip(end).skip(1));
        assert(b.skip(end + 1) =~= encode_utf8(tail(ms, i + 1)));
    }
}

proof fn lemma_first_mark(b: Seq<u8>, from: int)
    requires
        0 <= from <= b.len(),
    ensures
        from <= first_mark(b, from) <= b.len(),
    decreases b.len() - from,
{
    if from < b.len() && is_blank_byte(b[from]) {
        lemma_first_mark(b, from + 1);
    }
}

// ---- Reading --------------------------------------------------------------------------

fn find_mark(b: &[u8], from: usize) -> (r: usize)
    requires
        from <= b.len(),
    ensures
        r == first_mark(b@, from as int),
        from <= r <= b.len(),
{
    let mut i: usize = from;
    while i < b.len() && blank_byte(b[i])
        invariant
            from <= i <= b.len(),
            first_mark(b@, from as int) == first_mark(b@, i as int),
        decreases b.len() - i,
    {
        i += 1;
    }
    i
}

fn read_name(key: &[u8]) -> (r: Option<String>)
    ensures
        r is Some <==> name_in(key@) is Some,
        r matches Some(s) ==> name_in(key@) == Some(s@),
        forall|s: Seq<char>| #[trigger]
            encode_utf8(quoted(s)) == key@ ==> (r matches Some(t) && t@ == s),
{
    let mut bytes: Vec<u8> = Vec::new();
    bytes.extend_from_slice(key);
    assert(bytes@ =~= key@);
    proof {
        assert forall|s: Seq<char>| #[trigger] encode_utf8(quoted(s)) == key@ implies valid_utf8(
            key@,
        ) && decode_utf8(key@) == quoted(s) by {
            encode_utf8_valid_utf8(quoted(s));
            encode_utf8_decode_utf8(quoted(s));
        }
    }
    match utf8_text(bytes) {
        Some(text) => string_value(text.as_str()),
        None => None,
    }
}

/// Lists the names of the members of an object, as often as they occur.
pub fn list_names(text: &str) -> (r: Vec<String>)
    ensures
        r.deep_view() == member_names(text@),
        names_read_back(text@, r.deep_view()),
{
    let b: &[u8] = text.as_bytes();
    let mut out: Vec<String> = Vec::new();
    assert(out.deep_view() =~= Seq::<Seq<char>>::empty());
    let brace: usize = find_mark(b, 0);
    if brace == b.len() || b[brace] != 0x7b {
        proof {
            assert forall|ms: Pairs| #[trigger] object_text(ms) != text@ by {
                if object_text(ms) == text@ {
                    lemma_encode_ascii('{', members_text(ms, 0));
                    assert(b@[0] == 0x7b);
                }
            }
        }
        return out;
    }
    let ghost all = names_from(b@, brace + 1);
    let mut at: usize = brace + 1;
    let mut more = true;
    proof {
        assert(out.deep_view() + all =~= all);
        assert forall|ms: Pairs| #[trigger]
            object_text(ms) == text@ && all_json(ms) && ms.len() > 0 implies b@.skip(at as int)
            == encode_utf8(tail(ms, 0)) by {
            lemma_encode_ascii('{', members_text(ms, 0));
            assert(b@[0] == 0x7b);
            assert(members_text(ms, 0) =~= tail(ms, 0));
            assert(b@.skip(1) =~= encode_utf8(tail(ms, 0)));
        }
        assert forall|ms: Pairs| #[trigger]
            object_text(ms) == text@ && all_json(ms) && ms.len() > 0 implies out.deep_view()
            =~= names_of(ms).take(0) by {}
    }
    let ghost mut i: int = 0;
    while more
        invariant
            b@ == encode_utf8(text@),
            all == member_names(text@),
            at <= b.len(),
            out.deep_view() + (if more {
                names_from(b@, at as int)
            } else {
                seq![]
            }) == all,
            0 <= i,
            forall|ms: Pairs| #[trigger]
                object_text(ms) == text@ && all_json(ms) && ms.len() > 0 ==> {
                    &&& i <= ms.len()
                    &&& out.deep_view() == names_of(ms).take(i)
                    &&& more ==> i < ms.len() && b@.skip(at as int) == encode_utf8(tail(ms, i))
                    &&& !more ==> i == ms.len()
                },
        decreases (if more {
            b.len() - at + 1
        } else {
            0
        }),
    {
        let ghost before = out.deep_view();
        let ghost here = at as int;
        let ghost j = i;
        proof {
            assert forall|ms: Pairs| #[trigger]
                object_text(ms) == text@ && all_json(ms) && ms.len() > 0 implies leads(
                b@.skip(here),
                quoted(ms[j].0),
                b@.skip(here + encode_utf8(quoted(ms[j].0)).len()),
            ) by {
                lemma_written_member(b@, here, ms, j);
            }
        }
        let lead = leading_value(vstd::slice::slice_subrange(b, at, b.len()));
        assert(b@.subrange(here, b@.len() as int) =~= b@.skip(here));
        let n: usize = match lead {
            Some(n) => n,
            None => {
                assert(before + Seq::<Seq<char>>::empty() =~= before);
                return out;
            },
        };
        let colon: usize = find_mark(b, at + n);
        if colon == b.len() {
            proof {
                assert(before + Seq::<Seq<char>>::empty() =~= before);
                assert forall|ms: Pairs| #[trigger]
                    object_text(ms) == text@ && all_json(ms) && ms.len() > 0 implies false by {
                    lemma_written_member(b@, here, ms, j);
                }
            }
            return out;
        }
        proof {
            assert forall|ms: Pairs| #[trigger]
                object_text(ms) == text@ && all_json(ms) && ms.len() > 0 implies colon == here
                + encode_utf8(quoted(ms[j].0)).len() && leads(
                b@.skip(colon + 1),
                ms[j].1,
                b@.skip(colon + 1 + encode_utf8(ms[j].1).len()),
            ) by {
                lemma_written_member(b@, here, ms, j);
            }
        }
        let value = leading_value(vstd::slice::slice_subrange(b, colon + 1, b.len()));
        assert(b@.subrange(colon + 1, b@.len() as int) =~= b@.skip(colon + 1));
        let m: usize = match value {
            Some(m) => m,
            None => {
                assert(before + Seq::<Seq<char>>::empty() =~= before);
                return out;
            },
        };
        let end: usize = find_mark(b, colon + 1 + m);
        more = end < b.len() && b[end] == 0x2c;
        let name = read_name(vstd::slice::slice_subrange(b, at, at + n));
        if let Some(s) = name {
            out.push(s);
            assert(out.deep_view() =~= before.push(s@));
        }
        if more {
            at = end + 1;
        }
        proof {
            let one = match name_in(b@.subrange(here, here + n)) {
                Some(s) => seq![s],
                None => Seq::<Seq<char>>::empty(),
            };
            let left = if more {
                names_from(b@, at as int)
            } else {
                Seq::<Seq<char>>::empty()
            };
            assert(names_from(b@, here) =~= one + left);
            assert(out.deep_view() =~= before + one);
            assert((before + one) + left =~= before + (one + left));
            assert forall|ms: Pairs| #[trigger]
                object_text(ms) == text@ && all_json(ms) && ms.len() > 0 implies {
                &&& j + 1 <= ms.len()
                &&& out.deep_view() == names_of(ms).take(j + 1)
                &&& more ==> j + 1 < ms.len() && b@.skip(at as int) == encode_utf8(
                    tail(ms, j + 1),
                )
                &&& !more ==> j + 1 == ms.len()
            } by {
                lemma_written_member(b@, here, ms, j);
                assert(b@.subrange(here, here + n) == encode_utf8(quoted(ms[j].0)));
                assert(names_of(ms).take(j + 1) =~= names_of(ms).take(j).push(ms[j].0));
            }
            i = j + 1;
        }
    }
    proof {
        assert forall|ms: Pairs| #[trigger]
            object_text(ms) == text@ && all_json(ms) && ms.len() > 0 implies out.deep_view()
            == names_of(ms) by {
            assert(names_of(ms).take(i) =~= names_of(ms));
        }
        assert(out.deep_view() + Seq::<Seq<char>>::empty() =~= out.deep_view());
    }
    out
}

} // verus!
