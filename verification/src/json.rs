//! JSON texts. The grammar of JSON is that of `serde_json`; values are kept as the
//! text they were written in.

use std::collections::BTreeMap;

use vstd::prelude::*;
use vstd::string::*;
use vstd::utf8::encode_utf8;

use crate::pairs::{distinct, map_of, Pairs};
use crate::text::signed_decimal;

verus! {

pub uninterp spec fn json_value(text: Seq<char>) -> Option<Seq<char>>;

pub uninterp spec fn json_members(text: Seq<char>) -> Result<
    Map<Seq<char>, Seq<char>>,
    Seq<char>,
>;

pub uninterp spec fn json_elements(text: Seq<char>) -> Result<Seq<Seq<char>>, Seq<char>>;

pub uninterp spec fn json_document(text: Seq<char>) -> Option<Seq<char>>;

pub uninterp spec fn json_string(text: Seq<char>) -> Option<Seq<char>>;

pub uninterp spec fn json_escaped(s: Seq<char>) -> Seq<char>;

pub uninterp spec fn json_with_member(
    text: Seq<char>,
    name: Seq<char>,
    value: Seq<char>,
) -> Option<Seq<char>>;

pub uninterp spec fn json_integer_member(text: Seq<char>, name: Seq<char>) -> Option<i64>;

pub uninterp spec fn json_lead(bytes: Seq<u8>) -> Option<nat>;

/// Whether the text is one JSON value with no white space round it.
pub open spec fn is_value(text: Seq<char>) -> bool {
    json_value(text) == Some(text)
}

/// Whether a string is written in JSON as it is, between quotes.
pub open spec fn is_plain(s: Seq<char>) -> bool {
    forall|i: int| 0 <= i < s.len() ==> ' ' <= #[trigger] s[i] && s[i] != '"' && s[i] != '\\'
}

/// A string as JSON writes it.
pub open spec fn quoted(s: Seq<char>) -> Seq<char> {
    seq!['"'] + (if is_plain(s) {
        s
    } else {
        json_escaped(s)
    }) + seq!['"']
}

/// The members of an object, each name with the text of its value, from `from` on.
pub open spec fn members_text(ms: Pairs, from: int) -> Seq<char>
    decreases ms.len() - from,
{
    if from >= ms.len() {
        seq!['}']
    } else {
        (if from == 0 {
            Seq::<char>::empty()
        } else {
            seq![',']
        }) + quoted(ms[from].0) + seq![':'] + ms[from].1 + members_text(ms, from + 1)
    }
}

/// A JSON object with the given members, in their order, without white space.
pub open spec fn object_text(ms: Pairs) -> Seq<char> {
    seq!['{'] + members_text(ms, 0)
}

/// The elements of an array from `from` on.
pub open spec fn elements_text(es: Seq<Seq<char>>, from: int) -> Seq<char>
    decreases es.len() - from,
{
    if from >= es.len() {
        seq![']']
    } else {
        (if from == 0 {
            Seq::<char>::empty()
        } else {
            seq![',']
        }) + es[from] + elements_text(es, from + 1)
    }
}

/// A JSON array with the given elements, without white space.
pub open spec fn array_text(es: Seq<Seq<char>>) -> Seq<char> {
    seq!['['] + elements_text(es, 0)
}

/// Whether the text is a value, or notes a number, a string, a truth value or
/// `null` as JSON does.
pub open spec fn is_json(text: Seq<char>) -> bool {
    ||| is_value(text)
    ||| text == "null"@
    ||| text == "true"@
    ||| text == "false"@
    ||| exists|n: int| text == #[trigger] signed_decimal(n)
    ||| exists|s: Seq<char>| text == #[trigger] quoted(s)
}

/// Whether all members of an object are JSON.
pub open spec fn all_json(ms: Pairs) -> bool {
    forall|i: int| 0 <= i < ms.len() ==> is_json((#[trigger] ms[i]).1)
}

/// Whether all elements of an array are JSON.
pub open spec fn all_json_elements(es: Seq<Seq<char>>) -> bool {
    forall|i: int| 0 <= i < es.len() ==> is_json(#[trigger] es[i])
}

/// Whether the text is JSON, or an object or an array written from JSON.
pub open spec fn is_written(text: Seq<char>) -> bool {
    ||| is_json(text)
    ||| exists|ms: Pairs| all_json(ms) && text == #[trigger] object_text(ms)
    ||| exists|es: Seq<Seq<char>>| all_json_elements(es) && text == #[trigger] array_text(es)
}

pub open spec fn all_values(ms: Pairs) -> bool {
    forall|i: int| 0 <= i < ms.len() ==> is_value((#[trigger] ms[i]).1)
}

pub open spec fn all_elements(es: Seq<Seq<char>>) -> bool {
    forall|i: int| 0 <= i < es.len() ==> is_value(#[trigger] es[i])
}

/// The members of an object that `object_text` wrote are read back.
pub open spec fn members_read_back(
    text: Seq<char>,
    r: Result<Vec<(String, String)>, String>,
) -> bool {
    forall|ms: Pairs| #[trigger]
        object_text(ms) == text && distinct(ms) && all_json(ms) ==> (r matches Ok(v) && map_of(
            v.deep_view(),
        ) == map_of(ms))
}

/// The elements of an array that `array_text` wrote are read back.
pub open spec fn elements_read_back(text: Seq<char>, r: Result<Vec<String>, String>) -> bool {
    forall|es: Seq<Seq<char>>| #[trigger]
        array_text(es) == text && all_json_elements(es) ==> (r matches Ok(v) && v.deep_view() == es)
}

/// A string that `quoted` wrote is read back.
pub open spec fn string_read_back(text: Seq<char>, r: Option<String>) -> bool {
    forall|s: Seq<char>| #[trigger] quoted(s) == text ==> (r matches Some(t) && t@ == s)
}

/// `RawValue::from_string`: accepts one JSON value and gives its text without the
/// white space round it; that text is again accepted, and given back as it is. So is
/// what is written from JSON without white space.
#[verifier::external_body]
pub(crate) fn value_text(text: String) -> (r: Option<String>)
    ensures
        r is Some <==> json_value(text@) is Some,
        r matches Some(v) ==> json_value(text@) == Some(v@) && is_value(v@),
        is_written(text@) ==> r is Some && r->Some_0@ == text@,
{
    serde_json::value::RawValue::from_string(text).ok().map(|v| v.get().to_owned())
}

/// `serde_json::from_str` into a `Value`, and `serde_json::to_string` on it: a JSON document
/// as it was taken in, written again, or nothing where the text is none. An object by which
/// `serde_json` marks a raw value stands for that value.
#[verifier::external_body]
pub(crate) fn document_text(text: &str) -> (r: Option<String>)
    ensures
        r is Some <==> json_document(text@) is Some,
        r is Some ==> json_document(text@)->Some_0 == r->Some_0@,
{
    let v = serde_json::from_str::<serde_json::Value>(text).ok()?;
    serde_json::to_string(&v).ok()
}

/// `serde_json::from_str` into a map of raw values: the members of a JSON object,
/// each name once, or the message of the error. A value is given as its text. What
/// `object_text` writes is read back, where names are distinct and the values are
/// JSON. Where a name occurs twice in the object, which of its values is given is
/// left to the name.
#[verifier::external_body]
pub(crate) fn object_members(text: &str) -> (r: Result<Vec<(String, String)>, String>)
    ensures
        r is Ok <==> json_members(text@) is Ok,
        r matches Ok(v) ==> json_members(text@)->Ok_0 == map_of(v.deep_view()),
        r matches Ok(v) ==> distinct(v.deep_view()) && all_values(v.deep_view()),
        r matches Err(e) ==> json_members(text@)->Err_0 == e@,
        members_read_back(text@, r),
{
    match serde_json::from_str::<BTreeMap<String, Box<serde_json::value::RawValue>>>(text) {
        Ok(m) => Ok(m.into_iter().map(|p| (p.0, p.1.get().to_owned())).collect()),
        Err(e) => Err(e.to_string()),
    }
}

/// Whether bytes begin with a JSON value, behind which a comma, a colon or a closing brace
/// stands.
pub open spec fn leads(bytes: Seq<u8>, value: Seq<char>, rest: Seq<u8>) -> bool {
    &&& bytes == encode_utf8(value) + rest
    &&& is_json(value)
    &&& rest.len() > 0
    &&& rest[0] == 0x2c || rest[0] == 0x3a || rest[0] == 0x7d
}

/// Where bytes begin with a value, it is the value that is found.
pub open spec fn lead_found(bytes: Seq<u8>, r: Option<usize>) -> bool {
    forall|value: Seq<char>, rest: Seq<u8>| #[trigger]
        leads(bytes, value, rest) ==> r is Some && r->Some_0 == encode_utf8(value).len()
}

/// `StreamDeserializer::next` into a raw value, on bytes, and then
/// `StreamDeserializer::byte_offset`: where the JSON value ends that stands first, behind
/// white space; nothing where none does. A value in front of a comma, a colon or a closing
/// brace ends there.
#[verifier::external_body]
pub(crate) fn leading_value(bytes: &[u8]) -> (r: Option<usize>)
    ensures
        r is Some <==> json_lead(bytes@) is Some,
        r is Some ==> json_lead(bytes@)->Some_0 == r->Some_0,
        r is Some ==> 0 < r->Some_0 <= bytes@.len(),
        lead_found(bytes@, r),
{
    let de = serde_json::Deserializer::from_slice(bytes);
    let mut values = de.into_iter::<Box<serde_json::value::RawValue>>();
    match values.next() {
        Some(Ok(_)) => Some(values.byte_offset()),
        _ => None,
    }
}

/// `serde_json::from_str` into a list of raw values: the elements of a JSON array,
/// each as its text, or the message of the error. What `array_text` writes is read
/// back, where the elements are JSON.
#[verifier::external_body]
pub(crate) fn array_elements(text: &str) -> (r: Result<Vec<String>, String>)
    ensures
        r is Ok <==> json_elements(text@) is Ok,
        r matches Ok(v) ==> json_elements(text@)->Ok_0 == v.deep_view(),
        r matches Ok(v) ==> all_elements(v.deep_view()),
        r matches Err(e) ==> json_elements(text@)->Err_0 == e@,
        elements_read_back(text@, r),
{
    match serde_json::from_str::<Vec<Box<serde_json::value::RawValue>>>(text) {
        Ok(v) => Ok(v.into_iter().map(|e| e.get().to_owned()).collect()),
        Err(e) => Err(e.to_string()),
    }
}

/// `serde_json::from_str` into a `String`: what a JSON string stands for, and nothing
/// for any other text. A string that `quote` wrote is read back.
#[verifier::external_body]
pub(crate) fn string_value(text: &str) -> (r: Option<String>)
    ensures
        r is Some <==> json_string(text@) is Some,
        r matches Some(s) ==> json_string(text@) == Some(s@),
        string_read_back(text@, r),
{
    serde_json::from_str::<String>(text).ok()
}

/// `serde_json::to_string` on a string: its JSON notation, which is a JSON value. What
/// stands between the quotes is named, and is the string itself where nothing in it
/// needs an escape.
#[verifier::external_body]
pub(crate) fn string_text(s: &str) -> (r: String)
    ensures
        r@ == seq!['"'] + json_escaped(s@) + seq!['"'],
        is_plain(s@) ==> r@ == seq!['"'] + s@ + seq!['"'],
        is_value(r@),
{
    serde_json::to_string(s).unwrap_or_default()
}

/// The name by which `serde_json` marks an object that stands for a raw value.
pub open spec fn raw_mark() -> Seq<char> {
    "$serde_json::private::RawValue"@
}

/// Whether the member that was set is read back. No name is lost or added besides, unless
/// the object could be taken for a raw value.
pub open spec fn member_is_set(
    text: Seq<char>,
    name: Seq<char>,
    value: Seq<char>,
    r: Option<String>,
) -> bool {
    r is Some ==> ({
        let out = json_members(r->Some_0@);
        &&& out is Ok
        &&& out->Ok_0.dom().contains(name)
        &&& out->Ok_0[name] == quoted(value)
        &&& json_members(text) is Ok
        &&& !json_members(text)->Ok_0.dom().contains(raw_mark()) ==> out->Ok_0.dom()
            == json_members(text)->Ok_0.dom().insert(name)
    })
}

/// `serde_json::from_str` into a `Value`, `Map::insert` of a string where the value is an
/// object, and `serde_json::to_string`: the object with the member set, which is a JSON
/// value; nothing for any other text. The other members keep their names, unless the object
/// bears the mark of a raw value; how their values are written is left to the name.
#[verifier::external_body]
pub(crate) fn set_member(text: &str, name: &str, value: &str) -> (r: Option<String>)
    ensures
        r is Some <==> json_with_member(text@, name@, value@) is Some,
        r is Some ==> json_with_member(text@, name@, value@)->Some_0 == r->Some_0@,
        r is Some ==> is_value(r->Some_0@),
        member_is_set(text@, name@, value@, r),
{
    let mut v = serde_json::from_str::<serde_json::Value>(text).ok()?;
    v.as_object_mut()?.insert(name.to_owned(), serde_json::Value::String(value.to_owned()));
    serde_json::to_string(&v).ok()
}

/// `serde_json::from_str` into a `Value`, `Value::get` and `Value::as_i64`: the member of an
/// object, where it is an integer that fits.
#[verifier::external_body]
pub(crate) fn integer_member(text: &str, name: &str) -> (r: Option<i64>)
    ensures
        r == json_integer_member(text@, name@),
{
    serde_json::from_str::<serde_json::Value>(text).ok()?.get(name)?.as_i64()
}

/// Writes a string as JSON.
pub fn quote(s: &str) -> (r: String)
    ensures
        r@ == quoted(s@),
        is_value(r@),
{
    string_text(s)
}

/// One JSON value, kept as the text it was written in.
#[derive(Debug)]
pub struct RawValue {
    text: String,
}

impl View for RawValue {
    type V = Seq<char>;

    closed spec fn view(&self) -> Seq<char> {
        self.text@
    }
}

impl RawValue {
    #[verifier::type_invariant]
    spec fn valid(self) -> bool {
        is_value(self.text@)
    }

    /// Takes a text as a JSON value; the white space round it is dropped.
    pub fn from_string(text: String) -> (r: Option<RawValue>)
        ensures
            r is Some <==> json_value(text@) is Some,
            r matches Some(v) ==> json_value(text@) == Some(v@) && is_value(v@),
            is_written(text@) ==> (r matches Some(v) && v@ == text@),
    {
        match value_text(text) {
            Some(t) => Some(RawValue { text: t }),
            None => None,
        }
    }

    /// Takes a text that was written from JSON.
    pub fn written(text: String) -> (r: RawValue)
        requires
            is_written(text@),
        ensures
            r@ == text@,
            is_value(r@),
    {
        match value_text(text) {
            Some(t) => RawValue { text: t },
            None => RawValue { text: vstd::pervasive::unreached() },
        }
    }

    /// Takes a text that is known to be a JSON value.
    pub(crate) fn of(text: String) -> (r: RawValue)
        requires
            is_value(text@),
        ensures
            r@ == text@,
    {
        RawValue { text }
    }

    /// The text of the value.
    pub fn get(&self) -> (r: &str)
        ensures
            r@ == self@,
            is_value(r@),
    {
        proof {
            use_type_invariant(self);
        }
        self.text.as_str()
    }
}

impl Clone for RawValue {
    fn clone(&self) -> (r: RawValue)
        ensures
            r@ == self@,
    {
        proof {
            use_type_invariant(self);
        }
        RawValue { text: self.text.clone() }
    }
}

/// Writes a JSON object with the given members.
pub fn write_object(ms: &Vec<(String, String)>) -> (r: String)
    ensures
        r@ == object_text(ms.deep_view()),
{
    let mut out = String::new();
    out.push('{');
    let mut i: usize = 0;
    let ghost d = ms.deep_view();
    assert(out@ =~= seq!['{']);
    while i < ms.len()
        invariant
            i <= ms.len(),
            d == ms.deep_view(),
            out@ + members_text(d, i as int) == object_text(d),
        decreases ms.len() - i,
    {
        let ghost before = out@;
        if i > 0 {
            out.push(',');
        }
        let key = quote(ms[i].0.as_str());
        out.append(key.as_str());
        out.push(':');
        out.append(ms[i].1.as_str());
        assert(out@ + members_text(d, i + 1) =~= before + members_text(d, i as int));
        i += 1;
    }
    let ghost before = out@;
    out.push('}');
    assert(out@ =~= before + members_text(d, i as int));
    out
}

/// Writes a JSON array with the given elements.
pub fn write_array(es: &Vec<String>) -> (r: String)
    ensures
        r@ == array_text(es.deep_view()),
{
    let mut out = String::new();
    out.push('[');
    let mut i: usize = 0;
    let ghost d = es.deep_view();
    assert(out@ =~= seq!['[']);
    while i < es.len()
        invariant
            i <= es.len(),
            d == es.deep_view(),
            out@ + elements_text(d, i as int) == array_text(d),
        decreases es.len() - i,
    {
        let ghost before = out@;
        if i > 0 {
            out.push(',');
        }
        out.append(es[i].as_str());
        assert(out@ + elements_text(d, i + 1) =~= before + elements_text(d, i as int));
        i += 1;
    }
    let ghost before = out@;
    out.push(']');
    assert(out@ =~= before + elements_text(d, i as int));
    out
}

/// A JSON array of strings.
pub open spec fn strings_text(ss: Seq<Seq<char>>) -> Seq<char> {
    array_text(Seq::new(ss.len(), |i: int| quoted(ss[i])))
}

/// Writes a JSON array of strings.
pub fn write_strings(ss: &Vec<String>) -> (r: String)
    ensures
        r@ == strings_text(ss.deep_view()),
{
    let mut es: Vec<String> = Vec::new();
    let mut i: usize = 0;
    while i < ss.len()
        invariant
            i <= ss.len(),
            es.len() == i,
            forall|k: int| 0 <= k < i ==> (#[trigger] es[k])@ == quoted(ss[k]@),
        decreases ss.len() - i,
    {
        es.push(quote(ss[i].as_str()));
        i += 1;
    }
    assert(es.deep_view() =~= Seq::new(ss.deep_view().len(), |i: int| quoted(ss.deep_view()[i])));
    write_array(&es)
}

/// The strings among the elements of an array, from `from` on.
pub open spec fn strings_among(es: Seq<Seq<char>>, from: int) -> Seq<Seq<char>>
    decreases es.len() - from,
{
    if from >= es.len() {
        seq![]
    } else {
        match json_string(es[from]) {
            Some(s) => seq![s] + strings_among(es, from + 1),
            None => strings_among(es, from + 1),
        }
    }
}

/// The strings in a text that is a JSON array; nothing for any other text.
pub open spec fn string_list(text: Seq<char>) -> Option<Seq<Seq<char>>> {
    match json_elements(text) {
        Ok(es) => Some(strings_among(es, 0)),
        Err(_) => None,
    }
}

/// Reads the strings in a JSON array.
pub fn read_strings(text: &str) -> (r: Option<Vec<String>>)
    ensures
        match string_list(text@) {
            Some(l) => r matches Some(v) && v.deep_view() == l,
            None => r is None,
        },
{
    let es = match array_elements(text) {
        Ok(es) => es,
        Err(_) => return None,
    };
    let ghost d = es.deep_view();
    let mut out: Vec<String> = Vec::new();
    let mut i: usize = 0;
    assert(out.deep_view() + strings_among(d, 0) =~= strings_among(d, 0));
    while i < es.len()
        invariant
            i <= es.len(),
            d == es.deep_view(),
            out.deep_view() + strings_among(d, i as int) == strings_among(d, 0),
        decreases es.len() - i,
    {
        if let Some(s) = string_value(es[i].as_str()) {
            let ghost before = out.deep_view();
            out.push(s);
            assert(out.deep_view() =~= before.push(s@));
            assert(before.push(s@) + strings_among(d, i + 1) =~= before + strings_among(
                d,
                i as int,
            ));
        }
        i += 1;
    }
    assert(out.deep_view() =~= out.deep_view() + strings_among(d, i as int));
    Some(out)
}

/// An object is written between braces, its members in their order with commas between them,
/// each its name in quotes, a colon and its value.
pub proof fn law_object_is_written_member_by_member(ms: Pairs, name: Seq<char>, value: Seq<char>)
    ensures
        object_text(Seq::empty()) == seq!['{', '}'],
        object_text(ms).len() > 0,
        object_text(ms.push((name, value))) == object_text(ms).drop_last() + (if ms.len() == 0 {
            Seq::<char>::empty()
        } else {
            seq![',']
        }) + quoted(name) + seq![':'] + value + seq!['}'],
{
    assert(object_text(Seq::empty()) =~= seq!['{', '}']);
    lemma_members_text_end(ms, name, value, 0);
    let comma = if ms.len() == 0 {
        Seq::<char>::empty()
    } else {
        seq![',']
    };
    assert(object_text(ms.push((name, value))) =~= object_text(ms).drop_last() + comma + quoted(name)
        + seq![':'] + value + seq!['}']);
}

proof fn lemma_members_text_end(ms: Pairs, name: Seq<char>, value: Seq<char>, from: int)
    requires
        0 <= from <= ms.len(),
    ensures
        members_text(ms, from).len() > 0,
        members_text(ms.push((name, value)), from) == members_text(ms, from).drop_last() + (
        if ms.len() == 0 {
            Seq::<char>::empty()
        } else {
            seq![',']
        }) + quoted(name) + seq![':'] + value + seq!['}'],
    decreases ms.len() - from,
{
    let all = ms.push((name, value));
    let comma = if ms.len() == 0 {
        Seq::<char>::empty()
    } else {
        seq![',']
    };
    let end = comma + quoted(name) + seq![':'] + value + seq!['}'];
    if from < ms.len() {
        assert(all[from] == ms[from]);
        lemma_members_text_end(ms, name, value, from + 1);
        assert(members_text(all, from) =~= members_text(ms, from).drop_last() + comma + quoted(name)
            + seq![':'] + value + seq!['}']);
    } else {
        assert(all[from] == (name, value));
        assert(members_text(all, from + 1) =~= seq!['}']);
        assert(members_text(ms, from) =~= seq!['}']);
        assert(members_text(all, from) =~= members_text(ms, from).drop_last() + comma + quoted(name)
            + seq![':'] + value + seq!['}']);
    }
}

/// An array is written between brackets, its elements in their order with commas between them.
pub proof fn law_array_is_written_element_by_element(es: Seq<Seq<char>>, e: Seq<char>)
    ensures
        array_text(Seq::empty()) == seq!['[', ']'],
        array_text(es).len() > 0,
        array_text(es.push(e)) == array_text(es).drop_last() + (if es.len() == 0 {
            Seq::<char>::empty()
        } else {
            seq![',']
        }) + e + seq![']'],
{
    assert(array_text(Seq::empty()) =~= seq!['[', ']']);
    lemma_elements_text_end(es, e, 0);
    let comma = if es.len() == 0 {
        Seq::<char>::empty()
    } else {
        seq![',']
    };
    assert(array_text(es.push(e)) =~= array_text(es).drop_last() + comma + e + seq![']']);
}

proof fn lemma_elements_text_end(es: Seq<Seq<char>>, e: Seq<char>, from: int)
    requires
        0 <= from <= es.len(),
    ensures
        elements_text(es, from).len() > 0,
        elements_text(es.push(e), from) == elements_text(es, from).drop_last() + (if es.len() == 0 {
            Seq::<char>::empty()
        } else {
            seq![',']
        }) + e + seq![']'],
    decreases es.len() - from,
{
    let all = es.push(e);
    let comma = if es.len() == 0 {
        Seq::<char>::empty()
    } else {
        seq![',']
    };
    if from < es.len() {
        assert(all[from] == es[from]);
        lemma_elements_text_end(es, e, from + 1);
        assert(elements_text(all, from) =~= elements_text(es, from).drop_last() + comma + e + seq![
            ']',
        ]);
    } else {
        assert(all[from] == e);
        assert(elements_text(all, from + 1) =~= seq![']']);
        assert(elements_text(es, from) =~= seq![']']);
        assert(elements_text(all, from) =~= elements_text(es, from).drop_last() + comma + e + seq![
            ']',
        ]);
    }
}

/// The strings among the elements of an array are all found, in their order, and anything else
/// is passed over.
pub proof fn law_strings_are_found(es: Seq<Seq<char>>, e: Seq<char>)
    ensures
        strings_among(Seq::empty(), 0) == Seq::<Seq<char>>::empty(),
        json_string(e) is None ==> strings_among(es.push(e), 0) == strings_among(es, 0),
        json_string(e) is Some ==> strings_among(es.push(e), 0) == strings_among(es, 0).push(
            json_string(e)->Some_0,
        ),
{
    lemma_strings_end(es, e, 0);
}

proof fn lemma_strings_end(es: Seq<Seq<char>>, e: Seq<char>, from: int)
    requires
        0 <= from <= es.len(),
    ensures
        strings_among(es.push(e), from) == strings_among(es, from) + (match json_string(e) {
            Some(s) => seq![s],
            None => seq![],
        }),
    decreases es.len() - from,
{
    let all = es.push(e);
    let end = match json_string(e) {
        Some(s) => seq![s],
        None => seq![],
    };
    if from < es.len() {
        assert(all[from] == es[from]);
        lemma_strings_end(es, e, from + 1);
        assert(strings_among(all, from) =~= strings_among(es, from) + end);
    } else {
        assert(all[from] == e);
        assert(strings_among(all, from + 1) =~= seq![]);
        assert(strings_among(es, from) =~= seq![]);
        assert(strings_among(all, from) =~= strings_among(es, from) + end);
    }
}

} // verus!
