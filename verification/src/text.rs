//! Text as a sequence of characters: searching, splitting, trimming, and the
//! decimal notation of numbers.

use vstd::prelude::*;
use vstd::string::*;
use vstd::utf8::{
    decode_utf8, encode_utf8, encode_utf8_decode_utf8, is_ascii_chars, valid_utf8,
};

verus! {

/// `String::push` adds the character at the end of the text.
pub assume_specification[ String::push ](s: &mut String, c: char)
    ensures
        final(s)@ == old(s)@.push(c),
;

pub uninterp spec fn unicode_upper(s: Seq<char>) -> Seq<char>;

pub uninterp spec fn unicode_lower(s: Seq<char>) -> Seq<char>;

pub uninterp spec fn utf8_lossy(bytes: Seq<u8>) -> Seq<char>;

/// `String::from_utf8`: the bytes are taken as text exactly when they are valid
/// UTF-8, and the text is then what they encode.
#[verifier::external_body]
pub(crate) fn utf8_text(bytes: Vec<u8>) -> (r: Option<String>)
    ensures
        r is Some <==> valid_utf8(bytes@),
        r matches Some(s) ==> s@ == decode_utf8(bytes@),
{
    String::from_utf8(bytes).ok()
}

/// What is wrong with bytes that are no UTF-8, in words.
pub uninterp spec fn utf8_problem(bytes: Seq<u8>) -> Seq<char>;

/// `std::str::from_utf8`: an error comes exactly for bytes that are not valid UTF-8. Its
/// words depend on the bytes alone.
#[verifier::external_body]
pub(crate) fn utf8_error(bytes: &[u8]) -> (r: Option<String>)
    ensures
        r is Some <==> !valid_utf8(bytes@),
        r is Some ==> r->Some_0@ == utf8_problem(bytes@),
{
    std::str::from_utf8(bytes).err().map(|e| e.to_string())
}

/// `String::from_utf8_lossy`: valid UTF-8 is decoded as it is. What stands in for
/// the invalid parts of other byte sequences is left to the name.
#[verifier::external_body]
pub(crate) fn utf8_text_lossy(bytes: &[u8]) -> (r: String)
    ensures
        r@ == utf8_lossy(bytes@),
        valid_utf8(bytes@) ==> r@ == decode_utf8(bytes@),
{
    String::from_utf8_lossy(bytes).into_owned()
}

/// `str::to_uppercase`: the text in upper case as Unicode has it. On ASCII text this
/// changes the letters and nothing else.
#[verifier::external_body]
pub(crate) fn to_unicode_upper(s: &str) -> (r: String)
    ensures
        r@ == unicode_upper(s@),
        is_ascii_chars(s@) ==> r@ == upper_case(s@),
{
    s.to_uppercase()
}

/// `str::to_lowercase`: the text in lower case as Unicode has it. On ASCII text this
/// changes the letters and nothing else.
#[verifier::external_body]
pub(crate) fn to_unicode_lower(s: &str) -> (r: String)
    ensures
        r@ == unicode_lower(s@),
        is_ascii_chars(s@) ==> r@ == lower_case(s@),
{
    s.to_lowercase()
}

// ---- Comparison ---------------------------------------------------------------

/// The text that the bytes are in UTF-8, where they are one.
pub fn body_text(body: &[u8]) -> (r: Option<String>)
    ensures
        r is Some <==> valid_utf8(body@),
        r matches Some(t) ==> t@ == decode_utf8(body@),
{
    let mut bytes: Vec<u8> = Vec::new();
    bytes.extend_from_slice(body);
    assert(bytes@ =~= body@);
    utf8_text(bytes)
}

/// Two texts are equal when their bytes are.
pub fn same(a: &str, b: &str) -> (r: bool)
    ensures
        r == (a@ == b@),
{
    let x: &[u8] = a.as_bytes();
    let y: &[u8] = b.as_bytes();
    if x.len() != y.len() {
        return false;
    }
    let mut i: usize = 0;
    while i < x.len()
        invariant
            i <= x.len(),
            x@ == encode_utf8(a@),
            y@ == encode_utf8(b@),
            x.len() == y.len(),
            forall|k: int| 0 <= k < i ==> x[k] == y[k],
        decreases x.len() - i,
    {
        if x[i] != y[i] {
            return false;
        }
        i += 1;
    }
    proof {
        assert(x@ =~= y@);
        encode_utf8_decode_utf8(a@);
        encode_utf8_decode_utf8(b@);
    }
    true
}

/// Whether an optional text is present and equal to `b`.
pub fn is_some_text(a: &Option<String>, b: &str) -> (r: bool)
    ensures
        r == (a matches Some(s) && s@ == b@),
{
    match a {
        Some(s) => same(s.as_str(), b),
        None => false,
    }
}

pub open spec fn lower(c: char) -> char {
    if 'A' <= c <= 'Z' {
        (c as u32 + 32) as char
    } else {
        c
    }
}

/// The text with its ASCII capitals in lower case.
pub open spec fn lower_case(s: Seq<char>) -> Seq<char> {
    s.map_values(|c: char| lower(c))
}

pub open spec fn upper(c: char) -> char {
    if 'a' <= c <= 'z' {
        (c as u32 - 32) as char
    } else {
        c
    }
}

/// The text with its ASCII small letters in upper case.
pub open spec fn upper_case(s: Seq<char>) -> Seq<char> {
    s.map_values(|c: char| upper(c))
}

/// Equality up to the case of ASCII letters.
pub open spec fn same_ignoring_case(a: Seq<char>, b: Seq<char>) -> bool {
    lower_case(a) == lower_case(b)
}

pub fn ascii_lower(c: char) -> (r: char)
    ensures
        r == lower(c),
{
    if c >= 'A' && c <= 'Z' {
        (c as u8 + 32u8) as char
    } else {
        c
    }
}

pub fn to_lower_case(s: &str) -> (r: String)
    ensures
        r@ == lower_case(s@),
{
    let mut out = String::new();
    for c in it: s.chars()
        invariant
            it.seq() == s@,
            out@ == lower_case(s@.take(it.index() as int)),
    {
        out.push(ascii_lower(c));
        assert(out@ =~= lower_case(s@.take(it.index() as int + 1)));
    }
    assert(s@.take(s@.len() as int) =~= s@);
    out
}

pub fn eq_ignore_case(a: &str, b: &str) -> (r: bool)
    ensures
        r == same_ignoring_case(a@, b@),
{
    let x = to_lower_case(a);
    let y = to_lower_case(b);
    x == y
}

// ---- Characters and pieces ------------------------------------------------------

/// The characters of a text, in order.
pub fn chars_of(s: &str) -> (r: Vec<char>)
    ensures
        r@ == s@,
{
    let mut out: Vec<char> = Vec::new();
    for c in it: s.chars()
        invariant
            it.seq() == s@,
            out@ == s@.take(it.index() as int),
    {
        out.push(c);
    }
    out
}

/// The text made of the characters from `from` up to `to`.
pub fn piece(v: &[char], from: usize, to: usize) -> (r: String)
    requires
        from <= to <= v.len(),
    ensures
        r@ == v@.subrange(from as int, to as int),
{
    let mut out = String::new();
    let mut i: usize = from;
    while i < to
        invariant
            from <= i <= to <= v.len(),
            out@ == v@.subrange(from as int, i as int),
        decreases to - i,
    {
        out.push(v[i]);
        i += 1;
        assert(out@ =~= v@.subrange(from as int, i as int));
    }
    out
}

/// The text made of the given characters.
pub fn text_of(v: &[char]) -> (r: String)
    ensures
        r@ == v@,
{
    let r = piece(v, 0, v.len());
    assert(v@.subrange(0, v@.len() as int) =~= v@);
    r
}

/// The first `n` characters, or all of them where there are fewer.
pub fn take_chars(s: &str, n: usize) -> (r: String)
    ensures
        r@ == (if s@.len() <= n { s@ } else { s@.take(n as int) }),
{
    let v = chars_of(s);
    if v.len() <= n {
        text_of(&v)
    } else {
        let r = piece(&v, 0, n);
        assert(v@.subrange(0, n as int) =~= s@.take(n as int));
        r
    }
}

// ---- Search -----------------------------------------------------------------------

/// The first place at or after `from` where `c` stands, or the length.
pub open spec fn index_of(s: Seq<char>, c: char, from: int) -> int
    decreases s.len() - from,
{
    if from >= s.len() {
        s.len() as int
    } else if s[from] == c {
        from
    } else {
        index_of(s, c, from + 1)
    }
}

pub proof fn lemma_index_of(s: Seq<char>, c: char, from: int)
    requires
        0 <= from <= s.len(),
    ensures
        from <= index_of(s, c, from) <= s.len(),
        index_of(s, c, from) < s.len() ==> s[index_of(s, c, from)] == c,
        forall|k: int| from <= k < index_of(s, c, from) ==> s[k] != c,
    decreases s.len() - from,
{
    if from < s.len() && s[from] != c {
        lemma_index_of(s, c, from + 1);
    }
}

/// The place that satisfies what `index_of` promises is the one it gives.
pub proof fn lemma_index_of_is(s: Seq<char>, c: char, from: int, at: int)
    requires
        0 <= from <= at <= s.len(),
        at < s.len() ==> s[at] == c,
        forall|k: int| from <= k < at ==> s[k] != c,
    ensures
        index_of(s, c, from) == at,
    decreases at - from,
{
    if from < at {
        lemma_index_of_is(s, c, from + 1, at);
    }
}

pub fn find_char(v: &[char], c: char, from: usize) -> (r: usize)
    requires
        from <= v.len(),
    ensures
        r == index_of(v@, c, from as int),
        from <= r <= v.len(),
        r < v.len() ==> v[r as int] == c,
        forall|k: int| from <= k < r ==> v[k] != c,
{
    let mut i: usize = from;
    while i < v.len() && v[i] != c
        invariant
            from <= i <= v.len(),
            index_of(v@, c, from as int) == index_of(v@, c, i as int),
            forall|k: int| from <= k < i ==> v[k] != c,
        decreases v.len() - i,
    {
        i += 1;
    }
    i
}

/// The last place before `to` where `c` stands, or -1.
pub open spec fn last_index_of(s: Seq<char>, c: char, to: int) -> int
    decreases to,
{
    if to <= 0 {
        -1
    } else if s[to - 1] == c {
        to - 1
    } else {
        last_index_of(s, c, to - 1)
    }
}

/// The place that satisfies what `last_index_of` promises is the one it gives.
pub proof fn lemma_last_index_of_is(s: Seq<char>, c: char, to: int, at: int)
    requires
        0 <= at < to <= s.len(),
        s[at] == c,
        forall|k: int| at < k < to ==> s[k] != c,
    ensures
        last_index_of(s, c, to) == at,
    decreases to - at,
{
    if at < to - 1 {
        lemma_last_index_of_is(s, c, to - 1, at);
    }
}

pub fn rfind_char(v: &[char], c: char) -> (r: Option<usize>)
    ensures
        match r {
            Some(i) => i == last_index_of(v@, c, v@.len() as int) && i < v.len(),
            None => last_index_of(v@, c, v@.len() as int) == -1,
        },
{
    let mut to: usize = v.len();
    while to > 0
        invariant
            to <= v.len(),
            last_index_of(v@, c, v@.len() as int) == last_index_of(v@, c, to as int),
        decreases to,
    {
        if v[to - 1] == c {
            return Some(to - 1);
        }
        to -= 1;
    }
    None
}

/// Whether `t` stands in `s` at `at`.
pub open spec fn stands_at(s: Seq<char>, t: Seq<char>, at: int) -> bool {
    0 <= at && at + t.len() <= s.len() && s.subrange(at, at + t.len()) == t
}

/// Whether `t` stands anywhere in `s`.
pub open spec fn has_part(s: Seq<char>, t: Seq<char>) -> bool {
    exists|at: int| stands_at(s, t, at)
}

/// The first place at or after `from` where `t` stands, or the length.
pub open spec fn index_of_part(s: Seq<char>, t: Seq<char>, from: int) -> int
    decreases s.len() - from,
{
    if from >= s.len() {
        s.len() as int
    } else if stands_at(s, t, from) {
        from
    } else {
        index_of_part(s, t, from + 1)
    }
}

fn matches_at(v: &[char], t: &[char], at: usize) -> (r: bool)
    requires
        at <= v.len(),
    ensures
        r == stands_at(v@, t@, at as int),
{
    if v.len() - at < t.len() {
        return false;
    }
    let mut k: usize = 0;
    while k < t.len()
        invariant
            k <= t.len(),
            at + t.len() <= v.len(),
            forall|j: int| 0 <= j < k ==> v[at + j] == t[j],
        decreases t.len() - k,
    {
        if v[at + k] != t[k] {
            assert(v@.subrange(at as int, at + t.len())[k as int] == v[at + k]);
            return false;
        }
        k += 1;
    }
    assert(v@.subrange(at as int, at + t.len()) =~= t@);
    true
}

pub fn find_part(v: &[char], t: &[char], from: usize) -> (r: usize)
    requires
        from <= v.len(),
    ensures
        r == index_of_part(v@, t@, from as int),
        from <= r <= v.len(),
        r < v.len() ==> stands_at(v@, t@, r as int),
        forall|k: int| from <= k < r ==> !stands_at(v@, t@, k),
{
    let mut i: usize = from;
    while i < v.len()
        invariant
            from <= i <= v.len(),
            index_of_part(v@, t@, from as int) == index_of_part(v@, t@, i as int),
            forall|k: int| from <= k < i ==> !stands_at(v@, t@, k),
        decreases v.len() - i,
    {
        if matches_at(v, t, i) {
            return i;
        }
        i += 1;
    }
    i
}

pub fn contains(s: &str, t: &str) -> (r: bool)
    ensures
        r == has_part(s@, t@),
{
    let v = chars_of(s);
    let w = chars_of(t);
    if matches_at(&v, &w, v.len()) {
        assert(stands_at(s@, t@, s@.len() as int));
        return true;
    }
    let at: usize = find_part(&v, &w, 0);
    if at < v.len() {
        assert(stands_at(s@, t@, at as int));
        true
    } else {
        assert forall|k: int| !stands_at(s@, t@, k) by {
            if stands_at(s@, t@, k) {
                assert(k <= v.len());
            }
        }
        false
    }
}

pub fn starts_with(s: &str, p: &str) -> (r: bool)
    ensures
        r == p@.is_prefix_of(s@),
{
    let v = chars_of(s);
    let w = chars_of(p);
    matches_at(&v, &w, 0)
}

pub fn ends_with(s: &str, p: &str) -> (r: bool)
    ensures
        r == p@.is_suffix_of(s@),
{
    let v = chars_of(s);
    let w = chars_of(p);
    if v.len() < w.len() {
        false
    } else {
        matches_at(&v, &w, v.len() - w.len())
    }
}

/// What follows the prefix `p`, where the text begins with it.
pub fn after_prefix(s: &str, p: &str) -> (r: Option<String>)
    ensures
        r is Some <==> p@.is_prefix_of(s@),
        r matches Some(t) ==> t@ == s@.skip(p@.len() as int),
{
    let v = chars_of(s);
    let w = chars_of(p);
    if matches_at(&v, &w, 0) {
        let t = piece(&v, w.len(), v.len());
        assert(t@ =~= s@.skip(p@.len() as int));
        Some(t)
    } else {
        None
    }
}

// ---- Splitting ------------------------------------------------------------------------

/// The parts between the occurrences of `c`, from `from` on.
pub open spec fn split_from(s: Seq<char>, c: char, from: int) -> Seq<Seq<char>>
    decreases s.len() - from,
    when 0 <= from <= s.len()
    via split_from_decreases
{
    let at = index_of(s, c, from);
    if at >= s.len() {
        seq![s.subrange(from, s.len() as int)]
    } else {
        seq![s.subrange(from, at)] + split_from(s, c, at + 1)
    }
}

#[via_fn]
proof fn split_from_decreases(s: Seq<char>, c: char, from: int) {
    lemma_index_of(s, c, from);
}

/// The parts between the occurrences of `c`.
pub open spec fn split(s: Seq<char>, c: char) -> Seq<Seq<char>> {
    split_from(s, c, 0)
}

pub fn split_text(s: &str, c: char) -> (r: Vec<String>)
    ensures
        r.deep_view() == split(s@, c),
        r.len() >= 1,
{
    let v = chars_of(s);
    let mut out: Vec<String> = Vec::new();
    let mut from: usize = 0;
    assert(out.deep_view() + split_from(v@, c, 0) =~= split(s@, c));
    loop
        invariant
            from <= v.len(),
            v@ == s@,
            out.deep_view() + split_from(v@, c, from as int) == split(s@, c),
        decreases v.len() - from,
    {
        let at: usize = find_char(&v, c, from);
        let part = piece(&v, from, at);
        let ghost before = out.deep_view();
        out.push(part);
        assert(out.deep_view() =~= before.push(v@.subrange(from as int, at as int)));
        if at == v.len() {
            assert(out.deep_view() =~= before + split_from(v@, c, from as int));
            return out;
        }
        assert(out.deep_view() + split_from(v@, c, at + 1) =~= before + split_from(
            v@,
            c,
            from as int,
        ));
        from = at + 1;
    }
}

// ---- White space ------------------------------------------------------------------------

/// The characters with the Unicode property White_Space.
pub open spec fn is_space(c: char) -> bool {
    ||| '\u{9}' <= c <= '\u{d}'
    ||| c == ' '
    ||| c == '\u{85}'
    ||| c == '\u{a0}'
    ||| c == '\u{1680}'
    ||| '\u{2000}' <= c <= '\u{200a}'
    ||| c == '\u{2028}'
    ||| c == '\u{2029}'
    ||| c == '\u{202f}'
    ||| c == '\u{205f}'
    ||| c == '\u{3000}'
}

pub fn space(c: char) -> (r: bool)
    ensures
        r == is_space(c),
{
    (c >= '\u{9}' && c <= '\u{d}') || c == ' ' || c == '\u{85}' || c == '\u{a0}' || c == '\u{1680}'
        || (c >= '\u{2000}' && c <= '\u{200a}') || c == '\u{2028}' || c == '\u{2029}' || c
        == '\u{202f}' || c == '\u{205f}' || c == '\u{3000}'
}

/// The first place at or after `from` that holds no white space, or the length.
pub open spec fn first_solid(s: Seq<char>, from: int) -> int
    decreases s.len() - from,
{
    if from >= s.len() {
        s.len() as int
    } else if !is_space(s[from]) {
        from
    } else {
        first_solid(s, from + 1)
    }
}

/// The end of the text without the white space before `to`, not below `from`.
pub open spec fn last_solid(s: Seq<char>, from: int, to: int) -> int
    decreases to - from,
{
    if to <= from {
        from
    } else if !is_space(s[to - 1]) {
        to
    } else {
        last_solid(s, from, to - 1)
    }
}

/// The text without white space at its two ends.
pub open spec fn trimmed(s: Seq<char>) -> Seq<char> {
    let from = first_solid(s, 0);
    s.subrange(from, last_solid(s, from, s.len() as int))
}

pub fn trim(s: &str) -> (r: String)
    ensures
        r@ == trimmed(s@),
{
    let v = chars_of(s);
    let mut from: usize = 0;
    while from < v.len() && space(v[from])
        invariant
            from <= v.len(),
            first_solid(v@, 0) == first_solid(v@, from as int),
        decreases v.len() - from,
    {
        from += 1;
    }
    let mut to: usize = v.len();
    while from < to && space(v[to - 1])
        invariant
            from <= to <= v.len(),
            last_solid(v@, from as int, v@.len() as int) == last_solid(
                v@,
                from as int,
                to as int,
            ),
        decreases to,
    {
        to -= 1;
    }
    piece(&v, from, to)
}

/// The first place at or after `from` that holds no quote, or the length.
pub open spec fn first_unquoted(s: Seq<char>, from: int) -> int
    decreases s.len() - from,
{
    if from >= s.len() {
        s.len() as int
    } else if s[from] != '"' {
        from
    } else {
        first_unquoted(s, from + 1)
    }
}

/// The end of the text without the quotes before `to`, not below `from`.
pub open spec fn last_unquoted(s: Seq<char>, from: int, to: int) -> int
    decreases to - from,
{
    if to <= from {
        from
    } else if s[to - 1] != '"' {
        to
    } else {
        last_unquoted(s, from, to - 1)
    }
}

/// The text without quotes at its two ends.
pub open spec fn unquoted(s: Seq<char>) -> Seq<char> {
    let from = first_unquoted(s, 0);
    s.subrange(from, last_unquoted(s, from, s.len() as int))
}

pub fn trim_quotes(s: &str) -> (r: String)
    ensures
        r@ == unquoted(s@),
{
    let v = chars_of(s);
    let mut from: usize = 0;
    while from < v.len() && v[from] == '"'
        invariant
            from <= v.len(),
            first_unquoted(v@, 0) == first_unquoted(v@, from as int),
        decreases v.len() - from,
    {
        from += 1;
    }
    let mut to: usize = v.len();
    while from < to && v[to - 1] == '"'
        invariant
            from <= to <= v.len(),
            last_unquoted(v@, from as int, v@.len() as int) == last_unquoted(
                v@,
                from as int,
                to as int,
            ),
        decreases to,
    {
        to -= 1;
    }
    piece(&v, from, to)
}

/// The quotes round a text without quotes are taken away.
pub proof fn lemma_unquoted(s: Seq<char>)
    requires
        s.len() > 0,
        !s.contains('"'),
    ensures
        unquoted(seq!['"'] + s + seq!['"']) == s,
{
    let q = seq!['"'] + s + seq!['"'];
    let n = s.len() as int;
    assert(q[0] == '"' && q[n + 1] == '"');
    assert(q[1] == s[0] && s.contains(s[0]));
    assert(q[n] == s[n - 1] && s.contains(s[n - 1]));
    reveal_with_fuel(first_unquoted, 3);
    reveal_with_fuel(last_unquoted, 3);
    assert(q.subrange(1, n + 1) =~= s);
}

/// The first place at or after `from` that holds white space, or the length.
pub open spec fn first_gap(s: Seq<char>, from: int) -> int
    decreases s.len() - from,
{
    if from >= s.len() {
        s.len() as int
    } else if is_space(s[from]) {
        from
    } else {
        first_gap(s, from + 1)
    }
}

pub fn find_solid(v: &[char], from: usize) -> (r: usize)
    requires
        from <= v.len(),
    ensures
        r == first_solid(v@, from as int),
        from <= r <= v.len(),
{
    let mut i: usize = from;
    while i < v.len() && space(v[i])
        invariant
            from <= i <= v.len(),
            first_solid(v@, from as int) == first_solid(v@, i as int),
        decreases v.len() - i,
    {
        i += 1;
    }
    i
}

pub fn find_gap(v: &[char], from: usize) -> (r: usize)
    requires
        from <= v.len(),
    ensures
        r == first_gap(v@, from as int),
        from <= r <= v.len(),
{
    let mut i: usize = from;
    while i < v.len() && !space(v[i])
        invariant
            from <= i <= v.len(),
            first_gap(v@, from as int) == first_gap(v@, i as int),
        decreases v.len() - i,
    {
        i += 1;
    }
    i
}

// ---- Numbers --------------------------------------------------------------------------------

pub open spec fn digit(d: int) -> char {
    (48 + d) as char
}

/// The decimal notation of a number.
pub open spec fn decimal(n: nat) -> Seq<char>
    decreases n,
{
    if n < 10 {
        seq![digit(n as int)]
    } else {
        decimal(n / 10).push(digit((n % 10) as int))
    }
}

/// The decimal notation of a number, with a sign where it is negative.
pub open spec fn signed_decimal(n: int) -> Seq<char> {
    if n < 0 {
        seq!['-'] + decimal((-n) as nat)
    } else {
        decimal(n as nat)
    }
}

pub fn decimal_text(n: u64) -> (r: String)
    ensures
        r@ == decimal(n as nat),
    decreases n,
{
    let c = (48u8 + (n % 10) as u8) as char;
    if n < 10 {
        let mut out = String::new();
        out.push(c);
        assert(out@ =~= decimal(n as nat));
        out
    } else {
        let mut out = decimal_text(n / 10);
        out.push(c);
        out
    }
}

pub fn signed_decimal_text(n: i64) -> (r: String)
    ensures
        r@ == signed_decimal(n as int),
{
    if n < 0 {
        let m: u64 = if n == i64::MIN {
            9_223_372_036_854_775_808u64
        } else {
            (-n) as u64
        };
        let mut out = String::new();
        out.push('-');
        let d = decimal_text(m);
        out.append(d.as_str());
        assert(out@ =~= seq!['-'] + decimal(m as nat));
        out
    } else {
        decimal_text(n as u64)
    }
}

pub open spec fn is_digit(c: char) -> bool {
    '0' <= c <= '9'
}

/// The number that a sequence of decimal digits stands for.
pub open spec fn digits_value(s: Seq<char>) -> nat
    decreases s.len(),
{
    if s.len() == 0 {
        0
    } else {
        digits_value(s.drop_last()) * 10 + (s.last() as int - 48) as nat
    }
}

pub open spec fn all_digits(s: Seq<char>) -> bool {
    forall|i: int| 0 <= i < s.len() ==> is_digit(#[trigger] s[i])
}

/// The digits of a number that may be written with a plus sign.
pub open spec fn unsigned_digits(s: Seq<char>) -> Seq<char> {
    if s.len() > 0 && s[0] == '+' {
        s.skip(1)
    } else {
        s
    }
}

/// The unsigned number up to `max` that a text notes: decimal digits, at least
/// one, with an optional plus sign before them.
pub open spec fn parsed_number(s: Seq<char>, max: nat) -> Option<nat> {
    let d = unsigned_digits(s);
    if d.len() > 0 && all_digits(d) && digits_value(d) <= max {
        Some(digits_value(d))
    } else {
        None
    }
}

proof fn lemma_digits_value_grows(s: Seq<char>, i: int)
    requires
        0 <= i <= s.len(),
        all_digits(s),
    ensures
        digits_value(s.take(i)) <= digits_value(s),
    decreases s.len() - i,
{
    if i < s.len() {
        lemma_digits_value_grows(s, i + 1);
        assert(s.take(i + 1).drop_last() =~= s.take(i));
        assert(is_digit(s[i]));
    } else {
        assert(s.take(i) =~= s);
    }
}

pub fn parse_number(s: &str, max: u64) -> (r: Option<u64>)
    ensures
        match parsed_number(s@, max as nat) {
            Some(n) => r == Some(n as u64) && n <= u64::MAX,
            None => r is None,
        },
{
    let v = chars_of(s);
    let start: usize = if v.len() > 0 && v[0] == '+' {
        1
    } else {
        0
    };
    let ghost d = unsigned_digits(s@);
    assert(d =~= v@.skip(start as int));
    if start == v.len() {
        return None;
    }
    let mut n: u64 = 0;
    let mut i: usize = start;
    while i < v.len()
        invariant
            start <= i <= v.len(),
            d == v@.skip(start as int),
            all_digits(d.take(i - start)),
            n == digits_value(d.take(i - start)),
            n <= max,
            d == unsigned_digits(s@),
            d.len() > 0,
        decreases v.len() - i,
    {
        let c = v[i];
        assert(c == d[i - start]);
        if c < '0' || c > '9' {
            return None;
        }
        let k: u64 = (c as u8 - 48u8) as u64;
        assert(d.take(i - start + 1).drop_last() =~= d.take(i - start));
        assert(all_digits(d.take(i - start + 1))) by {
            assert forall|j: int| 0 <= j < i - start + 1 implies is_digit(
                #[trigger] d.take(i - start + 1)[j],
            ) by {
                if j < i - start {
                    assert(is_digit(d.take(i - start)[j]));
                }
            }
        }
        assert(digits_value(d.take(i - start + 1)) == n * 10 + k);
        if n > max / 10 || k > max - n * 10 {
            proof {
                assert(n * 10 + k > max);
                if all_digits(d) {
                    lemma_digits_value_grows(d, i - start + 1);
                }
            }
            return None;
        }
        n = n * 10 + k;
        i += 1;
    }
    assert(d.take(i - start) =~= d);
    Some(n)
}

/// A number is read back from its decimal notation.
pub proof fn law_number_is_read_back(n: nat, max: nat)
    requires
        n <= max,
    ensures
        parsed_number(decimal(n), max) == Some(n),
{
    lemma_decimal_digits(n);
    assert(is_digit(decimal(n)[0]));
}

pub proof fn lemma_decimal_digits(n: nat)
    ensures
        decimal(n).len() > 0,
        all_digits(decimal(n)),
        digits_value(decimal(n)) == n,
    decreases n,
{
    let d = decimal(n);
    if n >= 10 {
        let front = decimal(n / 10);
        lemma_decimal_digits(n / 10);
        assert(d.drop_last() =~= front);
        assert forall|i: int| 0 <= i < d.len() implies is_digit(#[trigger] d[i]) by {
            if i < front.len() {
                assert(is_digit(front[i]));
            }
        }
    } else {
        assert(d.drop_last() =~= Seq::<char>::empty());
        assert(digits_value(Seq::<char>::empty()) == 0);
    }
}

/// Two texts are the same but for their case exactly where each character is the same or the
/// one is an ASCII letter and the other its other case.
pub proof fn law_case_is_ignored(a: Seq<char>, b: Seq<char>)
    ensures
        same_ignoring_case(a, b) <==> (a.len() == b.len() && forall|i: int|
            0 <= i < a.len() ==> #[trigger] a[i] == b[i] || ('A' <= a[i] <= 'Z' && b[i] as int
                == a[i] as int + 32) || ('A' <= b[i] <= 'Z' && a[i] as int == b[i] as int + 32)),
{
    let la = lower_case(a);
    let lb = lower_case(b);
    if same_ignoring_case(a, b) {
        assert(la.len() == lb.len());
        assert forall|i: int| 0 <= i < a.len() implies #[trigger] a[i] == b[i] || ('A' <= a[i] <= 'Z'
            && b[i] as int == a[i] as int + 32) || ('A' <= b[i] <= 'Z' && a[i] as int == b[i] as int
            + 32) by {
            assert(la[i] == lower(a[i]) && lb[i] == lower(b[i]));
        }
    }
    if a.len() == b.len() && forall|i: int|
        0 <= i < a.len() ==> #[trigger] a[i] == b[i] || ('A' <= a[i] <= 'Z' && b[i] as int
            == a[i] as int + 32) || ('A' <= b[i] <= 'Z' && a[i] as int == b[i] as int + 32) {
        assert forall|i: int| 0 <= i < la.len() implies la[i] == lb[i] by {
            assert(la[i] == lower(a[i]) && lb[i] == lower(b[i]));
            assert(a[i] == a[i]);
        }
        assert(la =~= lb);
    }
}

/// A text without the separator is one part; behind a first part without it and the separator
/// come the parts of the rest.
pub proof fn law_parts_lie_between_separators(a: Seq<char>, c: char, b: Seq<char>)
    requires
        !a.contains(c),
    ensures
        split(a, c) == seq![a],
        split(a + seq![c] + b, c) == seq![a] + split(b, c),
{
    let n = a.len() as int;
    assert forall|k: int| 0 <= k < n implies a[k] != c by {
        assert(a.contains(a[k]));
    }
    lemma_index_of_is(a, c, 0, n);
    assert(a.subrange(0, n) =~= a);
    let s = a + seq![c] + b;
    assert forall|k: int| 0 <= k < n implies s[k] != c by {
        assert(s[k] == a[k]);
    }
    assert(s[n] == c);
    lemma_index_of_is(s, c, 0, n);
    assert(s.subrange(0, n) =~= a);
    assert(s =~= a.push(c) + b);
    lemma_split_behind(a.push(c), b, c, 0);
}

/// The parts behind a prefix do not depend on it.
proof fn lemma_split_behind(p: Seq<char>, b: Seq<char>, c: char, from: int)
    requires
        0 <= from <= b.len(),
    ensures
        split_from(p + b, c, p.len() + from) == split_from(b, c, from),
    decreases b.len() - from,
{
    let s = p + b;
    let n = p.len() as int;
    let at = index_of(b, c, from);
    lemma_index_of(b, c, from);
    assert forall|k: int| n + from <= k < n + at implies s[k] != c by {
        assert(s[k] == b[k - n]);
    }
    if at < b.len() {
        assert(s[n + at] == b[at]);
    }
    lemma_index_of_is(s, c, n + from, n + at);
    assert(s.subrange(n + from, n + at) =~= b.subrange(from, at));
    if at < b.len() {
        lemma_split_behind(p, b, c, at + 1);
    }
}

/// Trimming takes the white space at both ends away and nothing else.
pub proof fn law_only_white_space_is_trimmed(a: Seq<char>, s: Seq<char>, b: Seq<char>)
    requires
        forall|i: int| 0 <= i < a.len() ==> is_space(#[trigger] a[i]),
        forall|i: int| 0 <= i < b.len() ==> is_space(#[trigger] b[i]),
        s.len() > 0,
        !is_space(s[0]),
        !is_space(s.last()),
    ensures
        trimmed(a + s + b) == s,
        trimmed(a) == Seq::<char>::empty(),
        is_space(' ') && is_space('\t') && is_space('\n') && is_space('\r'),
        !is_space('a') && !is_space('0') && !is_space('/') && !is_space('"'),
{
    let t = a + s + b;
    let n = a.len() as int;
    let m = n + s.len();
    assert forall|k: int| 0 <= k < n implies is_space(t[k]) by {
        assert(t[k] == a[k]);
    }
    assert(t[n] == s[0] && t[m - 1] == s.last());
    assert forall|k: int| m <= k < t.len() implies is_space(t[k]) by {
        assert(t[k] == b[k - m]);
    }
    lemma_first_solid_is(t, 0, n);
    lemma_last_solid_is(t, n, t.len() as int, m);
    assert(t.subrange(n, m) =~= s);
    lemma_first_solid_is(a, 0, n);
}

proof fn lemma_first_solid_is(s: Seq<char>, from: int, at: int)
    requires
        0 <= from <= at <= s.len(),
        at < s.len() ==> !is_space(s[at]),
        forall|k: int| from <= k < at ==> is_space(s[k]),
    ensures
        first_solid(s, from) == at,
    decreases at - from,
{
    if from < at {
        lemma_first_solid_is(s, from + 1, at);
    }
}

proof fn lemma_last_solid_is(s: Seq<char>, from: int, to: int, at: int)
    requires
        0 <= from < at <= to <= s.len(),
        !is_space(s[at - 1]),
        forall|k: int| at <= k < to ==> is_space(s[k]),
    ensures
        last_solid(s, from, to) == at,
    decreases to - at,
{
    if at < to {
        lemma_last_solid_is(s, from, to - 1, at);
    }
}

/// A number is read from its digits, with or without a plus sign before them; anything else
/// is no number.
pub proof fn law_only_digits_make_a_number(s: Seq<char>, at: int, max: nat)
    requires
        0 <= at < s.len(),
        !('0' <= s[at] <= '9'),
    ensures
        at > 0 || s[0] != '+' ==> parsed_number(s, max) is None,
        parsed_number(Seq::<char>::empty(), max) is None,
        parsed_number(seq!['+'], max) is None,
        forall|n: nat| n > max ==> parsed_number(#[trigger] decimal(n), max) is None,
        forall|n: nat| n <= max ==> parsed_number(#[trigger] decimal(n), max) == Some(n),
{
    let d = unsigned_digits(s);
    if at > 0 || s[0] != '+' {
        if s[0] == '+' {
            assert(d[at - 1] == s[at]);
        }
        assert(!all_digits(d));
    }
    assert(seq!['+'].skip(1).len() == 0);
    assert forall|n: nat| n > max implies parsed_number(#[trigger] decimal(n), max) is None by {
        lemma_decimal_digits(n);
        assert(is_digit(decimal(n)[0]));
    }
    assert forall|n: nat| n <= max implies parsed_number(#[trigger] decimal(n), max) == Some(n) by {
        law_number_is_read_back(n, max);
    }
}

} // verus!
