//! Cross-origin resource sharing, and the headers that the user asked for.

use vstd::prelude::*;
use vstd::string::*;
use vstd::utf8::encode_utf8;

use crate::cli::{headers_view, CorsConfig, CorsOrigin, CorsView, Header, OriginView};
use crate::pairs::{push_pair, Pairs};
use crate::text::{eq_ignore_case, same, same_ignoring_case};

verus! {

/// The largest request header, in bytes.
pub const MAX_HEADER_SIZE: usize = 8192;

/// What is to be done with a request.
#[derive(Debug)]
pub enum CorsResult {
    /// Nothing.
    Disabled,
    /// Answer it, with these headers besides the others.
    ResponseHeaders(Vec<(String, String)>),
    /// Answer 204 with these headers, and do nothing else.
    Preflight(Vec<(String, String)>),
}

#[verifier::ext_equal]
pub enum CorsResultView {
    Disabled,
    ResponseHeaders(Pairs),
    Preflight(Pairs),
}

impl View for CorsResult {
    type V = CorsResultView;

    open spec fn view(&self) -> CorsResultView {
        match self {
            CorsResult::Disabled => CorsResultView::Disabled,
            CorsResult::ResponseHeaders(h) => CorsResultView::ResponseHeaders(h.deep_view()),
            CorsResult::Preflight(h) => CorsResultView::Preflight(h.deep_view()),
        }
    }
}

pub uninterp spec fn pattern_matches(pattern: Seq<char>, text: Seq<char>) -> bool;

/// `Regex::is_match` on the regular expression that `Regex::new` makes of the pattern:
/// whether it matches somewhere in the text. A pattern that `Regex::new` refuses
/// matches nothing.
#[verifier::external_body]
fn regex_is_match(pattern: &str, text: &str) -> (r: bool)
    ensures
        r == pattern_matches(pattern@, text@),
{
    match regex::Regex::new(pattern) {
        Ok(re) => re.is_match(text),
        Err(_) => false,
    }
}

/// Whether an entry of the list admits the origin.
pub open spec fn admits(o: OriginView, origin: Seq<char>) -> bool {
    match o {
        OriginView::Literal(s) => s == origin,
        OriginView::Regex(p) => pattern_matches(p, origin),
    }
}

pub open spec fn origin_allowed(config: CorsView, origin: Seq<char>) -> bool {
    match config {
        CorsView::Disabled => false,
        CorsView::Wildcard => true,
        CorsView::Origins(os) => exists|i: int| 0 <= i < os.len() && #[trigger] admits(os[i], origin),
    }
}

/// The origin that an answer allows, if any, where it is known whether the list admits it.
pub open spec fn granted_origin(
    config: CorsView,
    origin: Option<Seq<char>>,
    admitted: bool,
) -> Option<Seq<char>> {
    match config {
        CorsView::Disabled => None,
        CorsView::Wildcard => Some("*"@),
        CorsView::Origins(_) => if admitted {
            origin
        } else {
            None
        },
    }
}

/// Whether the list admits the origin of a request.
pub open spec fn is_admitted(config: CorsView, origin: Option<Seq<char>>) -> bool {
    origin is Some && origin_allowed(config, origin->Some_0)
}

/// The headers on an answer: the origin and, for a preflight, what it may do; the
/// session header where it is exposed; and in list mode always `Vary`.
pub open spec fn cors_headers(
    config: CorsView,
    expose: bool,
    origin: Option<Seq<char>>,
    preflight: bool,
) -> Pairs {
    granted_headers(config, expose, origin, is_admitted(config, origin), preflight)
}

/// The same, where it is known whether the list admits the origin.
pub open spec fn granted_headers(
    config: CorsView,
    expose: bool,
    origin: Option<Seq<char>>,
    admitted: bool,
    preflight: bool,
) -> Pairs {
    (match granted_origin(config, origin, admitted) {
        Some(o) => seq![("Access-Control-Allow-Origin"@, o)] + (if preflight {
            seq![
                ("Access-Control-Allow-Methods"@, "GET, POST, DELETE, OPTIONS"@),
                (
                    "Access-Control-Allow-Headers"@,
                    "Content-Type, Accept, Mcp-Session-Id, Last-Event-ID"@,
                ),
                ("Access-Control-Max-Age"@, "86400"@),
            ]
        } else {
            seq![]
        }) + (if expose {
            seq![("Access-Control-Expose-Headers"@, "Mcp-Session-Id"@)]
        } else {
            seq![]
        }),
        None => seq![],
    }) + (if config is Origins {
        seq![("Vary"@, "Origin"@)]
    } else {
        seq![]
    })
}

pub open spec fn cors_result(
    config: CorsView,
    expose: bool,
    method: Seq<char>,
    origin: Option<Seq<char>>,
) -> CorsResultView {
    if config is Disabled {
        CorsResultView::Disabled
    } else if same_ignoring_case(method, "OPTIONS"@) {
        CorsResultView::Preflight(cors_headers(config, expose, origin, true))
    } else {
        CorsResultView::ResponseHeaders(cors_headers(config, expose, origin, false))
    }
}

pub open spec fn str_view(s: Option<&str>) -> Option<Seq<char>> {
    match s {
        Some(t) => Some(t@),
        None => None,
    }
}

/// Decides about requests by their origin.
#[derive(Debug)]
pub struct CorsHandler {
    pub config: CorsConfig,
    pub expose_session_header: bool,
}

impl CorsHandler {
    /// With `expose_session_header`, answers tell the browser that it may read the
    /// session header.
    pub fn new(config: CorsConfig, expose_session_header: bool) -> (r: CorsHandler)
        ensures
            r.config == config,
            r.expose_session_header == expose_session_header,
    {
        CorsHandler { config, expose_session_header }
    }

    pub fn is_enabled(&self) -> (r: bool)
        ensures
            r == !(self.config is Disabled),
    {
        match &self.config {
            CorsConfig::Disabled => false,
            _ => true,
        }
    }

    /// Says what is to be done with a request.
    pub fn process(&self, method: &str, request_origin: Option<&str>) -> (r: CorsResult)
        ensures
            r@ == cors_result(
                self.config@,
                self.expose_session_header,
                method@,
                str_view(request_origin),
            ),
    {
        match &self.config {
            CorsConfig::Disabled => CorsResult::Disabled,
            _ => if eq_ignore_case(method, "OPTIONS") {
                CorsResult::Preflight(self.build(request_origin, true))
            } else {
                CorsResult::ResponseHeaders(self.build(request_origin, false))
            },
        }
    }

    /// Whether the origin may use the gateway.
    pub fn origin_allowed(&self, origin: &str) -> (r: bool)
        ensures
            r == origin_allowed(self.config@, origin@),
    {
        match &self.config {
            CorsConfig::Disabled => false,
            CorsConfig::Wildcard => true,
            CorsConfig::Origins(os) => {
                let ghost d = self.config@->Origins_0;
                let mut i: usize = 0;
                while i < os.len()
                    invariant
                        i <= os.len(),
                        d.len() == os.len(),
                        forall|k: int| 0 <= k < os.len() ==> d[k] == (#[trigger] os[k])@,
                        forall|k: int| 0 <= k < i ==> !#[trigger] admits(d[k], origin@),
                        self.config@ == CorsView::Origins(d),
                    decreases os.len() - i,
                {
                    let found = match &os[i] {
                        CorsOrigin::Literal(s) => same(s.as_str(), origin),
                        CorsOrigin::Regex(p) => regex_is_match(p.as_str(), origin),
                    };
                    assert(d[i as int] == os[i as int]@);
                    if found {
                        assert(admits(d[i as int], origin@));
                        let ghost c = CorsView::Origins(d);
                        assert(c->Origins_0 == d);
                        assert(origin_allowed(c, origin@));
                        return true;
                    }
                    i += 1;
                }
                false
            },
        }
    }

    fn build(&self, request_origin: Option<&str>, preflight: bool) -> (r: Vec<(String, String)>)
        ensures
            r.deep_view() == cors_headers(
                self.config@,
                self.expose_session_header,
                str_view(request_origin),
                preflight,
            ),
    {
        let admitted = match request_origin {
            Some(o) => self.origin_allowed(o),
            None => false,
        };
        self.build_headers(request_origin, admitted, preflight)
    }

    /// Writes the headers on an answer, once it is known whether the list admits the origin.
    pub fn build_headers(
        &self,
        request_origin: Option<&str>,
        admitted: bool,
        preflight: bool,
    ) -> (r: Vec<(String, String)>)
        ensures
            r.deep_view() == granted_headers(
                self.config@,
                self.expose_session_header,
                str_view(request_origin),
                admitted,
                preflight,
            ),
    {
        let mut h: Vec<(String, String)> = Vec::new();
        let allowed: Option<String> = match &self.config {
            CorsConfig::Disabled => None,
            CorsConfig::Wildcard => Some("*".to_owned()),
            CorsConfig::Origins(_) => match request_origin {
                Some(o) => if admitted {
                    Some(o.to_owned())
                } else {
                    None
                },
                None => None,
            },
        };
        if let Some(o) = allowed {
            push_pair(&mut h, "Access-Control-Allow-Origin", o);
            if preflight {
                push_pair(
                    &mut h,
                    "Access-Control-Allow-Methods",
                    "GET, POST, DELETE, OPTIONS".to_owned(),
                );
                push_pair(
                    &mut h,
                    "Access-Control-Allow-Headers",
                    "Content-Type, Accept, Mcp-Session-Id, Last-Event-ID".to_owned(),
                );
                push_pair(&mut h, "Access-Control-Max-Age", "86400".to_owned());
            }
            if self.expose_session_header {
                push_pair(&mut h, "Access-Control-Expose-Headers", "Mcp-Session-Id".to_owned());
            }
        }
        if let CorsConfig::Origins(_) = &self.config {
            push_pair(&mut h, "Vary", "Origin".to_owned());
        }
        assert(h.deep_view() =~= granted_headers(
            self.config@,
            self.expose_session_header,
            str_view(request_origin),
            admitted,
            preflight,
        ));
        h
    }
}

// ---- Laws -------------------------------------------------------------------------

pub open spec fn mentions(ps: Pairs, name: Seq<char>) -> bool {
    exists|i: int| 0 <= i < ps.len() && same_ignoring_case((#[trigger] ps[i]).0, name)
}

/// In list mode every answer varies by origin, whether the origin is allowed or not.
pub proof fn law_list_mode_varies(
    os: Seq<OriginView>,
    expose: bool,
    origin: Option<Seq<char>>,
    preflight: bool,
)
    ensures
        cors_headers(CorsView::Origins(os), expose, origin, preflight).last() == ("Vary"@, "Origin"@),
        cors_headers(CorsView::Origins(os), expose, origin, preflight).len() >= 1,
{
}

/// An origin that is not allowed gets no header that would let it in: in list mode its
/// answer holds `Vary` alone.
pub proof fn law_refused_origin_gets_nothing(
    os: Seq<OriginView>,
    expose: bool,
    origin: Option<Seq<char>>,
    preflight: bool,
)
    requires
        origin matches Some(o) ==> !origin_allowed(CorsView::Origins(os), o),
    ensures
        cors_headers(CorsView::Origins(os), expose, origin, preflight) == seq![
            ("Vary"@, "Origin"@),
        ],
{
}

/// No answer ever allows credentials.
pub proof fn law_no_credentials(
    config: CorsView,
    expose: bool,
    origin: Option<Seq<char>>,
    preflight: bool,
)
    ensures
        forall|i: int|
            0 <= i < cors_headers(config, expose, origin, preflight).len() ==> (
            #[trigger] cors_headers(config, expose, origin, preflight)[i]).0
                != "Access-Control-Allow-Credentials"@,
{
    reveal_strlit("Access-Control-Allow-Credentials");
    reveal_strlit("Access-Control-Allow-Origin");
    reveal_strlit("Access-Control-Allow-Methods");
    reveal_strlit("Access-Control-Allow-Headers");
    reveal_strlit("Access-Control-Max-Age");
    reveal_strlit("Access-Control-Expose-Headers");
    reveal_strlit("Vary");
    let h = cors_headers(config, expose, origin, preflight);
    assert forall|i: int| 0 <= i < h.len() implies (#[trigger] h[i]).0.len()
        != "Access-Control-Allow-Credentials"@.len() by {}
}

/// The session header is exposed to a page only where that was asked for and the page's
/// origin is let in.
pub proof fn law_session_header_is_exposed_if_asked(
    config: CorsView,
    expose: bool,
    origin: Option<Seq<char>>,
    preflight: bool,
)
    ensures
        cors_headers(config, expose, origin, preflight).contains(
            ("Access-Control-Expose-Headers"@, "Mcp-Session-Id"@),
        ) <==> expose && granted_origin(config, origin, is_admitted(config, origin)) is Some,
{
    reveal_strlit("Access-Control-Allow-Origin");
    reveal_strlit("Access-Control-Allow-Methods");
    reveal_strlit("Access-Control-Allow-Headers");
    reveal_strlit("Access-Control-Max-Age");
    reveal_strlit("Access-Control-Expose-Headers");
    reveal_strlit("Vary");
    let h = cors_headers(config, expose, origin, preflight);
    let e = ("Access-Control-Expose-Headers"@, "Mcp-Session-Id"@);
    if expose && granted_origin(config, origin, is_admitted(config, origin)) is Some {
        assert(h[if preflight {
            4int
        } else {
            1
        }] == e);
    } else {
        assert forall|i: int| 0 <= i < h.len() implies (#[trigger] h[i]).0.len() != e.0.len() by {}
    }
}

// ---- Header utilities ----------------------------------------------------------------

/// Whether one request header, written as a line, stays within the limit.
pub fn header_within_limit(name: &str, value: &str) -> (r: bool)
    ensures
        r == (encode_utf8(name@).len() + encode_utf8(value@).len() + 4 <= MAX_HEADER_SIZE),
{
    let n: &[u8] = name.as_bytes();
    let v: &[u8] = value.as_bytes();
    n.len() <= MAX_HEADER_SIZE - 4 && v.len() <= MAX_HEADER_SIZE - 4 - n.len()
}

/// The headers without those of the name, up to case.
pub open spec fn without(ps: Pairs, name: Seq<char>) -> Pairs
    decreases ps.len(),
{
    if ps.len() == 0 {
        ps
    } else if same_ignoring_case(ps.last().0, name) {
        without(ps.drop_last(), name)
    } else {
        without(ps.drop_last(), name).push(ps.last())
    }
}

/// The headers after the custom ones from `from` on took the place of those with
/// their names.
pub open spec fn with_custom(ps: Pairs, custom: Pairs, from: int) -> Pairs
    decreases custom.len() - from,
{
    if from >= custom.len() {
        ps
    } else {
        with_custom(without(ps, custom[from].0).push(custom[from]), custom, from + 1)
    }
}

pub fn remove_header(headers: &Vec<(String, String)>, name: &str) -> (r: Vec<(String, String)>)
    ensures
        r.deep_view() == without(headers.deep_view(), name@),
{
    let mut out: Vec<(String, String)> = Vec::new();
    let ghost d = headers.deep_view();
    let mut i: usize = 0;
    assert(out.deep_view() =~= without(d.take(0), name@));
    while i < headers.len()
        invariant
            i <= headers.len(),
            d == headers.deep_view(),
            out.deep_view() == without(d.take(i as int), name@),
        decreases headers.len() - i,
    {
        assert(d.take(i + 1).drop_last() =~= d.take(i as int));
        assert(d.take(i + 1).last() == (headers[i as int].0@, headers[i as int].1@));
        if !eq_ignore_case(headers[i].0.as_str(), name) {
            push_pair(&mut out, headers[i].0.as_str(), headers[i].1.clone());
        }
        i += 1;
    }
    assert(d.take(i as int) =~= d);
    out
}

/// Sets the custom headers on an answer. Each replaces what stood under its name, in
/// whatever case, so that the last one wins.
pub fn apply_custom_headers(response_headers: &mut Vec<(String, String)>, custom: &Vec<Header>)
    ensures
        final(response_headers).deep_view() == with_custom(
            old(response_headers).deep_view(),
            headers_view(custom@),
            0,
        ),
{
    let ghost c = headers_view(custom@);
    let ghost before = response_headers.deep_view();
    let mut i: usize = 0;
    while i < custom.len()
        invariant
            i <= custom.len(),
            c == headers_view(custom@),
            with_custom(before, c, 0) == with_custom(response_headers.deep_view(), c, i as int),
        decreases custom.len() - i,
    {
        let mut kept = remove_header(response_headers, custom[i].name.as_str());
        push_pair(&mut kept, custom[i].name.as_str(), custom[i].value.clone());
        assert(c[i as int] == (custom[i as int].name@, custom[i as int].value@));
        *response_headers = kept;
        i += 1;
    }
}

pub proof fn lemma_without(ps: Pairs, name: Seq<char>)
    ensures
        !mentions(without(ps, name), name),
        forall|i: int| 0 <= i < without(ps, name).len() ==> ps.contains(#[trigger] without(ps, name)[i]),
        !mentions(ps, name) ==> without(ps, name) == ps,
    decreases ps.len(),
{
    if ps.len() > 0 {
        let rest = ps.drop_last();
        lemma_without(rest, name);
        let w = without(ps, name);
        let v = without(rest, name);
        assert forall|i: int| 0 <= i < w.len() implies ps.contains(#[trigger] w[i]) by {
            if i < v.len() {
                assert(w[i] == v[i]);
                let k = choose|k: int| 0 <= k < rest.len() && rest[k] == v[i];
                assert(ps[k] == w[i]);
            } else {
                assert(ps[ps.len() - 1] == w[i]);
            }
        }
        assert(!mentions(w, name)) by {
            if mentions(w, name) {
                let i = choose|i: int| 0 <= i < w.len() && same_ignoring_case((#[trigger] w[i]).0, name);
                if i < v.len() {
                    assert(same_ignoring_case(v[i].0, name));
                }
            }
        }
        if !mentions(ps, name) {
            assert(!same_ignoring_case(ps[ps.len() - 1].0, name));
            assert(!mentions(rest, name)) by {
                if mentions(rest, name) {
                    let i = choose|i: int|
                        0 <= i < rest.len() && same_ignoring_case((#[trigger] rest[i]).0, name);
                    assert(same_ignoring_case(ps[i].0, name));
                }
            }
            assert(w =~= ps);
        }
    } else {
        assert(!mentions(ps, name));
    }
}

/// Among equal names the last custom header wins: where no later one has its name, a
/// custom header stands in the answer, and nothing else does under its name.
pub proof fn law_last_custom_header_wins(ps: Pairs, custom: Pairs, at: int)
    requires
        0 <= at < custom.len(),
        forall|j: int|
            at < j < custom.len() ==> !same_ignoring_case((#[trigger] custom[j]).0, custom[at].0),
    ensures
        with_custom(ps, custom, 0).contains(custom[at]),
        forall|i: int|
            0 <= i < with_custom(ps, custom, 0).len() && same_ignoring_case(
                (#[trigger] with_custom(ps, custom, 0)[i]).0,
                custom[at].0,
            ) ==> with_custom(ps, custom, 0)[i] == custom[at],
{
    lemma_custom_reaches(ps, custom, 0, at);
}

/// Whether `h` stands in the list and is all that stands under its name.
spec fn rules(ps: Pairs, h: (Seq<char>, Seq<char>)) -> bool {
    &&& ps.contains(h)
    &&& forall|i: int| 0 <= i < ps.len() && same_ignoring_case((#[trigger] ps[i]).0, h.0) ==> ps[i] == h
}

proof fn lemma_custom_reaches(ps: Pairs, custom: Pairs, from: int, at: int)
    requires
        0 <= from <= at < custom.len(),
        forall|j: int|
            at < j < custom.len() ==> !same_ignoring_case((#[trigger] custom[j]).0, custom[at].0),
    ensures
        rules(with_custom(ps, custom, 0 + from), custom[at]),
    decreases at - from,
{
    let next = without(ps, custom[from].0).push(custom[from]);
    if from < at {
        lemma_custom_reaches(next, custom, from + 1, at);
    } else {
        lemma_without(ps, custom[at].0);
        assert(next[next.len() - 1] == custom[at]);
        assert(rules(next, custom[at])) by {
            assert forall|i: int|
                0 <= i < next.len() && same_ignoring_case((#[trigger] next[i]).0, custom[at].0)
                implies next[i] == custom[at] by {
                if i < next.len() - 1 {
                    assert(next[i] == without(ps, custom[at].0)[i]);
                }
            }
        }
        lemma_custom_keeps(next, custom, at + 1, custom[at]);
    }
}

proof fn lemma_custom_keeps(ps: Pairs, custom: Pairs, from: int, h: (Seq<char>, Seq<char>))
    requires
        0 <= from,
        rules(ps, h),
        forall|j: int|
            from <= j < custom.len() ==> !same_ignoring_case((#[trigger] custom[j]).0, h.0),
    ensures
        rules(with_custom(ps, custom, from), h),
    decreases custom.len() - from,
{
    if from < custom.len() {
        let name = custom[from].0;
        let kept = without(ps, name);
        let next = kept.push(custom[from]);
        lemma_without(ps, name);
        lemma_without_keeps(ps, name, h);
        assert(next.contains(h)) by {
            let k = choose|k: int| 0 <= k < kept.len() && kept[k] == h;
            assert(next[k] == h);
        }
        assert forall|i: int| 0 <= i < next.len() && same_ignoring_case((#[trigger] next[i]).0, h.0)
            implies next[i] == h by {
            if i < kept.len() {
                assert(next[i] == kept[i]);
                let k = choose|k: int| 0 <= k < ps.len() && ps[k] == kept[i];
                assert(same_ignoring_case(ps[k].0, h.0));
            }
        }
        lemma_custom_keeps(next, custom, from + 1, h);
    }
}

proof fn lemma_without_keeps(ps: Pairs, name: Seq<char>, h: (Seq<char>, Seq<char>))
    requires
        ps.contains(h),
        !same_ignoring_case(h.0, name),
    ensures
        without(ps, name).contains(h),
    decreases ps.len(),
{
    let w = without(ps, name);
    let k = choose|k: int| 0 <= k < ps.len() && ps[k] == h;
    if k == ps.len() - 1 {
        assert(w[w.len() - 1] == h);
    } else {
        let rest = ps.drop_last();
        assert(rest[k] == h);
        lemma_without_keeps(rest, name, h);
        let j = choose|j: int| 0 <= j < without(rest, name).len() && without(rest, name)[j] == h;
        assert(w[j] == h);
    }
}

/// Taking a header out takes every header of that name and leaves the others in their order.
pub proof fn law_only_that_header_is_taken_out(ps: Pairs, name: Seq<char>)
    ensures
        without(ps, name) == ps.filter(
            |h: (Seq<char>, Seq<char>)| !same_ignoring_case(h.0, name),
        ),
    decreases ps.len(),
{
    reveal(Seq::filter);
    if ps.len() > 0 {
        law_only_that_header_is_taken_out(ps.drop_last(), name);
    }
}

/// Custom headers are put in one after the other, each in the place of those of its name.
pub proof fn law_custom_headers_are_put_in(ps: Pairs, custom: Pairs, h: (Seq<char>, Seq<char>))
    ensures
        with_custom(ps, Seq::empty(), 0) == ps,
        with_custom(ps, custom.push(h), 0) == with_custom(ps, custom, 0).filter(
            |x: (Seq<char>, Seq<char>)| !same_ignoring_case(x.0, h.0),
        ).push(h),
{
    lemma_custom_last(ps, custom, h, 0);
    law_only_that_header_is_taken_out(with_custom(ps, custom, 0), h.0);
}

proof fn lemma_custom_last(ps: Pairs, custom: Pairs, h: (Seq<char>, Seq<char>), from: int)
    requires
        0 <= from <= custom.len(),
    ensures
        with_custom(ps, custom.push(h), from) == without(with_custom(ps, custom, from), h.0).push(h),
    decreases custom.len() - from,
{
    let all = custom.push(h);
    if from < custom.len() {
        assert(all[from] == custom[from]);
        lemma_custom_last(without(ps, custom[from].0).push(custom[from]), custom, h, from + 1);
    } else {
        assert(all[from] == h);
        assert(with_custom(without(ps, h.0).push(h), all, from + 1) == without(ps, h.0).push(h));
    }
}

/// Where any origin may ask, every answer says so, and tells a preflight the methods and the
/// headers that may be used.
pub proof fn law_wildcard_admits_everybody(expose: bool, method: Seq<char>, origin: Option<Seq<char>>)
    ensures
        ({
            let r = cors_result(CorsView::Wildcard, expose, method, origin);
            let star = ("Access-Control-Allow-Origin"@, "*"@);
            let exposed = if expose {
                seq![("Access-Control-Expose-Headers"@, "Mcp-Session-Id"@)]
            } else {
                seq![]
            };
            &&& same_ignoring_case(method, "OPTIONS"@) ==> r == CorsResultView::Preflight(
                seq![
                    star,
                    ("Access-Control-Allow-Methods"@, "GET, POST, DELETE, OPTIONS"@),
                    (
                        "Access-Control-Allow-Headers"@,
                        "Content-Type, Accept, Mcp-Session-Id, Last-Event-ID"@,
                    ),
                    ("Access-Control-Max-Age"@, "86400"@),
                ] + exposed,
            )
            &&& !same_ignoring_case(method, "OPTIONS"@) ==> r == CorsResultView::ResponseHeaders(
                seq![star] + exposed,
            )
        }),
{
    let got = cors_headers(CorsView::Wildcard, expose, origin, same_ignoring_case(method, "OPTIONS"@));
    let star = ("Access-Control-Allow-Origin"@, "*"@);
    let exposed = if expose {
        seq![("Access-Control-Expose-Headers"@, "Mcp-Session-Id"@)]
    } else {
        Seq::<(Seq<char>, Seq<char>)>::empty()
    };
    if same_ignoring_case(method, "OPTIONS"@) {
        assert(got =~= seq![
            star,
            ("Access-Control-Allow-Methods"@, "GET, POST, DELETE, OPTIONS"@),
            (
                "Access-Control-Allow-Headers"@,
                "Content-Type, Accept, Mcp-Session-Id, Last-Event-ID"@,
            ),
            ("Access-Control-Max-Age"@, "86400"@),
        ] + exposed);
    } else {
        assert(got =~= seq![star] + exposed);
    }
}

/// An origin of the list is named in the answer, whichever place it has; without a
/// configuration nothing is said.
pub proof fn law_listed_origin_is_admitted(
    os: Seq<OriginView>,
    at: int,
    expose: bool,
    method: Seq<char>,
    origin: Seq<char>,
)
    requires
        0 <= at < os.len(),
        os[at] == OriginView::Literal(origin) || (os[at] is Regex && pattern_matches(
            os[at]->Regex_0,
            origin,
        )),
    ensures
        ({
            let r = cors_result(CorsView::Origins(os), expose, method, Some(origin));
            let own = ("Access-Control-Allow-Origin"@, origin);
            &&& same_ignoring_case(method, "OPTIONS"@) ==> (r matches CorsResultView::Preflight(h)
                && h[0] == own)
            &&& !same_ignoring_case(method, "OPTIONS"@) ==> (
            r matches CorsResultView::ResponseHeaders(h) && h[0] == own)
            &&& cors_result(CorsView::Disabled, expose, method, Some(origin))
                == CorsResultView::Disabled
        }),
{
    assert(admits(os[at], origin));
    let c = CorsView::Origins(os);
    assert(c->Origins_0 == os);
    assert(origin_allowed(c, origin));
}

} // verus!
