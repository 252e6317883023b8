//! An OAuth2 authorization server in front of the gateway: metadata, tokens, authorization
//! codes with PKCE, and dynamic registration of clients. Everything is kept in memory.

use std::time::Instant;

use vstd::prelude::*;
use vstd::string::*;
use vstd::utf8::{decode_utf8, encode_utf8, valid_utf8};

use crate::cli::OAuth2ServerConfig;
use crate::client::http::{get_header, header_value};
use crate::json::{
    document_text, json_document, json_members, json_string, object_members, object_text, quote,
    quoted, read_strings, string_list, string_value, strings_text, write_object, write_strings,
};
use crate::pairs::{
    first_value, get_value, lemma_first_value_of_distinct, map_of, push_pair, set_value, with_value,
    Pairs,
};
use crate::serve::{base64_char, base64_group, query_part, split_query_part};
use crate::store::{still_alive, Expires, Store};
use crate::system::{elapsed_ms, is_uuid, new_uuid, start_clock};
use crate::text::{
    after_prefix, chars_of, contains, decimal, decimal_text, eq_ignore_case,
    law_parts_lie_between_separators, lemma_index_of_is, piece, same, same_ignoring_case, split,
    split_text, utf8_text,
};

verus! {

/// How long an authorization code can be used, in milliseconds.
pub const CODE_EXPIRY_MS: u64 = 600_000;

// ---- Outside -------------------------------------------------------------------------

pub uninterp spec fn sha256(data: Seq<u8>) -> Seq<u8>;

/// The character for six bits in a URL.
pub open spec fn url_char(k: int) -> char {
    if k == 62 {
        '-'
    } else if k == 63 {
        '_'
    } else {
        base64_char(k)
    }
}

/// The base64 notation for URLs of the bytes from `from` on, without padding.
pub open spec fn base64_url(data: Seq<u8>, from: int) -> Seq<char>
    decreases data.len() + 3 - from,
{
    if from >= data.len() {
        seq![]
    } else {
        let n = base64_group(data, from);
        seq![url_char(n / 0x4_0000), url_char(n / 0x1000 % 64)] + (if from + 1 < data.len() {
            seq![url_char(n / 64 % 64)]
        } else {
            seq![]
        }) + (if from + 2 < data.len() {
            seq![url_char(n % 64)]
        } else {
            seq![]
        }) + base64_url(data, from + 3)
    }
}

/// `Sha256::digest`: the SHA-256 digest of the bytes, 32 bytes long.
#[verifier::external_body]
fn sha256_digest(data: &[u8]) -> (r: Vec<u8>)
    ensures
        r@ == sha256(data@),
        r@.len() == 32,
{
    <sha2::Sha256 as sha2::Digest>::digest(data).to_vec()
}

/// `Engine::encode` with `URL_SAFE_NO_PAD`: the bytes in base64 with the alphabet for URLs
/// and without padding.
#[verifier::external_body]
fn base64_url_encode(data: &[u8]) -> (r: String)
    ensures
        r@ == base64_url(data@, 0),
{
    base64::Engine::encode(&base64::engine::general_purpose::URL_SAFE_NO_PAD, data)
}

// ---- What is kept ------------------------------------------------------------------------

/// A token that was issued.
pub struct StoredToken {
    client_id: String,
    expires_at: u128,
}

#[verifier::ext_equal]
pub struct TokenView {
    pub client_id: Seq<char>,
    pub expires_at: int,
}

impl View for StoredToken {
    type V = TokenView;

    closed spec fn view(&self) -> TokenView {
        TokenView { client_id: self.client_id@, expires_at: self.expires_at as int }
    }
}

impl Expires for StoredToken {
    open spec fn alive(v: TokenView, now: u64) -> bool {
        now < v.expires_at
    }

    fn is_alive(&self, now: u64) -> (r: bool) {
        (now as u128) < self.expires_at
    }
}

/// An authorization code that waits to be exchanged for a token.
pub struct StoredAuthCode {
    client_id: String,
    redirect_uri: String,
    code_challenge: Option<String>,
    code_challenge_method: Option<String>,
    expires_at: u128,
}

#[verifier::ext_equal]
pub struct CodeView {
    pub client_id: Seq<char>,
    pub redirect_uri: Seq<char>,
    pub challenge: Option<Seq<char>>,
    pub method: Option<Seq<char>>,
    pub expires_at: int,
}

pub open spec fn option_view(s: Option<String>) -> Option<Seq<char>> {
    match s {
        Some(t) => Some(t@),
        None => None,
    }
}

impl View for StoredAuthCode {
    type V = CodeView;

    closed spec fn view(&self) -> CodeView {
        CodeView {
            client_id: self.client_id@,
            redirect_uri: self.redirect_uri@,
            challenge: option_view(self.code_challenge),
            method: option_view(self.code_challenge_method),
            expires_at: self.expires_at as int,
        }
    }
}

impl Expires for StoredAuthCode {
    open spec fn alive(v: CodeView, now: u64) -> bool {
        now < v.expires_at
    }

    fn is_alive(&self, now: u64) -> (r: bool) {
        (now as u128) < self.expires_at
    }
}

/// A client that registered itself.
pub struct RegisteredClient {
    client_secret: String,
    request: Registration,
}

#[verifier::ext_equal]
pub struct ClientView {
    pub client_secret: Seq<char>,
    pub request: RegistrationView,
}

impl View for RegisteredClient {
    type V = ClientView;

    closed spec fn view(&self) -> ClientView {
        ClientView { client_secret: self.client_secret@, request: self.request@ }
    }
}

/// What a client says of itself when it registers.
#[derive(Debug)]
pub struct Registration {
    pub redirect_uris: Vec<String>,
    pub grant_types: Vec<String>,
    pub response_types: Vec<String>,
    pub token_endpoint_auth_method: String,
}

#[verifier::ext_equal]
pub struct RegistrationView {
    pub redirect_uris: Seq<Seq<char>>,
    pub grant_types: Seq<Seq<char>>,
    pub response_types: Seq<Seq<char>>,
    pub auth_method: Seq<char>,
}

impl View for Registration {
    type V = RegistrationView;

    open spec fn view(&self) -> RegistrationView {
        RegistrationView {
            redirect_uris: self.redirect_uris.deep_view(),
            grant_types: self.grant_types.deep_view(),
            response_types: self.response_types.deep_view(),
            auth_method: self.token_endpoint_auth_method@,
        }
    }
}

// ---- Answers -----------------------------------------------------------------------------

/// An answer of the authorization server.
#[derive(Debug)]
pub struct OAuth2Response {
    pub status: u16,
    pub headers: Vec<(String, String)>,
    pub body: Vec<u8>,
}

#[verifier::ext_equal]
pub struct ResponseView {
    pub status: u16,
    pub headers: Pairs,
    pub body: Seq<u8>,
}

impl View for OAuth2Response {
    type V = ResponseView;

    open spec fn view(&self) -> ResponseView {
        ResponseView {
            status: self.status,
            headers: self.headers.deep_view(),
            body: self.body@,
        }
    }
}

/// Why a request is not let through.
#[derive(Debug)]
pub enum OAuth2Error {
    Unauthorized(String),
}

/// What is to be done with a request.
#[derive(Debug)]
pub enum OAuth2Result {
    /// It was for the authorization server: this is the answer.
    EndpointResponse(OAuth2Response),
    /// It is for the gateway: let it through, or refuse it.
    Passthrough(Result<(), OAuth2Error>),
}

pub enum ResultView {
    Answer(ResponseView),
    /// Let through, or refused for the reason given.
    Pass(Option<Seq<char>>),
}

impl View for OAuth2Result {
    type V = ResultView;

    open spec fn view(&self) -> ResultView {
        match self {
            OAuth2Result::EndpointResponse(r) => ResultView::Answer(r@),
            OAuth2Result::Passthrough(Ok(_)) => ResultView::Pass(None),
            OAuth2Result::Passthrough(Err(OAuth2Error::Unauthorized(d))) => ResultView::Pass(
                Some(d@),
            ),
        }
    }
}

pub open spec fn json_response(status: u16, text: Seq<char>) -> ResponseView {
    ResponseView {
        status,
        headers: seq![
            ("content-type"@, "application/json"@),
            ("cache-control"@, "no-store"@),
        ],
        body: encode_utf8(text),
    }
}

pub open spec fn error_text(error: Seq<char>, description: Seq<char>) -> Seq<char> {
    object_text(seq![("error"@, quoted(error)), ("error_description"@, quoted(description))])
}

pub open spec fn error_response(
    status: u16,
    error: Seq<char>,
    description: Seq<char>,
) -> ResponseView {
    json_response(status, error_text(error, description))
}

pub open spec fn redirect_response(location: Seq<char>) -> ResponseView {
    ResponseView { status: 302, headers: seq![("location"@, location)], body: seq![] }
}

pub open spec fn refusal(description: Seq<char>) -> ResponseView {
    ResponseView {
        status: 401,
        headers: seq![
            ("content-type"@, "application/json"@),
            ("cache-control"@, "no-store"@),
            (
                "www-authenticate"@,
                "Bearer error=\"invalid_token\", error_description=\""@ + description + "\""@,
            ),
        ],
        body: encode_utf8(error_text("invalid_token"@, description)),
    }
}

fn bytes_of(text: &str) -> (r: Vec<u8>)
    ensures
        r@ == encode_utf8(text@),
{
    let mut out: Vec<u8> = Vec::new();
    out.extend_from_slice(text.as_bytes());
    assert(out@ =~= encode_utf8(text@));
    out
}

impl OAuth2Response {
    fn json(status: u16, text: &str) -> (r: OAuth2Response)
        ensures
            r@ == json_response(status, text@),
    {
        let mut headers: Vec<(String, String)> = Vec::new();
        push_pair(&mut headers, "content-type", "application/json".to_owned());
        push_pair(&mut headers, "cache-control", "no-store".to_owned());
        let r = OAuth2Response { status, headers, body: bytes_of(text) };
        assert(r@ =~= json_response(status, text@));
        r
    }

    fn redirect(location: &str) -> (r: OAuth2Response)
        ensures
            r@ == redirect_response(location@),
    {
        let mut headers: Vec<(String, String)> = Vec::new();
        push_pair(&mut headers, "location", location.to_owned());
        let r = OAuth2Response { status: 302, headers, body: Vec::new() };
        assert(r@ =~= redirect_response(location@));
        r
    }

    fn error_body(error: &str, description: &str) -> (r: String)
        ensures
            r@ == error_text(error@, description@),
    {
        let mut ms: Vec<(String, String)> = Vec::new();
        push_pair(&mut ms, "error", quote(error));
        push_pair(&mut ms, "error_description", quote(description));
        assert(ms.deep_view() =~= seq![
            ("error"@, quoted(error@)),
            ("error_description"@, quoted(description@)),
        ]);
        write_object(&ms)
    }

    fn error(status: u16, error: &str, description: &str) -> (r: OAuth2Response)
        ensures
            r@ == error_response(status, error@, description@),
    {
        let body = OAuth2Response::error_body(error, description);
        OAuth2Response::json(status, body.as_str())
    }

    fn unauthorized(description: &str) -> (r: OAuth2Response)
        ensures
            r@ == refusal(description@),
    {
        let mut headers: Vec<(String, String)> = Vec::new();
        push_pair(&mut headers, "content-type", "application/json".to_owned());
        push_pair(&mut headers, "cache-control", "no-store".to_owned());
        let challenge = "Bearer error=\"invalid_token\", error_description=\"".to_owned().concat(
            description,
        ).concat("\"");
        push_pair(&mut headers, "www-authenticate", challenge);
        let body = OAuth2Response::error_body("invalid_token", description);
        let r = OAuth2Response { status: 401, headers, body: bytes_of(body.as_str()) };
        assert(r@ =~= refusal(description@));
        r
    }
}

/// The answer to a request that is not let through.
pub fn unauthorized_response(err: &OAuth2Error) -> (r: OAuth2Response)
    ensures
        match err {
            OAuth2Error::Unauthorized(d) => r@ == refusal(d@),
        },
{
    match err {
        OAuth2Error::Unauthorized(d) => OAuth2Response::unauthorized(d.as_str()),
    }
}

// ---- Forms -----------------------------------------------------------------------------------

/// The value of a hexadecimal digit.
pub open spec fn hex_value(c: char) -> Option<int> {
    if '0' <= c <= '9' {
        Some(c as int - 48)
    } else if 'a' <= c <= 'f' {
        Some(c as int - 87)
    } else if 'A' <= c <= 'F' {
        Some(c as int - 55)
    } else {
        None
    }
}

/// The byte that two characters note: two hexadecimal digits, or a plus sign and one.
pub open spec fn hex_byte(a: char, b: char) -> Option<int> {
    match hex_value(b) {
        None => None,
        Some(y) => if a == '+' {
            Some(y)
        } else {
            match hex_value(a) {
                Some(x) => Some(16 * x + y),
                None => None,
            }
        },
    }
}

/// A text with plus signs as spaces and `%xx` as the character with that number, from
/// `from` on. A percent sign that no number follows stands for itself, and so do the up to
/// two characters after it.
pub open spec fn decoded(s: Seq<char>, from: int) -> Seq<char>
    decreases s.len() + 2 - from,
{
    if from >= s.len() {
        seq![]
    } else if s[from] == '+' {
        seq![' '] + decoded(s, from + 1)
    } else if s[from] == '%' {
        if from + 2 < s.len() {
            (match hex_byte(s[from + 1], s[from + 2]) {
                Some(b) => seq![b as char],
                None => seq!['%', s[from + 1], s[from + 2]],
            }) + decoded(s, from + 3)
        } else {
            s.skip(from)
        }
    } else {
        seq![s[from]] + decoded(s, from + 1)
    }
}

fn hex_digit(c: char) -> (r: Option<u8>)
    ensures
        match hex_value(c) {
            Some(v) => r == Some(v as u8) && 0 <= v < 16,
            None => r is None,
        },
{
    if c >= '0' && c <= '9' {
        Some(c as u8 - 48)
    } else if c >= 'a' && c <= 'f' {
        Some(c as u8 - 87)
    } else if c >= 'A' && c <= 'F' {
        Some(c as u8 - 55)
    } else {
        None
    }
}

fn hex_pair(a: char, b: char) -> (r: Option<u8>)
    ensures
        match hex_byte(a, b) {
            Some(v) => r == Some(v as u8) && 0 <= v < 256,
            None => r is None,
        },
{
    match hex_digit(b) {
        None => None,
        Some(y) => if a == '+' {
            Some(y)
        } else {
            match hex_digit(a) {
                Some(x) => Some(16 * x + y),
                None => None,
            }
        },
    }
}

/// Decodes the percent notation of forms.
pub fn percent_decode(input: &str) -> (r: String)
    ensures
        r@ == decoded(input@, 0),
{
    let v = chars_of(input);
    let mut out = String::new();
    let mut i: usize = 0;
    assert(out@ + decoded(v@, 0) =~= decoded(v@, 0));
    while i < v.len()
        invariant
            i <= v.len(),
            v@ == input@,
            out@ + decoded(v@, i as int) == decoded(v@, 0),
        decreases v.len() - i,
    {
        let c = v[i];
        let ghost before = out@;
        if c == '+' {
            out.push(' ');
            assert(out@ + decoded(v@, i + 1) =~= before + decoded(v@, i as int));
            i += 1;
        } else if c == '%' {
            if v.len() - i <= 2 {
                let rest = piece(&v, i, v.len());
                assert(rest@ =~= v@.skip(i as int));
                out.append(rest.as_str());
                return out;
            }
            match hex_pair(v[i + 1], v[i + 2]) {
                Some(b) => {
                    out.push(b as char);
                },
                None => {
                    out.push('%');
                    out.push(v[i + 1]);
                    out.push(v[i + 2]);
                },
            }
            assert(out@ + decoded(v@, i + 3) =~= before + decoded(v@, i as int));
            i += 3;
        } else {
            out.push(c);
            assert(out@ + decoded(v@, i + 1) =~= before + decoded(v@, i as int));
            i += 1;
        }
    }
    assert(out@ =~= out@ + decoded(v@, i as int));
    out
}

/// The name and the value of a piece of a form.
pub open spec fn form_pair(part: Seq<char>) -> (Seq<char>, Seq<char>) {
    let (k, v) = query_part(part);
    (
        decoded(k, 0),
        decoded(
            match v {
                Some(x) => x,
                None => seq![],
            },
            0,
        ),
    )
}

/// The pairs of the pieces from `from` on, after those in `ps`. Pieces without a name do
/// not count; where a name occurs again, its last value counts.
pub open spec fn form_pairs(parts: Seq<Seq<char>>, from: int, ps: Pairs) -> Pairs
    decreases parts.len() - from,
{
    if from >= parts.len() {
        ps
    } else if parts[from].len() == 0 || form_pair(parts[from]).0.len() == 0 {
        form_pairs(parts, from + 1, ps)
    } else {
        let (k, v) = form_pair(parts[from]);
        form_pairs(parts, from + 1, with_value(ps, k, v))
    }
}

/// What a form holds.
pub open spec fn form_of(body: Seq<char>) -> Pairs {
    form_pairs(split(body, '&'), 0, seq![])
}

/// Reads a form.
pub fn parse_form_urlencoded(body: &str) -> (r: Vec<(String, String)>)
    ensures
        r.deep_view() == form_of(body@),
{
    let parts = split_text(body, '&');
    let ghost d = parts.deep_view();
    let mut out: Vec<(String, String)> = Vec::new();
    assert(out.deep_view() =~= seq![]);
    let mut i: usize = 0;
    while i < parts.len()
        invariant
            i <= parts.len(),
            d == parts.deep_view(),
            form_pairs(d, 0, seq![]) == form_pairs(d, i as int, out.deep_view()),
        decreases parts.len() - i,
    {
        if !parts[i].as_str().is_empty() {
            let (k, v) = split_query_part(parts[i].as_str());
            let key = percent_decode(k.as_str());
            let value = match v {
                Some(x) => percent_decode(x.as_str()),
                None => percent_decode(String::new().as_str()),
            };
            if !key.as_str().is_empty() {
                set_value(&mut out, key, value);
            }
        }
        i += 1;
    }
    out
}

// ---- The server ----------------------------------------------------------------------------

#[verifier::ext_equal]
pub struct ConfigView {
    pub client_id: Seq<char>,
    pub client_secret: Seq<char>,
    pub token_expiry_secs: u64,
    pub issuer: Option<Seq<char>>,
}

pub open spec fn config_view(c: OAuth2ServerConfig) -> ConfigView {
    ConfigView {
        client_id: c.client_id@,
        client_secret: c.client_secret@,
        token_expiry_secs: c.token_expiry_secs,
        issuer: option_view(c.issuer),
    }
}

/// What the server knows.
#[verifier::ext_equal]
pub struct AuthView {
    pub config: ConfigView,
    pub tokens: Map<Seq<char>, TokenView>,
    pub codes: Map<Seq<char>, CodeView>,
    pub clients: Map<Seq<char>, ClientView>,
}

/// Whether a client has shown its secret.
pub open spec fn is_client(s: AuthView, id: Seq<char>, secret: Seq<char>) -> bool {
    ||| id == s.config.client_id && secret == s.config.client_secret
    ||| s.clients.dom().contains(id) && s.clients[id].client_secret == secret
}

/// The value of a parameter, empty where it is missing.
pub open spec fn value_or_empty(ps: Pairs, name: Seq<char>) -> Seq<char> {
    match first_value(ps, name) {
        Some(v) => v,
        None => ""@,
    }
}

/// Issues a token: tokens that have expired are forgotten, the new one is kept.
pub open spec fn issued(s: AuthView, client: Seq<char>, now: u64, token: Seq<char>) -> (
    AuthView,
    ResponseView,
) {
    (
        AuthView {
            tokens: still_alive::<StoredToken>(s.tokens, now).insert(
                token,
                TokenView {
                    client_id: client,
                    expires_at: now + s.config.token_expiry_secs * 1000,
                },
            ),
            ..s
        },
        json_response(
            200,
            object_text(
                seq![
                    ("access_token"@, quoted(token)),
                    ("expires_in"@, decimal(s.config.token_expiry_secs as nat)),
                    ("scope"@, quoted("mcp"@)),
                    ("token_type"@, quoted("Bearer"@)),
                ],
            ),
        ),
    )
}

/// The grant by credentials.
pub open spec fn by_credentials(s: AuthView, ps: Pairs, now: u64, token: Seq<char>) -> (
    AuthView,
    ResponseView,
) {
    let id = value_or_empty(ps, "client_id"@);
    if is_client(s, id, value_or_empty(ps, "client_secret"@)) {
        issued(s, id, now, token)
    } else {
        (s, error_response(401, "invalid_client"@, "invalid client credentials"@))
    }
}

/// What keeps an authorization code from being exchanged. `computed` is what the verifier
/// in the request comes to.
pub open spec fn code_problem(
    code: CodeView,
    ps: Pairs,
    client: Seq<char>,
    now: u64,
    computed: Seq<char>,
) -> Option<(Seq<char>, Seq<char>)> {
    if now > code.expires_at {
        Some(("invalid_grant"@, "authorization code expired"@))
    } else if code.client_id != client {
        Some(("invalid_grant"@, "client_id mismatch"@))
    } else if first_value(ps, "redirect_uri"@) is Some && first_value(ps, "redirect_uri"@)->0
        != code.redirect_uri {
        Some(("invalid_grant"@, "redirect_uri mismatch"@))
    } else if code.challenge is None {
        None
    } else if first_value(ps, "code_verifier"@) is None {
        Some(("invalid_grant"@, "missing code_verifier (PKCE required)"@))
    } else if code.method is Some && code.method->0 != "S256"@ {
        Some(("invalid_request"@, "only S256 code_challenge_method is supported"@))
    } else if computed != code.challenge->0 {
        Some(("invalid_grant"@, "PKCE verification failed"@))
    } else {
        None
    }
}

/// The grant by authorization code. A client that has shown its secret uses the code up,
/// whatever comes of it.
pub open spec fn by_code(
    s: AuthView,
    ps: Pairs,
    now: u64,
    token: Seq<char>,
    computed: Seq<char>,
) -> (AuthView, ResponseView) {
    let id = value_or_empty(ps, "client_id"@);
    match first_value(ps, "code"@) {
        None => (s, error_response(400, "invalid_request"@, "missing code"@)),
        Some(code) => if !is_client(s, id, value_or_empty(ps, "client_secret"@)) {
            (s, error_response(401, "invalid_client"@, "invalid client credentials"@))
        } else if !s.codes.dom().contains(code) {
            (
                s,
                error_response(400, "invalid_grant"@, "invalid or expired authorization code"@),
            )
        } else {
            let used = AuthView { codes: s.codes.remove(code), ..s };
            match code_problem(s.codes[code], ps, id, now, computed) {
                Some((e, d)) => (used, error_response(400, e, d)),
                None => issued(used, id, now, token),
            }
        },
    }
}

/// What a PKCE verifier comes to.
pub open spec fn challenge_of(verifier: Seq<char>) -> Seq<char> {
    base64_url(sha256(encode_utf8(verifier)), 0)
}

/// The token endpoint.
pub open spec fn token_answer(s: AuthView, body: Seq<u8>, now: u64, token: Seq<char>) -> (
    AuthView,
    ResponseView,
) {
    if !valid_utf8(body) {
        (s, error_response(400, "invalid_request"@, "invalid UTF-8 body"@))
    } else {
        let ps = form_of(decode_utf8(body));
        match first_value(ps, "grant_type"@) {
            None => (s, error_response(400, "invalid_request"@, "missing grant_type"@)),
            Some(g) => if g == "client_credentials"@ {
                by_credentials(s, ps, now, token)
            } else if g == "authorization_code"@ {
                by_code(s, ps, now, token, challenge_of(value_or_empty(ps, "code_verifier"@)))
            } else {
                (
                    s,
                    error_response(400, "unsupported_grant_type"@, "unsupported grant_type"@),
                )
            },
        }
    }
}

/// What is wrong with a request for an authorization code.
pub open spec fn authorize_problem(s: AuthView, q: Pairs) -> Option<(Seq<char>, Seq<char>)> {
    if first_value(q, "client_id"@) is None {
        Some(("invalid_request"@, "missing client_id"@))
    } else if first_value(q, "redirect_uri"@) is None {
        Some(("invalid_request"@, "missing redirect_uri"@))
    } else if value_or_empty(q, "response_type"@) != "code"@ {
        Some(("unsupported_response_type"@, "only 'code' is supported"@))
    } else if first_value(q, "client_id"@)->0 != s.config.client_id && !s.clients.dom().contains(
        first_value(q, "client_id"@)->0,
    ) {
        Some(("invalid_request"@, "unknown client_id"@))
    } else if first_value(q, "code_challenge"@) is Some && first_value(q, "code_challenge_method"@)
        != Some("S256"@) {
        Some(("invalid_request"@, "only S256 code_challenge_method is supported"@))
    } else {
        None
    }
}

/// Where the browser is sent with its code.
pub open spec fn code_location(q: Pairs, code: Seq<char>) -> Seq<char> {
    let uri = first_value(q, "redirect_uri"@)->0;
    uri + (if uri.contains('?') {
        "&"@
    } else {
        "?"@
    }) + "code="@ + code + (match first_value(q, "state"@) {
        Some(state) => "&state="@ + state,
        None => seq![],
    })
}

/// The authorization endpoint. Codes that have expired are forgotten, the new one is kept.
pub open spec fn authorize_answer(s: AuthView, q: Pairs, now: u64, code: Seq<char>) -> (
    AuthView,
    ResponseView,
) {
    match authorize_problem(s, q) {
        Some((e, d)) => (s, error_response(400, e, d)),
        None => (
            AuthView {
                codes: still_alive::<StoredAuthCode>(s.codes, now).insert(
                    code,
                    CodeView {
                        client_id: first_value(q, "client_id"@)->0,
                        redirect_uri: first_value(q, "redirect_uri"@)->0,
                        challenge: first_value(q, "code_challenge"@),
                        method: first_value(q, "code_challenge_method"@),
                        expires_at: now + CODE_EXPIRY_MS,
                    },
                ),
                ..s
            },
            redirect_response(code_location(q, code)),
        ),
    }
}

/// A registered client is kept, and told its id and secret.
pub open spec fn registered(
    s: AuthView,
    r: RegistrationView,
    id: Seq<char>,
    secret: Seq<char>,
) -> (AuthView, ResponseView) {
    if r.redirect_uris.len() == 0 {
        (
            s,
            error_response(
                400,
                "invalid_client_metadata"@,
                "redirect_uris is required and must not be empty"@,
            ),
        )
    } else {
        (
            AuthView {
                clients: s.clients.insert(id, ClientView { client_secret: secret, request: r }),
                ..s
            },
            json_response(
                201,
                object_text(
                    seq![
                        ("client_id"@, quoted(id)),
                        ("client_secret"@, quoted(secret)),
                        ("grant_types"@, strings_text(r.grant_types)),
                        ("redirect_uris"@, strings_text(r.redirect_uris)),
                        ("response_types"@, strings_text(r.response_types)),
                        ("token_endpoint_auth_method"@, quoted(r.auth_method)),
                    ],
                ),
            ),
        )
    }
}

/// The strings under a name in a JSON object, where that is an array.
pub open spec fn listed(m: Map<Seq<char>, Seq<char>>, name: Seq<char>) -> Option<Seq<Seq<char>>> {
    if m.dom().contains(name) {
        string_list(m[name])
    } else {
        None
    }
}

/// What the members of a JSON object say of a client. What is missing, or of another kind,
/// has its usual value.
pub open spec fn registration_of(m: Map<Seq<char>, Seq<char>>) -> RegistrationView {
    RegistrationView {
        redirect_uris: match listed(m, "redirect_uris"@) {
            Some(l) => l,
            None => seq![],
        },
        grant_types: match listed(m, "grant_types"@) {
            Some(l) => l,
            None => seq!["authorization_code"@],
        },
        response_types: match listed(m, "response_types"@) {
            Some(l) => l,
            None => seq!["code"@],
        },
        auth_method: if m.dom().contains("token_endpoint_auth_method"@) && json_string(
            m["token_endpoint_auth_method"@],
        ) is Some {
            json_string(m["token_endpoint_auth_method"@])->0
        } else {
            "client_secret_post"@
        },
    }
}

/// The members of a JSON document; none where it is no object.
pub open spec fn members_or_none(text: Seq<char>) -> Map<Seq<char>, Seq<char>> {
    match json_members(text) {
        Ok(m) => m,
        Err(_) => Map::empty(),
    }
}

/// The registration endpoint.
pub open spec fn register_answer(
    s: AuthView,
    body: Seq<u8>,
    id: Seq<char>,
    secret: Seq<char>,
) -> (AuthView, ResponseView) {
    if !valid_utf8(body) {
        (s, error_response(400, "invalid_request"@, "invalid UTF-8 body"@))
    } else {
        match json_document(decode_utf8(body)) {
            Some(text) => registered(s, registration_of(members_or_none(text)), id, secret),
            None => (s, error_response(400, "invalid_request"@, "invalid JSON body"@)),
        }
    }
}

/// The token that a header carries.
pub open spec fn bearer_token(header: Seq<char>) -> Option<Seq<char>> {
    if "Bearer "@.is_prefix_of(header) {
        Some(header.skip("Bearer "@.len() as int))
    } else if "bearer "@.is_prefix_of(header) {
        Some(header.skip("bearer "@.len() as int))
    } else {
        None
    }
}

/// Why a request to the gateway is refused; nothing where it is let through.
pub open spec fn bearer_problem(s: AuthView, headers: Pairs, now: u64) -> Option<Seq<char>> {
    match header_value(headers, "authorization"@) {
        None => Some("missing Authorization header"@),
        Some(h) => match bearer_token(h) {
            None => Some("Authorization header must use Bearer scheme"@),
            Some(t) => if !s.tokens.dom().contains(t) {
                Some("invalid token"@)
            } else if now < s.tokens[t].expires_at {
                None
            } else {
                Some("token expired"@)
            },
        },
    }
}

/// The URL of this server: as configured, or as the request sees it.
pub open spec fn issuer_of(c: ConfigView, headers: Pairs) -> Seq<char> {
    match c.issuer {
        Some(i) => i,
        None => (match header_value(headers, "x-forwarded-proto"@) {
            Some(p) => p,
            None => "http"@,
        }) + "://"@ + (match header_value(headers, "host"@) {
            Some(h) => h,
            None => "localhost"@,
        }),
    }
}

pub open spec fn metadata_text(issuer: Seq<char>) -> Seq<char> {
    object_text(
        seq![
            ("authorization_endpoint"@, quoted(issuer + "/authorize"@)),
            ("code_challenge_methods_supported"@, strings_text(seq!["S256"@])),
            (
                "grant_types_supported"@,
                strings_text(seq!["authorization_code"@, "client_credentials"@]),
            ),
            ("issuer"@, quoted(issuer)),
            ("registration_endpoint"@, quoted(issuer + "/register"@)),
            ("response_types_supported"@, strings_text(seq!["code"@])),
            ("scopes_supported"@, strings_text(seq!["mcp"@])),
            ("token_endpoint"@, quoted(issuer + "/token"@)),
            (
                "token_endpoint_auth_methods_supported"@,
                strings_text(seq!["client_secret_post"@]),
            ),
        ],
    )
}

/// A request as the server sees it.
pub struct AuthRequest {
    pub method: Seq<char>,
    pub path: Seq<char>,
    pub headers: Pairs,
    pub body: Seq<u8>,
    pub query: Pairs,
}

pub open spec fn answered(r: (AuthView, ResponseView)) -> (AuthView, ResultView) {
    (r.0, ResultView::Answer(r.1))
}

/// What becomes of a request at the time `now`, with `a` and `b` as fresh names.
pub open spec fn handled(s: AuthView, r: AuthRequest, now: u64, a: Seq<char>, b: Seq<char>) -> (
    AuthView,
    ResultView,
) {
    if r.path == "/.well-known/oauth-authorization-server"@ && same_ignoring_case(
        r.method,
        "GET"@,
    ) {
        (
            s,
            ResultView::Answer(json_response(200, metadata_text(issuer_of(s.config, r.headers)))),
        )
    } else if r.path == "/token"@ && same_ignoring_case(r.method, "POST"@) {
        answered(token_answer(s, r.body, now, a))
    } else if r.path == "/authorize"@ && same_ignoring_case(r.method, "GET"@) {
        answered(authorize_answer(s, r.query, now, a))
    } else if r.path == "/register"@ && same_ignoring_case(r.method, "POST"@) {
        answered(register_answer(s, r.body, a, b))
    } else {
        (s, ResultView::Pass(bearer_problem(s, r.headers, now)))
    }
}

/// The authorization server.
pub struct OAuth2Handler {
    config: OAuth2ServerConfig,
    started: Instant,
    tokens: Store<StoredToken>,
    auth_codes: Store<StoredAuthCode>,
    registered_clients: Store<RegisteredClient>,
}

impl View for OAuth2Handler {
    type V = AuthView;

    closed spec fn view(&self) -> AuthView {
        AuthView {
            config: config_view(self.config),
            tokens: self.tokens@,
            codes: self.auth_codes@,
            clients: self.registered_clients@,
        }
    }
}

fn param<'a>(ps: &'a Vec<(String, String)>, name: &str) -> (r: &'a str)
    ensures
        r@ == value_or_empty(ps.deep_view(), name@),
{
    match get_value(ps, name) {
        Some(s) => s,
        None => "",
    }
}

fn param_option(ps: &Vec<(String, String)>, name: &str) -> (r: Option<String>)
    ensures
        option_view(r) == first_value(ps.deep_view(), name@),
{
    match get_value(ps, name) {
        Some(s) => Some(s.to_owned()),
        None => None,
    }
}

/// Whether the verifier is the one that the challenge was made of.
pub fn verify_pkce_s256(code_verifier: &str, code_challenge: &str) -> (r: bool)
    ensures
        r == (challenge_of(code_verifier@) == code_challenge@),
{
    let c = pkce_challenge(code_verifier);
    same(c.as_str(), code_challenge)
}

fn pkce_challenge(verifier: &str) -> (r: String)
    ensures
        r@ == challenge_of(verifier@),
{
    let digest = sha256_digest(verifier.as_bytes());
    base64_url_encode(digest.as_slice())
}

fn one_string(s: &str) -> (r: Vec<String>)
    ensures
        r.deep_view() == seq![s@],
{
    let mut v: Vec<String> = Vec::new();
    v.push(s.to_owned());
    assert(v.deep_view() =~= seq![s@]);
    v
}

fn list_member(v: &Vec<(String, String)>, name: &str) -> (r: Option<Vec<String>>)
    requires
        crate::pairs::distinct(v.deep_view()),
    ensures
        match listed(map_of(v.deep_view()), name@) {
            Some(l) => r matches Some(x) && x.deep_view() == l,
            None => r is None,
        },
{
    proof {
        lemma_first_value_of_distinct(v.deep_view(), name@);
    }
    match get_value(v, name) {
        Some(s) => read_strings(s),
        None => None,
    }
}

/// Reads what a client says of itself in a JSON document.
fn parse_registration(text: &str) -> (r: Registration)
    ensures
        r@ == registration_of(members_or_none(text@)),
{
    let v = match object_members(text) {
        Ok(v) => v,
        Err(_) => Vec::new(),
    };
    let ghost m = members_or_none(text@);
    proof {
        if json_members(text@) is Err {
            assert(v.deep_view() =~= seq![]);
            assert(map_of(v.deep_view()) =~= Map::<Seq<char>, Seq<char>>::empty());
        }
        lemma_first_value_of_distinct(v.deep_view(), "token_endpoint_auth_method"@);
    }
    let redirect_uris = match list_member(&v, "redirect_uris") {
        Some(l) => l,
        None => Vec::new(),
    };
    assert(listed(m, "redirect_uris"@) is None ==> redirect_uris.deep_view() =~= seq![]);
    let grant_types = match list_member(&v, "grant_types") {
        Some(l) => l,
        None => one_string("authorization_code"),
    };
    let response_types = match list_member(&v, "response_types") {
        Some(l) => l,
        None => one_string("code"),
    };
    let token_endpoint_auth_method = match get_value(&v, "token_endpoint_auth_method") {
        Some(s) => match string_value(s) {
            Some(t) => t,
            None => "client_secret_post".to_owned(),
        },
        None => "client_secret_post".to_owned(),
    };
    Registration { redirect_uris, grant_types, response_types, token_endpoint_auth_method }
}

impl OAuth2Handler {
    /// When the clock that codes and tokens are timed by was started.
    pub closed spec fn clock(&self) -> Instant {
        self.started
    }

    /// A server that has issued nothing yet.
    pub fn new(config: OAuth2ServerConfig) -> (r: OAuth2Handler)
        ensures
            r@ == (AuthView {
                config: config_view(config),
                tokens: Map::empty(),
                codes: Map::empty(),
                clients: Map::empty(),
            }),
    {
        OAuth2Handler {
            config,
            started: start_clock(),
            tokens: Store::new(),
            auth_codes: Store::new(),
            registered_clients: Store::new(),
        }
    }

    /// Handles a request now. The names it may hand out are random.
    pub fn process(
        &mut self,
        method: &str,
        path: &str,
        headers: &Vec<(String, String)>,
        body: &[u8],
        query: &Vec<(String, String)>,
    ) -> (r: OAuth2Result)
        ensures
            final(self).clock() == old(self).clock(),
            exists|now: u64, a: Seq<char>, b: Seq<char>|
                is_uuid(a) && is_uuid(b) && #[trigger] handled(
                    old(self)@,
                    AuthRequest {
                        method: method@,
                        path: path@,
                        headers: headers.deep_view(),
                        body: body@,
                        query: query.deep_view(),
                    },
                    now,
                    a,
                    b,
                ) == (final(self)@, r@),
    {
        let now = elapsed_ms(&self.started);
        let a = new_uuid();
        let b = new_uuid();
        self.process_at(method, path, headers, body, query, now, a, b)
    }

    /// Handles a request at a given time, with given fresh names.
    pub fn process_at(
        &mut self,
        method: &str,
        path: &str,
        headers: &Vec<(String, String)>,
        body: &[u8],
        query: &Vec<(String, String)>,
        now: u64,
        a: String,
        b: String,
    ) -> (r: OAuth2Result)
        ensures
            final(self).clock() == old(self).clock(),
            (final(self)@, r@) == handled(
                old(self)@,
                AuthRequest {
                    method: method@,
                    path: path@,
                    headers: headers.deep_view(),
                    body: body@,
                    query: query.deep_view(),
                },
                now,
                a@,
                b@,
            ),
    {
        if same(path, "/.well-known/oauth-authorization-server") && eq_ignore_case(method, "GET") {
            return OAuth2Result::EndpointResponse(self.handle_metadata(headers));
        }
        if same(path, "/token") && eq_ignore_case(method, "POST") {
            return OAuth2Result::EndpointResponse(self.handle_token(body, now, a));
        }
        if same(path, "/authorize") && eq_ignore_case(method, "GET") {
            return OAuth2Result::EndpointResponse(self.handle_authorize(query, now, a));
        }
        if same(path, "/register") && eq_ignore_case(method, "POST") {
            return OAuth2Result::EndpointResponse(self.handle_register(body, a, b));
        }
        OAuth2Result::Passthrough(self.validate_bearer(headers, now))
    }

    fn handle_metadata(&self, headers: &Vec<(String, String)>) -> (r: OAuth2Response)
        ensures
            r@ == json_response(
                200,
                metadata_text(issuer_of(self@.config, headers.deep_view())),
            ),
    {
        let issuer = self.resolve_issuer(headers);
        let i = issuer.as_str();
        let mut grants: Vec<String> = Vec::new();
        grants.push("authorization_code".to_owned());
        grants.push("client_credentials".to_owned());
        assert(grants.deep_view() =~= seq!["authorization_code"@, "client_credentials"@]);
        let mut ms: Vec<(String, String)> = Vec::new();
        push_pair(
            &mut ms,
            "authorization_endpoint",
            quote(i.to_owned().concat("/authorize").as_str()),
        );
        push_pair(
            &mut ms,
            "code_challenge_methods_supported",
            write_strings(&one_string("S256")),
        );
        push_pair(&mut ms, "grant_types_supported", write_strings(&grants));
        push_pair(&mut ms, "issuer", quote(i));
        push_pair(
            &mut ms,
            "registration_endpoint",
            quote(i.to_owned().concat("/register").as_str()),
        );
        push_pair(&mut ms, "response_types_supported", write_strings(&one_string("code")));
        push_pair(&mut ms, "scopes_supported", write_strings(&one_string("mcp")));
        push_pair(&mut ms, "token_endpoint", quote(i.to_owned().concat("/token").as_str()));
        push_pair(
            &mut ms,
            "token_endpoint_auth_methods_supported",
            write_strings(&one_string("client_secret_post")),
        );
        let text = write_object(&ms);
        assert(ms.deep_view() =~= seq![
            ("authorization_endpoint"@, quoted(issuer@ + "/authorize"@)),
            ("code_challenge_methods_supported"@, strings_text(seq!["S256"@])),
            (
                "grant_types_supported"@,
                strings_text(seq!["authorization_code"@, "client_credentials"@]),
            ),
            ("issuer"@, quoted(issuer@)),
            ("registration_endpoint"@, quoted(issuer@ + "/register"@)),
            ("response_types_supported"@, strings_text(seq!["code"@])),
            ("scopes_supported"@, strings_text(seq!["mcp"@])),
            ("token_endpoint"@, quoted(issuer@ + "/token"@)),
            (
                "token_endpoint_auth_methods_supported"@,
                strings_text(seq!["client_secret_post"@]),
            ),
        ]);
        OAuth2Response::json(200, text.as_str())
    }

    fn handle_token(&mut self, body: &[u8], now: u64, token: String) -> (r: OAuth2Response)
        ensures
            final(self).clock() == old(self).clock(),
            (final(self)@, r@) == token_answer(old(self)@, body@, now, token@),
    {
        let mut bytes: Vec<u8> = Vec::new();
        bytes.extend_from_slice(body);
        assert(bytes@ =~= body@);
        let text = match utf8_text(bytes) {
            Some(t) => t,
            None => return OAuth2Response::error(400, "invalid_request", "invalid UTF-8 body"),
        };
        let params = parse_form_urlencoded(text.as_str());
        match get_value(&params, "grant_type") {
            None => OAuth2Response::error(400, "invalid_request", "missing grant_type"),
            Some(g) => if same(g, "client_credentials") {
                self.handle_client_credentials(&params, now, token)
            } else if same(g, "authorization_code") {
                self.handle_authorization_code(&params, now, token)
            } else {
                OAuth2Response::error(400, "unsupported_grant_type", "unsupported grant_type")
            },
        }
    }

    fn handle_client_credentials(
        &mut self,
        params: &Vec<(String, String)>,
        now: u64,
        token: String,
    ) -> (r: OAuth2Response)
        ensures
            final(self).clock() == old(self).clock(),
            (final(self)@, r@) == by_credentials(old(self)@, params.deep_view(), now, token@),
    {
        let id = param(params, "client_id");
        let secret = param(params, "client_secret");
        if !self.verify_client(id, secret) {
            return OAuth2Response::error(401, "invalid_client", "invalid client credentials");
        }
        self.issue_token(id, now, token)
    }

    fn handle_authorization_code(
        &mut self,
        params: &Vec<(String, String)>,
        now: u64,
        token: String,
    ) -> (r: OAuth2Response)
        ensures
            final(self).clock() == old(self).clock(),
            (final(self)@, r@) == by_code(
                old(self)@,
                params.deep_view(),
                now,
                token@,
                challenge_of(value_or_empty(params.deep_view(), "code_verifier"@)),
            ),
    {
        let computed = pkce_challenge(param(params, "code_verifier"));
        self.redeem_code(params, now, token, computed.as_str())
    }

    /// Exchanges an authorization code for a token. `computed` is what the verifier in the
    /// request comes to.
    pub fn redeem_code(
        &mut self,
        params: &Vec<(String, String)>,
        now: u64,
        token: String,
        computed: &str,
    ) -> (r: OAuth2Response)
        ensures
            final(self).clock() == old(self).clock(),
            (final(self)@, r@) == by_code(
                old(self)@,
                params.deep_view(),
                now,
                token@,
                computed@,
            ),
    {
        let ghost ps = params.deep_view();
        let code = match get_value(params, "code") {
            Some(c) => c,
            None => return OAuth2Response::error(400, "invalid_request", "missing code"),
        };
        let id = param(params, "client_id");
        let secret = param(params, "client_secret");
        if !self.verify_client(id, secret) {
            return OAuth2Response::error(401, "invalid_client", "invalid client credentials");
        }
        let ghost before = self@;
        let stored = match self.auth_codes.remove(code) {
            Some(s) => s,
            None => {
                assert(before.codes.remove(code@) =~= before.codes);
                return OAuth2Response::error(
                    400,
                    "invalid_grant",
                    "invalid or expired authorization code",
                );
            },
        };
        let ghost c = stored@;
        if now as u128 > stored.expires_at {
            return OAuth2Response::error(400, "invalid_grant", "authorization code expired");
        }
        if !same(stored.client_id.as_str(), id) {
            return OAuth2Response::error(400, "invalid_grant", "client_id mismatch");
        }
        if let Some(uri) = get_value(params, "redirect_uri") {
            if !same(uri, stored.redirect_uri.as_str()) {
                return OAuth2Response::error(400, "invalid_grant", "redirect_uri mismatch");
            }
        }
        if let Some(challenge) = &stored.code_challenge {
            if get_value(params, "code_verifier").is_none() {
                return OAuth2Response::error(
                    400,
                    "invalid_grant",
                    "missing code_verifier (PKCE required)",
                );
            }
            let other_method = match &stored.code_challenge_method {
                Some(m) => !same(m.as_str(), "S256"),
                None => false,
            };
            if other_method {
                return OAuth2Response::error(
                    400,
                    "invalid_request",
                    "only S256 code_challenge_method is supported",
                );
            }
            if !same(computed, challenge.as_str()) {
                return OAuth2Response::error(400, "invalid_grant", "PKCE verification failed");
            }
        }
        self.issue_token(id, now, token)
    }

    fn handle_authorize(&mut self, query: &Vec<(String, String)>, now: u64, code: String) -> (r:
        OAuth2Response)
        ensures
            final(self).clock() == old(self).clock(),
            (final(self)@, r@) == authorize_answer(old(self)@, query.deep_view(), now, code@),
    {
        let ghost q = query.deep_view();
        let client_id = match get_value(query, "client_id") {
            Some(c) => c,
            None => return OAuth2Response::error(400, "invalid_request", "missing client_id"),
        };
        let redirect_uri = match get_value(query, "redirect_uri") {
            Some(u) => u,
            None => return OAuth2Response::error(400, "invalid_request", "missing redirect_uri"),
        };
        if !same(param(query, "response_type"), "code") {
            return OAuth2Response::error(
                400,
                "unsupported_response_type",
                "only 'code' is supported",
            );
        }
        if !same(client_id, self.config.client_id.as_str()) && !self.registered_clients.contains(
            client_id,
        ) {
            return OAuth2Response::error(400, "invalid_request", "unknown client_id");
        }
        let code_challenge = param_option(query, "code_challenge");
        let code_challenge_method = param_option(query, "code_challenge_method");
        if code_challenge.is_some() {
            let s256 = match &code_challenge_method {
                Some(m) => same(m.as_str(), "S256"),
                None => false,
            };
            if !s256 {
                return OAuth2Response::error(
                    400,
                    "invalid_request",
                    "only S256 code_challenge_method is supported",
                );
            }
        }
        let v = chars_of(redirect_uri);
        let at: usize = crate::text::find_char(&v, '?', 0);
        let separator = if at < v.len() {
            assert(redirect_uri@[at as int] == '?');
            "&"
        } else {
            "?"
        };
        let mut location = redirect_uri.to_owned().concat(separator).concat("code=").concat(
            code.as_str(),
        );
        if let Some(state) = get_value(query, "state") {
            location = location.concat("&state=").concat(state);
        }
        assert(location@ =~= code_location(q, code@));
        self.auth_codes.retain_alive(now);
        self.auth_codes.insert(
            code,
            StoredAuthCode {
                client_id: client_id.to_owned(),
                redirect_uri: redirect_uri.to_owned(),
                code_challenge,
                code_challenge_method,
                expires_at: now as u128 + CODE_EXPIRY_MS as u128,
            },
        );
        OAuth2Response::redirect(location.as_str())
    }

    fn handle_register(&mut self, body: &[u8], id: String, secret: String) -> (r: OAuth2Response)
        ensures
            final(self).clock() == old(self).clock(),
            (final(self)@, r@) == register_answer(old(self)@, body@, id@, secret@),
    {
        let mut bytes: Vec<u8> = Vec::new();
        bytes.extend_from_slice(body);
        assert(bytes@ =~= body@);
        let text = match utf8_text(bytes) {
            Some(t) => t,
            None => return OAuth2Response::error(400, "invalid_request", "invalid UTF-8 body"),
        };
        match document_text(text.as_str()) {
            Some(document) => {
                let request = parse_registration(document.as_str());
                self.register(request, id, secret)
            },
            None => OAuth2Response::error(400, "invalid_request", "invalid JSON body"),
        }
    }

    /// Registers a client under the given id and secret.
    pub fn register(&mut self, request: Registration, id: String, secret: String) -> (r:
        OAuth2Response)
        ensures
            final(self).clock() == old(self).clock(),
            (final(self)@, r@) == registered(old(self)@, request@, id@, secret@),
    {
        if request.redirect_uris.len() == 0 {
            return OAuth2Response::error(
                400,
                "invalid_client_metadata",
                "redirect_uris is required and must not be empty",
            );
        }
        let ghost q = request@;
        let mut ms: Vec<(String, String)> = Vec::new();
        push_pair(&mut ms, "client_id", quote(id.as_str()));
        push_pair(&mut ms, "client_secret", quote(secret.as_str()));
        push_pair(&mut ms, "grant_types", write_strings(&request.grant_types));
        push_pair(&mut ms, "redirect_uris", write_strings(&request.redirect_uris));
        push_pair(&mut ms, "response_types", write_strings(&request.response_types));
        push_pair(
            &mut ms,
            "token_endpoint_auth_method",
            quote(request.token_endpoint_auth_method.as_str()),
        );
        let text = write_object(&ms);
        assert(ms.deep_view() =~= seq![
            ("client_id"@, quoted(id@)),
            ("client_secret"@, quoted(secret@)),
            ("grant_types"@, strings_text(q.grant_types)),
            ("redirect_uris"@, strings_text(q.redirect_uris)),
            ("response_types"@, strings_text(q.response_types)),
            ("token_endpoint_auth_method"@, quoted(q.auth_method)),
        ]);
        self.registered_clients.insert(id, RegisteredClient { client_secret: secret, request });
        OAuth2Response::json(201, text.as_str())
    }

    fn validate_bearer(&self, headers: &Vec<(String, String)>, now: u64) -> (r: Result<
        (),
        OAuth2Error,
    >)
        ensures
            match bearer_problem(self@, headers.deep_view(), now) {
                None => r is Ok,
                Some(d) => r matches Err(OAuth2Error::Unauthorized(e)) && e@ == d,
            },
    {
        let header = match get_header(headers, "authorization") {
            Some(h) => h,
            None => return Err(
                OAuth2Error::Unauthorized("missing Authorization header".to_owned()),
            ),
        };
        let token = match after_prefix(header, "Bearer ") {
            Some(t) => t,
            None => match after_prefix(header, "bearer ") {
                Some(t) => t,
                None => return Err(
                    OAuth2Error::Unauthorized(
                        "Authorization header must use Bearer scheme".to_owned(),
                    ),
                ),
            },
        };
        match self.tokens.get(token.as_str()) {
            Some(stored) => if stored.is_alive(now) {
                Ok(())
            } else {
                Err(OAuth2Error::Unauthorized("token expired".to_owned()))
            },
            None => Err(OAuth2Error::Unauthorized("invalid token".to_owned())),
        }
    }

    fn verify_client(&self, client_id: &str, client_secret: &str) -> (r: bool)
        ensures
            r == is_client(self@, client_id@, client_secret@),
    {
        if same(client_id, self.config.client_id.as_str()) && same(
            client_secret,
            self.config.client_secret.as_str(),
        ) {
            return true;
        }
        match self.registered_clients.get(client_id) {
            Some(c) => same(c.client_secret.as_str(), client_secret),
            None => false,
        }
    }

    fn issue_token(&mut self, client_id: &str, now: u64, token: String) -> (r: OAuth2Response)
        ensures
            final(self).clock() == old(self).clock(),
            (final(self)@, r@) == issued(old(self)@, client_id@, now, token@),
    {
        let secs = self.config.token_expiry_secs;
        let mut ms: Vec<(String, String)> = Vec::new();
        push_pair(&mut ms, "access_token", quote(token.as_str()));
        push_pair(&mut ms, "expires_in", decimal_text(secs));
        push_pair(&mut ms, "scope", quote("mcp"));
        push_pair(&mut ms, "token_type", quote("Bearer"));
        let text = write_object(&ms);
        assert(ms.deep_view() =~= seq![
            ("access_token"@, quoted(token@)),
            ("expires_in"@, decimal(secs as nat)),
            ("scope"@, quoted("mcp"@)),
            ("token_type"@, quoted("Bearer"@)),
        ]);
        self.tokens.retain_alive(now);
        self.tokens.insert(
            token,
            StoredToken {
                client_id: client_id.to_owned(),
                expires_at: now as u128 + secs as u128 * 1000,
            },
        );
        OAuth2Response::json(200, text.as_str())
    }

    fn resolve_issuer(&self, headers: &Vec<(String, String)>) -> (r: String)
        ensures
            r@ == issuer_of(self@.config, headers.deep_view()),
    {
        if let Some(issuer) = &self.config.issuer {
            return issuer.clone();
        }
        let proto = match get_header(headers, "x-forwarded-proto") {
            Some(p) => p,
            None => "http",
        };
        let host = match get_header(headers, "host") {
            Some(h) => h,
            None => "localhost",
        };
        proto.to_owned().concat("://").concat(host)
    }
}

// ---- Laws --------------------------------------------------------------------------------

/// An authorization code can be used once: after an exchange by a client that has shown its
/// secret, whatever came of it, every further exchange is refused.
pub proof fn law_code_is_used_once(
    s: AuthView,
    ps: Pairs,
    now: u64,
    token: Seq<char>,
    computed: Seq<char>,
    again: Pairs,
    later: u64,
    other_token: Seq<char>,
    other_computed: Seq<char>,
)
    requires
        first_value(ps, "code"@) is Some,
        is_client(s, value_or_empty(ps, "client_id"@), value_or_empty(ps, "client_secret"@)),
        first_value(again, "code"@) == first_value(ps, "code"@),
    ensures
        ({
            let after = by_code(s, ps, now, token, computed).0;
            let second = by_code(after, again, later, other_token, other_computed);
            &&& second.0 == after
            &&& second.1.status == 400 || second.1.status == 401
        }),
{
}

/// A token that was issued lets requests through until it expires, and not after.
pub proof fn law_token_works_until_it_expires(
    s: AuthView,
    client: Seq<char>,
    now: u64,
    token: Seq<char>,
    headers: Pairs,
    later: u64,
)
    requires
        header_value(headers, "authorization"@) == Some("Bearer "@ + token),
    ensures
        ({
            let after = issued(s, client, now, token).0;
            &&& later < now + s.config.token_expiry_secs * 1000 ==> bearer_problem(
                after,
                headers,
                later,
            ) is None
            &&& later >= now + s.config.token_expiry_secs * 1000 ==> bearer_problem(
                after,
                headers,
                later,
            ) == Some("token expired"@)
        }),
{
    let h = "Bearer "@ + token;
    assert(h.subrange(0, "Bearer "@.len() as int) =~= "Bearer "@);
    assert(h.skip("Bearer "@.len() as int) =~= token);
}

/// A token that is not kept lets nothing through.
pub proof fn law_unknown_token_is_refused(s: AuthView, headers: Pairs, now: u64)
    requires
        header_value(headers, "authorization"@) matches Some(h) ==> (bearer_token(h) matches Some(t)
            ==> !s.tokens.dom().contains(t)),
    ensures
        bearer_problem(s, headers, now) is Some,
{
}

/// A client that registered can show the secret it was given.
pub proof fn law_registered_client_is_known(
    s: AuthView,
    r: RegistrationView,
    id: Seq<char>,
    secret: Seq<char>,
)
    requires
        r.redirect_uris.len() > 0,
    ensures
        is_client(registered(s, r, id, secret).0, id, secret),
        registered(s, r, id, secret).1.status == 201,
{
}

/// A code that was handed out with a challenge is not exchanged for a verifier that comes to
/// something else, nor without one.
pub proof fn law_challenge_must_be_met(
    s: AuthView,
    ps: Pairs,
    now: u64,
    token: Seq<char>,
    computed: Seq<char>,
)
    requires
        first_value(ps, "code"@) is Some,
        s.codes.dom().contains(first_value(ps, "code"@)->0),
        s.codes[first_value(ps, "code"@)->0].challenge is Some,
        first_value(ps, "code_verifier"@) is None || computed != s.codes[first_value(
            ps,
            "code"@,
        )->0].challenge->0,
    ensures
        by_code(s, ps, now, token, computed).0.tokens == s.tokens,
        by_code(s, ps, now, token, computed).1.status != 200,
{
}

/// Only the token endpoint issues tokens: no other request changes them.
pub proof fn law_tokens_come_from_the_token_endpoint(
    s: AuthView,
    r: AuthRequest,
    now: u64,
    a: Seq<char>,
    b: Seq<char>,
)
    requires
        r.path != "/token"@ || !same_ignoring_case(r.method, "POST"@),
    ensures
        handled(s, r, now, a, b).0.tokens == s.tokens,
{
}

// ---- From a code to its use --------------------------------------------------------------

/// A request with the time at which it is handled and the fresh names that it is given.
pub struct CallView {
    pub request: AuthRequest,
    pub now: u64,
    pub a: Seq<char>,
    pub b: Seq<char>,
}

/// The server after some requests.
pub open spec fn handled_in_turn(s: AuthView, calls: Seq<CallView>) -> AuthView
    decreases calls.len(),
{
    if calls.len() == 0 {
        s
    } else {
        let c = calls.last();
        handled(handled_in_turn(s, calls.drop_last()), c.request, c.now, c.a, c.b).0
    }
}

/// Whether a request asks for a code and gets one.
pub open spec fn grants_code(s: AuthView, r: AuthRequest) -> bool {
    r.path == "/authorize"@ && same_ignoring_case(r.method, "GET"@) && authorize_problem(s, r.query)
        is None
}

/// The form that a request carries.
pub open spec fn form_in(r: AuthRequest) -> Pairs {
    form_of(decode_utf8(r.body))
}

/// Whether a request gives the code for a token.
pub open spec fn gives_code(r: AuthRequest, code: Seq<char>) -> bool {
    &&& r.path == "/token"@
    &&& same_ignoring_case(r.method, "POST"@)
    &&& valid_utf8(r.body)
    &&& first_value(form_in(r), "grant_type"@) == Some("authorization_code"@)
    &&& first_value(form_in(r), "code"@) == Some(code)
}

/// Whether the client that sends a request has shown its secret.
pub open spec fn is_verified(s: AuthView, r: AuthRequest) -> bool {
    is_client(
        s,
        value_or_empty(form_in(r), "client_id"@),
        value_or_empty(form_in(r), "client_secret"@),
    )
}

/// Whether one of the requests has used the code up: a client that had shown its secret gave
/// it, whatever came of it.
pub open spec fn used_up(s: AuthView, calls: Seq<CallView>, code: Seq<char>) -> bool
    decreases calls.len(),
{
    calls.len() > 0 && {
        let before = handled_in_turn(s, calls.drop_last());
        ||| used_up(s, calls.drop_last(), code)
        ||| gives_code(calls.last().request, code) && is_verified(before, calls.last().request)
    }
}

/// Whether one of the requests, at the time or later, was granted a code: what has expired
/// by then is forgotten over it.
pub open spec fn swept(s: AuthView, calls: Seq<CallView>, time: int) -> bool
    decreases calls.len(),
{
    calls.len() > 0 && {
        let before = handled_in_turn(s, calls.drop_last());
        ||| swept(s, calls.drop_last(), time)
        ||| calls.last().now >= time && grants_code(before, calls.last().request)
    }
}

/// Whether a request meets what the code was asked for with: its client, its redirect where
/// it names one, and its challenge where there is one.
pub open spec fn meets(asked: Pairs, r: AuthRequest) -> bool {
    let form = form_in(r);
    &&& value_or_empty(form, "client_id"@) == first_value(asked, "client_id"@)->0
    &&& first_value(form, "redirect_uri"@) is None || first_value(form, "redirect_uri"@)
        == first_value(asked, "redirect_uri"@)
    &&& first_value(asked, "code_challenge"@) is None || (first_value(form, "code_verifier"@)
        is Some && challenge_of(first_value(form, "code_verifier"@)->0) == first_value(
        asked,
        "code_challenge"@,
    )->0)
}

/// The names of the endpoints differ.
proof fn lemma_endpoints()
    ensures
        "/token"@ != "/.well-known/oauth-authorization-server"@,
        "/authorize"@ != "/.well-known/oauth-authorization-server"@,
        "/authorize"@ != "/token"@,
        "authorization_code"@ != "client_credentials"@,
{
    reveal_strlit("/token");
    reveal_strlit("/authorize");
    reveal_strlit("/.well-known/oauth-authorization-server");
    reveal_strlit("authorization_code");
    reveal_strlit("client_credentials");
    assert("/token"@[1] == 't' && "/authorize"@[1] == 'a');
    assert("/.well-known/oauth-authorization-server"@[1] == '.');
    assert("authorization_code"@[0] == 'a' && "client_credentials"@[0] == 'c');
}

/// What becomes of a code while other requests are handled.
proof fn lemma_code_is_kept(s: AuthView, calls: Seq<CallView>, code: Seq<char>)
    requires
        s.codes.dom().contains(code),
        forall|i: int| 0 <= i < calls.len() ==> (#[trigger] calls[i]).a != code,
    ensures
        ({
            let t = handled_in_turn(s, calls);
            &&& t.codes.dom().contains(code) ==> t.codes[code] == s.codes[code]
            &&& used_up(s, calls, code) ==> !t.codes.dom().contains(code)
            &&& !used_up(s, calls, code) && !swept(s, calls, s.codes[code].expires_at as int)
                ==> t.codes.dom().contains(code)
        }),
    decreases calls.len(),
{
    if calls.len() > 0 {
        let rest = calls.drop_last();
        let last = calls.last();
        assert forall|i: int| 0 <= i < rest.len() implies (#[trigger] rest[i]).a != code by {
            assert(rest[i] == calls[i]);
        }
        lemma_code_is_kept(s, rest, code);
        lemma_endpoints();
        let t = handled_in_turn(s, rest);
        let u = handled(t, last.request, last.now, last.a, last.b).0;
        assert(calls[calls.len() - 1].a != code);
        if last.request.path == "/token"@ && same_ignoring_case(last.request.method, "POST"@) {
            let form = form_in(last.request);
            assert(gives_code(last.request, code) && is_verified(t, last.request)
                ==> !u.codes.dom().contains(code));
        }
    }
}

/// What an authorization code gets, from its issue to its use, whatever is asked of the
/// server in between: a token, exactly where the client shows its secret and meets what the
/// code was asked for with, the code has not expired, and nobody has used it up. Every use by
/// a client that shows its secret uses it up. Fresh names do not repeat, and time does not go
/// back. Left out is a use in the very millisecond of the expiry, after another request was
/// granted a code in that millisecond: the code is forgotten by then.
pub proof fn law_code_gets_a_token(
    s: AuthView,
    issue: CallView,
    calls: Seq<CallView>,
    r: CallView,
)
    requires
        grants_code(s, issue.request),
        forall|i: int|
            0 <= i < calls.len() ==> (#[trigger] calls[i]).a != issue.a && calls[i].now <= r.now,
        gives_code(r.request, issue.a),
        r.now == issue.now + CODE_EXPIRY_MS ==> !swept(
            handled(s, issue.request, issue.now, issue.a, issue.b).0,
            calls,
            r.now as int,
        ),
    ensures
        ({
            let issued = handled(s, issue.request, issue.now, issue.a, issue.b).0;
            let t = handled_in_turn(issued, calls);
            let (u, answer) = handled(t, r.request, r.now, r.a, r.b);
            &&& answer is Answer
            &&& answer->Answer_0.status == 200 <==> is_verified(t, r.request) && meets(
                issue.request.query,
                r.request,
            ) && r.now <= issue.now + CODE_EXPIRY_MS && !used_up(issued, calls, issue.a)
            &&& is_verified(t, r.request) ==> !u.codes.dom().contains(issue.a)
        }),
{
    lemma_endpoints();
    let issued = handled(s, issue.request, issue.now, issue.a, issue.b).0;
    let expires = issue.now + CODE_EXPIRY_MS;
    assert(issued.codes[issue.a].expires_at == expires);
    lemma_code_is_kept(issued, calls, issue.a);
    if r.now < expires {
        lemma_not_swept(issued, calls, r.now, expires);
    }
}

/// Nothing is forgotten before its time.
proof fn lemma_not_swept(s: AuthView, calls: Seq<CallView>, latest: u64, time: int)
    requires
        forall|i: int| 0 <= i < calls.len() ==> (#[trigger] calls[i]).now <= latest,
        latest < time,
    ensures
        !swept(s, calls, time),
    decreases calls.len(),
{
    if calls.len() > 0 {
        let rest = calls.drop_last();
        assert forall|i: int| 0 <= i < rest.len() implies (#[trigger] rest[i]).now <= latest by {
            assert(rest[i] == calls[i]);
        }
        lemma_not_swept(s, rest, latest, time);
        assert(calls[calls.len() - 1].now <= latest);
    }
}

/// Who knows the name and the secret of a client gets a token: the answer holds it, it is noted
/// for that client until its time is over, and nothing else changes but that tokens whose time
/// is over are forgotten. Nobody else gets one.
pub proof fn law_client_gets_a_token(
    s: AuthView,
    r: AuthRequest,
    now: u64,
    a: Seq<char>,
    b: Seq<char>,
    id: Seq<char>,
    secret: Seq<char>,
)
    requires
        r.path == "/token"@,
        same_ignoring_case(r.method, "POST"@),
        valid_utf8(r.body),
        first_value(form_of(decode_utf8(r.body)), "grant_type"@) == Some("client_credentials"@),
        first_value(form_of(decode_utf8(r.body)), "client_id"@) == Some(id),
        first_value(form_of(decode_utf8(r.body)), "client_secret"@) == Some(secret),
    ensures
        ({
            let (after, answer) = handled(s, r, now, a, b);
            let known = (id == s.config.client_id && secret == s.config.client_secret) || (
            s.clients.contains_key(id) && s.clients[id].client_secret == secret);
            let text = object_text(
                seq![
                    ("access_token"@, quoted(a)),
                    ("expires_in"@, decimal(s.config.token_expiry_secs as nat)),
                    ("scope"@, quoted("mcp"@)),
                    ("token_type"@, quoted("Bearer"@)),
                ],
            );
            &&& after.config == s.config && after.codes == s.codes && after.clients == s.clients
            &&& !known ==> after.tokens == s.tokens && (answer matches ResultView::Answer(x)
                && x.status == 401)
            &&& known ==> (answer matches ResultView::Answer(x) && x.status == 200 && x.body
                == encode_utf8(text))
            &&& known ==> after.tokens.contains_key(a) && after.tokens[a].client_id == id
                && after.tokens[a].expires_at == now + s.config.token_expiry_secs * 1000
            &&& known ==> forall|t: Seq<char>|
                t != a ==> (#[trigger] after.tokens.contains_key(t) <==> s.tokens.contains_key(t)
                    && now < s.tokens[t].expires_at) && (after.tokens.contains_key(t)
                    ==> after.tokens[t] == s.tokens[t])
        }),
{
    reveal_strlit("client_credentials");
    let x = token_answer(s, r.body, now, a);
    lemma_paths_differ();
    assert(handled(s, r, now, a, b) == answered(x));
}

proof fn lemma_paths_differ()
    ensures
        "/token"@ != "/.well-known/oauth-authorization-server"@,
        "/authorize"@ != "/.well-known/oauth-authorization-server"@,
        "/register"@ != "/.well-known/oauth-authorization-server"@,
        "/token"@ != "/authorize"@,
        "/token"@ != "/register"@,
        "/authorize"@ != "/register"@,
        "client_credentials"@ != "authorization_code"@,
{
    reveal_strlit("/token");
    reveal_strlit("/authorize");
    reveal_strlit("/register");
    reveal_strlit("/.well-known/oauth-authorization-server");
    reveal_strlit("client_credentials");
    reveal_strlit("authorization_code");
    assert("/token"@.len() == 6 && "/authorize"@.len() == 10 && "/register"@.len() == 9);
    assert("/.well-known/oauth-authorization-server"@.len() == 39);
    assert("client_credentials"@[0] == 'c' && "authorization_code"@[0] == 'a');
}

/// A code that was given out buys a token where all agrees: its time is not over, it was given
/// to that client, the place to return to is the same where one is named, and the secret
/// behind its challenge is shown. Otherwise it buys none. Either way it is gone.
pub proof fn law_code_buys_a_token(
    s: AuthView,
    ps: Pairs,
    now: u64,
    token: Seq<char>,
    computed: Seq<char>,
    code: Seq<char>,
    id: Seq<char>,
    secret: Seq<char>,
)
    requires
        first_value(ps, "code"@) == Some(code),
        first_value(ps, "client_id"@) == Some(id),
        first_value(ps, "client_secret"@) == Some(secret),
        (id == s.config.client_id && secret == s.config.client_secret) || (s.clients.contains_key(id)
            && s.clients[id].client_secret == secret),
        s.codes.contains_key(code),
    ensures
        ({
            let (after, answer) = by_code(s, ps, now, token, computed);
            let c = s.codes[code];
            let agrees = {
                &&& now <= c.expires_at
                &&& c.client_id == id
                &&& first_value(ps, "redirect_uri"@) is None || first_value(ps, "redirect_uri"@)
                    == Some(c.redirect_uri)
                &&& c.challenge is Some ==> first_value(ps, "code_verifier"@) is Some && (
                c.method is None || c.method == Some("S256"@)) && c.challenge == Some(computed)
            };
            &&& after.codes == s.codes.remove(code)
            &&& after.config == s.config && after.clients == s.clients
            &&& agrees ==> answer.status == 200 && after.tokens.contains_key(token)
                && after.tokens[token].client_id == id && after.tokens[token].expires_at == now
                + s.config.token_expiry_secs * 1000
            &&& !agrees ==> answer.status == 400 && after.tokens == s.tokens
        }),
{
}

/// A challenge is met by the text whose digest, written in the alphabet for URLs, it is.
pub proof fn law_challenge_is_the_digest(s: AuthView, body: Seq<u8>, now: u64, token: Seq<char>)
    requires
        valid_utf8(body),
        first_value(form_of(decode_utf8(body)), "grant_type"@) == Some("authorization_code"@),
        first_value(form_of(decode_utf8(body)), "code_verifier"@) is Some,
    ensures
        token_answer(s, body, now, token) == by_code(
            s,
            form_of(decode_utf8(body)),
            now,
            token,
            base64_url(
                sha256(
                    encode_utf8(first_value(form_of(decode_utf8(body)), "code_verifier"@)->Some_0),
                ),
                0,
            ),
        ),
{
    lemma_paths_differ();
}

/// A code is given to a client that is known, and names where to return to and asks for one;
/// it holds what was asked, for ten minutes, and the browser is sent back with it and with
/// the state.
pub proof fn law_code_is_given(
    s: AuthView,
    r: AuthRequest,
    now: u64,
    a: Seq<char>,
    b: Seq<char>,
    id: Seq<char>,
    uri: Seq<char>,
)
    requires
        r.path == "/authorize"@,
        same_ignoring_case(r.method, "GET"@),
        first_value(r.query, "client_id"@) == Some(id),
        first_value(r.query, "redirect_uri"@) == Some(uri),
        first_value(r.query, "response_type"@) == Some("code"@),
        id == s.config.client_id || s.clients.contains_key(id),
        first_value(r.query, "code_challenge"@) is Some ==> first_value(
            r.query,
            "code_challenge_method"@,
        ) == Some("S256"@),
    ensures
        ({
            let (after, answer) = handled(s, r, now, a, b);
            let back = uri + (if uri.contains('?') {
                "&"@
            } else {
                "?"@
            }) + "code="@ + a;
            &&& after.config == s.config && after.tokens == s.tokens && after.clients == s.clients
            &&& after.codes.contains_key(a)
            &&& after.codes[a].client_id == id
            &&& after.codes[a].redirect_uri == uri
            &&& after.codes[a].challenge == first_value(r.query, "code_challenge"@)
            &&& after.codes[a].method == first_value(r.query, "code_challenge_method"@)
            &&& after.codes[a].expires_at == now + 600_000
            &&& forall|c: Seq<char>|
                c != a ==> (#[trigger] after.codes.contains_key(c) <==> s.codes.contains_key(c)
                    && now < s.codes[c].expires_at) && (after.codes.contains_key(c)
                    ==> after.codes[c] == s.codes[c])
            &&& answer matches ResultView::Answer(x) && x.status == 302 && x.headers == seq![
                (
                    "location"@,
                    match first_value(r.query, "state"@) {
                        Some(state) => back + ("&state="@ + state),
                        None => back,
                    },
                ),
            ]
        }),
{
    lemma_paths_differ();
    let (after, answer) = authorize_answer(s, r.query, now, a);
    assert(handled(s, r, now, a, b) == answered((after, answer)));
    let back = uri + (if uri.contains('?') {
        "&"@
    } else {
        "?"@
    }) + "code="@ + a;
    match first_value(r.query, "state"@) {
        Some(state) => {
            assert(code_location(r.query, a) =~= back + ("&state="@ + state));
        },
        None => {
            assert(code_location(r.query, a) =~= back);
        },
    }
}

/// A request for a code that lacks something is refused and changes nothing.
pub proof fn law_bad_authorization_is_refused(
    s: AuthView,
    r: AuthRequest,
    now: u64,
    a: Seq<char>,
    b: Seq<char>,
)
    requires
        r.path == "/authorize"@,
        same_ignoring_case(r.method, "GET"@),
        first_value(r.query, "client_id"@) is None || first_value(r.query, "redirect_uri"@) is None
            || first_value(r.query, "response_type"@) is None || first_value(
            r.query,
            "response_type"@,
        )->Some_0 != "code"@ || (first_value(r.query, "client_id"@)->Some_0 != s.config.client_id
            && !s.clients.contains_key(first_value(r.query, "client_id"@)->Some_0)) || (first_value(
            r.query,
            "code_challenge"@,
        ) is Some && first_value(r.query, "code_challenge_method"@) != Some("S256"@)),
    ensures
        handled(s, r, now, a, b).0 == s,
        handled(s, r, now, a, b).1 matches ResultView::Answer(x) && x.status == 400,
{
    lemma_paths_differ();
    reveal_strlit("");
    reveal_strlit("code");
    assert("code"@.len() == 4 && ""@.len() == 0);
}

/// A client that says where to return to is registered under its new name and secret, and is
/// told both; the others stay as they are. One that does not is refused.
pub proof fn law_client_is_registered(
    s: AuthView,
    q: RegistrationView,
    id: Seq<char>,
    secret: Seq<char>,
    other: Seq<char>,
)
    ensures
        ({
            let (after, answer) = registered(s, q, id, secret);
            &&& after.config == s.config && after.tokens == s.tokens && after.codes == s.codes
            &&& q.redirect_uris.len() == 0 ==> after == s && answer.status == 400
            &&& q.redirect_uris.len() > 0 ==> {
                &&& answer.status == 201
                &&& after.clients.contains_key(id)
                &&& after.clients[id].client_secret == secret
                &&& after.clients[id].request == q
                &&& other != id ==> (after.clients.contains_key(other) <==> s.clients.contains_key(
                    other,
                )) && after.clients[other] == s.clients[other]
                &&& answer.body == encode_utf8(
                    object_text(
                        seq![
                            ("client_id"@, quoted(id)),
                            ("client_secret"@, quoted(secret)),
                            ("grant_types"@, strings_text(q.grant_types)),
                            ("redirect_uris"@, strings_text(q.redirect_uris)),
                            ("response_types"@, strings_text(q.response_types)),
                            ("token_endpoint_auth_method"@, quoted(q.auth_method)),
                        ],
                    ),
                )
            }
        }),
{
}

/// What a registration does not say is the usual: a code is asked for, and the secret is sent
/// in the form.
pub proof fn law_registration_has_defaults(m: Map<Seq<char>, Seq<char>>)
    ensures
        ({
            let q = registration_of(m);
            let uris = "redirect_uris"@;
            let grants = "grant_types"@;
            let kinds = "response_types"@;
            let way = "token_endpoint_auth_method"@;
            &&& m.contains_key(uris) && string_list(m[uris]) is Some ==> q.redirect_uris
                == string_list(m[uris])->Some_0
            &&& !m.contains_key(uris) ==> q.redirect_uris.len() == 0
            &&& m.contains_key(grants) && string_list(m[grants]) is Some ==> q.grant_types
                == string_list(m[grants])->Some_0
            &&& !m.contains_key(grants) ==> q.grant_types == seq!["authorization_code"@]
            &&& m.contains_key(kinds) && string_list(m[kinds]) is Some ==> q.response_types
                == string_list(m[kinds])->Some_0
            &&& !m.contains_key(kinds) ==> q.response_types == seq!["code"@]
            &&& m.contains_key(way) && json_string(m[way]) is Some ==> q.auth_method == json_string(
                m[way],
            )->Some_0
            &&& !m.contains_key(way) ==> q.auth_method == "client_secret_post"@
        }),
{
}

/// A request for the gateway passes with a token whose time is not over and with no other, and
/// looking at it changes nothing.
pub proof fn law_token_lets_through(
    s: AuthView,
    r: AuthRequest,
    now: u64,
    a: Seq<char>,
    b: Seq<char>,
    token: Seq<char>,
)
    requires
        r.path != "/token"@,
        r.path != "/authorize"@,
        r.path != "/register"@,
        r.path != "/.well-known/oauth-authorization-server"@,
    ensures
        handled(s, r, now, a, b).0 == s,
        header_value(r.headers, "authorization"@) is None ==> handled(s, r, now, a, b).1
            == ResultView::Pass(Some("missing Authorization header"@)),
        header_value(r.headers, "authorization"@) == Some("Bearer "@ + token) || header_value(
            r.headers,
            "authorization"@,
        ) == Some("bearer "@ + token) ==> handled(s, r, now, a, b).1 == ResultView::Pass(
            if !s.tokens.contains_key(token) {
                Some("invalid token"@)
            } else if now < s.tokens[token].expires_at {
                None
            } else {
                Some("token expired"@)
            },
        ),
{
    reveal_strlit("Bearer ");
    reveal_strlit("bearer ");
    let upper = "Bearer "@ + token;
    let lower = "bearer "@ + token;
    assert(upper.subrange(0, 7) =~= "Bearer "@);
    assert(upper.skip(7) =~= token);
    assert(lower.subrange(0, 7) =~= "bearer "@);
    assert(lower.skip(7) =~= token);
    assert(lower[0] == 'b');
    assert(!"Bearer "@.is_prefix_of(lower)) by {
        if "Bearer "@.is_prefix_of(lower) {
            assert(lower.subrange(0, 7)[0] == 'B');
        }
    }
}

/// A request that is refused is told so with 401, the reason and the scheme to use.
pub proof fn law_refusal_names_the_scheme(description: Seq<char>)
    ensures
        refusal(description).status == 401,
        refusal(description).headers.contains(
            (
                "www-authenticate"@,
                "Bearer error=\"invalid_token\", error_description=\""@ + description + "\""@,
            ),
        ),
        refusal(description).body == encode_utf8(
            object_text(
                seq![
                    ("error"@, quoted("invalid_token"@)),
                    ("error_description"@, quoted(description)),
                ],
            ),
        ),
{
    let h = refusal(description).headers;
    assert(h[2] == (
        "www-authenticate"@,
        "Bearer error=\"invalid_token\", error_description=\""@ + description + "\""@,
    ));
}

/// The server is known under the name it was given, or else under the host and the scheme that
/// the request came to.
pub proof fn law_server_is_named(c: ConfigView, headers: Pairs, host: Seq<char>, proto: Seq<char>)
    ensures
        c.issuer is Some ==> issuer_of(c, headers) == c.issuer->Some_0,
        c.issuer is None && header_value(headers, "host"@) == Some(host) && header_value(
            headers,
            "x-forwarded-proto"@,
        ) is None ==> issuer_of(c, headers) == "http"@ + "://"@ + host,
        c.issuer is None && header_value(headers, "host"@) == Some(host) && header_value(
            headers,
            "x-forwarded-proto"@,
        ) == Some(proto) ==> issuer_of(c, headers) == proto + "://"@ + host,
{
}

/// A plus sign is a space, a percent sign and two hexadecimal digits are the character of that
/// number, and any other character stands for itself.
pub proof fn law_escapes_are_read(c: char, high: char, x: int, low: char, y: int, rest: Seq<char>)
    requires
        c != '+',
        c != '%',
        (0 <= x < 10 && high as int == 48 + x) || (10 <= x < 16 && (high as int == 87 + x
            || high as int == 55 + x)),
        (0 <= y < 10 && low as int == 48 + y) || (10 <= y < 16 && (low as int == 87 + y
            || low as int == 55 + y)),
    ensures
        decoded(Seq::empty(), 0) == Seq::<char>::empty(),
        decoded(seq![c] + rest, 0) == seq![c] + decoded(rest, 0),
        decoded(seq!['+'] + rest, 0) == seq![' '] + decoded(rest, 0),
        decoded(seq!['%', high, low] + rest, 0) == seq![(16 * x + y) as char] + decoded(rest, 0),
{
    lemma_decoded_behind(seq![c], rest, 0);
    lemma_decoded_behind(seq!['+'], rest, 0);
    lemma_decoded_behind(seq!['%', high, low], rest, 0);
    let t = seq!['%', high, low] + rest;
    assert(t[0] == '%' && t[1] == high && t[2] == low);
    assert((seq![c] + rest)[0] == c);
    assert((seq!['+'] + rest)[0] == '+');
    assert(hex_value(high) == Some(x) && hex_value(low) == Some(y));
}

proof fn lemma_decoded_behind(p: Seq<char>, s: Seq<char>, from: int)
    requires
        0 <= from <= s.len() + 2,
    ensures
        decoded(p + s, p.len() + from) == decoded(s, from),
    decreases s.len() + 2 - from,
{
    let t = p + s;
    let n = p.len() as int;
    if from < s.len() {
        assert(t[n + from] == s[from]);
        if s[from] == '%' {
            if from + 2 < s.len() {
                assert(t[n + from + 1] == s[from + 1] && t[n + from + 2] == s[from + 2]);
                lemma_decoded_behind(p, s, from + 3);
            } else {
                assert(t.skip(n + from) =~= s.skip(from));
            }
        } else {
            lemma_decoded_behind(p, s, from + 1);
        }
    }
}

/// A field of a form is a name and a value, both without their escapes, and the last of a name
/// counts.
pub proof fn law_form_fields_are_read(name: Seq<char>, value: Seq<char>, rest: Seq<char>, ps: Pairs)
    requires
        name.len() > 0,
        !name.contains('&'),
        !name.contains('='),
        !value.contains('&'),
    ensures
        form_pairs(split(name + seq!['='] + value, '&'), 0, ps) == with_value(
            ps,
            decoded(name, 0),
            decoded(value, 0),
        ),
        form_pairs(split(name + seq!['='] + value + seq!['&'] + rest, '&'), 0, ps) == form_pairs(
            split(rest, '&'),
            0,
            with_value(ps, decoded(name, 0), decoded(value, 0)),
        ),
        form_of(rest) == form_pairs(split(rest, '&'), 0, Seq::empty()),
{
    let part = name + seq!['='] + value;
    let n = name.len() as int;
    assert forall|k: int| 0 <= k < n implies part[k] != '=' by {
        assert(part[k] == name[k]);
        assert(name.contains(name[k]));
    }
    assert(part[n] == '=');
    lemma_index_of_is(part, '=', 0, n);
    assert(part.take(n) =~= name);
    assert(part.skip(n + 1) =~= value);
    assert forall|k: int| 0 <= k < part.len() implies part[k] != '&' by {
        if k < n {
            assert(name.contains(name[k]));
        } else if k > n {
            assert(part[k] == value[k - n - 1]);
            assert(value.contains(value[k - n - 1]));
        }
    }
    assert(decoded(name, 0).len() > 0);
    law_parts_lie_between_separators(part, '&', rest);
    let parts = split(rest, '&');
    let after = with_value(ps, decoded(name, 0), decoded(value, 0));
    assert(seq![part][0] == part && (seq![part] + parts)[0] == part);
    assert(form_pairs(seq![part], 1, after) == after);
    lemma_form_pairs_behind(part, parts, 0, after);
}

proof fn lemma_form_pairs_behind(first: Seq<char>, parts: Seq<Seq<char>>, from: int, ps: Pairs)
    requires
        0 <= from <= parts.len(),
    ensures
        form_pairs(seq![first] + parts, from + 1, ps) == form_pairs(parts, from, ps),
    decreases parts.len() - from,
{
    if from < parts.len() {
        assert((seq![first] + parts)[from + 1] == parts[from]);
        if parts[from].len() == 0 || form_pair(parts[from]).0.len() == 0 {
            lemma_form_pairs_behind(first, parts, from + 1, ps);
        } else {
            let (k, v) = form_pair(parts[from]);
            lemma_form_pairs_behind(first, parts, from + 1, with_value(ps, k, v));
        }
    }
}

/// The alphabet for URLs is the usual one with a dash and an underscore for its last two
/// characters, and nothing is filled up.
pub proof fn law_alphabet_for_urls(k: int, data: Seq<u8>)
    requires
        0 <= k < 64,
    ensures
        k < 62 ==> url_char(k) == base64_char(k),
        url_char(62) == '-',
        url_char(63) == '_',
        data.len() == 1 ==> base64_url(data, 0).len() == 2,
        data.len() == 2 ==> base64_url(data, 0).len() == 3,
        data.len() == 3 ==> base64_url(data, 0).len() == 4,
{
    if data.len() <= 3 {
        assert(base64_url(data, 3) =~= Seq::<char>::empty());
    }
}

} // verus!
