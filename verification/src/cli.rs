//! Command line configuration: what the flags say, and when they make sense.

use vstd::prelude::*;
use vstd::string::*;

use crate::pairs::Pairs;
use crate::text::{
    chars_of, find_char, index_of, lemma_index_of_is, piece, same, signed_decimal, signed_decimal_text, trim, trimmed,
};

verus! {

/// Where the gateway offers the server it bridges.
#[derive(Clone, Copy, PartialEq, Eq, Structural, Debug)]
pub enum OutputTransport {
    Stdio,
    Sse,
    Ws,
    StreamableHttp,
}

impl OutputTransport {
    pub open spec fn text(self) -> Seq<char> {
        match self {
            OutputTransport::Stdio => "stdio"@,
            OutputTransport::Sse => "sse"@,
            OutputTransport::Ws => "ws"@,
            OutputTransport::StreamableHttp => "streamableHttp"@,
        }
    }

    /// The name of the transport on the command line.
    pub fn name(self) -> (r: &'static str)
        ensures
            r@ == self.text(),
    {
        match self {
            OutputTransport::Stdio => "stdio",
            OutputTransport::Sse => "sse",
            OutputTransport::Ws => "ws",
            OutputTransport::StreamableHttp => "streamableHttp",
        }
    }

    /// Finds the transport of that name.
    pub fn from_name(s: &str) -> (r: Result<OutputTransport, String>)
        ensures
            r matches Ok(t) ==> s@ == t.text(),
            r matches Err(e) ==> (forall|t: OutputTransport| s@ != #[trigger] t.text()) && e@
                == "invalid output transport '"@ + s@
                + "': expected stdio|sse|ws|streamableHttp"@,
    {
        if same(s, "stdio") {
            Ok(OutputTransport::Stdio)
        } else if same(s, "sse") {
            Ok(OutputTransport::Sse)
        } else if same(s, "ws") {
            Ok(OutputTransport::Ws)
        } else if same(s, "streamableHttp") {
            Ok(OutputTransport::StreamableHttp)
        } else {
            Err(
                "invalid output transport '".to_owned().concat(s).concat(
                    "': expected stdio|sse|ws|streamableHttp",
                ),
            )
        }
    }
}

impl std::str::FromStr for OutputTransport {
    type Err = String;

    fn from_str(s: &str) -> (r: Result<OutputTransport, String>)
        ensures
            r matches Ok(t) ==> s@ == t.text(),
            r matches Err(e) ==> (forall|t: OutputTransport| s@ != #[trigger] t.text()) && e@
                == "invalid output transport '"@ + s@
                + "': expected stdio|sse|ws|streamableHttp"@,
    {
        OutputTransport::from_name(s)
    }
}

/// Where the server that is bridged is found.
#[derive(Clone, Copy, PartialEq, Eq, Structural, Debug)]
pub enum InputMode {
    Stdio,
    Sse,
    StreamableHttp,
}

impl InputMode {
    pub open spec fn text(self) -> Seq<char> {
        match self {
            InputMode::Stdio => "Stdio"@,
            InputMode::Sse => "Sse"@,
            InputMode::StreamableHttp => "StreamableHttp"@,
        }
    }

    pub fn name(self) -> (r: &'static str)
        ensures
            r@ == self.text(),
    {
        match self {
            InputMode::Stdio => "Stdio",
            InputMode::Sse => "Sse",
            InputMode::StreamableHttp => "StreamableHttp",
        }
    }
}

#[derive(Clone, Copy, PartialEq, Eq, Structural, Debug)]
pub enum LogLevel {
    Debug,
    Info,
    Off,
}

impl LogLevel {
    pub open spec fn text(self) -> Seq<char> {
        match self {
            LogLevel::Debug => "debug"@,
            LogLevel::Info => "info"@,
            LogLevel::Off => "none"@,
        }
    }

    /// The name of the level on the command line.
    pub fn name(self) -> (r: &'static str)
        ensures
            r@ == self.text(),
    {
        match self {
            LogLevel::Debug => "debug",
            LogLevel::Info => "info",
            LogLevel::Off => "none",
        }
    }

    /// Finds the level of that name.
    pub fn from_name(s: &str) -> (r: Result<LogLevel, String>)
        ensures
            r matches Ok(l) ==> s@ == l.text(),
            r matches Err(e) ==> (forall|l: LogLevel| s@ != #[trigger] l.text()) && e@
                == "invalid log level '"@ + s@ + "': expected debug|info|none"@,
    {
        if same(s, "debug") {
            Ok(LogLevel::Debug)
        } else if same(s, "info") {
            Ok(LogLevel::Info)
        } else if same(s, "none") {
            Ok(LogLevel::Off)
        } else {
            Err(
                "invalid log level '".to_owned().concat(s).concat(
                    "': expected debug|info|none",
                ),
            )
        }
    }
}

impl std::str::FromStr for LogLevel {
    type Err = String;

    fn from_str(s: &str) -> (r: Result<LogLevel, String>)
        ensures
            r matches Ok(l) ==> s@ == l.text(),
            r matches Err(e) ==> (forall|l: LogLevel| s@ != #[trigger] l.text()) && e@
                == "invalid log level '"@ + s@ + "': expected debug|info|none"@,
    {
        LogLevel::from_name(s)
    }
}

impl Default for LogLevel {
    fn default() -> (r: LogLevel)
        ensures
            r == LogLevel::Info,
    {
        LogLevel::Info
    }
}

/// A header that the user asked for.
#[derive(Debug)]
pub struct Header {
    pub name: String,
    pub value: String,
}

pub open spec fn headers_view(hs: Seq<Header>) -> Pairs {
    Seq::new(hs.len(), |i: int| (hs[i].name@, hs[i].value@))
}

impl Clone for Header {
    fn clone(&self) -> (r: Header)
        ensures
            r.name@ == self.name@,
            r.value@ == self.value@,
    {
        Header { name: self.name.clone(), value: self.value.clone() }
    }
}

/// An origin that may use the gateway: itself, or what a regular expression matches.
#[derive(Debug)]
pub enum CorsOrigin {
    Literal(String),
    Regex(String),
}

pub enum OriginView {
    Literal(Seq<char>),
    Regex(Seq<char>),
}

impl View for CorsOrigin {
    type V = OriginView;

    open spec fn view(&self) -> OriginView {
        match self {
            CorsOrigin::Literal(s) => OriginView::Literal(s@),
            CorsOrigin::Regex(p) => OriginView::Regex(p@),
        }
    }
}

/// Which origins may use the gateway.
#[derive(Debug)]
pub enum CorsConfig {
    /// Cross-origin requests get no special treatment.
    Disabled,
    /// Any origin.
    Wildcard,
    /// The listed origins.
    Origins(Vec<CorsOrigin>),
}

#[verifier::ext_equal]
pub enum CorsView {
    Disabled,
    Wildcard,
    Origins(Seq<OriginView>),
}

impl View for CorsConfig {
    type V = CorsView;

    open spec fn view(&self) -> CorsView {
        match self {
            CorsConfig::Disabled => CorsView::Disabled,
            CorsConfig::Wildcard => CorsView::Wildcard,
            CorsConfig::Origins(os) => CorsView::Origins(Seq::new(os@.len(), |i: int| os@[i]@)),
        }
    }
}

/// What the authorization server needs to know.
#[derive(Debug)]
pub struct OAuth2ServerConfig {
    pub client_id: String,
    pub client_secret: String,
    pub token_expiry_secs: u64,
    pub issuer: Option<String>,
}

/// The flags as they were given.
#[derive(Debug)]
pub struct RawArgs {
    pub stdio: Option<String>,
    pub sse: Option<String>,
    pub streamable_http: Option<String>,
    pub output_transport: Option<OutputTransport>,
    pub port: u16,
    pub base_url: String,
    pub sse_path: String,
    pub message_path: String,
    pub streamable_http_path: String,
    pub log_level: LogLevel,
    pub cors: Option<Vec<String>>,
    pub health_endpoint: Option<Vec<String>>,
    pub header: Vec<String>,
    pub oauth2_bearer: Option<String>,
    pub oauth2_server_client_id: Option<String>,
    pub oauth2_server_client_secret: Option<String>,
    pub oauth2_token_expiry: u64,
    pub oauth2_issuer: Option<String>,
    pub stateful: bool,
    pub session_timeout: Option<i64>,
    pub protocol_version: String,
}

/// A configuration that makes sense.
#[derive(Debug)]
pub struct Config {
    pub input_mode: InputMode,
    pub input_value: String,
    pub output_transport: OutputTransport,
    pub port: u16,
    pub base_url: String,
    pub sse_path: String,
    pub message_path: String,
    pub streamable_http_path: String,
    pub log_level: LogLevel,
    pub cors: CorsConfig,
    pub health_endpoints: Vec<String>,
    pub headers: Vec<Header>,
    pub stateful: bool,
    pub session_timeout: Option<u64>,
    pub protocol_version: String,
    pub oauth2_server: Option<OAuth2ServerConfig>,
}

// ---- Single flags ---------------------------------------------------------------

pub open spec fn is_path(path: Seq<char>) -> bool {
    path.len() > 0 && path[0] == '/'
}

pub open spec fn path_error(flag: Seq<char>, path: Seq<char>) -> Option<Seq<char>> {
    if is_path(path) {
        None
    } else {
        Some(flag + " must start with '/', got '"@ + path + "'"@)
    }
}

/// A path begins with a slash.
pub fn validate_path(flag: &str, path: &str) -> (r: Result<(), String>)
    ensures
        r is Ok <==> path_error(flag@, path@) is None,
        r matches Err(e) ==> path_error(flag@, path@) == Some(e@),
{
    let v = chars_of(path);
    if v.len() > 0 && v[0] == '/' {
        Ok(())
    } else {
        Err(flag.to_owned().concat(" must start with '/', got '").concat(path).concat("'"))
    }
}

/// The name and the value of a header flag: what stands before and after the first
/// colon, without white space at the ends.
pub open spec fn header_parts(raw: Seq<char>) -> (Seq<char>, Seq<char>) {
    let at = index_of(raw, ':', 0);
    (trimmed(raw.subrange(0, at)), trimmed(raw.subrange(at + 1, raw.len() as int)))
}

pub open spec fn header_error(raw: Seq<char>) -> Option<Seq<char>> {
    if index_of(raw, ':', 0) == raw.len() {
        Some(
            "invalid --header '"@ + raw
                + "': must contain ':' separator (format: \"Name: Value\")"@,
        )
    } else if header_parts(raw).0.len() == 0 {
        Some("invalid --header '"@ + raw + "': empty header name"@)
    } else {
        None
    }
}

/// Reads a header flag of the form `Name: Value`.
pub fn parse_header(raw: &str) -> (r: Result<Header, String>)
    ensures
        r matches Ok(h) ==> header_error(raw@) is None && (h.name@, h.value@) == header_parts(raw@),
        r matches Err(e) ==> header_error(raw@) == Some(e@),
{
    let v = chars_of(raw);
    let at: usize = find_char(&v, ':', 0);
    if at == v.len() {
        return Err(
            "invalid --header '".to_owned().concat(raw).concat(
                "': must contain ':' separator (format: \"Name: Value\")",
            ),
        );
    }
    let name = trim(piece(&v, 0, at).as_str());
    let value = trim(piece(&v, at + 1, v.len()).as_str());
    if name.as_str().is_empty() {
        return Err("invalid --header '".to_owned().concat(raw).concat("': empty header name"));
    }
    Ok(Header { name, value })
}

pub uninterp spec fn pattern_compiles(pattern: Seq<char>) -> bool;

/// `Regex::new`: whether the text is a regular expression that can be used.
#[verifier::external_body]
fn compiles(pattern: &str) -> (r: bool)
    ensures
        r == pattern_compiles(pattern@),
{
    regex::Regex::new(pattern).is_ok()
}

/// Whether an origin is written between slashes, with something in between.
pub open spec fn is_slashed(o: Seq<char>) -> bool {
    o.len() > 2 && o[0] == '/' && o.last() == '/'
}

/// What stands between the slashes.
pub open spec fn between_slashes(o: Seq<char>) -> Seq<char> {
    o.subrange(1, o.len() - 1)
}

/// An origin flag, where it is known whether what stands between its slashes is a regular
/// expression.
pub open spec fn origin_as(o: Seq<char>, is_pattern: bool) -> OriginView {
    if is_slashed(o) && is_pattern {
        OriginView::Regex(between_slashes(o))
    } else {
        OriginView::Literal(o)
    }
}

/// An origin flag: a regular expression between slashes, or a literal.
pub open spec fn origin_of(o: Seq<char>) -> OriginView {
    origin_as(o, pattern_compiles(between_slashes(o)))
}

pub open spec fn cors_of(raw: Option<Seq<Seq<char>>>) -> CorsView {
    match raw {
        None => CorsView::Disabled,
        Some(os) => if os.len() == 0 || os.contains("*"@) {
            CorsView::Wildcard
        } else {
            CorsView::Origins(Seq::new(os.len(), |i: int| origin_of(os[i])))
        },
    }
}

pub open spec fn texts_view(v: Option<Vec<String>>) -> Option<Seq<Seq<char>>> {
    match v {
        Some(s) => Some(s.deep_view()),
        None => None,
    }
}

/// The regular expression that an origin flag would be, if it has slashes.
fn slashed_pattern(o: &str) -> (r: Option<String>)
    ensures
        r is Some <==> is_slashed(o@),
        r matches Some(p) ==> p@ == between_slashes(o@),
{
    let v = chars_of(o);
    if v.len() > 2 && v[0] == '/' && v[v.len() - 1] == '/' {
        Some(piece(&v, 1, v.len() - 1))
    } else {
        None
    }
}

/// Takes an origin flag as a regular expression or as a literal.
pub fn take_origin(o: String, is_pattern: bool) -> (r: CorsOrigin)
    ensures
        r@ == origin_as(o@, is_pattern),
{
    match slashed_pattern(o.as_str()) {
        Some(pattern) => if is_pattern {
            CorsOrigin::Regex(pattern)
        } else {
            CorsOrigin::Literal(o)
        },
        None => CorsOrigin::Literal(o),
    }
}

fn parse_origin(o: String) -> (r: CorsOrigin)
    ensures
        r@ == origin_of(o@),
{
    let is_pattern = match slashed_pattern(o.as_str()) {
        Some(pattern) => compiles(pattern.as_str()),
        None => false,
    };
    take_origin(o, is_pattern)
}

/// Reads the origins flag: absent, without values, or with a list of origins.
pub fn parse_cors(raw: Option<Vec<String>>) -> (r: CorsConfig)
    ensures
        r@ == cors_of(texts_view(raw)),
{
    let origins = match raw {
        None => return CorsConfig::Disabled,
        Some(origins) => origins,
    };
    let ghost d = origins.deep_view();
    if origins.len() == 0 {
        return CorsConfig::Wildcard;
    }
    let mut parsed: Vec<CorsOrigin> = Vec::new();
    let mut i: usize = 0;
    while i < origins.len()
        invariant
            i <= origins.len(),
            d == origins.deep_view(),
            d == texts_view(raw)->0,
            raw is Some,
            parsed.len() == i,
            forall|k: int| 0 <= k < i ==> d[k] != "*"@,
            forall|k: int| 0 <= k < i ==> (#[trigger] parsed[k])@ == origin_of(d[k]),
        decreases origins.len() - i,
    {
        if same(origins[i].as_str(), "*") {
            assert(d[i as int] == "*"@);
            return CorsConfig::Wildcard;
        }
        parsed.push(parse_origin(origins[i].clone()));
        i += 1;
    }
    let r = CorsConfig::Origins(parsed);
    assert(r@ =~= cors_of(Some(d)));
    r
}

// ---- The whole --------------------------------------------------------------------

pub open spec fn input_count(raw: RawArgs) -> int {
    (if raw.stdio is Some { 1int } else { 0 }) + (if raw.sse is Some { 1int } else { 0 }) + (
    if raw.streamable_http is Some { 1int } else { 0 })
}

pub open spec fn input_mode(raw: RawArgs) -> InputMode {
    if raw.stdio is Some {
        InputMode::Stdio
    } else if raw.sse is Some {
        InputMode::Sse
    } else {
        InputMode::StreamableHttp
    }
}

pub open spec fn input_value(raw: RawArgs) -> Seq<char> {
    if raw.stdio is Some {
        raw.stdio->0@
    } else if raw.sse is Some {
        raw.sse->0@
    } else {
        raw.streamable_http->0@
    }
}

pub open spec fn output_transport(raw: RawArgs) -> OutputTransport {
    match raw.output_transport {
        Some(t) => t,
        None => if input_mode(raw) == InputMode::Stdio {
            OutputTransport::Sse
        } else {
            OutputTransport::Stdio
        },
    }
}

/// A local server is offered over a network, a remote one on stdio.
pub open spec fn is_bridge(input: InputMode, output: OutputTransport) -> bool {
    input == InputMode::Stdio <==> output != OutputTransport::Stdio
}

/// The first error among the header flags from `from` on.
pub open spec fn headers_error(raw: Seq<Seq<char>>, from: int) -> Option<Seq<char>>
    decreases raw.len() - from,
{
    if from >= raw.len() {
        None
    } else if header_error(raw[from]) is Some {
        header_error(raw[from])
    } else {
        headers_error(raw, from + 1)
    }
}

/// The first error among the health endpoints from `from` on.
pub open spec fn endpoints_error(raw: Seq<Seq<char>>, from: int) -> Option<Seq<char>>
    decreases raw.len() - from,
{
    if from >= raw.len() {
        None
    } else if !is_path(raw[from]) {
        path_error("--healthEndpoint value"@, raw[from])
    } else {
        endpoints_error(raw, from + 1)
    }
}

/// What is wrong with the flags, the first thing first.
pub open spec fn config_error(raw: RawArgs) -> Option<Seq<char>> {
    if input_count(raw) == 0 {
        Some("exactly one input required: --stdio, --sse, or --streamableHttp"@)
    } else if input_count(raw) > 1 {
        Some("--stdio, --sse, and --streamableHttp are mutually exclusive"@)
    } else if !is_bridge(input_mode(raw), output_transport(raw)) {
        Some(
            "invalid transport combination: "@ + input_mode(raw).text() + " input with "@
                + output_transport(raw).text() + " output"@,
        )
    } else if !is_path(raw.sse_path@) {
        path_error("--ssePath"@, raw.sse_path@)
    } else if !is_path(raw.message_path@) {
        path_error("--messagePath"@, raw.message_path@)
    } else if !is_path(raw.streamable_http_path@) {
        path_error("--streamableHttpPath"@, raw.streamable_http_path@)
    } else if raw.session_timeout is Some && raw.session_timeout->0 <= 0 {
        Some(
            "--sessionTimeout must be positive, got "@ + signed_decimal(
                raw.session_timeout->0 as int,
            ),
        )
    } else if headers_error(raw.header.deep_view(), 0) is Some {
        headers_error(raw.header.deep_view(), 0)
    } else if raw.health_endpoint is Some && endpoints_error(
        raw.health_endpoint->0.deep_view(),
        0,
    ) is Some {
        endpoints_error(raw.health_endpoint->0.deep_view(), 0)
    } else if raw.oauth2_server_client_id is Some && raw.oauth2_server_client_secret is None {
        Some(
            "--oauth2-server-client-secret is required when --oauth2-server-client-id is set"@,
        )
    } else {
        None
    }
}

/// The headers that the flags ask for: those given, and the bearer token as one more.
pub open spec fn config_headers(raw: RawArgs) -> Pairs {
    Seq::new(raw.header.deep_view().len(), |i: int| header_parts(raw.header.deep_view()[i])) + (
    if raw.oauth2_bearer is Some && raw.oauth2_bearer->0@.len() > 0 {
        seq![("Authorization"@, "Bearer "@ + raw.oauth2_bearer->0@)]
    } else {
        seq![]
    })
}

/// Whether a configuration is what the flags say.
pub open spec fn is_config(raw: RawArgs, c: Config) -> bool {
    &&& c.input_mode == input_mode(raw)
    &&& c.input_value@ == input_value(raw)
    &&& c.output_transport == output_transport(raw)
    &&& c.port == raw.port
    &&& c.base_url@ == raw.base_url@
    &&& c.sse_path@ == raw.sse_path@
    &&& c.message_path@ == raw.message_path@
    &&& c.streamable_http_path@ == raw.streamable_http_path@
    &&& c.log_level == raw.log_level
    &&& c.cors@ == cors_of(texts_view(raw.cors))
    &&& c.health_endpoints.deep_view() == (match raw.health_endpoint {
        Some(eps) => eps.deep_view(),
        None => seq![],
    })
    &&& headers_view(c.headers@) == config_headers(raw)
    &&& c.stateful == raw.stateful
    &&& c.session_timeout == (match raw.session_timeout {
        Some(ms) => Some(ms as u64),
        None => None,
    })
    &&& c.protocol_version@ == raw.protocol_version@
    &&& match raw.oauth2_server_client_id {
        None => c.oauth2_server is None,
        Some(id) => {
            &&& c.oauth2_server is Some
            &&& c.oauth2_server->0.client_id@ == id@
            &&& c.oauth2_server->0.client_secret@ == raw.oauth2_server_client_secret->0@
            &&& c.oauth2_server->0.token_expiry_secs == raw.oauth2_token_expiry
            &&& c.oauth2_server->0.issuer == raw.oauth2_issuer
        },
    }
}

fn parse_headers(raw: &Vec<String>) -> (r: Result<Vec<Header>, String>)
    ensures
        r matches Ok(hs) ==> headers_error(raw.deep_view(), 0) is None && headers_view(hs@)
            == Seq::new(raw.deep_view().len(), |i: int| header_parts(raw.deep_view()[i])),
        r matches Err(e) ==> headers_error(raw.deep_view(), 0) == Some(e@),
{
    let mut out: Vec<Header> = Vec::new();
    let mut i: usize = 0;
    let ghost d = raw.deep_view();
    while i < raw.len()
        invariant
            i <= raw.len(),
            d == raw.deep_view(),
            out.len() == i,
            headers_error(d, 0) == headers_error(d, i as int),
            forall|k: int|
                0 <= k < i ==> ((#[trigger] out[k]).name@, out[k].value@) == header_parts(d[k]),
        decreases raw.len() - i,
    {
        match parse_header(raw[i].as_str()) {
            Ok(h) => out.push(h),
            Err(e) => return Err(e),
        }
        i += 1;
    }
    assert(headers_view(out@) =~= Seq::new(d.len(), |i: int| header_parts(d[i])));
    Ok(out)
}

fn check_endpoints(raw: &Vec<String>) -> (r: Result<(), String>)
    ensures
        r is Ok <==> endpoints_error(raw.deep_view(), 0) is None,
        r matches Err(e) ==> endpoints_error(raw.deep_view(), 0) == Some(e@),
{
    let mut i: usize = 0;
    let ghost d = raw.deep_view();
    while i < raw.len()
        invariant
            i <= raw.len(),
            d == raw.deep_view(),
            endpoints_error(d, 0) == endpoints_error(d, i as int),
        decreases raw.len() - i,
    {
        match validate_path("--healthEndpoint value", raw[i].as_str()) {
            Ok(_) => {},
            Err(e) => return Err(e),
        }
        i += 1;
    }
    Ok(())
}

impl Config {
    /// Checks the flags and makes a configuration of them.
    pub fn validate(raw: RawArgs) -> (r: Result<Config, String>)
        ensures
            r matches Ok(c) ==> config_error(raw) is None && is_config(raw, c),
            r matches Err(e) ==> config_error(raw) == Some(e@),
    {
        let ghost given = raw;
        let count: u8 = (if raw.stdio.is_some() {
            1u8
        } else {
            0u8
        }) + (if raw.sse.is_some() {
            1u8
        } else {
            0u8
        }) + (if raw.streamable_http.is_some() {
            1u8
        } else {
            0u8
        });
        if count == 0 {
            return Err(
                "exactly one input required: --stdio, --sse, or --streamableHttp".to_owned(),
            );
        }
        if count > 1 {
            return Err("--stdio, --sse, and --streamableHttp are mutually exclusive".to_owned());
        }
        let (mode, value): (InputMode, String) = match (raw.stdio, raw.sse, raw.streamable_http) {
            (Some(cmd), _, _) => (InputMode::Stdio, cmd),
            (None, Some(url), _) => (InputMode::Sse, url),
            (None, None, Some(url)) => (InputMode::StreamableHttp, url),
            (None, None, None) => (InputMode::StreamableHttp, String::new()),
        };
        let output = match raw.output_transport {
            Some(t) => t,
            None => match mode {
                InputMode::Stdio => OutputTransport::Sse,
                InputMode::Sse => OutputTransport::Stdio,
                InputMode::StreamableHttp => OutputTransport::Stdio,
            },
        };
        if (mode == InputMode::Stdio) == (output == OutputTransport::Stdio) {
            return Err(
                "invalid transport combination: ".to_owned().concat(mode.name()).concat(
                    " input with ",
                ).concat(output.name()).concat(" output"),
            );
        }
        if let Err(e) = validate_path("--ssePath", raw.sse_path.as_str()) {
            return Err(e);
        }
        if let Err(e) = validate_path("--messagePath", raw.message_path.as_str()) {
            return Err(e);
        }
        if let Err(e) = validate_path("--streamableHttpPath", raw.streamable_http_path.as_str()) {
            return Err(e);
        }
        let session_timeout: Option<u64> = match raw.session_timeout {
            Some(ms) => {
                if ms <= 0 {
                    let t = signed_decimal_text(ms);
                    return Err(
                        "--sessionTimeout must be positive, got ".to_owned().concat(t.as_str()),
                    );
                }
                Some(ms as u64)
            },
            None => None,
        };
        let mut headers = match parse_headers(&raw.header) {
            Ok(hs) => hs,
            Err(e) => return Err(e),
        };
        if let Some(token) = &raw.oauth2_bearer {
            if !token.as_str().is_empty() {
                headers.push(
                    Header {
                        name: "Authorization".to_owned(),
                        value: "Bearer ".to_owned().concat(token.as_str()),
                    },
                );
            }
        }
        assert(headers_view(headers@) =~= config_headers(given));
        let cors = parse_cors(raw.cors);
        let health_endpoints = match raw.health_endpoint {
            Some(eps) => {
                if let Err(e) = check_endpoints(&eps) {
                    return Err(e);
                }
                eps
            },
            None => Vec::new(),
        };
        let oauth2_server = match raw.oauth2_server_client_id {
            Some(client_id) => match raw.oauth2_server_client_secret {
                Some(client_secret) => Some(
                    OAuth2ServerConfig {
                        client_id,
                        client_secret,
                        token_expiry_secs: raw.oauth2_token_expiry,
                        issuer: raw.oauth2_issuer,
                    },
                ),
                None => return Err(
                    "--oauth2-server-client-secret is required when --oauth2-server-client-id is set".to_owned(),
                ),
            },
            None => None,
        };
        let c = Config {
            input_mode: mode,
            input_value: value,
            output_transport: output,
            port: raw.port,
            base_url: raw.base_url,
            sse_path: raw.sse_path,
            message_path: raw.message_path,
            streamable_http_path: raw.streamable_http_path,
            log_level: raw.log_level,
            cors,
            health_endpoints,
            headers,
            stateful: raw.stateful,
            session_timeout,
            protocol_version: raw.protocol_version,
            oauth2_server,
        };
        assert(given.health_endpoint is None ==> c.health_endpoints.deep_view() =~= seq![]);
        Ok(c)
    }
}

/// In every configuration a local server is offered over a network and a remote one
/// on stdio, the paths begin with a slash, and a session timeout is positive.
pub proof fn law_config_makes_sense(raw: RawArgs, c: Config)
    requires
        config_error(raw) is None,
        is_config(raw, c),
    ensures
        is_bridge(c.input_mode, c.output_transport),
        is_path(c.sse_path@),
        is_path(c.message_path@),
        is_path(c.streamable_http_path@),
        c.session_timeout matches Some(ms) ==> 0 < ms,
        forall|i: int|
            0 <= i < c.health_endpoints.deep_view().len() ==> is_path(
                #[trigger] c.health_endpoints.deep_view()[i],
            ),
{
    if raw.health_endpoint is Some {
        lemma_endpoints_are_paths(raw.health_endpoint->0.deep_view(), 0);
    }
}

proof fn lemma_endpoints_are_paths(eps: Seq<Seq<char>>, from: int)
    requires
        0 <= from,
        endpoints_error(eps, from) is None,
    ensures
        forall|i: int| from <= i < eps.len() ==> is_path(#[trigger] eps[i]),
    decreases eps.len() - from,
{
    if from < eps.len() {
        lemma_endpoints_are_paths(eps, from + 1);
    }
}

/// A configuration is taken where there is exactly one input, standard input and output are
/// used on one side exactly, the paths begin with a slash, the timeout is positive, the
/// headers and health paths are in order, and the server's secret comes with its name.
pub proof fn law_good_arguments_are_taken(raw: RawArgs)
    ensures
        config_error(raw) is None <==> {
            let inputs: int = (if raw.stdio is Some {
                1int
            } else {
                0
            }) + (if raw.sse is Some {
                1int
            } else {
                0
            }) + (if raw.streamable_http is Some {
                1int
            } else {
                0
            });
            &&& inputs == 1
            &&& raw.output_transport matches Some(t) ==> (raw.stdio is Some) != (t
                == OutputTransport::Stdio)
            &&& raw.sse_path@.len() > 0 && raw.sse_path@[0] == '/'
            &&& raw.message_path@.len() > 0 && raw.message_path@[0] == '/'
            &&& raw.streamable_http_path@.len() > 0 && raw.streamable_http_path@[0] == '/'
            &&& raw.session_timeout matches Some(ms) ==> ms > 0
            &&& forall|i: int|
                0 <= i < raw.header.deep_view().len() ==> header_error(
                    #[trigger] raw.header.deep_view()[i],
                ) is None
            &&& raw.health_endpoint matches Some(eps) ==> forall|i: int|
                0 <= i < eps.deep_view().len() ==> (#[trigger] eps.deep_view()[i]).len() > 0
                    && eps.deep_view()[i][0] == '/'
            &&& raw.oauth2_server_client_id is Some ==> raw.oauth2_server_client_secret is Some
        },
{
    lemma_headers_are_in_order(raw.header.deep_view(), 0);
    if raw.health_endpoint is Some {
        let eps = raw.health_endpoint->0.deep_view();
        if endpoints_error(eps, 0) is None {
            lemma_endpoints_are_paths(eps, 0);
            assert forall|i: int| 0 <= i < eps.len() implies (#[trigger] eps[i]).len() > 0
                && eps[i][0] == '/' by {
                assert(is_path(eps[i]));
            }
        } else {
            lemma_endpoint_is_no_path(eps, 0);
        }
    }
}

proof fn lemma_headers_are_in_order(raw: Seq<Seq<char>>, from: int)
    requires
        0 <= from <= raw.len(),
    ensures
        headers_error(raw, from) is None <==> forall|i: int|
            from <= i < raw.len() ==> header_error(#[trigger] raw[i]) is None,
    decreases raw.len() - from,
{
    if from < raw.len() {
        lemma_headers_are_in_order(raw, from + 1);
        if header_error(raw[from]) is None && headers_error(raw, from + 1) is None {
            assert forall|i: int| from <= i < raw.len() implies header_error(#[trigger] raw[i]) is None by {
                if i > from {
                    assert(from + 1 <= i);
                }
            }
        }
    }
}

proof fn lemma_endpoint_is_no_path(eps: Seq<Seq<char>>, from: int)
    requires
        0 <= from <= eps.len(),
        endpoints_error(eps, from) is Some,
    ensures
        exists|i: int| from <= i < eps.len() && !is_path(#[trigger] eps[i]),
    decreases eps.len() - from,
{
    if from < eps.len() && is_path(eps[from]) {
        lemma_endpoint_is_no_path(eps, from + 1);
        let i = choose|i: int| from + 1 <= i < eps.len() && !is_path(#[trigger] eps[i]);
        assert(from <= i < eps.len() && !is_path(eps[i]));
    } else {
        assert(!is_path(eps[from]));
    }
}

/// A header is a name, a colon and a value, with white space around them left out; it needs
/// the colon and the name.
pub proof fn law_header_is_name_and_value(name: Seq<char>, value: Seq<char>)
    requires
        !name.contains(':'),
    ensures
        header_parts(name + seq![':'] + value) == (trimmed(name), trimmed(value)),
        header_error(name + seq![':'] + value) is None <==> trimmed(name).len() > 0,
        header_error(name) is Some,
{
    let raw = name + seq![':'] + value;
    let n = name.len() as int;
    assert forall|k: int| 0 <= k < n implies raw[k] != ':' && name[k] != ':' by {
        assert(raw[k] == name[k]);
        assert(name.contains(name[k]));
    }
    assert(raw[n] == ':');
    lemma_index_of_is(raw, ':', 0, n);
    lemma_index_of_is(name, ':', 0, n);
    assert(raw.subrange(0, n) =~= name);
    assert(raw.subrange(n + 1, raw.len() as int) =~= value);
}

/// The origins that may ask: none without the flag, any with a star or with no name behind
/// the flag, else those named, a pattern between slashes and any other literally.
pub proof fn law_origins_are_read(os: Seq<Seq<char>>)
    ensures
        cors_of(None) == CorsView::Disabled,
        os.len() == 0 || os.contains("*"@) ==> cors_of(Some(os)) == CorsView::Wildcard,
        os.len() > 0 && !os.contains("*"@) ==> (cors_of(Some(os)) matches CorsView::Origins(v)
            && v.len() == os.len() && forall|i: int|
            0 <= i < os.len() ==> #[trigger] v[i] == (if os[i].len() > 2 && os[i][0] == '/'
                && os[i].last() == '/' && pattern_compiles(os[i].subrange(1, os[i].len() - 1)) {
                OriginView::Regex(os[i].subrange(1, os[i].len() - 1))
            } else {
                OriginView::Literal(os[i])
            })),
{
}

/// The input decides where the output goes unless that was said.
pub proof fn law_output_follows_the_input(raw: RawArgs)
    ensures
        raw.output_transport matches Some(t) ==> output_transport(raw) == t,
        raw.output_transport is None && raw.stdio is Some ==> output_transport(raw)
            == OutputTransport::Sse,
        raw.output_transport is None && raw.stdio is None ==> output_transport(raw)
            == OutputTransport::Stdio,
        raw.stdio matches Some(v) ==> input_mode(raw) == InputMode::Stdio && input_value(raw) == v@,
        raw.stdio is None && raw.sse is Some ==> input_mode(raw) == InputMode::Sse && input_value(raw)
            == raw.sse->0@,
        raw.stdio is None && raw.sse is None && raw.streamable_http is Some ==> input_mode(raw)
            == InputMode::StreamableHttp && input_value(raw) == raw.streamable_http->0@,
{
}

/// The headers asked for are kept in their order, and a token becomes one more.
pub proof fn law_token_becomes_a_header(raw: RawArgs)
    ensures
        ({
            let hs = config_headers(raw);
            let n = raw.header.deep_view().len() as int;
            &&& raw.oauth2_bearer is None ==> hs.len() == n
            &&& raw.oauth2_bearer is Some && raw.oauth2_bearer->0@.len() > 0 ==> hs.len() == n + 1 && hs[n] == (
                "Authorization"@,
                "Bearer "@ + raw.oauth2_bearer->0@,
            )
            &&& forall|i: int|
                0 <= i < n ==> #[trigger] hs[i] == header_parts(raw.header.deep_view()[i])
        }),
{
}

/// A path that does not begin with a slash is refused with the flag and the path in the words.
pub proof fn law_bad_path_is_named(flag: Seq<char>, path: Seq<char>)
    ensures
        path.len() > 0 && path[0] == '/' ==> path_error(flag, path) is None,
        path.len() == 0 || path[0] != '/' ==> path_error(flag, path) == Some(
            flag + " must start with '/', got '"@ + path + "'"@,
        ),
{
}

} // verus!
