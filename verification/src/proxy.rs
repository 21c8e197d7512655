//! The LLM API reverse proxy: it forwards a request to the upstream named by
//! the `x-upstream-base-url` header, guarding against server-side request
//! forgery and checking that an untrusted upstream is an LLM API.

use vstd::prelude::*;
use crate::config::{lemma_trusted_members, private_network_allowed, trusted_base, Config};
use crate::json::{json_as_array, json_content, json_get, json_is_string, json_parse, object_value, parse_json, JsonView};
use crate::ip::{ip_forbidden, ip_is_loopback, ip_text, is_forbidden_ip, parse_ip, Ip, IpView};
use crate::text::{
    ascii_lowercase, chars_of, chars_eq, contains, contains_exec, occurs_at, str_eq, string_of,
    to_ascii_lowercase, trim_end_char, trim_end_matches_char,
};

verus! {

/// The request header that names the upstream base URL.
pub const UPSTREAM_HEADER: &'static str = "x-upstream-base-url";

// ---------- paths and headers ----------

/// Text that could climb out of the upstream's path: `..`, a backslash, or
/// a percent-encoded `.` or `/`.
pub open spec fn traversal(s: Seq<char>) -> bool {
    ||| contains(s, ".."@)
    ||| contains(s, "\\"@)
    ||| contains(s, "%2e"@)
    ||| contains(s, "%2E"@)
    ||| contains(s, "%2f"@)
    ||| contains(s, "%2F"@)
}

/// A traversal starts at `i`: a backslash, `..`, or `%2` followed by `e`,
/// `E`, `f` or `F`.
pub open spec fn climbs_at(s: Seq<char>, i: int) -> bool {
    ||| s[i] == '\\'
    ||| (i + 1 < s.len() && s[i] == '.' && s[i + 1] == '.')
    ||| (i + 2 < s.len() && s[i] == '%' && s[i + 1] == '2' && (s[i + 2] == 'e' || s[i + 2] == 'E'
        || s[i + 2] == 'f' || s[i + 2] == 'F'))
}

proof fn lemma_occurs_chars(s: Seq<char>, p: Seq<char>, i: int)
    ensures
        occurs_at(s, p, i) <==> (0 <= i && i + p.len() <= s.len() && forall|k: int|
            0 <= k < p.len() ==> s[i + k] == #[trigger] p[k]),
{
    if 0 <= i && i + p.len() <= s.len() {
        if forall|k: int| 0 <= k < p.len() ==> s[i + k] == #[trigger] p[k] {
            assert(s.subrange(i, i + p.len()) =~= p);
        }
        if occurs_at(s, p, i) {
            assert forall|k: int| 0 <= k < p.len() implies s[i + k] == #[trigger] p[k] by {
                assert(s.subrange(i, i + p.len())[k] == s[i + k]);
            }
        }
    }
}

/// Text holds a traversal exactly when one starts at one of its positions.
pub proof fn lemma_traversal_exact(s: Seq<char>)
    ensures
        traversal(s) <==> exists|i: int| 0 <= i < s.len() && #[trigger] climbs_at(s, i),
{
    reveal_strlit("..");
    reveal_strlit("\\");
    reveal_strlit("%2e");
    reveal_strlit("%2E");
    reveal_strlit("%2f");
    reveal_strlit("%2F");
    let pats = seq!["\\"@, ".."@, "%2e"@, "%2E"@, "%2f"@, "%2F"@];
    assert forall|p: Seq<char>, i: int| #[trigger] occurs_at(s, p, i) && pats.contains(p) implies 0 <= i < s.len()
        && climbs_at(s, i) by {
        lemma_occurs_chars(s, p, i);
        let k = choose|k: int| 0 <= k < pats.len() && pats[k] == p;
        assert(p[0] == s[i + 0]);
        if p.len() > 1 {
            assert(p[1] == s[i + 1]);
        }
        if p.len() > 2 {
            assert(p[2] == s[i + 2]);
        }
    }
    if traversal(s) {
        if contains(s, ".."@) {
            let i = choose|i: int| occurs_at(s, ".."@, i);
            assert(pats[1] == ".."@);
            assert(climbs_at(s, i));
        } else if contains(s, "\\"@) {
            let i = choose|i: int| occurs_at(s, "\\"@, i);
            assert(pats[0] == "\\"@);
            assert(climbs_at(s, i));
        } else if contains(s, "%2e"@) {
            let i = choose|i: int| occurs_at(s, "%2e"@, i);
            assert(pats[2] == "%2e"@);
            assert(climbs_at(s, i));
        } else if contains(s, "%2E"@) {
            let i = choose|i: int| occurs_at(s, "%2E"@, i);
            assert(pats[3] == "%2E"@);
            assert(climbs_at(s, i));
        } else if contains(s, "%2f"@) {
            let i = choose|i: int| occurs_at(s, "%2f"@, i);
            assert(pats[4] == "%2f"@);
            assert(climbs_at(s, i));
        } else {
            let i = choose|i: int| occurs_at(s, "%2F"@, i);
            assert(pats[5] == "%2F"@);
            assert(climbs_at(s, i));
        }
    }
    if exists|i: int| 0 <= i < s.len() && #[trigger] climbs_at(s, i) {
        let i = choose|i: int| 0 <= i < s.len() && #[trigger] climbs_at(s, i);
        if s[i] == '\\' {
            lemma_occurs_chars(s, "\\"@, i);
        } else if i + 1 < s.len() && s[i] == '.' && s[i + 1] == '.' {
            lemma_occurs_chars(s, ".."@, i);
        } else if s[i + 2] == 'e' {
            lemma_occurs_chars(s, "%2e"@, i);
        } else if s[i + 2] == 'E' {
            lemma_occurs_chars(s, "%2E"@, i);
        } else if s[i + 2] == 'f' {
            lemma_occurs_chars(s, "%2f"@, i);
        } else {
            lemma_occurs_chars(s, "%2F"@, i);
        }
    }
}

/// Whether `s` holds a path traversal.
pub fn has_traversal(s: &str) -> (r: bool)
    ensures
        r == traversal(s@),
{
    let cs = chars_of(s);
    contains_exec(&cs, &chars_of("..")) || contains_exec(&cs, &chars_of("\\")) || contains_exec(
        &cs,
        &chars_of("%2e"),
    ) || contains_exec(&cs, &chars_of("%2E")) || contains_exec(&cs, &chars_of("%2f"))
        || contains_exec(&cs, &chars_of("%2F"))
}

/// Hop-by-hop headers, which belong to one connection and are never passed on.
pub open spec fn hop_by_hop(name: Seq<char>) -> bool {
    let n = ascii_lowercase(name);
    ||| n == "connection"@
    ||| n == "transfer-encoding"@
    ||| n == "upgrade"@
    ||| n == "te"@
    ||| n == "trailer"@
    ||| n == "proxy-authenticate"@
    ||| n == "proxy-authorization"@
    ||| n == "keep-alive"@
}

/// Request headers that never reach the upstream, whatever the configuration.
pub open spec fn upstream_bound(name: Seq<char>) -> bool {
    let n = ascii_lowercase(name);
    n != "host"@ && n != "content-length"@ && n != "x-upstream-base-url"@ && !hop_by_hop(name)
}

/// The hop-by-hop headers are exactly `connection`, `keep-alive`,
/// `proxy-authenticate`, `proxy-authorization`, `te`, `trailer`,
/// `transfer-encoding` and `upgrade`, in any ASCII case; a request header is
/// kept from the upstream exactly when it is one of these, `host`,
/// `content-length` or the upstream header, in any ASCII case.
pub proof fn lemma_hop_by_hop_exact(name: Seq<char>)
    ensures
        hop_by_hop(name) <==> seq![
            "connection"@,
            "keep-alive"@,
            "proxy-authenticate"@,
            "proxy-authorization"@,
            "te"@,
            "trailer"@,
            "transfer-encoding"@,
            "upgrade"@,
        ].contains(ascii_lowercase(name)),
        !upstream_bound(name) <==> seq![
            "connection"@,
            "keep-alive"@,
            "proxy-authenticate"@,
            "proxy-authorization"@,
            "te"@,
            "trailer"@,
            "transfer-encoding"@,
            "upgrade"@,
            "host"@,
            "content-length"@,
            "x-upstream-base-url"@,
        ].contains(ascii_lowercase(name)),
        hop_by_hop(name) == hop_by_hop(ascii_lowercase(name)),
        upstream_bound(name) == upstream_bound(ascii_lowercase(name)),
{
    let n = ascii_lowercase(name);
    let l1 = seq![
        "connection"@,
        "keep-alive"@,
        "proxy-authenticate"@,
        "proxy-authorization"@,
        "te"@,
        "trailer"@,
        "transfer-encoding"@,
        "upgrade"@,
    ];
    let l2 = l1 + seq!["host"@, "content-length"@, "x-upstream-base-url"@];
    assert(l2 =~= seq![
        "connection"@,
        "keep-alive"@,
        "proxy-authenticate"@,
        "proxy-authorization"@,
        "te"@,
        "trailer"@,
        "transfer-encoding"@,
        "upgrade"@,
        "host"@,
        "content-length"@,
        "x-upstream-base-url"@,
    ]);
    if hop_by_hop(name) {
        if n == "connection"@ { assert(l1[0] == n); }
        else if n == "keep-alive"@ { assert(l1[1] == n); }
        else if n == "proxy-authenticate"@ { assert(l1[2] == n); }
        else if n == "proxy-authorization"@ { assert(l1[3] == n); }
        else if n == "te"@ { assert(l1[4] == n); }
        else if n == "trailer"@ { assert(l1[5] == n); }
        else if n == "transfer-encoding"@ { assert(l1[6] == n); }
        else { assert(l1[7] == n); }
    }
    if !upstream_bound(name) {
        if hop_by_hop(name) {
            let k = choose|k: int| 0 <= k < l1.len() && l1[k] == n;
            assert(l2[k] == n);
        } else if n == "host"@ {
            assert(l2[8] == n);
        } else if n == "content-length"@ {
            assert(l2[9] == n);
        } else {
            assert(l2[10] == n);
        }
    }
    if l2.contains(n) {
        let k = choose|k: int| 0 <= k < l2.len() && l2[k] == n;
        if k < 8 {
            assert(l1[k] == n);
        }
    }
    crate::text::lemma_ascii_lowercase_idempotent(name);
}

fn lower_is(n: &Vec<char>, lit: &str) -> (r: bool)
    ensures
        r == (n@ == lit@),
{
    chars_eq(n, &chars_of(lit))
}

/// Whether `name` is a hop-by-hop header (names compare without regard to
/// ASCII case, as HTTP header names do).
pub fn is_hop_by_hop(name: &str) -> (r: bool)
    ensures
        r == hop_by_hop(name@),
{
    let n = chars_of(to_ascii_lowercase(name).as_str());
    lower_is(&n, "connection") || lower_is(&n, "transfer-encoding") || lower_is(&n, "upgrade")
        || lower_is(&n, "te") || lower_is(&n, "trailer") || lower_is(&n, "proxy-authenticate")
        || lower_is(&n, "proxy-authorization") || lower_is(&n, "keep-alive")
}

/// Whether a request header may be forwarded at all: not `host`,
/// `content-length`, the upstream header itself, or a hop-by-hop header.
pub fn forwards_to_upstream(name: &str) -> (r: bool)
    ensures
        r == upstream_bound(name@),
{
    let n = chars_of(to_ascii_lowercase(name).as_str());
    !lower_is(&n, "host") && !lower_is(&n, "content-length") && !lower_is(&n, UPSTREAM_HEADER)
        && !is_hop_by_hop(name)
}

/// Whether the proxy passes a client's request header on to the upstream.
pub fn forwards_request(cfg: &Config, name: &str) -> (r: bool)
    ensures
        r == (upstream_bound(name@) && crate::config::header_passes(
            name@,
            crate::text::views(cfg.headers.request_allow@),
            crate::text::views(cfg.headers.request_deny@),
        )),
{
    forwards_to_upstream(name) && cfg.forwards_request_header(name)
}

/// Whether the proxy passes an upstream's response header back to the client.
pub fn returns_response(cfg: &Config, name: &str) -> (r: bool)
    ensures
        r == (!hop_by_hop(name@) && crate::config::header_passes(
            name@,
            crate::text::views(cfg.headers.response_allow@),
            crate::text::views(cfg.headers.response_deny@),
        )),
{
    !is_hop_by_hop(name) && cfg.forwards_response_header(name)
}

/// Why the proxy turns a request away before reaching an upstream.
#[derive(Clone, Copy, Debug, PartialEq, Eq)]
pub enum ProxyError {
    /// The upstream header is missing or not visible ASCII.
    MissingUpstreamHeader,
    /// The request path holds a traversal.
    InvalidPath,
}

impl ProxyError {
    /// The HTTP status of the answer: 400.
    pub fn status(&self) -> (r: u16)
        ensures
            r == 400,
    {
        400
    }

    /// The text of the answer.
    pub fn message(&self) -> (r: &'static str)
        ensures
            r@ == match self {
                ProxyError::MissingUpstreamHeader => "missing or invalid `x-upstream-base-url` header"@,
                ProxyError::InvalidPath => "invalid path"@,
            },
    {
        match self {
            ProxyError::MissingUpstreamHeader => "missing or invalid `x-upstream-base-url` header",
            ProxyError::InvalidPath => "invalid path",
        }
    }
}

/// The upstream base URL from the header's value (`None` when the header is
/// missing or not visible ASCII), without trailing `/`.
pub fn upstream_base(value: Option<&str>) -> (r: Result<String, ProxyError>)
    ensures
        match value {
            None => r == Err::<String, ProxyError>(ProxyError::MissingUpstreamHeader),
            Some(v) => r is Ok && r->Ok_0@ == trim_end_char(v@, '/'),
        },
{
    match value {
        None => Err(ProxyError::MissingUpstreamHeader),
        Some(v) => Ok(trim_end_matches_char(v, '/')),
    }
}

/// The URL to forward to: the base followed by the request's path and
/// query, unless the latter holds a traversal.
pub fn request_url(base: &str, path_and_query: &str) -> (r: Result<String, ProxyError>)
    ensures
        traversal(path_and_query@) ==> r == Err::<String, ProxyError>(ProxyError::InvalidPath),
        !traversal(path_and_query@) ==> r is Ok && r->Ok_0@ == base@ + path_and_query@,
{
    if has_traversal(path_and_query) {
        return Err(ProxyError::InvalidPath);
    }
    let mut url = base.to_owned();
    url.append(path_and_query);
    Ok(url)
}

// ---------- upstream verification ----------

/// Why an upstream is refused (answered with 403).
#[derive(Clone, Copy, Debug, PartialEq, Eq)]
pub enum Rejection {
    InvalidBaseUrl,
    NotTrusted,
    HttpsRequired,
    DnsFailed,
    PrivateAddress,
    ModelsUnreachable,
    ModelsNon2xx,
    ModelsUnreadable,
    ModelsNonJson,
    ModelsUnrecognized,
}

pub open spec fn rejection_reason(r: Rejection) -> Seq<char> {
    match r {
        Rejection::InvalidBaseUrl => "invalid base url"@,
        Rejection::NotTrusted => "not in trusted list"@,
        Rejection::HttpsRequired => "https required"@,
        Rejection::DnsFailed => "dns resolution failed"@,
        Rejection::PrivateAddress => "private or reserved address"@,
        Rejection::ModelsUnreachable => "models endpoint unreachable"@,
        Rejection::ModelsNon2xx => "models endpoint returned non-2xx"@,
        Rejection::ModelsUnreadable => "failed to read models response"@,
        Rejection::ModelsNonJson => "models endpoint returned non-json"@,
        Rejection::ModelsUnrecognized => "models endpoint response not recognized"@,
    }
}

impl Rejection {
    /// The HTTP status of the answer: 403.
    pub fn status(&self) -> (r: u16)
        ensures
            r == 403,
    {
        403
    }

    /// The reason, as the answer words it.
    pub fn reason(&self) -> (r: &'static str)
        ensures
            r@ == rejection_reason(*self),
    {
        match self {
            Rejection::InvalidBaseUrl => "invalid base url",
            Rejection::NotTrusted => "not in trusted list",
            Rejection::HttpsRequired => "https required",
            Rejection::DnsFailed => "dns resolution failed",
            Rejection::PrivateAddress => "private or reserved address",
            Rejection::ModelsUnreachable => "models endpoint unreachable",
            Rejection::ModelsNon2xx => "models endpoint returned non-2xx",
            Rejection::ModelsUnreadable => "failed to read models response",
            Rejection::ModelsNonJson => "models endpoint returned non-json",
            Rejection::ModelsUnrecognized => "models endpoint response not recognized",
        }
    }

    /// The text of the answer: `upstream rejected: ` and the reason.
    pub fn message(&self) -> (r: String)
        ensures
            r@ == "upstream rejected: "@ + rejection_reason(*self),
    {
        let mut m = "upstream rejected: ".to_owned();
        m.append(self.reason());
        m
    }
}

/// What a URL parse gives of a base URL.
#[derive(Clone, Debug)]
pub struct UrlParts {
    pub scheme: String,
    pub username: String,
    pub password: Option<String>,
    pub host: Option<String>,
    /// The explicit port, or the scheme's known default.
    pub port: Option<u16>,
    pub query: Option<String>,
    pub fragment: Option<String>,
}

pub struct UrlPartsView {
    pub scheme: Seq<char>,
    pub username: Seq<char>,
    pub password: Option<Seq<char>>,
    pub host: Option<Seq<char>>,
    pub port: Option<u16>,
    pub query: Option<Seq<char>>,
    pub fragment: Option<Seq<char>>,
}

pub open spec fn opt_view(o: Option<String>) -> Option<Seq<char>> {
    match o {
        Some(s) => Some(s@),
        None => None,
    }
}

impl View for UrlParts {
    type V = UrlPartsView;

    open spec fn view(&self) -> UrlPartsView {
        UrlPartsView {
            scheme: self.scheme@,
            username: self.username@,
            password: opt_view(self.password),
            host: opt_view(self.host),
            port: self.port,
            query: opt_view(self.query),
            fragment: opt_view(self.fragment),
        }
    }
}

/// What `reqwest::Url::parse` (the `url` crate's `Url::parse`) makes of a
/// text: `None` where it fails.
pub uninterp spec fn url_parse(s: Seq<char>) -> Option<UrlPartsView>;

/// Parses `s` with `reqwest::Url::parse` (the `url` crate's `Url::parse`) and
/// hands out the parts that the verification reads. Its contract only ties
/// the result to the parse of `s`; what the parse gives is not stated.
#[verifier::external_body]
fn parse_url(s: &str) -> (r: Option<UrlParts>)
    ensures
        match r {
            Some(p) => url_parse(s@) == Some(p@),
            None => url_parse(s@) is None,
        },
{
    let u = reqwest::Url::parse(s).ok()?;
    Some(UrlParts {
        scheme: u.scheme().to_owned(),
        username: u.username().to_owned(),
        password: u.password().map(str::to_owned),
        host: u.host_str().map(str::to_owned),
        port: u.port_or_known_default(),
        query: u.query().map(str::to_owned),
        fragment: u.fragment().map(str::to_owned),
    })
}

pub open spec fn is_bracket(c: char) -> bool {
    c == '[' || c == ']'
}

pub open spec fn trim_start_brackets(s: Seq<char>) -> Seq<char>
    decreases s.len(),
{
    if s.len() > 0 && is_bracket(s[0]) {
        trim_start_brackets(s.drop_first())
    } else {
        s
    }
}

pub open spec fn trim_end_brackets(s: Seq<char>) -> Seq<char>
    decreases s.len(),
{
    if s.len() > 0 && is_bracket(s.last()) {
        trim_end_brackets(s.drop_last())
    } else {
        s
    }
}

/// `s` without leading and trailing `[` and `]`.
pub open spec fn strip_brackets(s: Seq<char>) -> Seq<char> {
    trim_end_brackets(trim_start_brackets(s))
}

/// `host` without leading and trailing `[` and `]` (an IPv6 literal bare).
pub fn strip_brackets_exec(host: &str) -> (r: String)
    ensures
        r@ == strip_brackets(host@),
{
    let cs = chars_of(host);
    let mut a: usize = 0;
    assert(cs@.skip(0) == cs@);
    while a < cs.len() && (cs[a] == '[' || cs[a] == ']')
        invariant
            a <= cs@.len(),
            trim_start_brackets(cs@.skip(a as int)) == trim_start_brackets(cs@),
        decreases cs@.len() - a,
    {
        assert(cs@.skip(a as int).drop_first() == cs@.skip(a + 1));
        a += 1;
    }
    let mut b: usize = cs.len();
    assert(cs@.subrange(a as int, b as int) == cs@.skip(a as int));
    while b > a && (cs[b - 1] == '[' || cs[b - 1] == ']')
        invariant
            a <= b <= cs@.len(),
            trim_end_brackets(cs@.subrange(a as int, b as int)) == strip_brackets(host@),
            cs@ == host@,
        decreases b,
    {
        assert(cs@.subrange(a as int, b as int).drop_last() == cs@.subrange(a as int, b - 1));
        b -= 1;
    }
    string_of(&cs, a, b)
}

/// Where an upstream that passed the static checks is to be resolved, and
/// what the address check allows.
#[derive(Clone, Debug)]
pub struct Target {
    /// The host, without brackets.
    pub host: String,
    /// The port (443 when the URL gives none and its scheme has no default).
    pub port: u16,
    pub allow_private: bool,
    pub allow_loopback: bool,
}

/// The outcome of the static checks of an upstream.
#[derive(Clone, Debug)]
pub enum Screening {
    /// A trusted upstream: no further check.
    Trusted,
    Rejected(Rejection),
    /// Passed: next come the cache, the address check and the probe.
    Check(Target),
}

pub enum ScreeningView {
    Trusted,
    Rejected(Rejection),
    Check { host: Seq<char>, port: u16, allow_private: bool, allow_loopback: bool },
}

impl View for Screening {
    type V = ScreeningView;

    open spec fn view(&self) -> ScreeningView {
        match self {
            Screening::Trusted => ScreeningView::Trusted,
            Screening::Rejected(r) => ScreeningView::Rejected(*r),
            Screening::Check(t) => ScreeningView::Check {
                host: t.host@,
                port: t.port,
                allow_private: t.allow_private,
                allow_loopback: t.allow_loopback,
            },
        }
    }
}

/// The checks on a parsed base URL: no query, fragment or credentials; a
/// host; `https`, or `http` where private networks are allowed or where
/// loopback is allowed and the host is a loopback host.
pub open spec fn url_screening(c: Config, u: Option<UrlPartsView>) -> ScreeningView {
    match u {
        None => ScreeningView::Rejected(Rejection::InvalidBaseUrl),
        Some(u) => if u.query is Some || u.fragment is Some || u.username.len() > 0
            || u.password is Some {
            ScreeningView::Rejected(Rejection::InvalidBaseUrl)
        } else {
            match u.host {
                None => ScreeningView::Rejected(Rejection::InvalidBaseUrl),
                Some(h) => {
                    let allow_private = private_network_allowed(c);
                    let allow_loopback = c.upstream.allow_loopback;
                    let bare = strip_brackets(h);
                    let loopback = h == "localhost"@ || (ip_text(bare) is Some && ip_is_loopback(
                        ip_text(bare)->0,
                    ));
                    if u.scheme == "https"@ || (u.scheme == "http"@ && (allow_private || (
                    allow_loopback && loopback))) {
                        ScreeningView::Check {
                            host: bare,
                            port: match u.port {
                                Some(p) => p,
                                None => 443,
                            },
                            allow_private,
                            allow_loopback,
                        }
                    } else {
                        ScreeningView::Rejected(Rejection::HttpsRequired)
                    }
                },
            }
        },
    }
}

/// All static checks of an upstream base URL, given what the URL parse made
/// of it: a traversal is refused, a trusted upstream passes at once, only
/// trusted ones pass when so configured, the rest is [`url_screening`].
pub open spec fn upstream_screening(c: Config, base: Seq<char>, u: Option<UrlPartsView>) -> ScreeningView {
    if traversal(base) {
        ScreeningView::Rejected(Rejection::InvalidBaseUrl)
    } else if trusted_base(c, base) {
        ScreeningView::Trusted
    } else if c.upstream.trusted_only {
        ScreeningView::Rejected(Rejection::NotTrusted)
    } else {
        url_screening(c, u)
    }
}

/// Applies the checks on a parsed base URL.
pub fn screen_url(cfg: &Config, url: Option<UrlParts>) -> (r: Screening)
    ensures
        r@ == url_screening(*cfg, match url {
            Some(u) => Some(u@),
            None => None,
        }),
{
    let u = match url {
        None => return Screening::Rejected(Rejection::InvalidBaseUrl),
        Some(u) => u,
    };
    if u.query.is_some() || u.fragment.is_some() || !u.username.as_str().is_empty()
        || u.password.is_some() {
        return Screening::Rejected(Rejection::InvalidBaseUrl);
    }
    let host = match &u.host {
        None => return Screening::Rejected(Rejection::InvalidBaseUrl),
        Some(h) => h,
    };
    let allow_private = cfg.allow_private_network();
    let allow_loopback = cfg.upstream.allow_loopback;
    let bare = strip_brackets_exec(host.as_str());
    let loopback = str_eq(host.as_str(), "localhost") || match parse_ip(bare.as_str()) {
        Some(ip) => ip.is_loopback(),
        None => false,
    };
    let scheme = u.scheme.as_str();
    if str_eq(scheme, "https") || (str_eq(scheme, "http") && (allow_private || (allow_loopback
        && loopback))) {
        let port = match u.port {
            Some(p) => p,
            None => 443,
        };
        Screening::Check(Target { host: bare, port, allow_private, allow_loopback })
    } else {
        Screening::Rejected(Rejection::HttpsRequired)
    }
}

/// The static checks of an upstream base URL; the URL parse is
/// `reqwest::Url::parse`.
pub fn screen_upstream(cfg: &Config, base: &str) -> (r: Screening)
    ensures
        r@ == upstream_screening(*cfg, base@, url_parse(base@)),
{
    if has_traversal(base) {
        return Screening::Rejected(Rejection::InvalidBaseUrl);
    }
    if cfg.is_trusted(base) {
        return Screening::Trusted;
    }
    if cfg.upstream.trusted_only {
        return Screening::Rejected(Rejection::NotTrusted);
    }
    screen_url(cfg, parse_url(base))
}

/// The address check: the host must resolve to at least one address, and
/// none may be forbidden, loopback ones aside where loopback is allowed.
pub open spec fn addresses_verdict(addrs: Seq<Ip>, allow_loopback: bool) -> Result<(), Rejection> {
    if addrs.len() == 0 {
        Err(Rejection::DnsFailed)
    } else if exists|i: int|
        0 <= i < addrs.len() && !(allow_loopback && ip_is_loopback(#[trigger] addrs[i]@))
            && ip_forbidden(addrs[i]@) {
        Err(Rejection::PrivateAddress)
    } else {
        Ok(())
    }
}

/// What the screening guarantees of an upstream that it lets through to
/// the further checks: no traversal, not trusted-only, a parsed URL without
/// query, fragment or credentials, and `https` unless plain `http` is
/// allowed for it (private networks allowed, or loopback allowed and the
/// host is a loopback host). With `trusted_only`, only trusted upstreams pass.
pub proof fn lemma_screening_guards(c: Config, base: Seq<char>, u: Option<UrlPartsView>)
    ensures
        traversal(base) ==> upstream_screening(c, base, u) == ScreeningView::Rejected(
            Rejection::InvalidBaseUrl,
        ),
        c.upstream.trusted_only ==> (upstream_screening(c, base, u) is Trusted
            || upstream_screening(c, base, u) is Rejected),
        upstream_screening(c, base, u) is Trusted ==> trusted_base(c, base),
        upstream_screening(c, base, u) is Check ==> {
            &&& !traversal(base)
            &&& !c.upstream.trusted_only
            &&& u is Some
            &&& u->0.query is None && u->0.fragment is None && u->0.username.len() == 0
                && u->0.password is None
            &&& u->0.host is Some
            &&& (u->0.scheme == "https"@ || (u->0.scheme == "http"@ && (private_network_allowed(c)
                || (c.upstream.allow_loopback && (u->0.host->0 == "localhost"@ || (ip_text(
                strip_brackets(u->0.host->0),
            ) is Some && ip_is_loopback(ip_text(strip_brackets(u->0.host->0))->0)))))))
        },
{
}

/// A base that no static check refuses: no traversal, not trusted, trusted
/// upstreams not required, and a parsed URL without query, fragment or
/// credentials that has a host.
pub open spec fn plain_untrusted(c: Config, base: Seq<char>, u: UrlPartsView) -> bool {
    &&& !traversal(base)
    &&& !trusted_base(c, base)
    &&& !c.upstream.trusted_only
    &&& u.query is None
    &&& u.fragment is None
    &&& u.username.len() == 0
    &&& u.password is None
    &&& u.host is Some
}

/// The target such a base is checked at: the host without brackets and
/// the port, 443 when the URL gives none.
pub open spec fn target_for(c: Config, u: UrlPartsView) -> ScreeningView {
    ScreeningView::Check {
        host: strip_brackets(u.host->0),
        port: if u.port is Some {
            u.port->0
        } else {
            443
        },
        allow_private: private_network_allowed(c),
        allow_loopback: c.upstream.allow_loopback,
    }
}

/// What the scheme decides for such a base: `https` always passes; `http`
/// passes where private networks are allowed, or where loopback is allowed
/// and the host is `localhost` or a loopback address; plain `http` to any
/// other host, and every other scheme, is refused as needing `https`.
pub proof fn lemma_scheme_rules(c: Config, base: Seq<char>, u: UrlPartsView)
    requires
        plain_untrusted(c, base, u),
    ensures
        u.scheme == "https"@ ==> upstream_screening(c, base, Some(u)) == target_for(c, u),
        u.scheme == "http"@ && private_network_allowed(c) ==> upstream_screening(c, base, Some(u))
            == target_for(c, u),
        u.scheme == "http"@ && c.upstream.allow_loopback && u.host->0 == "localhost"@
            ==> upstream_screening(c, base, Some(u)) == target_for(c, u),
        forall|ip: IpView|
            u.scheme == "http"@ && c.upstream.allow_loopback && ip_text(strip_brackets(u.host->0))
                == Some(ip) && ip_is_loopback(ip) ==> upstream_screening(c, base, Some(u))
                == target_for(c, u),
        u.scheme == "http"@ && !private_network_allowed(c) && !c.upstream.allow_loopback
            ==> upstream_screening(c, base, Some(u)) == ScreeningView::Rejected(
            Rejection::HttpsRequired,
        ),
        u.scheme != "https"@ && u.scheme != "http"@ ==> upstream_screening(c, base, Some(u))
            == ScreeningView::Rejected(Rejection::HttpsRequired),
{
    reveal_strlit("http");
    reveal_strlit("https");
    assert("http"@.len() != "https"@.len());
}

/// Each configured trusted upstream, the last one included, passes the
/// static checks at once unless it holds a traversal, whatever the URL
/// parse makes of it.
pub proof fn lemma_trusted_screened(c: Config, i: int, u: Option<UrlPartsView>)
    requires
        0 <= i < c.upstream.trusted@.len(),
        !traversal(c.upstream.trusted@[i]@),
    ensures
        upstream_screening(c, c.upstream.trusted@[i]@, u) == ScreeningView::Trusted,
{
    lemma_trusted_members(c, c.upstream.trusted@[i]@);
}

/// An address check that passes leaves no forbidden address among those
/// resolved, loopback ones aside where loopback is allowed.
pub proof fn lemma_address_check_sound(addrs: Seq<Ip>, allow_loopback: bool, i: int)
    requires
        addresses_verdict(addrs, allow_loopback) is Ok,
        0 <= i < addrs.len(),
    ensures
        !ip_forbidden(addrs[i]@) || (allow_loopback && ip_is_loopback(addrs[i]@)),
{
}

/// The address check over what was resolved: no address is a failed
/// resolution; one forbidden address that is not an allowed loopback one
/// refuses the upstream as a private address; otherwise, each address being
/// public or an allowed loopback one, it passes.
pub proof fn lemma_address_check_exact(addrs: Seq<Ip>, allow_loopback: bool)
    ensures
        addrs.len() == 0 ==> addresses_verdict(addrs, allow_loopback) == Err::<(), Rejection>(
            Rejection::DnsFailed,
        ),
        (addrs.len() > 0 && exists|i: int|
            0 <= i < addrs.len() && ip_forbidden(#[trigger] addrs[i]@) && !(allow_loopback
                && ip_is_loopback(addrs[i]@))) ==> addresses_verdict(addrs, allow_loopback) == Err::<
            (),
            Rejection,
        >(Rejection::PrivateAddress),
        (addrs.len() > 0 && forall|i: int|
            0 <= i < addrs.len() ==> !ip_forbidden(#[trigger] addrs[i]@) || (allow_loopback
                && ip_is_loopback(addrs[i]@))) ==> addresses_verdict(addrs, allow_loopback) == Ok::<
            (),
            Rejection,
        >(()),
{
}

/// Checks the addresses that the upstream host resolved to.
pub fn check_addresses(addrs: &Vec<Ip>, allow_loopback: bool) -> (r: Result<(), Rejection>)
    ensures
        r == addresses_verdict(addrs@, allow_loopback),
{
    if addrs.len() == 0 {
        return Err(Rejection::DnsFailed);
    }
    let mut i: usize = 0;
    while i < addrs.len()
        invariant
            i <= addrs@.len(),
            forall|j: int|
                0 <= j < i ==> !(!(allow_loopback && ip_is_loopback(#[trigger] addrs@[j]@))
                    && ip_forbidden(addrs@[j]@)),
        decreases addrs@.len() - i,
    {
        let a = addrs[i];
        if !(allow_loopback && a.is_loopback()) && is_forbidden_ip(a) {
            return Err(Rejection::PrivateAddress);
        }
        i += 1;
    }
    Ok(())
}

/// The request headers that a `/v1/models` probe carries over from the
/// client's request, when present: its credentials and API version.
pub fn probe_headers() -> (r: Vec<&'static str>)
    ensures
        r@.len() == 3,
        r@[0]@ == "authorization"@,
        r@[1]@ == "x-api-key"@,
        r@[2]@ == "anthropic-version"@,
{
    vec!["authorization", "x-api-key", "anthropic-version"]
}

/// A probe answer must have a success status (2xx).
pub fn judge_probe_status(status: u16) -> (r: Result<(), Rejection>)
    ensures
        r == if 200 <= status <= 299 {
            Ok::<(), Rejection>(())
        } else {
            Err(Rejection::ModelsNon2xx)
        },
{
    if 200 <= status && status <= 299 {
        Ok(())
    } else {
        Err(Rejection::ModelsNon2xx)
    }
}

/// What a `/v1/models` answer holds: not JSON; JSON without a `data`
/// array; or, for each element of `data`, whether it has a string `id`.
#[derive(Clone, Debug)]
pub enum ModelListing {
    NotJson,
    NoDataArray,
    Entries(Vec<bool>),
}

pub open spec fn listing_view(l: ModelListing) -> Option<Option<Seq<bool>>> {
    match l {
        ModelListing::NotJson => None,
        ModelListing::NoDataArray => Some(None),
        ModelListing::Entries(f) => Some(Some(f@)),
    }
}

/// An element of a model list names its model by a string `id`.
pub open spec fn has_string_id(j: JsonView) -> bool {
    match object_value(j, "id"@) {
        Some(id) => id is Str,
        None => false,
    }
}

/// The string-`id` flags of the elements of the document's `data` array;
/// nothing when `data` is missing or not an array.
pub open spec fn model_entries(j: JsonView) -> Option<Seq<bool>> {
    match object_value(j, "data"@) {
        Some(JsonView::Array(items)) => Some(items.map_values(|m: JsonView| has_string_id(m))),
        _ => None,
    }
}

/// What a `/v1/models` body holds, given what the JSON parse made of it.
pub open spec fn models_listing(parsed: Option<JsonView>) -> Option<Option<Seq<bool>>> {
    match parsed {
        None => None,
        Some(j) => Some(model_entries(j)),
    }
}

/// Reads a parsed `/v1/models` document: for each element of its `data`
/// array, whether it has a string `id`.
pub fn read_listing(doc: &serde_json::Value) -> (r: ModelListing)
    ensures
        listing_view(r) == models_listing(Some(json_content(*doc))),
{
    let data = match json_get(doc, "data") {
        None => return ModelListing::NoDataArray,
        Some(d) => d,
    };
    let items = match json_as_array(data) {
        None => return ModelListing::NoDataArray,
        Some(a) => a,
    };
    let ghost iv = items@.map_values(|x: serde_json::Value| json_content(x));
    let mut flags: Vec<bool> = Vec::new();
    let mut i: usize = 0;
    while i < items.len()
        invariant
            iv == items@.map_values(|x: serde_json::Value| json_content(x)),
            i <= items@.len(),
            flags@ == iv.take(i as int).map_values(|m: JsonView| has_string_id(m)),
        decreases items@.len() - i,
    {
        let flag = match json_get(&items[i], "id") {
            Some(id) => json_is_string(id),
            None => false,
        };
        assert(iv[i as int] == json_content(items@[i as int]));
        flags.push(flag);
        assert(flags@ =~= iv.take(i + 1).map_values(|m: JsonView| has_string_id(m)));
        i += 1;
    }
    assert(iv.take(items@.len() as int) == iv);
    ModelListing::Entries(flags)
}

/// A body that looks like a model list: a non-empty `data` array whose
/// elements all have a string `id`.
pub open spec fn listing_verdict(l: Option<Option<Seq<bool>>>) -> Result<(), Rejection> {
    match l {
        None => Err(Rejection::ModelsNonJson),
        Some(None) => Err(Rejection::ModelsUnrecognized),
        Some(Some(f)) => if f.len() > 0 && forall|i: int| 0 <= i < f.len() ==> #[trigger] f[i] {
            Ok(())
        } else {
            Err(Rejection::ModelsUnrecognized)
        },
    }
}

/// A parsed `/v1/models` document is a model list: its `data` is an array
/// of at least one element, and every element has a string `id`.
pub open spec fn is_model_list(j: JsonView) -> bool {
    match object_value(j, "data"@) {
        Some(JsonView::Array(items)) => items.len() >= 1 && forall|i: int|
            0 <= i < items.len() ==> match object_value(#[trigger] items[i], "id"@) {
                Some(JsonView::Str(_)) => true,
                _ => false,
            },
        _ => false,
    }
}

/// The verdict on a `/v1/models` body: accepted exactly when it parses to a
/// model list, however many models it lists; refused as not JSON when it
/// does not parse, and as unrecognized when it parses to anything else.
pub proof fn lemma_models_body_exact(parsed: Option<JsonView>)
    ensures
        parsed is None ==> listing_verdict(models_listing(parsed)) == Err::<(), Rejection>(
            Rejection::ModelsNonJson,
        ),
        forall|j: JsonView|
            parsed == Some(j) && is_model_list(j) ==> listing_verdict(models_listing(parsed))
                == Ok::<(), Rejection>(()),
        forall|j: JsonView|
            parsed == Some(j) && !is_model_list(j) ==> listing_verdict(models_listing(parsed))
                == Err::<(), Rejection>(Rejection::ModelsUnrecognized),
{
    if let Some(j) = parsed {
        match object_value(j, "data"@) {
            Some(JsonView::Array(items)) => {
                let f = items.map_values(|m: JsonView| has_string_id(m));
                assert(model_entries(j) == Some(f));
                assert forall|i: int| 0 <= i < items.len() implies f[i] == match object_value(
                    #[trigger] items[i],
                    "id"@,
                ) {
                    Some(JsonView::Str(_)) => true,
                    _ => false,
                } by {
                    assert(f[i] == has_string_id(items[i]));
                }
                if is_model_list(j) {
                    assert(forall|i: int| 0 <= i < f.len() ==> #[trigger] f[i]);
                } else if items.len() >= 1 {
                    let i = choose|i: int|
                        0 <= i < items.len() && !match object_value(#[trigger] items[i], "id"@) {
                            Some(JsonView::Str(_)) => true,
                            _ => false,
                        };
                    assert(!f[i]);
                }
            },
            _ => {},
        }
    }
}

/// Judges what a `/v1/models` answer holds.
pub fn judge_listing(listing: &ModelListing) -> (r: Result<(), Rejection>)
    ensures
        r == listing_verdict(listing_view(*listing)),
{
    match listing {
        ModelListing::NotJson => Err(Rejection::ModelsNonJson),
        ModelListing::NoDataArray => Err(Rejection::ModelsUnrecognized),
        ModelListing::Entries(f) => {
            if f.len() == 0 {
                return Err(Rejection::ModelsUnrecognized);
            }
            let mut i: usize = 0;
            while i < f.len()
                invariant
                    listing_view(*listing) == Some(Some(f@)),
                    i <= f@.len(),
                    forall|j: int| 0 <= j < i ==> #[trigger] f@[j],
                decreases f@.len() - i,
            {
                if !f[i] {
                    assert(!f@[i as int]);
                    return Err(Rejection::ModelsUnrecognized);
                }
                i += 1;
            }
            Ok(())
        },
    }
}

/// Judges the body of a successful `/v1/models` answer.
pub fn check_models_body(bytes: &[u8]) -> (r: Result<(), Rejection>)
    ensures
        r == listing_verdict(models_listing(json_parse(bytes@))),
{
    match parse_json(bytes) {
        None => judge_listing(&ModelListing::NotJson),
        Some(doc) => judge_listing(&read_listing(&doc)),
    }
}

} // verus!
