//! Server configuration: its defaults, its normal form, and the rules that
//! read it (which upstreams are trusted, which headers pass).

use vstd::prelude::*;
use crate::ip::{ip_is_loopback, ip_text, parse_ip};
use crate::text::{
    ascii_lowercase, chars_of, is_prefix, starts_with, str_eq, to_ascii_lowercase,
    trim_end_char, trim_end_matches_char, views,
};

verus! {

/// The whole configuration.
#[derive(Clone, Debug)]
pub struct Config {
    pub server: Server,
    pub upstream: Upstream,
    pub headers: Headers,
    pub limits: Limits,
}

/// Where the server listens.
#[derive(Clone, Debug)]
pub struct Server {
    /// The listening address; `0.0.0.0` serves the public network.
    pub host: String,
    pub port: u16,
    /// Certificate and key to serve HTTPS with; plain HTTP without them.
    pub tls: Option<Tls>,
}

/// PEM files for HTTPS.
#[derive(Clone, Debug)]
pub struct Tls {
    pub cert_file: String,
    pub key_file: String,
}

/// Which upstreams the proxy may reach.
#[derive(Clone, Debug)]
pub struct Upstream {
    /// Allows `http://` upstreams and loopback, private and link-local
    /// addresses. When unset: allowed when the server listens on a loopback
    /// address, refused otherwise.
    pub allow_private_network: Option<bool>,
    /// Allows `http://` upstreams on a loopback host, and loopback addresses,
    /// even where private networks are refused.
    pub allow_loopback: bool,
    /// Trusted upstream base URLs (no trailing `/`); they skip verification.
    pub trusted: Vec<String>,
    /// Only the upstreams in `trusted` are allowed.
    pub trusted_only: bool,
    /// Untrusted upstreams must answer `GET /v1/models` like an LLM API.
    pub verify_models_endpoint: bool,
    /// How many seconds a verification is remembered.
    pub verify_ttl_secs: u64,
}

/// Header filtering. A rule is a lowercase name matched exactly, or a
/// prefix followed by `*`.
#[derive(Clone, Debug)]
pub struct Headers {
    /// When non-empty, only the request headers listed here are forwarded.
    pub request_allow: Vec<String>,
    /// Request headers that are never forwarded to the upstream.
    pub request_deny: Vec<String>,
    /// When non-empty, only the response headers listed here are returned.
    pub response_allow: Vec<String>,
    /// Response headers that are never returned to the client.
    pub response_deny: Vec<String>,
}

/// Sizes and timeouts.
#[derive(Clone, Debug)]
pub struct Limits {
    pub max_body_bytes: usize,
    pub connect_timeout_secs: u64,
    /// The longest time for reading a client's request body.
    pub body_read_timeout_secs: u64,
    /// The longest wait for the upstream's response headers (queueing included).
    pub upstream_headers_timeout_secs: u64,
    /// The longest gap between two chunks of an event stream.
    pub stream_idle_timeout_secs: u64,
    /// The whole timeout of a `/v1/models` verification request.
    pub verify_timeout_secs: u64,
}

// ---------- defaults ----------

/// The upstreams trusted out of the box.
pub open spec fn default_trusted() -> Seq<Seq<char>> {
    seq![
        "https://api.openai.com"@,
        "https://api.anthropic.com"@,
        "https://api.x.ai"@,
        "https://ai-gateway.vercel.sh"@,
        "https://api.deepseek.com"@,
        "https://api.moonshot.cn"@,
        "https://api.minimaxi.com"@,
        "https://api.minimax.io"@,
        "https://api.xiaomimimo.com"@,
        "https://dashscope.aliyuncs.com"@,
        "https://openrouter.ai/api"@,
        "https://api.302.ai"@,
    ]
}

/// The request headers denied out of the box.
pub open spec fn default_request_deny() -> Seq<Seq<char>> {
    seq![
        "cookie"@,
        "origin"@,
        "referer"@,
        "via"@,
        "forwarded"@,
        "x-forwarded-*"@,
        "x-real-ip"@,
        "cf-*"@,
        "fly-*"@,
        "sec-*"@,
    ]
}

pub open spec fn is_default_server(s: Server) -> bool {
    s.host@ == "127.0.0.1"@ && s.port == 3000 && s.tls is None
}

pub open spec fn is_default_upstream(u: Upstream) -> bool {
    &&& u.allow_private_network is None
    &&& !u.allow_loopback
    &&& views(u.trusted@) == default_trusted()
    &&& !u.trusted_only
    &&& u.verify_models_endpoint
    &&& u.verify_ttl_secs == 3600
}

pub open spec fn is_default_headers(h: Headers) -> bool {
    &&& h.request_allow@.len() == 0
    &&& views(h.request_deny@) == default_request_deny()
    &&& h.response_allow@.len() == 0
    &&& views(h.response_deny@) == seq!["set-cookie"@]
}

pub open spec fn is_default_limits(l: Limits) -> bool {
    &&& l.max_body_bytes == 8 * 1024 * 1024
    &&& l.connect_timeout_secs == 10
    &&& l.body_read_timeout_secs == 30
    &&& l.upstream_headers_timeout_secs == 120
    &&& l.stream_idle_timeout_secs == 90
    &&& l.verify_timeout_secs == 10
}

fn strings(items: &[&str]) -> (v: Vec<String>)
    ensures
        v@.len() == items@.len(),
        forall|i: int| 0 <= i < items@.len() ==> (#[trigger] v@[i])@ == items@[i]@,
{
    let mut v: Vec<String> = Vec::new();
    let mut i: usize = 0;
    while i < items.len()
        invariant
            i <= items@.len(),
            v@.len() == i,
            forall|j: int| 0 <= j < i ==> (#[trigger] v@[j])@ == items@[j]@,
        decreases items@.len() - i,
    {
        v.push(items[i].to_owned());
        i += 1;
    }
    v
}

impl Default for Server {
    fn default() -> (s: Self)
        ensures
            is_default_server(s),
    {
        Server { host: "127.0.0.1".to_owned(), port: 3000, tls: None }
    }
}

impl Default for Upstream {
    fn default() -> (u: Self)
        ensures
            is_default_upstream(u),
    {
        let items = [
            // Leading international models
            "https://api.openai.com",
            "https://api.anthropic.com",
            "https://api.x.ai",
            "https://ai-gateway.vercel.sh",
            // Chinese models
            "https://api.deepseek.com",
            "https://api.moonshot.cn",
            "https://api.minimaxi.com",
            "https://api.minimax.io",
            "https://api.xiaomimimo.com",
            "https://dashscope.aliyuncs.com",
            // Relays
            "https://openrouter.ai/api",
            "https://api.302.ai",
        ];
        let trusted = strings(&items);
        assert(views(trusted@) =~= default_trusted());
        Upstream {
            allow_private_network: None,
            allow_loopback: false,
            trusted,
            trusted_only: false,
            verify_models_endpoint: true,
            verify_ttl_secs: 3600,
        }
    }
}

impl Default for Headers {
    fn default() -> (h: Self)
        ensures
            is_default_headers(h),
    {
        let deny = [
            "cookie",
            "origin",
            "referer",
            "via",
            "forwarded",
            "x-forwarded-*",
            "x-real-ip",
            "cf-*",
            "fly-*",
            "sec-*",
        ];
        let request_deny = strings(&deny);
        assert(views(request_deny@) =~= default_request_deny());
        let response_deny = strings(&["set-cookie"]);
        assert(views(response_deny@) =~= seq!["set-cookie"@]);
        Headers { request_allow: Vec::new(), request_deny, response_allow: Vec::new(), response_deny }
    }
}

impl Default for Limits {
    fn default() -> (l: Self)
        ensures
            is_default_limits(l),
    {
        Limits {
            max_body_bytes: 8 * 1024 * 1024,
            connect_timeout_secs: 10,
            body_read_timeout_secs: 30,
            upstream_headers_timeout_secs: 120,
            stream_idle_timeout_secs: 90,
            verify_timeout_secs: 10,
        }
    }
}

impl Default for Config {
    fn default() -> (c: Self)
        ensures
            is_default_server(c.server),
            is_default_upstream(c.upstream),
            is_default_headers(c.headers),
            is_default_limits(c.limits),
    {
        Config {
            server: Server::default(),
            upstream: Upstream::default(),
            headers: Headers::default(),
            limits: Limits::default(),
        }
    }
}

// ---------- rules ----------

/// A trusted base URL in normal form: no trailing `/`.
pub open spec fn normal_base(s: Seq<char>) -> bool {
    !(s.len() > 0 && s.last() == '/')
}

/// A header rule matches a name: a rule ending in `*` matches every name
/// that starts with what comes before the `*`; any other rule matches
/// itself only.
pub open spec fn rule_matches(name: Seq<char>, rule: Seq<char>) -> bool {
    if rule.len() > 0 && rule.last() == '*' {
        is_prefix(rule.drop_last(), name)
    } else {
        name == rule
    }
}

pub open spec fn any_rule_matches(name: Seq<char>, rules: Seq<Seq<char>>) -> bool {
    exists|i: int| 0 <= i < rules.len() && rule_matches(name, #[trigger] rules[i])
}

/// A header passes when the allow list is empty or one of its rules
/// matches, and no rule of the deny list matches.
pub open spec fn header_passes(name: Seq<char>, allow: Seq<Seq<char>>, deny: Seq<Seq<char>>) -> bool {
    (allow.len() == 0 || any_rule_matches(name, allow)) && !any_rule_matches(name, deny)
}

/// `rule` ends in `*`, and `name` begins with what comes before it.
pub open spec fn star_rule_covers(rule: Seq<char>, name: Seq<char>) -> bool {
    &&& rule.len() > 0
    &&& rule[rule.len() - 1] == '*'
    &&& rule.len() - 1 <= name.len()
    &&& forall|k: int| 0 <= k < rule.len() - 1 ==> #[trigger] name[k] == rule[k]
}

proof fn lemma_star_rule(rule: Seq<char>, name: Seq<char>)
    requires
        star_rule_covers(rule, name),
    ensures
        rule_matches(name, rule),
{
    assert(name.take(rule.len() - 1) =~= rule.drop_last());
}

/// The header rules. A deny rule equal to the name refuses it, and a deny
/// rule `p*` refuses every name that begins with `p`, whatever the allow
/// list says. With both lists empty every name passes. A name equal to a
/// rule of the allow list, or beginning with `p` for an allow rule `p*`,
/// passes unless a deny rule refuses it; with a non-empty allow list, a name
/// that no allow rule matches is refused.
pub proof fn lemma_header_rules(name: Seq<char>, allow: Seq<Seq<char>>, deny: Seq<Seq<char>>)
    ensures
        forall|i: int| 0 <= i < deny.len() && #[trigger] deny[i] == name ==> !header_passes(name, allow, deny),
        forall|i: int|
            0 <= i < deny.len() && star_rule_covers(#[trigger] deny[i], name) ==> !header_passes(
                name,
                allow,
                deny,
            ),
        allow.len() == 0 && deny.len() == 0 ==> header_passes(name, allow, deny),
        forall|i: int|
            0 <= i < allow.len() && star_rule_covers(#[trigger] allow[i], name) && !any_rule_matches(
                name,
                deny,
            ) ==> header_passes(name, allow, deny),
        forall|i: int|
            0 <= i < allow.len() && #[trigger] allow[i] == name && !any_rule_matches(name, deny)
                ==> header_passes(name, allow, deny),
        allow.len() > 0 && (forall|i: int|
            0 <= i < allow.len() ==> !rule_matches(name, #[trigger] allow[i])) ==> !header_passes(
            name,
            allow,
            deny,
        ),
{
    assert forall|i: int| 0 <= i < deny.len() && #[trigger] deny[i] == name implies !header_passes(
        name,
        allow,
        deny,
    ) by {
        if name.len() > 0 && name.last() == '*' {
            assert(name.take(name.len() - 1) =~= name.drop_last());
        }
        assert(rule_matches(name, deny[i]));
    }
    assert forall|i: int| 0 <= i < deny.len() && star_rule_covers(#[trigger] deny[i], name) implies !header_passes(
        name,
        allow,
        deny,
    ) by {
        lemma_star_rule(deny[i], name);
    }
    assert forall|i: int|
        0 <= i < allow.len() && star_rule_covers(#[trigger] allow[i], name) && !any_rule_matches(
            name,
            deny,
        ) implies header_passes(name, allow, deny) by {
        lemma_star_rule(allow[i], name);
    }
    assert forall|i: int|
        0 <= i < allow.len() && #[trigger] allow[i] == name && !any_rule_matches(name, deny) implies header_passes(
        name,
        allow,
        deny,
    ) by {
        if name.len() > 0 && name.last() == '*' {
            assert(name.take(name.len() - 1) =~= name.drop_last());
        }
        assert(rule_matches(name, allow[i]));
    }
}

/// `localhost`, or an IP address on the loopback.
pub open spec fn loopback_host(host: Seq<char>) -> bool {
    host == "localhost"@ || (ip_text(host) is Some && ip_is_loopback(ip_text(host)->0))
}

pub open spec fn private_network_allowed(c: Config) -> bool {
    match c.upstream.allow_private_network {
        Some(b) => b,
        None => loopback_host(c.server.host@),
    }
}

/// `https` with TLS, `http` without.
pub open spec fn scheme_of(c: Config) -> Seq<char> {
    if c.server.tls is Some {
        "https"@
    } else {
        "http"@
    }
}

pub open spec fn trusted_base(c: Config, base: Seq<char>) -> bool {
    views(c.upstream.trusted@).contains(base)
}

/// A base URL is trusted exactly when it is one of the configured trusted
/// upstreams, the last one included.
pub proof fn lemma_trusted_members(c: Config, base: Seq<char>)
    ensures
        trusted_base(c, base) <==> exists|i: int|
            0 <= i < c.upstream.trusted@.len() && #[trigger] c.upstream.trusted@[i]@ == base,
        forall|i: int|
            0 <= i < c.upstream.trusted@.len() ==> trusted_base(c, #[trigger] c.upstream.trusted@[i]@),
{
    let t = views(c.upstream.trusted@);
    assert forall|i: int| 0 <= i < c.upstream.trusted@.len() implies trusted_base(
        c,
        #[trigger] c.upstream.trusted@[i]@,
    ) by {
        assert(t[i] == c.upstream.trusted@[i]@);
    }
    if trusted_base(c, base) {
        let k = choose|k: int| 0 <= k < t.len() && t[k] == base;
        assert(c.upstream.trusted@[k]@ == base);
    }
}

/// Every string of `a` without trailing `/` gives `b`.
pub open spec fn trimmed_list(a: Seq<Seq<char>>, b: Seq<Seq<char>>) -> bool {
    b == a.map_values(|s: Seq<char>| trim_end_char(s, '/'))
}

/// Every string of `a` in ASCII lowercase gives `b`.
pub open spec fn lowered_list(a: Seq<Seq<char>>, b: Seq<Seq<char>>) -> bool {
    b == a.map_values(|s: Seq<char>| ascii_lowercase(s))
}

/// `n` is `c` in normal form: trusted base URLs without trailing `/`,
/// header rules in lowercase, everything else unchanged.
pub open spec fn normalized(c: Config, n: Config) -> bool {
    &&& n.server == c.server
    &&& n.limits == c.limits
    &&& n.upstream.allow_private_network == c.upstream.allow_private_network
    &&& n.upstream.allow_loopback == c.upstream.allow_loopback
    &&& n.upstream.trusted_only == c.upstream.trusted_only
    &&& n.upstream.verify_models_endpoint == c.upstream.verify_models_endpoint
    &&& n.upstream.verify_ttl_secs == c.upstream.verify_ttl_secs
    &&& trimmed_list(views(c.upstream.trusted@), views(n.upstream.trusted@))
    &&& lowered_list(views(c.headers.request_allow@), views(n.headers.request_allow@))
    &&& lowered_list(views(c.headers.request_deny@), views(n.headers.request_deny@))
    &&& lowered_list(views(c.headers.response_allow@), views(n.headers.response_allow@))
    &&& lowered_list(views(c.headers.response_deny@), views(n.headers.response_deny@))
}

/// Normalizing is idempotent: normalizing a normalized configuration again
/// changes none of its views; and in normal form no trusted base URL ends
/// in `/`.
pub proof fn lemma_normalize_idempotent(c: Config, once: Config, twice: Config)
    requires
        normalized(c, once),
        normalized(once, twice),
    ensures
        twice.server == once.server,
        twice.limits == once.limits,
        views(twice.upstream.trusted@) == views(once.upstream.trusted@),
        views(twice.headers.request_allow@) == views(once.headers.request_allow@),
        views(twice.headers.request_deny@) == views(once.headers.request_deny@),
        views(twice.headers.response_allow@) == views(once.headers.response_allow@),
        views(twice.headers.response_deny@) == views(once.headers.response_deny@),
        forall|i: int|
            0 <= i < once.upstream.trusted@.len() ==> normal_base(
                #[trigger] views(once.upstream.trusted@)[i],
            ),
{
    let t0 = views(c.upstream.trusted@);
    let t1 = views(once.upstream.trusted@);
    assert forall|i: int| 0 <= i < t1.len() implies normal_base(#[trigger] t1[i])
        && trim_end_char(t1[i], '/') == t1[i] by {
        crate::text::lemma_trim_end_char_idempotent(t0[i], '/');
    }
    assert(views(twice.upstream.trusted@) =~= t1);
    assert forall|s: Seq<char>| ascii_lowercase(ascii_lowercase(s)) == ascii_lowercase(s) by {
        crate::text::lemma_ascii_lowercase_idempotent(s);
    }
    assert(views(twice.headers.request_allow@) =~= views(once.headers.request_allow@));
    assert(views(twice.headers.request_deny@) =~= views(once.headers.request_deny@));
    assert(views(twice.headers.response_allow@) =~= views(once.headers.response_allow@));
    assert(views(twice.headers.response_deny@) =~= views(once.headers.response_deny@));
}

/// Every string of `v` without trailing `/`.
fn trim_all(v: &mut Vec<String>)
    ensures
        trimmed_list(views(old(v)@), views(final(v)@)),
{
    let ghost orig = views(v@);
    let mut i: usize = 0;
    while i < v.len()
        invariant
            v@.len() == orig.len(),
            i <= v@.len(),
            forall|j: int| 0 <= j < i ==> (#[trigger] v@[j])@ == trim_end_char(orig[j], '/'),
            forall|j: int| i <= j < v@.len() ==> (#[trigger] v@[j])@ == orig[j],
        decreases v@.len() - i,
    {
        let t = trim_end_matches_char(v[i].as_str(), '/');
        v.set(i, t);
        i += 1;
    }
    assert(views(v@) =~= orig.map_values(|s: Seq<char>| trim_end_char(s, '/')));
}

/// Every string of `v` in ASCII lowercase.
fn lower_all(v: &mut Vec<String>)
    ensures
        lowered_list(views(old(v)@), views(final(v)@)),
{
    let ghost orig = views(v@);
    let mut i: usize = 0;
    while i < v.len()
        invariant
            v@.len() == orig.len(),
            i <= v@.len(),
            forall|j: int| 0 <= j < i ==> (#[trigger] v@[j])@ == ascii_lowercase(orig[j]),
            forall|j: int| i <= j < v@.len() ==> (#[trigger] v@[j])@ == orig[j],
        decreases v@.len() - i,
    {
        let t = to_ascii_lowercase(v[i].as_str());
        v.set(i, t);
        i += 1;
    }
    assert(views(v@) =~= orig.map_values(|s: Seq<char>| ascii_lowercase(s)));
}

/// Whether some rule of `rules` matches `name`.
fn any_matches(name: &str, rules: &[String]) -> (r: bool)
    ensures
        r == any_rule_matches(name@, views(rules@)),
{
    let mut i: usize = 0;
    while i < rules.len()
        invariant
            i <= rules@.len(),
            forall|j: int| 0 <= j < i ==> !rule_matches(name@, #[trigger] views(rules@)[j]),
        decreases rules@.len() - i,
    {
        if Config::matches(name, rules[i].as_str()) {
            assert(rule_matches(name@, views(rules@)[i as int]));
            return true;
        }
        i += 1;
    }
    false
}

impl Config {
    /// Puts the configuration in normal form: trusted base URLs lose their
    /// trailing `/`, header rules become lowercase. Nothing else changes.
    pub fn normalize(&mut self)
        ensures
            normalized(*old(self), *final(self)),
    {
        trim_all(&mut self.upstream.trusted);
        lower_all(&mut self.headers.request_allow);
        lower_all(&mut self.headers.request_deny);
        lower_all(&mut self.headers.response_allow);
        lower_all(&mut self.headers.response_deny);
    }

    /// Whether the server listens on `localhost` or a loopback address.
    pub fn listens_on_loopback(&self) -> (r: bool)
        ensures
            r == loopback_host(self.server.host@),
    {
        if str_eq(self.server.host.as_str(), "localhost") {
            return true;
        }
        match parse_ip(self.server.host.as_str()) {
            Some(ip) => ip.is_loopback(),
            None => false,
        }
    }

    /// Whether private-network upstreams are allowed: as configured, or,
    /// when unset, exactly when the server listens on a loopback address.
    pub fn allow_private_network(&self) -> (r: bool)
        ensures
            r == private_network_allowed(*self),
    {
        match self.upstream.allow_private_network {
            Some(b) => b,
            None => self.listens_on_loopback(),
        }
    }

    /// Whether `base` is one of the trusted upstreams.
    pub fn is_trusted(&self, base: &str) -> (r: bool)
        ensures
            r == trusted_base(*self, base@),
    {
        let ghost t = views(self.upstream.trusted@);
        let mut i: usize = 0;
        while i < self.upstream.trusted.len()
            invariant
                t == views(self.upstream.trusted@),
                i <= t.len(),
                forall|j: int| 0 <= j < i ==> t[j] != base@,
            decreases t.len() - i,
        {
            if str_eq(self.upstream.trusted[i].as_str(), base) {
                assert(t[i as int] == base@);
                return true;
            }
            i += 1;
        }
        false
    }

    /// Whether a request header named `name` (lowercase, as HTTP header
    /// names are kept) is forwarded to the upstream.
    pub fn forwards_request_header(&self, name: &str) -> (r: bool)
        ensures
            r == header_passes(
                name@,
                views(self.headers.request_allow@),
                views(self.headers.request_deny@),
            ),
    {
        Self::passes(name, self.headers.request_allow.as_slice(), self.headers.request_deny.as_slice())
    }

    /// Whether a response header named `name` is returned to the client.
    pub fn forwards_response_header(&self, name: &str) -> (r: bool)
        ensures
            r == header_passes(
                name@,
                views(self.headers.response_allow@),
                views(self.headers.response_deny@),
            ),
    {
        Self::passes(
            name,
            self.headers.response_allow.as_slice(),
            self.headers.response_deny.as_slice(),
        )
    }

    /// Whether `name` passes the allow list `allow` and the deny list `deny`.
    pub fn passes(name: &str, allow: &[String], deny: &[String]) -> (r: bool)
        ensures
            r == header_passes(name@, views(allow@), views(deny@)),
    {
        if allow.len() != 0 && !any_matches(name, allow) {
            return false;
        }
        !any_matches(name, deny)
    }

    /// Whether the header rule `pattern` matches `name`.
    pub fn matches(name: &str, pattern: &str) -> (r: bool)
        ensures
            r == rule_matches(name@, pattern@),
    {
        let p = chars_of(pattern);
        if p.len() > 0 && p[p.len() - 1] == '*' {
            let mut prefix = p.clone();
            prefix.pop();
            assert(prefix@ == p@.drop_last());
            starts_with(&chars_of(name), &prefix)
        } else {
            str_eq(name, pattern)
        }
    }

    /// `https` when the server has TLS, `http` otherwise.
    pub fn scheme(&self) -> (r: &'static str)
        ensures
            r@ == scheme_of(*self),
    {
        if self.server.tls.is_some() {
            "https"
        } else {
            "http"
        }
    }

    /// How long an upstream verification is remembered, in seconds.
    pub fn verify_ttl(&self) -> (r: u64)
        ensures
            r == self.upstream.verify_ttl_secs,
    {
        self.upstream.verify_ttl_secs
    }

    /// The upstream connect timeout, in seconds.
    pub fn connect_timeout(&self) -> (r: u64)
        ensures
            r == self.limits.connect_timeout_secs,
    {
        self.limits.connect_timeout_secs
    }

    /// The request body read timeout, in seconds.
    pub fn body_read_timeout(&self) -> (r: u64)
        ensures
            r == self.limits.body_read_timeout_secs,
    {
        self.limits.body_read_timeout_secs
    }

    /// The timeout for the upstream's response headers, in seconds.
    pub fn upstream_headers_timeout(&self) -> (r: u64)
        ensures
            r == self.limits.upstream_headers_timeout_secs,
    {
        self.limits.upstream_headers_timeout_secs
    }

    /// The longest gap between stream chunks, in seconds.
    pub fn stream_idle_timeout(&self) -> (r: u64)
        ensures
            r == self.limits.stream_idle_timeout_secs,
    {
        self.limits.stream_idle_timeout_secs
    }

    /// The timeout of a models-endpoint verification, in seconds.
    pub fn verify_timeout(&self) -> (r: u64)
        ensures
            r == self.limits.verify_timeout_secs,
    {
        self.limits.verify_timeout_secs
    }
}

} // verus!
