use panopticon::config::{Config, Tls};

fn s(v: &[&str]) -> Vec<String> {
    v.iter().map(|x| x.to_string()).collect()
}

#[test]
fn default_config_values() {
    let c = Config::default();
    assert_eq!(c.server.host, "127.0.0.1");
    assert_eq!(c.server.port, 3000);
    assert!(c.server.tls.is_none());
    assert_eq!(c.upstream.allow_private_network, None);
    assert!(!c.upstream.allow_loopback);
    assert_eq!(c.upstream.trusted.len(), 12);
    assert_eq!(c.upstream.trusted[0], "https://api.openai.com");
    assert_eq!(c.upstream.trusted[10], "https://openrouter.ai/api");
    assert_eq!(c.upstream.trusted[11], "https://api.302.ai");
    assert!(!c.upstream.trusted_only);
    assert!(c.upstream.verify_models_endpoint);
    assert_eq!(c.upstream.verify_ttl_secs, 3600);
    assert!(c.headers.request_allow.is_empty());
    assert_eq!(
        c.headers.request_deny,
        s(&["cookie", "origin", "referer", "via", "forwarded", "x-forwarded-*", "x-real-ip", "cf-*", "fly-*", "sec-*"])
    );
    assert!(c.headers.response_allow.is_empty());
    assert_eq!(c.headers.response_deny, s(&["set-cookie"]));
    assert_eq!(c.limits.max_body_bytes, 8 * 1024 * 1024);
    assert_eq!(c.limits.connect_timeout_secs, 10);
    assert_eq!(c.limits.body_read_timeout_secs, 30);
    assert_eq!(c.limits.upstream_headers_timeout_secs, 120);
    assert_eq!(c.limits.stream_idle_timeout_secs, 90);
    assert_eq!(c.limits.verify_timeout_secs, 10);
}

#[test]
fn normalize_trims_and_lowercases() {
    let mut c = Config::default();
    c.upstream.trusted = s(&["https://a.example//", "https://b.example", "/"]);
    c.headers.request_allow = s(&["X-Api-Key", "Anthropic-*"]);
    c.headers.response_deny = s(&["Set-Cookie", "ÄB"]);
    c.normalize();
    assert_eq!(c.upstream.trusted, s(&["https://a.example", "https://b.example", ""]));
    assert_eq!(c.headers.request_allow, s(&["x-api-key", "anthropic-*"]));
    assert_eq!(c.headers.response_deny, s(&["set-cookie", "Äb"]));
    assert_eq!(c.server.port, 3000);
}

#[test]
fn normalize_twice_is_normalize_once() {
    let mut c = Config::default();
    c.upstream.trusted = s(&["https://x.example///"]);
    c.headers.request_deny = s(&["COOKIE"]);
    c.normalize();
    let once = c.clone();
    c.normalize();
    assert_eq!(c.upstream.trusted, once.upstream.trusted);
    assert_eq!(c.headers.request_deny, once.headers.request_deny);
}

#[test]
fn header_rules_match_exactly_or_by_prefix() {
    assert!(Config::matches("x-forwarded-for", "x-forwarded-*"));
    assert!(Config::matches("x-forwarded-", "x-forwarded-*"));
    assert!(!Config::matches("x-forwarded", "x-forwarded-*"));
    assert!(Config::matches("cookie", "cookie"));
    assert!(!Config::matches("cookies", "cookie"));
    assert!(Config::matches("anything", "*"));
    assert!(Config::matches("a*", "a**"));
    assert!(!Config::matches("ab", "a**"));
    assert!(Config::matches("a*b", "a**"));
}

#[test]
fn allow_and_deny_lists() {
    let allow = s(&["x-api-key", "anthropic-*"]);
    let deny = s(&["anthropic-beta"]);
    assert!(Config::passes("x-api-key", &allow, &deny));
    assert!(Config::passes("anthropic-version", &allow, &deny));
    assert!(!Config::passes("anthropic-beta", &allow, &deny));
    assert!(!Config::passes("cookie", &allow, &deny));
    assert!(Config::passes("cookie", &[], &[]));
    assert!(!Config::passes("cookie", &[], &s(&["cookie"])));
}

#[test]
fn default_header_forwarding() {
    let c = Config::default();
    assert!(!c.forwards_request_header("cookie"));
    assert!(!c.forwards_request_header("x-forwarded-for"));
    assert!(!c.forwards_request_header("cf-connecting-ip"));
    assert!(!c.forwards_request_header("sec-fetch-mode"));
    assert!(c.forwards_request_header("authorization"));
    assert!(c.forwards_request_header("content-type"));
    assert!(!c.forwards_response_header("set-cookie"));
    assert!(c.forwards_response_header("content-type"));
}

#[test]
fn trusted_upstreams() {
    let c = Config::default();
    assert!(c.is_trusted("https://api.openai.com"));
    assert!(!c.is_trusted("https://api.openai.com/"));
    assert!(!c.is_trusted("https://evil.example"));
}

#[test]
fn loopback_listening() {
    let mut c = Config::default();
    for (host, lb) in [
        ("127.0.0.1", true),
        ("localhost", true),
        ("127.255.0.9", true),
        ("::1", true),
        ("0:0:0:0:0:0:0:1", true),
        ("0.0.0.0", false),
        ("192.168.1.2", false),
        ("::", false),
        ("::ffff:127.0.0.1", false),
        ("127.1", false),
        ("[::1]", false),
        ("LOCALHOST", false),
        ("example.com", false),
    ] {
        c.server.host = host.to_string();
        assert_eq!(c.listens_on_loopback(), lb, "{host}");
    }
}

#[test]
fn private_network_follows_loopback_when_unset() {
    let mut c = Config::default();
    assert!(c.allow_private_network());
    c.server.host = "0.0.0.0".into();
    assert!(!c.allow_private_network());
    c.upstream.allow_private_network = Some(true);
    assert!(c.allow_private_network());
    c.server.host = "127.0.0.1".into();
    c.upstream.allow_private_network = Some(false);
    assert!(!c.allow_private_network());
}

#[test]
fn scheme_and_timeouts() {
    let mut c = Config::default();
    assert_eq!(c.scheme(), "http");
    c.server.tls = Some(Tls { cert_file: "c.pem".into(), key_file: "k.pem".into() });
    assert_eq!(c.scheme(), "https");
    c.upstream.verify_ttl_secs = 7;
    c.limits.connect_timeout_secs = 1;
    c.limits.body_read_timeout_secs = 2;
    c.limits.upstream_headers_timeout_secs = 3;
    c.limits.stream_idle_timeout_secs = 4;
    c.limits.verify_timeout_secs = 5;
    assert_eq!(c.verify_ttl(), 7);
    assert_eq!(c.connect_timeout(), 1);
    assert_eq!(c.body_read_timeout(), 2);
    assert_eq!(c.upstream_headers_timeout(), 3);
    assert_eq!(c.stream_idle_timeout(), 4);
    assert_eq!(c.verify_timeout(), 5);
}
