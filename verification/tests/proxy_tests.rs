use panopticon::config::Config;
use panopticon::ip::Ip;
use panopticon::proxy::{
    check_addresses, check_models_body, judge_probe_status, probe_headers, read_listing, forwards_request, forwards_to_upstream, has_traversal,
    is_hop_by_hop, request_url, returns_response, screen_upstream, upstream_base, ProxyError,
    Rejection, Screening, UPSTREAM_HEADER,
};

#[test]
fn traversal_detection() {
    assert!(has_traversal("/v1/../admin"));
    assert!(has_traversal("/v1/%2e%2e/x"));
    assert!(has_traversal("/v1/%2E"));
    assert!(has_traversal("/a%2fb"));
    assert!(has_traversal("/a%2Fb"));
    assert!(has_traversal("a\\b"));
    assert!(!has_traversal("/v1/chat/completions?x=1.2"));
    assert!(!has_traversal("https://api.example.com"));
}

#[test]
fn hop_by_hop_headers() {
    for h in ["connection", "transfer-encoding", "upgrade", "te", "trailer", "proxy-authenticate", "proxy-authorization", "keep-alive", "Keep-Alive"] {
        assert!(is_hop_by_hop(h), "{h}");
        assert!(!forwards_to_upstream(h), "{h}");
    }
    assert!(!is_hop_by_hop("content-type"));
    assert!(!forwards_to_upstream("host"));
    assert!(!forwards_to_upstream("content-length"));
    assert!(!forwards_to_upstream(UPSTREAM_HEADER));
    assert!(forwards_to_upstream("authorization"));
    assert!(forwards_to_upstream("x-api-key"));
}

#[test]
fn header_filters_with_config() {
    let c = Config::default();
    assert!(forwards_request(&c, "authorization"));
    assert!(!forwards_request(&c, "cookie"));
    assert!(!forwards_request(&c, "host"));
    assert!(returns_response(&c, "content-type"));
    assert!(!returns_response(&c, "set-cookie"));
    assert!(!returns_response(&c, "transfer-encoding"));
}

#[test]
fn base_and_url() {
    assert_eq!(upstream_base(None), Err(ProxyError::MissingUpstreamHeader));
    assert_eq!(upstream_base(Some("https://a.example//")).unwrap(), "https://a.example");
    assert_eq!(request_url("https://a.example", "/v1/messages?beta=true").unwrap(), "https://a.example/v1/messages?beta=true");
    assert_eq!(request_url("https://a.example", "/v1/../x"), Err(ProxyError::InvalidPath));
    assert_eq!(ProxyError::InvalidPath.status(), 400);
    assert_eq!(ProxyError::InvalidPath.message(), "invalid path");
    assert_eq!(ProxyError::MissingUpstreamHeader.message(), "missing or invalid `x-upstream-base-url` header");
}

fn check(s: Screening) -> (String, u16, bool, bool) {
    match s {
        Screening::Check(t) => (t.host, t.port, t.allow_private, t.allow_loopback),
        other => panic!("{other:?}"),
    }
}

fn rejected(s: Screening) -> Rejection {
    match s {
        Screening::Rejected(r) => r,
        other => panic!("{other:?}"),
    }
}

fn public() -> Config {
    let mut c = Config::default();
    c.server.host = "0.0.0.0".into();
    c
}

#[test]
fn screening_upstreams() {
    let c = public();
    assert!(matches!(screen_upstream(&c, "https://api.openai.com"), Screening::Trusted));
    assert_eq!(rejected(screen_upstream(&c, "https://x.example/..")), Rejection::InvalidBaseUrl);
    assert_eq!(check(screen_upstream(&c, "https://llm.example.com")), ("llm.example.com".to_string(), 443, false, false));
    assert_eq!(check(screen_upstream(&c, "https://llm.example.com:8443/api")), ("llm.example.com".to_string(), 8443, false, false));
    assert_eq!(rejected(screen_upstream(&c, "http://llm.example.com")), Rejection::HttpsRequired);
    assert_eq!(rejected(screen_upstream(&c, "ftp://llm.example.com")), Rejection::HttpsRequired);
    assert_eq!(rejected(screen_upstream(&c, "https://llm.example.com?x=1")), Rejection::InvalidBaseUrl);
    assert_eq!(rejected(screen_upstream(&c, "https://llm.example.com#f")), Rejection::InvalidBaseUrl);
    assert_eq!(rejected(screen_upstream(&c, "https://u:p@llm.example.com")), Rejection::InvalidBaseUrl);
    assert_eq!(rejected(screen_upstream(&c, "https://u@llm.example.com")), Rejection::InvalidBaseUrl);
    assert_eq!(rejected(screen_upstream(&c, "not a url")), Rejection::InvalidBaseUrl);
    assert_eq!(rejected(screen_upstream(&c, "data:text/plain,x")), Rejection::InvalidBaseUrl);
    assert_eq!(check(screen_upstream(&c, "https://[::1]:9000")), ("::1".to_string(), 9000, false, false));
}

#[test]
fn screening_http_rules() {
    let mut c = public();
    c.upstream.allow_loopback = true;
    assert_eq!(check(screen_upstream(&c, "http://localhost:11434")), ("localhost".to_string(), 11434, false, true));
    assert_eq!(check(screen_upstream(&c, "http://127.0.0.1:8080")), ("127.0.0.1".to_string(), 8080, false, true));
    assert_eq!(check(screen_upstream(&c, "http://[::1]")), ("::1".to_string(), 80, false, true));
    assert_eq!(rejected(screen_upstream(&c, "http://10.0.0.1")), Rejection::HttpsRequired);
    let local = Config::default();
    assert_eq!(check(screen_upstream(&local, "http://10.0.0.1")), ("10.0.0.1".to_string(), 80, true, false));
    let mut only = public();
    only.upstream.trusted_only = true;
    assert_eq!(rejected(screen_upstream(&only, "https://llm.example.com")), Rejection::NotTrusted);
    assert!(matches!(screen_upstream(&only, "https://api.x.ai"), Screening::Trusted));
}

#[test]
fn resolved_addresses() {
    assert_eq!(check_addresses(&vec![], false), Err(Rejection::DnsFailed));
    assert_eq!(check_addresses(&vec![Ip::V4([8, 8, 8, 8])], false), Ok(()));
    assert_eq!(check_addresses(&vec![Ip::V4([8, 8, 8, 8]), Ip::V4([10, 0, 0, 1])], false), Err(Rejection::PrivateAddress));
    assert_eq!(check_addresses(&vec![Ip::V4([127, 0, 0, 1])], false), Err(Rejection::PrivateAddress));
    assert_eq!(check_addresses(&vec![Ip::V4([127, 0, 0, 1]), Ip::V6([0, 0, 0, 0, 0, 0, 0, 1])], true), Ok(()));
    assert_eq!(check_addresses(&vec![Ip::V4([127, 0, 0, 1]), Ip::V4([169, 254, 169, 254])], true), Err(Rejection::PrivateAddress));
}

#[test]
fn models_bodies() {
    assert_eq!(check_models_body(br#"{"object":"list","data":[{"id":"gpt"},{"id":"o1"}]}"#), Ok(()));
    assert_eq!(check_models_body(br#"{"data":[]}"#), Err(Rejection::ModelsUnrecognized));
    assert_eq!(check_models_body(br#"{"data":[{"id":1}]}"#), Err(Rejection::ModelsUnrecognized));
    assert_eq!(check_models_body(br#"{"data":[{"id":"a"},{"name":"b"}]}"#), Err(Rejection::ModelsUnrecognized));
    assert_eq!(check_models_body(br#"{"data":{"id":"a"}}"#), Err(Rejection::ModelsUnrecognized));
    assert_eq!(check_models_body(br#"[1,2]"#), Err(Rejection::ModelsUnrecognized));
    assert_eq!(check_models_body(b"<html>"), Err(Rejection::ModelsNonJson));
}

#[test]
fn rejection_messages() {
    assert_eq!(Rejection::HttpsRequired.message(), "upstream rejected: https required");
    assert_eq!(Rejection::PrivateAddress.message(), "upstream rejected: private or reserved address");
    assert_eq!(Rejection::ModelsNon2xx.reason(), "models endpoint returned non-2xx");
    assert_eq!(Rejection::DnsFailed.status(), 403);
}

#[test]
fn probe_rules() {
    assert_eq!(probe_headers(), vec!["authorization", "x-api-key", "anthropic-version"]);
    assert_eq!(judge_probe_status(200), Ok(()));
    assert_eq!(judge_probe_status(204), Ok(()));
    assert_eq!(judge_probe_status(299), Ok(()));
    assert_eq!(judge_probe_status(199), Err(Rejection::ModelsNon2xx));
    assert_eq!(judge_probe_status(301), Err(Rejection::ModelsNon2xx));
    assert_eq!(judge_probe_status(404), Err(Rejection::ModelsNon2xx));
}

#[test]
fn listing_of_parsed_documents() {
    let doc = panopticon::json::parse_json(br#"{"data":[{"id":"a"},{"id":2},{}]}"#).unwrap();
    match read_listing(&doc) {
        panopticon::proxy::ModelListing::Entries(f) => assert_eq!(f, vec![true, false, false]),
        other => panic!("{other:?}"),
    }
    let doc = panopticon::json::parse_json(br#"{"object":"list"}"#).unwrap();
    assert!(matches!(read_listing(&doc), panopticon::proxy::ModelListing::NoDataArray));
    assert!(panopticon::json::parse_json(b"{").is_none());
}
