use panopticon::config::Config;
use panopticon::ip::Ip;
use panopticon::proxy::Rejection;
use panopticon::upstream::{upstream_step, CheckAction, CheckEvent, CheckState};

fn public() -> Config {
    let mut c = Config::default();
    c.server.host = "0.0.0.0".into();
    c
}

fn step(c: &Config, base: &str, s: CheckState, e: CheckEvent) -> (CheckState, CheckAction) {
    upstream_step(c, base, s, e)
}

const LISTING: &[u8] = br#"{"object":"list","data":[{"id":"m1"},{"id":"m2"}]}"#;

#[test]
fn trusted_upstream_accepted_at_once() {
    let c = public();
    let (s, a) = step(&c, "https://api.openai.com", CheckState::Start, CheckEvent::Begin);
    assert!(matches!(a, CheckAction::Finish(Ok(()))));
    assert!(matches!(s, CheckState::Done(Ok(()))));
}

#[test]
fn bad_base_refused_at_once() {
    let c = public();
    let (_, a) = step(&c, "http://llm.example.com", CheckState::Start, CheckEvent::Begin);
    assert!(matches!(a, CheckAction::Finish(Err(Rejection::HttpsRequired))));
    let (_, a) = step(&c, "https://llm.example.com/..", CheckState::Start, CheckEvent::Begin);
    assert!(matches!(a, CheckAction::Finish(Err(Rejection::InvalidBaseUrl))));
}

#[test]
fn full_check_of_public_upstream() {
    let c = public();
    let base = "https://llm.example.com:8443";
    let (s, a) = step(&c, base, CheckState::Start, CheckEvent::Begin);
    assert!(matches!(a, CheckAction::LookUpCache));
    let (s, a) = step(&c, base, s, CheckEvent::CacheLookedUp(false));
    match a {
        CheckAction::Resolve { host, port } => {
            assert_eq!(host, "llm.example.com");
            assert_eq!(port, 8443);
        }
        other => panic!("{other:?}"),
    }
    let (s, a) = step(&c, base, s, CheckEvent::Resolved(Some(vec![Ip::V4([93, 184, 216, 34])])));
    match a {
        CheckAction::Probe { url, headers } => {
            assert_eq!(url, "https://llm.example.com:8443/v1/models");
            assert_eq!(headers, vec!["authorization", "x-api-key", "anthropic-version"]);
        }
        other => panic!("{other:?}"),
    }
    let (s, a) = step(&c, base, s, CheckEvent::ProbeAnswered(Some(200)));
    assert!(matches!(a, CheckAction::ReadBody));
    let (s, a) = step(&c, base, s, CheckEvent::BodyRead(Some(LISTING.to_vec())));
    assert!(matches!(a, CheckAction::Remember));
    assert!(matches!(s, CheckState::Done(Ok(()))));
    let (_, a) = step(&c, base, s, CheckEvent::Begin);
    assert!(matches!(a, CheckAction::Ignore));
}

#[test]
fn remembered_upstream_accepted_at_once() {
    let c = public();
    let base = "https://llm.example.com";
    let (s, _) = step(&c, base, CheckState::Start, CheckEvent::Begin);
    let (s, a) = step(&c, base, s, CheckEvent::CacheLookedUp(true));
    assert!(matches!(a, CheckAction::Finish(Ok(()))));
    assert!(matches!(s, CheckState::Done(Ok(()))));
}

#[test]
fn address_check_refusals() {
    let c = public();
    let base = "https://llm.example.com";
    let screened = || {
        let (s, _) = step(&c, base, CheckState::Start, CheckEvent::Begin);
        step(&c, base, s, CheckEvent::CacheLookedUp(false)).0
    };
    let (_, a) = step(&c, base, screened(), CheckEvent::Resolved(None));
    assert!(matches!(a, CheckAction::Finish(Err(Rejection::DnsFailed))));
    let (_, a) = step(&c, base, screened(), CheckEvent::Resolved(Some(vec![])));
    assert!(matches!(a, CheckAction::Finish(Err(Rejection::DnsFailed))));
    let addrs = vec![Ip::V4([93, 184, 216, 34]), Ip::V4([10, 0, 0, 1])];
    let (_, a) = step(&c, base, screened(), CheckEvent::Resolved(Some(addrs)));
    assert!(matches!(a, CheckAction::Finish(Err(Rejection::PrivateAddress))));
    let (s, a) = step(&c, base, screened(), CheckEvent::ProbeAnswered(Some(200)));
    assert!(matches!(a, CheckAction::Ignore));
    assert!(matches!(s, CheckState::Resolving(_)));
}

#[test]
fn probe_refusals() {
    let c = public();
    let base = "https://llm.example.com";
    let probing = || {
        let (s, _) = step(&c, base, CheckState::Start, CheckEvent::Begin);
        let (s, _) = step(&c, base, s, CheckEvent::CacheLookedUp(false));
        step(&c, base, s, CheckEvent::Resolved(Some(vec![Ip::V4([8, 8, 8, 8])]))).0
    };
    let (_, a) = step(&c, base, probing(), CheckEvent::ProbeAnswered(None));
    assert!(matches!(a, CheckAction::Finish(Err(Rejection::ModelsUnreachable))));
    let (_, a) = step(&c, base, probing(), CheckEvent::ProbeAnswered(Some(404)));
    assert!(matches!(a, CheckAction::Finish(Err(Rejection::ModelsNon2xx))));
    let (s, _) = step(&c, base, probing(), CheckEvent::ProbeAnswered(Some(204)));
    let (_, a) = step(&c, base, s, CheckEvent::BodyRead(None));
    assert!(matches!(a, CheckAction::Finish(Err(Rejection::ModelsUnreadable))));
    let (s, _) = step(&c, base, probing(), CheckEvent::ProbeAnswered(Some(200)));
    let (_, a) = step(&c, base, s, CheckEvent::BodyRead(Some(b"<html>".to_vec())));
    assert!(matches!(a, CheckAction::Finish(Err(Rejection::ModelsNonJson))));
    let (s, _) = step(&c, base, probing(), CheckEvent::ProbeAnswered(Some(200)));
    let (_, a) = step(&c, base, s, CheckEvent::BodyRead(Some(br#"{"data":[]}"#.to_vec())));
    assert!(matches!(a, CheckAction::Finish(Err(Rejection::ModelsUnrecognized))));
}

#[test]
fn private_network_skips_resolution() {
    let c = Config::default();
    let base = "http://10.0.0.5:8000";
    let (s, a) = step(&c, base, CheckState::Start, CheckEvent::Begin);
    assert!(matches!(a, CheckAction::LookUpCache));
    let (_, a) = step(&c, base, s, CheckEvent::CacheLookedUp(false));
    match a {
        CheckAction::Probe { url, .. } => assert_eq!(url, "http://10.0.0.5:8000/v1/models"),
        other => panic!("{other:?}"),
    }
}

#[test]
fn models_check_off_remembers_after_addresses() {
    let mut c = public();
    c.upstream.verify_models_endpoint = false;
    let base = "https://llm.example.com";
    let (s, _) = step(&c, base, CheckState::Start, CheckEvent::Begin);
    let (s, _) = step(&c, base, s, CheckEvent::CacheLookedUp(false));
    let (s, a) = step(&c, base, s, CheckEvent::Resolved(Some(vec![Ip::V4([8, 8, 4, 4])])));
    assert!(matches!(a, CheckAction::Remember));
    assert!(matches!(s, CheckState::Done(Ok(()))));
}
