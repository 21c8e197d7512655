use panopticon::assets::{security_headers, CSP};

#[test]
fn security_header_table() {
    let h = security_headers();
    assert_eq!(h.len(), 5);
    assert_eq!(h[0], ("content-security-policy-report-only", CSP));
    assert_eq!(h[1], ("x-content-type-options", "nosniff"));
    assert_eq!(h[2], ("referrer-policy", "no-referrer"));
    assert_eq!(h[3], ("permissions-policy", "camera=(), microphone=(), geolocation=()"));
    assert_eq!(h[4], ("cross-origin-opener-policy", "same-origin"));
    assert!(CSP.starts_with("default-src 'self'; script-src"));
    assert!(CSP.ends_with("worker-src 'self'"));
}
