//! Headers that every page of the server carries.

use vstd::prelude::*;

verus! {

/// The content security policy, reported but not yet enforced. The page is
/// a single-file build with inline scripts and styles; in direct mode the
/// browser fetches any `https` endpoint that the user enters.
pub const CSP: &'static str = "default-src 'self'; script-src 'self' 'unsafe-inline'; style-src 'self' 'unsafe-inline'; connect-src 'self' https:; img-src 'self' data:; font-src 'self' data:; object-src 'none'; base-uri 'self'; frame-ancestors 'none'; form-action 'self'; worker-src 'self'";

/// The security headers as names and values.
pub open spec fn security_header_names() -> Seq<Seq<char>> {
    seq![
        "content-security-policy-report-only"@,
        "x-content-type-options"@,
        "referrer-policy"@,
        "permissions-policy"@,
        "cross-origin-opener-policy"@,
    ]
}

pub open spec fn security_header_values() -> Seq<Seq<char>> {
    seq![
        CSP@,
        "nosniff"@,
        "no-referrer"@,
        "camera=(), microphone=(), geolocation=()"@,
        "same-origin"@,
    ]
}

/// The headers set on every response, replacing any of the same name.
pub fn security_headers() -> (r: Vec<(&'static str, &'static str)>)
    ensures
        r@.len() == 5,
        forall|i: int|
            0 <= i < 5 ==> (#[trigger] r@[i]).0@ == security_header_names()[i] && r@[i].1@
                == security_header_values()[i],
{
    let r = vec![
        ("content-security-policy-report-only", CSP),
        ("x-content-type-options", "nosniff"),
        ("referrer-policy", "no-referrer"),
        ("permissions-policy", "camera=(), microphone=(), geolocation=()"),
        ("cross-origin-opener-policy", "same-origin"),
    ];
    r
}

} // verus!
