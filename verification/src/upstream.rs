//! The order of the checks that an upstream base URL goes through before
//! the proxy forwards to it, as a machine from state and event to next state
//! and action. The caller performs each action (the memory look-up, the name
//! resolution, the `/v1/models` probe, reading its body, remembering the
//! base) and hands back what came of it as the next event.

use vstd::prelude::*;
use crate::config::{trusted_base, Config};
use crate::ip::{ip_forbidden, ip_is_loopback, Ip};
use crate::json::{json_parse, JsonView};
use crate::proxy::{
    addresses_verdict, check_addresses, check_models_body, judge_probe_status, listing_verdict,
    is_model_list, lemma_address_check_exact, lemma_models_body_exact, models_listing, probe_headers, screen_upstream, upstream_screening, url_parse, Rejection,
    traversal, Screening, ScreeningView, Target,
};

verus! {

/// Where the checks of one upstream stand.
#[derive(Debug)]
pub enum CheckState {
    /// Nothing done yet.
    Start,
    /// The static checks passed; the memory of verified upstreams is asked.
    Screened(Target),
    /// Not remembered; the host is being resolved.
    Resolving(Target),
    /// The `/v1/models` probe is out; the addresses that passed the address
    /// check, none where private networks are allowed.
    Probing(Target, Option<Vec<Ip>>),
    /// The probe answered with success; its body is being read.
    AwaitingBody(Target, Option<Vec<Ip>>),
    /// Decided.
    Done(Result<(), Rejection>),
}

/// What came of the last action.
#[derive(Debug)]
pub enum CheckEvent {
    /// The checks are asked for.
    Begin,
    /// Whether the base is remembered as verified (after forgetting what is
    /// no longer fresh).
    CacheLookedUp(bool),
    /// The addresses that the host resolved to; `None` when resolution failed.
    Resolved(Option<Vec<Ip>>),
    /// The probe's status; `None` when it could not be sent or answered.
    ProbeAnswered(Option<u16>),
    /// The probe's body; `None` when it could not be read.
    BodyRead(Option<Vec<u8>>),
}

/// What the caller is to do next.
#[derive(Debug)]
pub enum CheckAction {
    /// Forget the entries that are no longer fresh and tell whether the base
    /// is remembered.
    LookUpCache,
    /// Resolve the host at the port.
    Resolve { host: String, port: u16 },
    /// Send `GET url` carrying those of the client's headers that are named.
    Probe { url: String, headers: Vec<&'static str> },
    /// Read the probe's body.
    ReadBody,
    /// Remember the base as verified now; the upstream is accepted.
    Remember,
    /// The upstream is accepted (`Ok`) or refused.
    Finish(Result<(), Rejection>),
    /// The event was not one that the state awaits; nothing to do.
    Ignore,
}

pub struct TargetView {
    pub host: Seq<char>,
    pub port: u16,
    pub allow_private: bool,
    pub allow_loopback: bool,
}

pub enum CheckStateView {
    Start,
    Screened(TargetView),
    Resolving(TargetView),
    Probing(TargetView, Option<Seq<Ip>>),
    AwaitingBody(TargetView, Option<Seq<Ip>>),
    Done(Result<(), Rejection>),
}

pub enum CheckEventView {
    Begin,
    CacheLookedUp(bool),
    Resolved(Option<Seq<Ip>>),
    ProbeAnswered(Option<u16>),
    BodyRead(Option<Seq<u8>>),
}

pub enum CheckActionView {
    LookUpCache,
    Resolve { host: Seq<char>, port: u16 },
    Probe { url: Seq<char>, headers: Seq<Seq<char>> },
    ReadBody,
    Remember,
    Finish(Result<(), Rejection>),
    Ignore,
}

pub open spec fn target_view(t: Target) -> TargetView {
    TargetView {
        host: t.host@,
        port: t.port,
        allow_private: t.allow_private,
        allow_loopback: t.allow_loopback,
    }
}

pub open spec fn addrs_view(a: Option<Vec<Ip>>) -> Option<Seq<Ip>> {
    match a {
        Some(v) => Some(v@),
        None => None,
    }
}

impl View for CheckState {
    type V = CheckStateView;

    open spec fn view(&self) -> CheckStateView {
        match self {
            CheckState::Start => CheckStateView::Start,
            CheckState::Screened(t) => CheckStateView::Screened(target_view(*t)),
            CheckState::Resolving(t) => CheckStateView::Resolving(target_view(*t)),
            CheckState::Probing(t, a) => CheckStateView::Probing(target_view(*t), addrs_view(*a)),
            CheckState::AwaitingBody(t, a) => CheckStateView::AwaitingBody(
                target_view(*t),
                addrs_view(*a),
            ),
            CheckState::Done(r) => CheckStateView::Done(*r),
        }
    }
}

impl View for CheckEvent {
    type V = CheckEventView;

    open spec fn view(&self) -> CheckEventView {
        match self {
            CheckEvent::Begin => CheckEventView::Begin,
            CheckEvent::CacheLookedUp(b) => CheckEventView::CacheLookedUp(*b),
            CheckEvent::Resolved(a) => CheckEventView::Resolved(addrs_view(*a)),
            CheckEvent::ProbeAnswered(s) => CheckEventView::ProbeAnswered(*s),
            CheckEvent::BodyRead(b) => CheckEventView::BodyRead(
                match b {
                    Some(v) => Some(v@),
                    None => None,
                },
            ),
        }
    }
}

impl View for CheckAction {
    type V = CheckActionView;

    open spec fn view(&self) -> CheckActionView {
        match self {
            CheckAction::LookUpCache => CheckActionView::LookUpCache,
            CheckAction::Resolve { host, port } => CheckActionView::Resolve {
                host: host@,
                port: *port,
            },
            CheckAction::Probe { url, headers } => CheckActionView::Probe {
                url: url@,
                headers: headers@.map_values(|h: &'static str| h@),
            },
            CheckAction::ReadBody => CheckActionView::ReadBody,
            CheckAction::Remember => CheckActionView::Remember,
            CheckAction::Finish(r) => CheckActionView::Finish(*r),
            CheckAction::Ignore => CheckActionView::Ignore,
        }
    }
}

/// The headers that a probe carries over from the client's request.
pub open spec fn probe_header_names() -> Seq<Seq<char>> {
    seq!["authorization"@, "x-api-key"@, "anthropic-version"@]
}

/// The probe of an upstream base: `GET {base}/v1/models`.
pub open spec fn probe_url(base: Seq<char>) -> Seq<char> {
    base + "/v1/models"@
}

/// What the static checks made of the base.
pub open spec fn screening_of(c: Config, base: Seq<char>) -> ScreeningView {
    upstream_screening(c, base, url_parse(base))
}

/// The static checks let the base through with this target.
pub open spec fn screened_as(c: Config, base: Seq<char>, t: TargetView) -> bool {
    screening_of(c, base) == ScreeningView::Check {
        host: t.host,
        port: t.port,
        allow_private: t.allow_private,
        allow_loopback: t.allow_loopback,
    }
}

pub open spec fn finish(r: Result<(), Rejection>) -> (CheckStateView, CheckActionView) {
    (CheckStateView::Done(r), CheckActionView::Finish(r))
}

/// Once the addresses are cleared: the probe where the models check is on,
/// else the base is remembered and accepted.
pub open spec fn after_addresses(c: Config, base: Seq<char>, t: TargetView, a: Option<Seq<Ip>>) -> (
    CheckStateView,
    CheckActionView,
) {
    if c.upstream.verify_models_endpoint {
        (
            CheckStateView::Probing(t, a),
            CheckActionView::Probe { url: probe_url(base), headers: probe_header_names() },
        )
    } else {
        (CheckStateView::Done(Ok(())), CheckActionView::Remember)
    }
}

/// One step of the checks of `base` under `c`: a traversal, an untrusted
/// base where only trusted ones pass, a bad URL or a plain `http` that is not
/// allowed are refused and a trusted base accepted at once; a remembered base
/// is accepted at once; unless private networks are allowed the host is
/// resolved and must pass the address check; then, where the models check is
/// on, `{base}/v1/models` must answer with success and a model list; the
/// base is remembered only when all of these passed.
pub open spec fn next(c: Config, base: Seq<char>, s: CheckStateView, e: CheckEventView) -> (
    CheckStateView,
    CheckActionView,
) {
    match (s, e) {
        (CheckStateView::Start, CheckEventView::Begin) => match screening_of(c, base) {
            ScreeningView::Trusted => finish(Ok(())),
            ScreeningView::Rejected(r) => finish(Err(r)),
            ScreeningView::Check { host, port, allow_private, allow_loopback } => (
                CheckStateView::Screened(TargetView { host, port, allow_private, allow_loopback }),
                CheckActionView::LookUpCache,
            ),
        },
        (CheckStateView::Screened(t), CheckEventView::CacheLookedUp(hit)) => if hit {
            finish(Ok(()))
        } else if !t.allow_private {
            (CheckStateView::Resolving(t), CheckActionView::Resolve { host: t.host, port: t.port })
        } else {
            after_addresses(c, base, t, None)
        },
        (CheckStateView::Resolving(t), CheckEventView::Resolved(a)) => match a {
            None => finish(Err(Rejection::DnsFailed)),
            Some(a) => match addresses_verdict(a, t.allow_loopback) {
                Err(r) => finish(Err(r)),
                Ok(_) => after_addresses(c, base, t, Some(a)),
            },
        },
        (CheckStateView::Probing(t, a), CheckEventView::ProbeAnswered(st)) => match st {
            None => finish(Err(Rejection::ModelsUnreachable)),
            Some(st) => if 200 <= st <= 299 {
                (CheckStateView::AwaitingBody(t, a), CheckActionView::ReadBody)
            } else {
                finish(Err(Rejection::ModelsNon2xx))
            },
        },
        (CheckStateView::AwaitingBody(t, a), CheckEventView::BodyRead(b)) => match b {
            None => finish(Err(Rejection::ModelsUnreadable)),
            Some(b) => match listing_verdict(models_listing(json_parse(b))) {
                Ok(_) => (CheckStateView::Done(Ok(())), CheckActionView::Remember),
                Err(r) => finish(Err(r)),
            },
        },
        _ => (s, CheckActionView::Ignore),
    }
}

/// After the address check: the probe where the models check is on, else
/// remembering the base.
fn cleared(cfg: &Config, base: &str, t: Target, a: Option<Vec<Ip>>) -> (r: (CheckState, CheckAction))
    ensures
        (r.0@, r.1@) == after_addresses(*cfg, base@, target_view(t), addrs_view(a)),
{
    if cfg.upstream.verify_models_endpoint {
        let mut url = base.to_owned();
        url.append("/v1/models");
        let headers = probe_headers();
        assert(headers@.map_values(|h: &'static str| h@) =~= probe_header_names());
        (CheckState::Probing(t, a), CheckAction::Probe { url, headers })
    } else {
        (CheckState::Done(Ok(())), CheckAction::Remember)
    }
}

/// Takes one step of the checks of `base`: from where they stand and what
/// came of the last action, where they stand now and what to do next.
pub fn upstream_step(cfg: &Config, base: &str, s: CheckState, ev: CheckEvent) -> (r: (
    CheckState,
    CheckAction,
))
    ensures
        (r.0@, r.1@) == next(*cfg, base@, s@, ev@),
{
    match s {
        CheckState::Start => match ev {
            CheckEvent::Begin => match screen_upstream(cfg, base) {
                Screening::Trusted => (CheckState::Done(Ok(())), CheckAction::Finish(Ok(()))),
                Screening::Rejected(r) => (CheckState::Done(Err(r)), CheckAction::Finish(Err(r))),
                Screening::Check(t) => (CheckState::Screened(t), CheckAction::LookUpCache),
            },
            _ => (CheckState::Start, CheckAction::Ignore),
        },
        CheckState::Screened(t) => match ev {
            CheckEvent::CacheLookedUp(hit) => if hit {
                (CheckState::Done(Ok(())), CheckAction::Finish(Ok(())))
            } else if !t.allow_private {
                let host = t.host.clone();
                let port = t.port;
                (CheckState::Resolving(t), CheckAction::Resolve { host, port })
            } else {
                cleared(cfg, base, t, None)
            },
            _ => (CheckState::Screened(t), CheckAction::Ignore),
        },
        CheckState::Resolving(t) => match ev {
            CheckEvent::Resolved(a) => match a {
                None => (
                    CheckState::Done(Err(Rejection::DnsFailed)),
                    CheckAction::Finish(Err(Rejection::DnsFailed)),
                ),
                Some(a) => match check_addresses(&a, t.allow_loopback) {
                    Err(r) => (CheckState::Done(Err(r)), CheckAction::Finish(Err(r))),
                    Ok(_) => cleared(cfg, base, t, Some(a)),
                },
            },
            _ => (CheckState::Resolving(t), CheckAction::Ignore),
        },
        CheckState::Probing(t, a) => match ev {
            CheckEvent::ProbeAnswered(st) => match st {
                None => (
                    CheckState::Done(Err(Rejection::ModelsUnreachable)),
                    CheckAction::Finish(Err(Rejection::ModelsUnreachable)),
                ),
                Some(st) => match judge_probe_status(st) {
                    Ok(_) => (CheckState::AwaitingBody(t, a), CheckAction::ReadBody),
                    Err(r) => (CheckState::Done(Err(r)), CheckAction::Finish(Err(r))),
                },
            },
            _ => (CheckState::Probing(t, a), CheckAction::Ignore),
        },
        CheckState::AwaitingBody(t, a) => match ev {
            CheckEvent::BodyRead(b) => match b {
                None => (
                    CheckState::Done(Err(Rejection::ModelsUnreadable)),
                    CheckAction::Finish(Err(Rejection::ModelsUnreadable)),
                ),
                Some(b) => match check_models_body(b.as_slice()) {
                    Ok(_) => (CheckState::Done(Ok(())), CheckAction::Remember),
                    Err(r) => (CheckState::Done(Err(r)), CheckAction::Finish(Err(r))),
                },
            },
            _ => (CheckState::AwaitingBody(t, a), CheckAction::Ignore),
        },
        CheckState::Done(r) => (CheckState::Done(r), CheckAction::Ignore),
    }
}

/// The address check is settled for the target: skipped where private
/// networks are allowed, else passed by the addresses the host resolved to.
pub open spec fn addresses_cleared(t: TargetView, a: Option<Seq<Ip>>) -> bool {
    match a {
        None => t.allow_private,
        Some(a) => !t.allow_private && addresses_verdict(a, t.allow_loopback) is Ok,
    }
}

/// What a state has established about the base.
pub open spec fn established(c: Config, base: Seq<char>, s: CheckStateView) -> bool {
    match s {
        CheckStateView::Screened(t) => screened_as(c, base, t),
        CheckStateView::Resolving(t) => screened_as(c, base, t) && !t.allow_private,
        CheckStateView::Probing(t, a) => screened_as(c, base, t)
            && c.upstream.verify_models_endpoint && addresses_cleared(t, a),
        CheckStateView::AwaitingBody(t, a) => screened_as(c, base, t)
            && c.upstream.verify_models_endpoint && addresses_cleared(t, a),
        _ => true,
    }
}

/// Where the checks stand after these events, from the start.
pub open spec fn state_after(c: Config, base: Seq<char>, evs: Seq<CheckEventView>) -> CheckStateView
    decreases evs.len(),
{
    if evs.len() == 0 {
        CheckStateView::Start
    } else {
        next(c, base, state_after(c, base, evs.drop_last()), evs.last()).0
    }
}

/// The step from `s` on `e` remembers the base only after every check
/// passed: the static checks let it through; the address check was skipped
/// (private networks allowed) or passed; and, where the models check is on,
/// the probe answered with success and this body holds a model list.
pub open spec fn remembers_after_checks(c: Config, base: Seq<char>, s: CheckStateView, e: CheckEventView) -> bool {
    match (s, e) {
        (CheckStateView::Screened(t), CheckEventView::CacheLookedUp(hit)) => !hit && screened_as(
            c,
            base,
            t,
        ) && t.allow_private && !c.upstream.verify_models_endpoint,
        (CheckStateView::Resolving(t), CheckEventView::Resolved(Some(a))) => screened_as(c, base, t)
            && !t.allow_private && !c.upstream.verify_models_endpoint && addresses_verdict(
            a,
            t.allow_loopback,
        ) is Ok,
        (CheckStateView::AwaitingBody(t, a), CheckEventView::BodyRead(Some(b))) => screened_as(
            c,
            base,
            t,
        ) && addresses_cleared(t, a) && listing_verdict(models_listing(json_parse(b))) is Ok,
        _ => false,
    }
}

/// The state awaits the probe's answer, after the static checks and the
/// address check were settled.
pub open spec fn probing_after_checks(c: Config, base: Seq<char>, s: CheckStateView) -> bool {
    match s {
        CheckStateView::Probing(t, a) => screened_as(c, base, t) && addresses_cleared(t, a),
        _ => false,
    }
}

/// Every step keeps what the states establish.
pub proof fn lemma_step_keeps_established(
    c: Config,
    base: Seq<char>,
    s: CheckStateView,
    e: CheckEventView,
)
    requires
        established(c, base, s),
    ensures
        established(c, base, next(c, base, s, e).0),
{
}

/// Whatever events came, the state reached from the start has established
/// what it claims.
pub proof fn lemma_reached_states_established(c: Config, base: Seq<char>, evs: Seq<CheckEventView>)
    ensures
        established(c, base, state_after(c, base, evs)),
    decreases evs.len(),
{
    if evs.len() > 0 {
        lemma_reached_states_established(c, base, evs.drop_last());
        lemma_step_keeps_established(
            c,
            base,
            state_after(c, base, evs.drop_last()),
            evs.last(),
        );
    }
}

/// The probe of `base`, with the headers it carries over.
pub open spec fn probe_of(base: Seq<char>) -> CheckActionView {
    CheckActionView::Probe { url: probe_url(base), headers: probe_header_names() }
}

/// The action is the upstream's acceptance, with or without remembering it.
pub open spec fn accepts(a: CheckActionView) -> bool {
    a is Remember || a == CheckActionView::Finish(Ok(()))
}

/// The step from `s` on `e` accepts the upstream at once: it is trusted, or
/// the memory of verified upstreams holds it.
pub open spec fn accepted_at_once(c: Config, base: Seq<char>, s: CheckStateView, e: CheckEventView) -> bool {
    ||| screening_of(c, base) is Trusted
    ||| (s is Screened && e == CheckEventView::CacheLookedUp(true))
}

/// Whatever events came before, nothing is probed before the static checks
/// and the address check passed, and the probe is `GET {base}/v1/models`
/// with the client's credential and version headers; a base is remembered
/// only after every check passed; an upstream is accepted without being
/// remembered only when it is trusted or was remembered already; and a step
/// that ends the checks in acceptance takes one of these two actions.
pub proof fn lemma_checks_come_first(
    c: Config,
    base: Seq<char>,
    evs: Seq<CheckEventView>,
    e: CheckEventView,
)
    ensures
        ({
            let s = state_after(c, base, evs);
            let (s2, a) = next(c, base, s, e);
            &&& (a is Probe) ==> probing_after_checks(c, base, s2) && a == probe_of(base)
            &&& (a is Remember) ==> remembers_after_checks(c, base, s, e)
            &&& a == CheckActionView::Finish(Ok(())) ==> accepted_at_once(c, base, s, e)
            &&& (s2 == CheckStateView::Done(Ok(())) && !(s is Done)) ==> accepts(a)
        }),
{
    lemma_reached_states_established(c, base, evs);
}

/// The checks once the static ones passed. A remembered base is accepted at
/// once. Otherwise, unless private networks are allowed, the host is
/// resolved at the target's port; where they are allowed, resolution is
/// skipped and the checks go on as after a passed address check: to the
/// probe `GET {base}/v1/models` carrying the client's `authorization`,
/// `x-api-key` and `anthropic-version` headers where the models check is
/// on, else to remembering the base.
pub proof fn lemma_memory_step(c: Config, base: Seq<char>, t: TargetView, hit: bool)
    ensures
        hit ==> next(c, base, CheckStateView::Screened(t), CheckEventView::CacheLookedUp(hit)) == (
        CheckStateView::Done(Ok(())), CheckActionView::Finish(Ok(()))),
        !hit && !t.allow_private ==> next(
            c,
            base,
            CheckStateView::Screened(t),
            CheckEventView::CacheLookedUp(hit),
        ) == (CheckStateView::Resolving(t), CheckActionView::Resolve { host: t.host, port: t.port }),
        !hit && t.allow_private && c.upstream.verify_models_endpoint ==> next(
            c,
            base,
            CheckStateView::Screened(t),
            CheckEventView::CacheLookedUp(hit),
        ) == (CheckStateView::Probing(t, None), CheckActionView::Probe {
            url: base + "/v1/models"@,
            headers: seq!["authorization"@, "x-api-key"@, "anthropic-version"@],
        }),
        !hit && t.allow_private && !c.upstream.verify_models_endpoint ==> next(
            c,
            base,
            CheckStateView::Screened(t),
            CheckEventView::CacheLookedUp(hit),
        ) == (CheckStateView::Done(Ok(())), CheckActionView::Remember),
{
}

/// The address step. No address is a failed resolution. One forbidden
/// address that is not a loopback one with loopback allowed refuses the
/// upstream as a private address. Otherwise, every address being public or
/// an allowed loopback one, the checks go on: to the probe
/// `GET {base}/v1/models` where the models check is on, else to remembering
/// the base; the upstream is not refused.
pub proof fn lemma_address_step(c: Config, base: Seq<char>, t: TargetView, a: Seq<Ip>)
    ensures
        a.len() == 0 ==> next(c, base, CheckStateView::Resolving(t), CheckEventView::Resolved(Some(a)))
            == (CheckStateView::Done(Err(Rejection::DnsFailed)), CheckActionView::Finish(
            Err(Rejection::DnsFailed),
        )),
        (a.len() > 0 && exists|i: int|
            0 <= i < a.len() && ip_forbidden(#[trigger] a[i]@) && !(t.allow_loopback
                && ip_is_loopback(a[i]@))) ==> next(
            c,
            base,
            CheckStateView::Resolving(t),
            CheckEventView::Resolved(Some(a)),
        ) == (CheckStateView::Done(Err(Rejection::PrivateAddress)), CheckActionView::Finish(
            Err(Rejection::PrivateAddress),
        )),
        (a.len() > 0 && c.upstream.verify_models_endpoint && forall|i: int|
            0 <= i < a.len() ==> !ip_forbidden(#[trigger] a[i]@) || (t.allow_loopback
                && ip_is_loopback(a[i]@))) ==> next(
            c,
            base,
            CheckStateView::Resolving(t),
            CheckEventView::Resolved(Some(a)),
        ) == (CheckStateView::Probing(t, Some(a)), CheckActionView::Probe {
            url: base + "/v1/models"@,
            headers: seq!["authorization"@, "x-api-key"@, "anthropic-version"@],
        }),
        (a.len() > 0 && !c.upstream.verify_models_endpoint && forall|i: int|
            0 <= i < a.len() ==> !ip_forbidden(#[trigger] a[i]@) || (t.allow_loopback
                && ip_is_loopback(a[i]@))) ==> next(
            c,
            base,
            CheckStateView::Resolving(t),
            CheckEventView::Resolved(Some(a)),
        ) == (CheckStateView::Done(Ok(())), CheckActionView::Remember),
        next(c, base, CheckStateView::Resolving(t), CheckEventView::Resolved(None)) == (
        CheckStateView::Done(Err(Rejection::DnsFailed)), CheckActionView::Finish(
            Err(Rejection::DnsFailed),
        )),
{
    lemma_address_check_exact(a, t.allow_loopback);
}

/// The probe step: no answer is an unreachable models endpoint; a status
/// outside 200..=299 refuses the upstream; a success leads to reading the
/// body. The body step: an unreadable body refuses the upstream; a body that
/// parses to a model list (one model or more) has the base remembered and
/// the upstream accepted; one that does not parse, or parses to anything
/// else, refuses it as non-JSON or unrecognized.
pub proof fn lemma_probe_steps(
    c: Config,
    base: Seq<char>,
    t: TargetView,
    a: Option<Seq<Ip>>,
    status: u16,
    body: Seq<u8>,
)
    ensures
        next(c, base, CheckStateView::Probing(t, a), CheckEventView::ProbeAnswered(None)) == (
        CheckStateView::Done(Err(Rejection::ModelsUnreachable)), CheckActionView::Finish(
            Err(Rejection::ModelsUnreachable),
        )),
        200 <= status <= 299 ==> next(
            c,
            base,
            CheckStateView::Probing(t, a),
            CheckEventView::ProbeAnswered(Some(status)),
        ) == (CheckStateView::AwaitingBody(t, a), CheckActionView::ReadBody),
        !(200 <= status <= 299) ==> next(
            c,
            base,
            CheckStateView::Probing(t, a),
            CheckEventView::ProbeAnswered(Some(status)),
        ) == (CheckStateView::Done(Err(Rejection::ModelsNon2xx)), CheckActionView::Finish(
            Err(Rejection::ModelsNon2xx),
        )),
        next(c, base, CheckStateView::AwaitingBody(t, a), CheckEventView::BodyRead(None)) == (
        CheckStateView::Done(Err(Rejection::ModelsUnreadable)), CheckActionView::Finish(
            Err(Rejection::ModelsUnreadable),
        )),
        forall|j: JsonView|
            json_parse(body) == Some(j) && is_model_list(j) ==> next(
                c,
                base,
                CheckStateView::AwaitingBody(t, a),
                CheckEventView::BodyRead(Some(body)),
            ) == (CheckStateView::Done(Ok(())), CheckActionView::Remember),
        forall|j: JsonView|
            json_parse(body) == Some(j) && !is_model_list(j) ==> next(
                c,
                base,
                CheckStateView::AwaitingBody(t, a),
                CheckEventView::BodyRead(Some(body)),
            ) == (CheckStateView::Done(Err(Rejection::ModelsUnrecognized)), CheckActionView::Finish(
                Err(Rejection::ModelsUnrecognized),
            )),
        json_parse(body) is None ==> next(
            c,
            base,
            CheckStateView::AwaitingBody(t, a),
            CheckEventView::BodyRead(Some(body)),
        ) == (CheckStateView::Done(Err(Rejection::ModelsNonJson)), CheckActionView::Finish(
            Err(Rejection::ModelsNonJson),
        )),
{
    lemma_models_body_exact(json_parse(body));
}

/// The first step: a trusted base is accepted at once, a base that the
/// static checks refuse is refused at once for the same reason, and a base
/// that passes them is looked up in the memory of verified upstreams.
pub proof fn lemma_first_step(c: Config, base: Seq<char>)
    ensures
        trusted_base(c, base) && !traversal(base) ==> next(
            c,
            base,
            CheckStateView::Start,
            CheckEventView::Begin,
        ) == (CheckStateView::Done(Ok(())), CheckActionView::Finish(Ok(()))),
        forall|r: Rejection|
            screening_of(c, base) == ScreeningView::Rejected(r) ==> next(
                c,
                base,
                CheckStateView::Start,
                CheckEventView::Begin,
            ) == (CheckStateView::Done(Err(r)), CheckActionView::Finish(Err(r))),
        forall|t: TargetView|
            screened_as(c, base, t) ==> next(c, base, CheckStateView::Start, CheckEventView::Begin)
                == (CheckStateView::Screened(t), CheckActionView::LookUpCache),
{
}

} // verus!
