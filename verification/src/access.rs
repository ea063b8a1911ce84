//! Who may call what: the checks that a request passes on its way to a handler.
//!
//! The admission gate comes first, then authentication, then the rate limit, so
//! that a request without a valid token never touches the rate limiter's
//! bookkeeping. The status route is public, but still goes through the admission gate.

use vstd::prelude::*;
use vstd::string::*;

use crate::api::Refusal;
use crate::config::BearerToken;
use crate::limiter::{AdmissionGate, RateLimiter};
use crate::net::IpAddress;
use crate::text::text_eq;

verus! {

/// The routes of the API. All of them answer `GET`.
#[derive(Debug, Clone, Copy, PartialEq, Eq, Structural)]
pub enum Route {
    Status,
    Exchanges,
    Pairs,
    Diagnostics,
    Trades,
    TradesArrow,
}

impl Route {
    /// The path of the route.
    pub open spec fn spec_path(self) -> Seq<char> {
        match self {
            Route::Status => "/status"@,
            Route::Exchanges => "/exchanges"@,
            Route::Pairs => "/pairs"@,
            Route::Diagnostics => "/diagnostics"@,
            Route::Trades => "/trades"@,
            Route::TradesArrow => "/trades.arrow"@,
        }
    }

    /// The path of the route.
    pub fn path(self) -> (path: &'static str)
        ensures
            path@ == self.spec_path(),
    {
        match self {
            Route::Status => "/status",
            Route::Exchanges => "/exchanges",
            Route::Pairs => "/pairs",
            Route::Diagnostics => "/diagnostics",
            Route::Trades => "/trades",
            Route::TradesArrow => "/trades.arrow",
        }
    }

    /// Whether the route needs no token.
    pub open spec fn spec_is_public(self) -> bool {
        self == Route::Status
    }

    /// Whether the route needs no token.
    pub fn is_public(self) -> (public: bool)
        ensures
            public == self.spec_is_public(),
    {
        self == Route::Status
    }

    /// The route with that path, if there is one.
    pub fn from_path(path: &str) -> (route: Option<Route>)
        ensures
            match route {
                Some(found) => path@ == found.spec_path(),
                None => forall|other: Route| path@ != #[trigger] other.spec_path(),
            },
    {
        if text_eq(path, "/status") {
            Some(Route::Status)
        } else if text_eq(path, "/exchanges") {
            Some(Route::Exchanges)
        } else if text_eq(path, "/pairs") {
            Some(Route::Pairs)
        } else if text_eq(path, "/diagnostics") {
            Some(Route::Diagnostics)
        } else if text_eq(path, "/trades") {
            Some(Route::Trades)
        } else if text_eq(path, "/trades.arrow") {
            Some(Route::TradesArrow)
        } else {
            None
        }
    }
}

/// What the checks remember.
#[verifier::ext_equal]
pub struct AccessState {
    /// The token that guards the API, if there is one.
    pub token: Option<Seq<char>>,
    pub gate: crate::limiter::GateState,
    /// The rate limiter, unless rate limiting is disabled.
    pub limiter: Option<crate::limiter::RateLimiterState>,
}

/// The header of a request; a missing one counts as empty.
pub open spec fn header_text(header: Option<&str>) -> Seq<char> {
    match header {
        Some(text) => text@,
        None => ""@,
    }
}

/// Whether a request is authenticated: no token is configured, or the header
/// carries it.
pub open spec fn authenticated(token: Option<Seq<char>>, header: Option<&str>) -> bool {
    match token {
        Some(expected) => crate::config::authorizes(header_text(header), expected),
        None => true,
    }
}

/// Check whether a request carries a valid token. It need not if none is
/// configured.
pub fn check_auth(token: &Option<BearerToken>, header: Option<&str>) -> (result: Result<
    (),
    Refusal,
>)
    ensures
        result == if authenticated(crate::config::token_view(*token), header) {
            Ok::<(), Refusal>(())
        } else {
            Err(Refusal::Unauthorized)
        },
{
    let expected = match token {
        Some(expected) => expected,
        None => return Ok(()),
    };
    let provided = match header {
        Some(text) => text,
        None => "",
    };
    if expected.is_valid_authorization(provided) {
        Ok(())
    } else {
        Err(Refusal::Unauthorized)
    }
}

/// What the admission gate makes of a request. Loopback addresses are not looked at.
pub open spec fn gate_stage(
    before: crate::limiter::GateState,
    ip: IpAddress,
    now: u64,
    admitted: bool,
    after: crate::limiter::GateState,
) -> bool {
    if ip.spec_is_loopback() {
        admitted && after == before
    } else {
        crate::limiter::gate_admit(before, ip, now, admitted, after)
    }
}

/// What the rate limiter makes of a request. Loopback addresses are not looked
/// at, and nobody is if rate limiting is disabled.
pub open spec fn limiter_stage(
    before: Option<crate::limiter::RateLimiterState>,
    ip: IpAddress,
    now: u64,
    allowed: bool,
    after: Option<crate::limiter::RateLimiterState>,
) -> bool {
    match (before, after) {
        (Some(b), Some(a)) => if ip.spec_is_loopback() {
            allowed && a == b
        } else {
            crate::limiter::rate_check(b, ip, now, allowed, a)
        },
        (None, None) => allowed,
        _ => false,
    }
}

/// A request and the times at which gate and limiter look at it, each on its own
/// clock.
pub struct Request<'a> {
    pub route: Route,
    pub ip: IpAddress,
    pub header: Option<&'a str>,
    pub gate_now: u64,
    pub limiter_now: u64,
}

/// The checks of a request once the admission gate has let it pass.
pub open spec fn past_gate(
    before: AccessState,
    request: Request,
    gate: crate::limiter::GateState,
    verdict: Result<(), Refusal>,
    after: AccessState,
) -> bool {
    if request.route.spec_is_public() {
        &&& verdict is Ok
        &&& after == (AccessState { gate, ..before })
    } else if !authenticated(before.token, request.header) {
        &&& verdict == Err::<(), Refusal>(Refusal::Unauthorized)
        &&& after == (AccessState { gate, ..before })
    } else {
        &&& after.token == before.token
        &&& after.gate == if before.token is Some {
            (crate::limiter::GateState {
                trusted: crate::limiter::trust(gate.trusted, request.ip),
                ..gate
            })
        } else {
            gate
        }
        &&& verdict is Ok || verdict == Err::<(), Refusal>(Refusal::RateLimited)
        &&& limiter_stage(
            before.limiter,
            request.ip,
            request.limiter_now,
            verdict is Ok,
            after.limiter,
        )
    }
}

/// What the checks make of a request: gate, then token, then rate limit. A valid
/// token makes the address trusted.
pub open spec fn access_step(
    before: AccessState,
    request: Request,
    verdict: Result<(), Refusal>,
    after: AccessState,
) -> bool {
    exists|gate: crate::limiter::GateState, admitted: bool|
        {
            &&& #[trigger] gate_stage(
                before.gate,
                request.ip,
                request.gate_now,
                admitted,
                gate,
            )
            &&& if admitted {
                past_gate(before, request, gate, verdict, after)
            } else {
                verdict == Err::<(), Refusal>(Refusal::GateExhausted) && after == (AccessState {
                    gate,
                    ..before
                })
            }
        }
}

/// The checks that a request passes on its way to a handler.
pub struct AccessControl {
    pub auth_token: Option<BearerToken>,
    pub gate: AdmissionGate,
    pub rate_limiter: Option<RateLimiter>,
}

impl View for AccessControl {
    type V = AccessState;

    open spec fn view(&self) -> AccessState {
        AccessState {
            token: crate::config::token_view(self.auth_token),
            gate: self.gate@,
            limiter: crate::text::option_view(self.rate_limiter),
        }
    }
}

impl AccessControl {
    /// Gate and limiter are well-formed.
    pub open spec fn wf(&self) -> bool {
        &&& self.gate.wf()
        &&& self.rate_limiter matches Some(limiter) ==> limiter.wf()
    }

    /// Put the checks together.
    pub fn new(
        auth_token: Option<BearerToken>,
        gate: AdmissionGate,
        rate_limiter: Option<RateLimiter>,
    ) -> (access: AccessControl)
        requires
            gate.wf(),
            rate_limiter matches Some(limiter) ==> limiter.wf(),
        ensures
            access.wf(),
            access@ == (AccessState {
                token: crate::config::token_view(auth_token),
                gate: gate@,
                limiter: crate::text::option_view(rate_limiter),
            }),
    {
        AccessControl { auth_token, gate, rate_limiter }
    }

    /// The rate limit, on the limiter's clock.
    fn within_rate(&mut self, ip: IpAddress, now: u64) -> (allowed: bool)
        requires
            old(self).wf(),
        ensures
            final(self).wf(),
            final(self)@.token == old(self)@.token,
            final(self)@.gate == old(self)@.gate,
            limiter_stage(old(self)@.limiter, ip, now, allowed, final(self)@.limiter),
    {
        if ip.is_loopback() {
            return true;
        }
        let mut slot: Option<RateLimiter> = None;
        std::mem::swap(&mut slot, &mut self.rate_limiter);
        match slot {
            Some(mut limiter) => {
                let allowed = limiter.check_at(ip, now);
                self.rate_limiter = Some(limiter);
                allowed
            },
            None => true,
        }
    }

    /// Check a request at the times it carries.
    pub fn authorize_at(&mut self, request: &Request) -> (verdict: Result<(), Refusal>)
        requires
            old(self).wf(),
        ensures
            final(self).wf(),
            access_step(old(self)@, *request, verdict, final(self)@),
    {
        let ghost before = self@;
        let admitted = request.ip.is_loopback() || self.gate.try_admit_at(
            request.ip,
            request.gate_now,
        );
        let ghost gate = self.gate@;
        assert(gate_stage(before.gate, request.ip, request.gate_now, admitted, gate));
        if !admitted {
            return Err(Refusal::GateExhausted);
        }
        if request.route.is_public() {
            return Ok(());
        }
        if self.auth_token.is_some() {
            if let Err(refusal) = check_auth(&self.auth_token, request.header) {
                return Err(refusal);
            }
            self.gate.mark_trusted(request.ip);
        }
        if self.within_rate(request.ip, request.limiter_now) {
            assert(past_gate(before, *request, gate, Ok(()), self@));
            Ok(())
        } else {
            assert(past_gate(before, *request, gate, Err(Refusal::RateLimited), self@));
            Err(Refusal::RateLimited)
        }
    }

    /// Check a request right now.
    pub fn authorize(&mut self, route: Route, ip: IpAddress, header: Option<&str>) -> (verdict:
        Result<(), Refusal>)
        requires
            old(self).wf(),
        ensures
            final(self).wf(),
            exists|gate_now: u64, limiter_now: u64|
                #[trigger] access_step(
                    old(self)@,
                    (Request { route, ip, header, gate_now, limiter_now }),
                    verdict,
                    final(self)@,
                ),
    {
        let gate_now: u64 = self.gate.now();
        let limiter_now: u64 = match &self.rate_limiter {
            Some(limiter) => limiter.now(),
            None => 0,
        };
        let request = Request { route, ip, header, gate_now, limiter_now };
        self.authorize_at(&request)
    }
}

/// The status route is public: it is never refused for want of a token or over
/// the rate limit, and it leaves the rate limiter alone.
pub proof fn law_status_is_public(
    before: AccessState,
    request: Request,
    verdict: Result<(), Refusal>,
    after: AccessState,
)
    requires
        access_step(before, request, verdict, after),
        request.route == Route::Status,
    ensures
        verdict is Ok || verdict == Err::<(), Refusal>(Refusal::GateExhausted),
        after.limiter == before.limiter,
        after.token == before.token,
{
}

/// Every other route is answered only with a valid token, if one is configured.
pub proof fn law_protected_routes_need_the_token(
    before: AccessState,
    request: Request,
    verdict: Result<(), Refusal>,
    after: AccessState,
)
    requires
        access_step(before, request, verdict, after),
        request.route != Route::Status,
        before.token is Some,
        verdict is Ok,
    ensures
        crate::config::authorizes(header_text(request.header), before.token->0),
{
}

/// A request that the admission gate or the token check refuses leaves the rate limiter
/// alone.
pub proof fn law_refused_requests_spare_the_limiter(
    before: AccessState,
    request: Request,
    verdict: Result<(), Refusal>,
    after: AccessState,
)
    requires
        access_step(before, request, verdict, after),
        verdict == Err::<(), Refusal>(Refusal::Unauthorized) || verdict == Err::<(), Refusal>(
            Refusal::GateExhausted,
        ),
    ensures
        after.limiter == before.limiter,
{
}

/// A local client is held up neither by the admission gate nor by the rate limit; it needs
/// the token like everyone else.
pub proof fn law_loopback_needs_only_the_token(
    before: AccessState,
    request: Request,
    verdict: Result<(), Refusal>,
    after: AccessState,
)
    requires
        access_step(before, request, verdict, after),
        request.ip.spec_is_loopback(),
    ensures
        verdict is Ok <==> request.route == Route::Status || authenticated(
            before.token,
            request.header,
        ),
        after.limiter == before.limiter,
        after.gate.per_ip == before.gate.per_ip,
        after.gate.global == before.gate.global,
{
}

/// A valid token makes the address trusted, even if the rate limit refuses the
/// request; a wrong one never does.
pub proof fn law_only_valid_tokens_earn_trust(
    before: AccessState,
    request: Request,
    verdict: Result<(), Refusal>,
    after: AccessState,
)
    requires
        access_step(before, request, verdict, after),
        crate::limiter::gate_wf(before.gate),
    ensures
        request.route != Route::Status && before.token is Some && authenticated(
            before.token,
            request.header,
        ) && verdict != Err::<(), Refusal>(Refusal::GateExhausted) ==> after.gate.trusted.contains(
            request.ip,
        ),
        after.gate.trusted.contains(request.ip) && !before.gate.trusted.contains(request.ip)
            ==> before.token is Some && authenticated(before.token, request.header),
{
    let (gate, admitted) = choose|gate: crate::limiter::GateState, admitted: bool|
        {
            &&& #[trigger] gate_stage(
                before.gate,
                request.ip,
                request.gate_now,
                admitted,
                gate,
            )
            &&& if admitted {
                past_gate(before, request, gate, verdict, after)
            } else {
                verdict == Err::<(), Refusal>(Refusal::GateExhausted) && after == (AccessState {
                    gate,
                    ..before
                })
            }
        };
    assert(gate.trusted == before.gate.trusted);
    let grown = gate.trusted.push(request.ip);
    assert(grown[gate.trusted.len() as int] == request.ip);
    if !gate.trusted.contains(request.ip) && grown.len()
        > crate::limiter::ADMISSION_MAX_TRUSTED_IPS {
        let kept = grown.drop_first();
        assert(kept[kept.len() - 1] == request.ip);
    }
}

/// Every path leads to the route that it names, and to no other; what names no route leads
/// nowhere.
pub proof fn law_paths_name_their_routes(path: &str, route: Option<Route>, own: Route)
    requires
        call_ensures(Route::from_path, (path,), route),
    ensures
        path@ == "/status"@ <==> route == Some(Route::Status),
        path@ == "/exchanges"@ <==> route == Some(Route::Exchanges),
        path@ == "/pairs"@ <==> route == Some(Route::Pairs),
        path@ == "/diagnostics"@ <==> route == Some(Route::Diagnostics),
        path@ == "/trades"@ <==> route == Some(Route::Trades),
        path@ == "/trades.arrow"@ <==> route == Some(Route::TradesArrow),
        path@ == own.spec_path() ==> route == Some(own),
{
    reveal_strlit("/status");
    reveal_strlit("/exchanges");
    reveal_strlit("/pairs");
    reveal_strlit("/diagnostics");
    reveal_strlit("/trades");
    reveal_strlit("/trades.arrow");
    assert("/status"@[1] == 's' && "/exchanges"@[1] == 'e' && "/pairs"@[1] == 'p');
    assert("/diagnostics"@[1] == 'd' && "/trades"@[1] == 't' && "/trades.arrow"@[1] == 't');
    assert("/trades"@.len() == 7 && "/trades.arrow"@.len() == 13);
    assert(Route::Status.spec_path() == "/status"@);
    assert(Route::Exchanges.spec_path() == "/exchanges"@);
    assert(Route::Pairs.spec_path() == "/pairs"@);
    assert(Route::Diagnostics.spec_path() == "/diagnostics"@);
    assert(Route::Trades.spec_path() == "/trades"@);
    assert(Route::TradesArrow.spec_path() == "/trades.arrow"@);
}

/// Only the status needs no token.
pub proof fn law_only_the_status_is_public(route: Route, public: bool)
    requires
        call_ensures(Route::is_public, (route,), public),
    ensures
        public <==> route is Status,
{
}

/// A request without a token passes where none is configured, and where one is only a
/// request that carries it does.
pub proof fn law_tokens_are_checked(
    token: Option<BearerToken>,
    header: Option<&str>,
    result: Result<(), Refusal>,
)
    requires
        call_ensures(check_auth, (&token, header), result),
    ensures
        token is None ==> result is Ok,
        token matches Some(expected) ==> header matches Some(text) ==> (result is Ok
            <==> crate::config::authorizes(text@, expected@)),
        result is Err ==> result == Err::<(), Refusal>(Refusal::Unauthorized),
{
}

/// Each refusal has its reason. The admission gate refuses only unknown addresses from
/// elsewhere, the token check only requests on guarded routes that do not carry the
/// configured token, and the rate limit only authenticated requests from elsewhere.
pub proof fn law_refusals_have_their_reason(
    access: &mut AccessControl,
    request: Request,
    verdict: Result<(), Refusal>,
)
    requires
        old(access).wf(),
        call_ensures(AccessControl::authorize_at, (access, &request), verdict),
    ensures
        verdict matches Err(refusal) ==> {
            ||| refusal is GateExhausted && !request.ip.spec_is_loopback()
                && !old(access)@.gate.trusted.contains(request.ip)
            ||| refusal is Unauthorized && !(request.route is Status) && old(access)@.token is Some
                && !crate::config::authorizes(
                header_text(request.header),
                old(access)@.token->0,
            )
            ||| refusal is RateLimited && !(request.route is Status)
                && !request.ip.spec_is_loopback() && old(access)@.limiter is Some && (
            old(access)@.token is None || crate::config::authorizes(
                header_text(request.header),
                old(access)@.token->0,
            ))
        },
        final(access)@.token == old(access)@.token,
{
}

/// Whoever is owed an answer gets it: a trusted or local client always gets the status,
/// and every guarded route too if it carries the token and no rate limit stands in the
/// way.
pub proof fn law_clients_with_the_token_are_served(
    access: &mut AccessControl,
    request: Request,
    verdict: Result<(), Refusal>,
)
    requires
        old(access).wf(),
        call_ensures(AccessControl::authorize_at, (access, &request), verdict),
        request.ip.spec_is_loopback() || old(access)@.gate.trusted.contains(request.ip),
    ensures
        request.route is Status ==> verdict is Ok,
        old(access)@.token is None && (old(access)@.limiter is None
            || request.ip.spec_is_loopback()) ==> verdict is Ok,
        old(access)@.token matches Some(token) ==> crate::config::authorizes(
            header_text(request.header),
            token,
        ) && (old(access)@.limiter is None || request.ip.spec_is_loopback()) ==> verdict is Ok,
        final(access)@.gate.per_ip == old(access)@.gate.per_ip,
        final(access)@.gate.global == old(access)@.gate.global,
{
}

/// Nobody gets past a token: a request on a guarded route that does not carry the
/// configured token is refused, whoever sends it, and makes nobody trusted.
pub proof fn law_nobody_gets_past_the_token(
    access: &mut AccessControl,
    request: Request,
    verdict: Result<(), Refusal>,
)
    requires
        old(access).wf(),
        call_ensures(AccessControl::authorize_at, (access, &request), verdict),
        old(access)@.token is Some,
        !crate::config::authorizes(header_text(request.header), old(access)@.token->0),
        !(request.route is Status),
    ensures
        verdict is Err,
        request.ip.spec_is_loopback() ==> verdict == Err::<(), Refusal>(Refusal::Unauthorized),
        final(access)@.gate.trusted == old(access)@.gate.trusted,
        final(access)@.limiter == old(access)@.limiter,
{
}

/// The rate limit has the last word: an authenticated request from elsewhere that the
/// admission gate let pass is answered if and only if the rate limiter allows it.
pub proof fn law_rate_limit_has_the_last_word(
    access: &mut AccessControl,
    request: Request,
    verdict: Result<(), Refusal>,
)
    requires
        old(access).wf(),
        call_ensures(AccessControl::authorize_at, (access, &request), verdict),
        !request.ip.spec_is_loopback(),
        !(request.route is Status),
        old(access)@.limiter is Some,
        verdict is Ok || verdict == Err::<(), Refusal>(Refusal::RateLimited),
    ensures
        final(access)@.limiter is Some,
        crate::limiter::rate_check(
            old(access)@.limiter->0,
            request.ip,
            request.limiter_now,
            verdict is Ok,
            final(access)@.limiter->0,
        ),
{
}

/// Admission has the first word: a request from elsewhere is refused as unknown if and only
/// if the admission gate does not admit it, and it costs what the admission gate charges.
pub proof fn law_admission_comes_first(
    access: &mut AccessControl,
    request: Request,
    verdict: Result<(), Refusal>,
    admitted: bool,
)
    requires
        old(access).wf(),
        call_ensures(AccessControl::authorize_at, (access, &request), verdict),
        !request.ip.spec_is_loopback(),
        admitted == (verdict != Err::<(), Refusal>(Refusal::GateExhausted)),
    ensures
        exists|gate: crate::limiter::GateState|
            #[trigger] crate::limiter::gate_admit(
                old(access)@.gate,
                request.ip,
                request.gate_now,
                admitted,
                gate,
            ) && final(access)@.gate.per_ip == gate.per_ip && final(access)@.gate.global
                == gate.global,
{
    let before = old(access)@;
    let after = final(access)@;
    let (gate, passed) = choose|gate: crate::limiter::GateState, admitted: bool|
        {
            &&& #[trigger] gate_stage(
                before.gate,
                request.ip,
                request.gate_now,
                admitted,
                gate,
            )
            &&& if admitted {
                past_gate(before, request, gate, verdict, after)
            } else {
                verdict == Err::<(), Refusal>(Refusal::GateExhausted) && after == (AccessState {
                    gate,
                    ..before
                })
            }
        };
    assert(crate::limiter::gate_admit(
        before.gate,
        request.ip,
        request.gate_now,
        admitted,
        gate,
    ));
}

/// A route is found under the path that it names.
pub proof fn law_routes_are_found_under_their_paths(
    route: Route,
    path: &'static str,
    found: Option<Route>,
)
    requires
        call_ensures(Route::path, (route,), path),
        call_ensures(Route::from_path, (path,), found),
    ensures
        found == Some(route),
        path@[0] == '/',
{
    law_paths_name_their_routes(path, found, route);
    reveal_strlit("/status");
    reveal_strlit("/exchanges");
    reveal_strlit("/pairs");
    reveal_strlit("/diagnostics");
    reveal_strlit("/trades");
    reveal_strlit("/trades.arrow");
}

/// Whatever the time: the status is refused by admission only, and where a token is
/// configured nothing else is answered without it.
pub proof fn law_token_guards_at_any_time(
    access: &mut AccessControl,
    route: Route,
    ip: IpAddress,
    header: Option<&str>,
    verdict: Result<(), Refusal>,
)
    requires
        old(access).wf(),
        call_ensures(AccessControl::authorize, (access, route, ip, header), verdict),
    ensures
        route is Status ==> verdict is Ok || verdict == Err::<(), Refusal>(Refusal::GateExhausted),
        old(access)@.token matches Some(expected) ==> !(route is Status) && verdict is Ok
            ==> crate::config::authorizes(header_text(header), expected),
        final(access)@.token == old(access)@.token,
{
    let (gate_now, limiter_now) = choose|gate_now: u64, limiter_now: u64|
        #[trigger] access_step(
            old(access)@,
            (Request { route, ip, header, gate_now, limiter_now }),
            verdict,
            final(access)@,
        );
    assert(access_step(
        old(access)@,
        (Request { route, ip, header, gate_now, limiter_now }),
        verdict,
        final(access)@,
    ));
}

/// The checks are those that they were put together from.
pub proof fn law_checks_are_put_together(
    token: Option<BearerToken>,
    gate: AdmissionGate,
    limiter: Option<RateLimiter>,
    access: AccessControl,
)
    requires
        call_ensures(AccessControl::new, (token, gate, limiter), access),
    ensures
        access@.gate == gate@,
        access@.token is Some <==> token is Some,
        access@.token is Some ==> access@.token->0 == token->0@,
        access@.limiter is Some <==> limiter is Some,
        access@.limiter is Some ==> access@.limiter->0 == limiter->0@,
{
}

} // verus!
