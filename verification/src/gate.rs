//! Gate middleware: key derivation and the per-request decision.
//!
//! `RateLimiterMiddleware` is the factory configured with the policy;
//! `RateLimiterMiddlewareService` wraps one shared limiter and decides, for
//! each inbound request, whether to forward it to the inner handler or to
//! short-circuit with the rejection response. This middleware knows nothing of
//! routes or of what it protects: the surrounding router wires exempt
//! routes (such as a liveness check) outside it.

use vstd::prelude::*;
use vstd::string::StringExecFns;

use crate::limiter::RateLimiter;
use crate::model::{corrupt, init_view, step_decision, step_state, Decision, DenyReason, LimiterView};

verus! {

/// The fixed key shared by every request whose peer address cannot be
/// determined: all such clients fall into one quota bucket, deliberately.
pub open spec fn sentinel_key() -> Seq<char> {
    "unknown"@
}

/// The key a request is bucketed under: its peer address, or the shared
/// sentinel when none can be determined.
pub open spec fn peer_key_view(peer_addr: Option<&str>) -> Seq<char> {
    match peer_addr {
        Option::Some(p) => p@,
        Option::None => sentinel_key(),
    }
}

/// Derives the rate-limiting key of a request from its peer address.
pub fn client_key(peer_addr: Option<&str>) -> (k: String)
    ensures
        k@ == peer_key_view(peer_addr),
{
    match peer_addr {
        Option::Some(p) => String::from_str(p),
        Option::None => String::from_str("unknown"),
    }
}

/// What the middleware does with one request.
#[derive(Clone, Copy, PartialEq, Eq, Debug)]
pub enum GateOutcome {
    /// Invoke the inner handler with the request untouched, and pass its
    /// response through unmodified.
    Forward,
    /// Short-circuit with the rejection response; the inner handler is not
    /// invoked. The reason distinguishes a legitimate throttle from an
    /// internal fault in operator-facing diagnostics.
    Reject(DenyReason),
}

/// The outcome for a limiter decision: allowed requests are
/// forwarded, denied ones rejected with the deny reason.
pub open spec fn outcome_of(d: Decision) -> GateOutcome {
    match d {
        Decision::Allow => GateOutcome::Forward,
        Decision::Deny(r) => GateOutcome::Reject(r),
    }
}

/// Middleware factory: holds the limiter configured with the policy.
pub struct RateLimiterMiddleware {
    limiter: RateLimiter,
}

impl View for RateLimiterMiddleware {
    type V = LimiterView;

    closed spec fn view(&self) -> LimiterView {
        self.limiter@
    }
}

impl RateLimiterMiddleware {
    /// Well-formedness of the owned limiter.
    pub closed spec fn wf(&self) -> bool {
        self.limiter.wf()
    }

    /// A gate allowing each key `max_requests` requests per `window_size`
    /// seconds.
    pub fn new(max_requests: usize, window_size: u64) -> (r: RateLimiterMiddleware)
        requires
            window_size >= 1,
        ensures
            r.wf(),
            r@ == init_view(max_requests as nat, window_size),
    {
        RateLimiterMiddleware { limiter: RateLimiter::new(max_requests, window_size) }
    }

    /// Hands the limiter to the service that intercepts requests.
    pub fn into_service(self) -> (s: RateLimiterMiddlewareService)
        ensures
            s@ == self@,
            self.wf() ==> s.wf(),
    {
        RateLimiterMiddlewareService { limiter: self.limiter }
    }
}

/// The request-intercepting service: one shared limiter, one decision per
/// request.
pub struct RateLimiterMiddlewareService {
    limiter: RateLimiter,
}

impl View for RateLimiterMiddlewareService {
    type V = LimiterView;

    closed spec fn view(&self) -> LimiterView {
        self.limiter@
    }
}

impl RateLimiterMiddlewareService {
    /// Well-formedness of the owned limiter.
    pub closed spec fn wf(&self) -> bool {
        self.limiter.wf()
    }

    /// One gated request at instant `now_secs`: derive the client key from
    /// the peer address, consult the limiter, and either forward to the
    /// inner handler or reject. Exactly one step of the model under the
    /// derived key.
    pub fn call(&mut self, peer_addr: Option<&str>, now_secs: u64) -> (g: GateOutcome)
        requires
            old(self).wf(),
        ensures
            final(self).wf(),
            final(self)@ == step_state(old(self)@, peer_key_view(peer_addr), now_secs),
            g == outcome_of(step_decision(old(self)@, peer_key_view(peer_addr), now_secs)),
    {
        let key = client_key(peer_addr);
        let d = self.limiter.decide_and_record(key, now_secs);
        match d {
            Decision::Allow => GateOutcome::Forward,
            Decision::Deny(r) => GateOutcome::Reject(r),
        }
    }

    /// Records that exclusive access to the shared limiter failed while a
    /// holder was inside the critical section; every later call fails
    /// closed.
    pub fn mark_corrupted(&mut self)
        requires
            old(self).wf(),
        ensures
            final(self).wf(),
            final(self)@ == corrupt(old(self)@),
    {
        self.limiter.mark_corrupted();
    }
}

} // verus!
