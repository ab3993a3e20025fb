//! Mathematical model of the rate limiter.
//!
//! A limiter state is a mapping from client keys to logs of request
//! timestamps, together with the fixed policy (quota and window length) and a
//! corruption flag for the critical section that guards the shared state.
//! One call of decide-and-record is `step_state` / `step_decision`; a whole
//! history of calls is folded by `run`.

use vstd::prelude::*;

verus! {

/// Outcome of one decide-and-record call.
#[derive(Clone, Copy, PartialEq, Eq, Debug)]
pub enum Decision {
    /// The request is within quota and has been recorded.
    Allow,
    /// The request must be rejected; the reason says why.
    Deny(DenyReason),
}

/// Why a request was denied.
#[derive(Clone, Copy, PartialEq, Eq, Debug)]
pub enum DenyReason {
    /// The client exceeded `max_requests` within the window.
    QuotaExceeded,
    /// Exclusive access to the shared state could not be trusted; the limiter
    /// fails closed.
    StateAccessFailure,
}

/// Abstract state of the limiter: per-key timestamp logs plus the policy.
pub ghost struct LimiterView {
    /// Timestamp log of every key seen so far.
    pub logs: Map<Seq<char>, Seq<u64>>,
    /// Quota: how many requests a key may have inside one window.
    pub max_requests: nat,
    /// Window length in seconds.
    pub window: u64,
    /// True once exclusive access to the shared state has failed; every
    /// later call is denied without touching the logs.
    pub corrupted: bool,
}

impl LimiterView {
    /// The log of `k`: keys never observed have an empty log.
    pub open spec fn log_of(self, k: Seq<char>) -> Seq<u64> {
        if self.logs.dom().contains(k) {
            self.logs[k]
        } else {
            Seq::empty()
        }
    }
}

/// The entries of `log` strictly newer than the cutoff instant `c`.
pub open spec fn recent(log: Seq<u64>, c: int) -> Seq<u64> {
    log.filter(|t: u64| c < t)
}

/// The entries of `log` still inside the window at instant `now`. The bound
/// is strict: an entry exactly `window` old is expired, not retained.
pub open spec fn retained(log: Seq<u64>, now: u64, window: u64) -> Seq<u64> {
    recent(log, now - window)
}

/// The entries of `ts` inside the window `(t_end - window, t_end]`.
pub open spec fn in_window(ts: Seq<u64>, t_end: int, window: u64) -> Seq<u64> {
    ts.filter(|t: u64| t_end - window < t && t <= t_end)
}

/// A freshly constructed limiter: no keys, nothing corrupted.
pub open spec fn init_view(max_requests: nat, window: u64) -> LimiterView {
    LimiterView { logs: Map::empty(), max_requests, window, corrupted: false }
}

/// The decision of one decide-and-record call for `k` at instant `now`.
pub open spec fn step_decision(v: LimiterView, k: Seq<char>, now: u64) -> Decision {
    if v.corrupted {
        Decision::Deny(DenyReason::StateAccessFailure)
    } else if retained(v.log_of(k), now, v.window).len() >= v.max_requests {
        Decision::Deny(DenyReason::QuotaExceeded)
    } else {
        Decision::Allow
    }
}

/// The state after one decide-and-record call for `k` at instant `now`:
/// the log of `k` is pruned to the window, and the call's timestamp is
/// appended exactly when the call is allowed. No other key changes.
pub open spec fn step_state(v: LimiterView, k: Seq<char>, now: u64) -> LimiterView {
    if v.corrupted {
        v
    } else {
        let pruned = retained(v.log_of(k), now, v.window);
        let new_log = if pruned.len() < v.max_requests {
            pruned.push(now)
        } else {
            pruned
        };
        LimiterView { logs: v.logs.insert(k, new_log), ..v }
    }
}

/// The same limiter with the corruption flag raised.
pub open spec fn corrupt(v: LimiterView) -> LimiterView {
    LimiterView { corrupted: true, ..v }
}

/// One request in a history: which key asked, and when.
pub ghost struct Event {
    /// The client key of the request.
    pub key: Seq<char>,
    /// The instant of the request, in seconds.
    pub time: u64,
}

/// The limiter state after serving every request of `tr` in order,
/// starting from `v0`.
pub open spec fn run(v0: LimiterView, tr: Seq<Event>) -> LimiterView
    decreases tr.len(),
{
    if tr.len() == 0 {
        v0
    } else {
        step_state(run(v0, tr.drop_last()), tr.last().key, tr.last().time)
    }
}

/// The timestamps of the requests for key `k` in `tr` that were allowed,
/// in order of arrival.
pub open spec fn allowed_times(v0: LimiterView, tr: Seq<Event>, k: Seq<char>) -> Seq<u64>
    decreases tr.len(),
{
    if tr.len() == 0 {
        Seq::empty()
    } else {
        let prev = allowed_times(v0, tr.drop_last(), k);
        if tr.last().key == k && step_decision(
            run(v0, tr.drop_last()),
            tr.last().key,
            tr.last().time,
        ) == Decision::Allow {
            prev.push(tr.last().time)
        } else {
            prev
        }
    }
}

/// Requests arrive in time order.
pub open spec fn times_nondecreasing(tr: Seq<Event>) -> bool {
    forall|i: int, j: int| 0 <= i <= j < tr.len() ==> tr[i].time <= tr[j].time
}

/// Whether `tr` holds a request for key `k`.
pub open spec fn has_key(tr: Seq<Event>, k: Seq<char>) -> bool
    decreases tr.len(),
{
    if tr.len() == 0 {
        false
    } else {
        tr.last().key == k || has_key(tr.drop_last(), k)
    }
}

/// The cutoff below which entries of `k`'s log have been pruned: the instant
/// of the last request for `k`, less the window. Before any request for `k`
/// the log is empty and the cutoff is immaterial; `-1` sits below every
/// timestamp.
pub open spec fn cut_for(tr: Seq<Event>, k: Seq<char>, window: u64) -> int
    decreases tr.len(),
{
    if tr.len() == 0 {
        -1
    } else if tr.last().key == k {
        tr.last().time - window
    } else {
        cut_for(tr.drop_last(), k, window)
    }
}

} // verus!
