//! The limiter's guarantees, proved over the model of `model`.
//!
//! The central results: over any history of requests served in time order,
//! a key is allowed at most `max_requests` times inside any window
//! (`lemma_quota_bound`, `lemma_quota_bound_any_window`), and once a window
//! is full the next request for that key is denied
//! (`lemma_full_window_denies`). Around them: keys do not interact
//! (`lemma_key_independence`), a denied attempt consumes no capacity
//! (`lemma_deny_no_consumption`), and a corrupted critical section fails
//! closed for every key (`lemma_fail_closed`).

use vstd::prelude::*;

use crate::model::{
    allowed_times, cut_for, has_key, in_window, init_view, recent, retained, run, step_decision,
    step_state, times_nondecreasing, Decision, DenyReason, Event, LimiterView,
};

verus! {

/// Pruning an empty log yields an empty log.
proof fn lemma_recent_empty(c: int)
    ensures
        recent(Seq::<u64>::empty(), c) == Seq::<u64>::empty(),
{
    reveal(Seq::filter);
}

/// Pruning visits the appended entry last: it is kept exactly when it is
/// newer than the cutoff.
pub(crate) proof fn lemma_recent_push(s: Seq<u64>, x: u64, c: int)
    ensures
        recent(s.push(x), c) == if c < x {
            recent(s, c).push(x)
        } else {
            recent(s, c)
        },
{
    reveal(Seq::filter);
    assert(s.push(x).drop_last() =~= s);
    assert(s.push(x).last() == x);
}

/// Pruning never grows a log.
pub(crate) proof fn lemma_recent_len(s: Seq<u64>, c: int)
    ensures
        recent(s, c).len() <= s.len(),
{
    s.lemma_filter_len(|t: u64| c < t);
}

/// Pruning at a later cutoff subsumes pruning at an earlier one.
proof fn lemma_recent_recent(s: Seq<u64>, c1: int, c2: int)
    requires
        c1 <= c2,
    ensures
        recent(recent(s, c1), c2) == recent(s, c2),
    decreases s.len(),
{
    if s.len() == 0 {
        lemma_recent_empty(c1);
        lemma_recent_empty(c2);
    } else {
        let d = s.drop_last();
        let x = s.last();
        lemma_recent_recent(d, c1, c2);
        assert(d.push(x) =~= s);
        lemma_recent_push(d, x, c1);
        lemma_recent_push(d, x, c2);
        if c1 < x {
            lemma_recent_push(recent(d, c1), x, c2);
        }
    }
}

/// A later cutoff keeps no more entries than an earlier one.
pub(crate) proof fn lemma_recent_len_mono(s: Seq<u64>, c1: int, c2: int)
    requires
        c1 <= c2,
    ensures
        recent(s, c2).len() <= recent(s, c1).len(),
{
    lemma_recent_recent(s, c1, c2);
    lemma_recent_len(recent(s, c1), c2);
}

/// A key that never asked was never allowed.
proof fn lemma_no_key_no_allowed(v0: LimiterView, tr: Seq<Event>, k: Seq<char>)
    requires
        !has_key(tr, k),
    ensures
        allowed_times(v0, tr, k) == Seq::<u64>::empty(),
    decreases tr.len(),
{
    if tr.len() > 0 {
        lemma_no_key_no_allowed(v0, tr.drop_last(), k);
    }
}

/// In a time-ordered history the pruning cutoff of a key that has asked
/// lies at or below the latest instant, less the window.
proof fn lemma_cut_le(tr: Seq<Event>, k: Seq<char>, window: u64)
    requires
        times_nondecreasing(tr),
        has_key(tr, k),
    ensures
        tr.len() > 0,
        cut_for(tr, k, window) <= tr.last().time - window,
    decreases tr.len(),
{
    if tr.last().key == k {
    } else {
        let d = tr.drop_last();
        assert(times_nondecreasing(d)) by {
            assert(forall|i: int, j: int|
                0 <= i <= j < d.len() ==> d[i] == tr[i] && d[j] == tr[j]);
        }
        lemma_cut_le(d, k, window);
        assert(d.last() == tr[tr.len() - 2]);
        assert(tr[tr.len() - 2].time <= tr.last().time);
    }
}

/// The bridge between a history and the calls that realize it: serving one
/// more request is one more step of the state, and it extends the allowed
/// timestamps of its key exactly when it is allowed.
pub proof fn lemma_run_push(v0: LimiterView, tr: Seq<Event>, e: Event)
    ensures
        run(v0, tr.push(e)) == step_state(run(v0, tr), e.key, e.time),
        forall|k: Seq<char>|
            #[trigger] allowed_times(v0, tr.push(e), k) == (if k == e.key && step_decision(
                run(v0, tr),
                e.key,
                e.time,
            ) == Decision::Allow {
                allowed_times(v0, tr, k).push(e.time)
            } else {
                allowed_times(v0, tr, k)
            }),
{
    assert(tr.push(e).drop_last() =~= tr);
    assert(tr.push(e).last() == e);
}

/// Fail-closed: while the state is corrupted, every request of every key is
/// denied as an internal fault and nothing is read or changed.
pub proof fn lemma_fail_closed(v: LimiterView, k: Seq<char>, now: u64)
    requires
        v.corrupted,
    ensures
        step_decision(v, k, now) == Decision::Deny(DenyReason::StateAccessFailure),
        step_state(v, k, now) == v,
{
}

/// Key independence: a call for one key neither changes another key's log
/// nor its future decisions.
pub proof fn lemma_key_independence(
    v: LimiterView,
    ka: Seq<char>,
    ta: u64,
    kb: Seq<char>,
    tb: u64,
)
    requires
        ka != kb,
    ensures
        step_state(v, ka, ta).log_of(kb) == v.log_of(kb),
        step_decision(step_state(v, ka, ta), kb, tb) == step_decision(v, kb, tb),
{
}

/// A denied attempt consumes nothing: the decision of any later call for the
/// same key is exactly what it would have been had the denied attempt never
/// happened, and the log was only pruned, never extended.
pub proof fn lemma_deny_no_consumption(v: LimiterView, k: Seq<char>, t1: u64, t2: u64)
    requires
        t1 <= t2,
        step_decision(v, k, t1) != Decision::Allow,
    ensures
        step_decision(step_state(v, k, t1), k, t2) == step_decision(v, k, t2),
        !v.corrupted ==> step_state(v, k, t1).log_of(k) == retained(v.log_of(k), t1, v.window),
{
    if !v.corrupted {
        let log = v.log_of(k);
        let w = v.window;
        lemma_recent_recent(log, t1 - w, t2 - w);
    }
}

/// The shape of the limiter's state over a time-ordered history: the log of
/// each key holds exactly the allowed timestamps of that key newer than its
/// pruning cutoff, and never more than the quota.
proof fn lemma_run_log(max: nat, window: u64, tr: Seq<Event>, k: Seq<char>)
    requires
        window >= 1,
        times_nondecreasing(tr),
    ensures
        ({
            let v0 = init_view(max, window);
            let v = run(v0, tr);
            &&& v.max_requests == max
            &&& v.window == window
            &&& !v.corrupted
            &&& v.log_of(k) == recent(allowed_times(v0, tr, k), cut_for(tr, k, window))
            &&& v.log_of(k).len() <= max
        }),
    decreases tr.len(),
{
    let v0 = init_view(max, window);
    if tr.len() == 0 {
        lemma_recent_empty(cut_for(tr, k, window));
    } else {
        let d = tr.drop_last();
        let e = tr.last();
        let t = e.time;
        assert(times_nondecreasing(d)) by {
            assert(forall|i: int, j: int|
                0 <= i <= j < d.len() ==> d[i] == tr[i] && d[j] == tr[j]);
        }
        lemma_run_log(max, window, d, k);
        let vp = run(v0, d);
        let av = allowed_times(v0, d, k);
        let c = cut_for(d, k, window);
        if e.key == k {
            // The pruned log at this call equals the allowed timestamps of
            // `k` newer than the new cutoff.
            let pruned = retained(vp.log_of(k), t, window);
            assert(pruned == recent(av, t - window)) by {
                if has_key(d, k) {
                    lemma_cut_le(d, k, window);
                    assert(d.last() == tr[tr.len() - 2]);
                    assert(tr[tr.len() - 2].time <= t);
                    lemma_recent_recent(av, c, t - window);
                } else {
                    lemma_no_key_no_allowed(v0, d, k);
                    lemma_recent_empty(c);
                    lemma_recent_empty(t - window);
                }
            }
            lemma_recent_len(vp.log_of(k), t - window);
            if pruned.len() < max {
                lemma_recent_push(av, t, t - window);
                assert(run(v0, tr).log_of(k) == pruned.push(t));
                assert(allowed_times(v0, tr, k) == av.push(t));
            } else {
                assert(run(v0, tr).log_of(k) == pruned);
                assert(allowed_times(v0, tr, k) == av);
            }
        } else {
            assert(run(v0, tr).log_of(k) == vp.log_of(k));
            assert(allowed_times(v0, tr, k) == av);
            assert(cut_for(tr, k, window) == c);
        }
    }
}

/// Quota bound: over any time-ordered history served from a fresh limiter,
/// a key is allowed at most `max` times inside the window `(t_end - window,
/// t_end]`, for any instant `t_end` at or after the whole history.
pub proof fn lemma_quota_bound(max: nat, window: u64, tr: Seq<Event>, k: Seq<char>, t_end: int)
    requires
        window >= 1,
        times_nondecreasing(tr),
        forall|i: int| 0 <= i < tr.len() ==> tr[i].time <= t_end,
    ensures
        recent(allowed_times(init_view(max, window), tr, k), t_end - window).len() <= max,
{
    let v0 = init_view(max, window);
    let av = allowed_times(v0, tr, k);
    lemma_run_log(max, window, tr, k);
    if has_key(tr, k) {
        lemma_cut_le(tr, k, window);
        lemma_recent_len_mono(av, cut_for(tr, k, window), t_end - window);
    } else {
        lemma_no_key_no_allowed(v0, tr, k);
        lemma_recent_empty(t_end - window);
    }
}

/// Once a window is full, the next request is denied: if a key was already
/// allowed `max` times after `t - window`, a further request for it at
/// instant `t` is denied as quota exceeded — it is never allowed.
pub proof fn lemma_full_window_denies(
    max: nat,
    window: u64,
    tr: Seq<Event>,
    k: Seq<char>,
    t: u64,
)
    requires
        window >= 1,
        times_nondecreasing(tr),
        forall|i: int| 0 <= i < tr.len() ==> tr[i].time <= t,
        recent(allowed_times(init_view(max, window), tr, k), t - window).len() >= max,
    ensures
        step_decision(run(init_view(max, window), tr), k, t) == Decision::Deny(
            DenyReason::QuotaExceeded,
        ),
{
    let v0 = init_view(max, window);
    let av = allowed_times(v0, tr, k);
    lemma_run_log(max, window, tr, k);
    let v = run(v0, tr);
    let c = cut_for(tr, k, window);
    assert(retained(v.log_of(k), t, window) == recent(av, t - window)) by {
        if has_key(tr, k) {
            lemma_cut_le(tr, k, window);
            lemma_recent_recent(av, c, t - window);
        } else {
            lemma_no_key_no_allowed(v0, tr, k);
            lemma_recent_empty(c);
            lemma_recent_empty(t - window);
        }
    }
}

/// An empty sequence has nothing inside any window.
proof fn lemma_in_window_empty(t_end: int, window: u64)
    ensures
        in_window(Seq::<u64>::empty(), t_end, window) == Seq::<u64>::empty(),
{
    reveal(Seq::filter);
}

/// Selecting a window visits the appended entry last.
proof fn lemma_in_window_push(s: Seq<u64>, x: u64, t_end: int, window: u64)
    ensures
        in_window(s.push(x), t_end, window) == if t_end - window < x && x <= t_end {
            in_window(s, t_end, window).push(x)
        } else {
            in_window(s, t_end, window)
        },
{
    reveal(Seq::filter);
    assert(s.push(x).drop_last() =~= s);
    assert(s.push(x).last() == x);
}

/// Entries of a window ending at `t_end` are in particular newer than
/// `t_end - window`.
proof fn lemma_in_window_le_recent(s: Seq<u64>, t_end: int, window: u64)
    ensures
        in_window(s, t_end, window).len() <= recent(s, t_end - window).len(),
    decreases s.len(),
{
    if s.len() == 0 {
        lemma_in_window_empty(t_end, window);
        lemma_recent_empty(t_end - window);
    } else {
        let d = s.drop_last();
        let x = s.last();
        lemma_in_window_le_recent(d, t_end, window);
        assert(d.push(x) =~= s);
        lemma_in_window_push(d, x, t_end, window);
        lemma_recent_push(d, x, t_end - window);
    }
}

/// A sequence whose entries all lie past `t_end` has nothing inside a window
/// ending at `t_end`.
proof fn lemma_in_window_all_late(s: Seq<u64>, t_end: int, window: u64)
    requires
        forall|i: int| 0 <= i < s.len() ==> s[i] > t_end,
    ensures
        in_window(s, t_end, window) == Seq::<u64>::empty(),
    decreases s.len(),
{
    if s.len() == 0 {
        lemma_in_window_empty(t_end, window);
    } else {
        let d = s.drop_last();
        let x = s.last();
        assert(forall|i: int| 0 <= i < d.len() ==> d[i] == s[i]);
        lemma_in_window_all_late(d, t_end, window);
        assert(d.push(x) =~= s);
        lemma_in_window_push(d, x, t_end, window);
    }
}

/// Selecting a window distributes over concatenation.
proof fn lemma_in_window_app(a: Seq<u64>, b: Seq<u64>, t_end: int, window: u64)
    ensures
        in_window(a + b, t_end, window) == in_window(a, t_end, window) + in_window(
            b,
            t_end,
            window,
        ),
    decreases b.len(),
{
    if b.len() == 0 {
        assert(a + b =~= a);
        lemma_in_window_empty(t_end, window);
        assert(in_window(a, t_end, window) + Seq::<u64>::empty() =~= in_window(a, t_end, window));
    } else {
        let d = b.drop_last();
        let x = b.last();
        lemma_in_window_app(a, d, t_end, window);
        assert(a + b =~= (a + d).push(x));
        lemma_in_window_push(a + d, x, t_end, window);
        lemma_in_window_push(d, x, t_end, window);
        assert(d.push(x) =~= b);
        if t_end - window < x && x <= t_end {
            assert(in_window(a, t_end, window) + in_window(d, t_end, window).push(x)
                =~= (in_window(a, t_end, window) + in_window(d, t_end, window)).push(x));
        }
    }
}

/// Serving a concatenated history is serving its parts in turn.
proof fn lemma_run_app(v0: LimiterView, a: Seq<Event>, b: Seq<Event>)
    ensures
        run(v0, a + b) == run(run(v0, a), b),
    decreases b.len(),
{
    if b.len() == 0 {
        assert(a + b =~= a);
    } else {
        let d = b.drop_last();
        lemma_run_app(v0, a, d);
        assert((a + b).drop_last() =~= a + d);
        assert((a + b).last() == b.last());
    }
}

/// The allowed timestamps of a concatenated history are those of the first
/// part followed by those of the second, served from where the first left
/// the state.
proof fn lemma_allowed_app(v0: LimiterView, a: Seq<Event>, b: Seq<Event>, k: Seq<char>)
    ensures
        allowed_times(v0, a + b, k) == allowed_times(v0, a, k) + allowed_times(
            run(v0, a),
            b,
            k,
        ),
    decreases b.len(),
{
    if b.len() == 0 {
        assert(a + b =~= a);
        assert(allowed_times(v0, a, k) + allowed_times(run(v0, a), b, k)
            =~= allowed_times(v0, a, k));
    } else {
        let d = b.drop_last();
        lemma_allowed_app(v0, a, d, k);
        lemma_run_app(v0, a, d);
        assert((a + b).drop_last() =~= a + d);
        assert((a + b).last() == b.last());
        if b.last().key == k && step_decision(run(run(v0, a), d), b.last().key, b.last().time)
            == Decision::Allow {
            assert((allowed_times(v0, a, k) + allowed_times(run(v0, a), d, k)).push(b.last().time)
                =~= allowed_times(v0, a, k) + allowed_times(run(v0, a), d, k).push(
                b.last().time,
            ));
        }
    }
}

/// Allowed timestamps come from the history's own instants: if every request
/// of `tr` is later than `t_end`, so is every allowed timestamp.
proof fn lemma_allowed_late(v0: LimiterView, tr: Seq<Event>, k: Seq<char>, t_end: int)
    requires
        forall|i: int| 0 <= i < tr.len() ==> tr[i].time > t_end,
    ensures
        forall|j: int|
            0 <= j < allowed_times(v0, tr, k).len() ==> allowed_times(v0, tr, k)[j] > t_end,
    decreases tr.len(),
{
    if tr.len() > 0 {
        let d = tr.drop_last();
        assert(forall|i: int| 0 <= i < d.len() ==> d[i] == tr[i]);
        lemma_allowed_late(v0, d, k, t_end);
        let prev = allowed_times(v0, d, k);
        let cur = allowed_times(v0, tr, k);
        if cur == prev.push(tr.last().time) {
            assert(forall|j: int| 0 <= j < prev.len() ==> cur[j] == prev[j]);
            assert(cur[cur.len() - 1] == tr.last().time);
        }
    }
}

/// The number of requests of `tr` at or before `t_end`; in a time-ordered
/// history they form its prefix.
spec fn split_point(tr: Seq<Event>, t_end: int) -> int
    decreases tr.len(),
{
    if tr.len() == 0 {
        0
    } else if tr.last().time <= t_end {
        tr.len() as int
    } else {
        split_point(tr.drop_last(), t_end)
    }
}

proof fn lemma_split_point(tr: Seq<Event>, t_end: int)
    requires
        times_nondecreasing(tr),
    ensures
        0 <= split_point(tr, t_end) <= tr.len(),
        forall|i: int| 0 <= i < split_point(tr, t_end) ==> tr[i].time <= t_end,
        forall|i: int| split_point(tr, t_end) <= i < tr.len() ==> tr[i].time > t_end,
    decreases tr.len(),
{
    if tr.len() > 0 && tr.last().time > t_end {
        let d = tr.drop_last();
        assert(times_nondecreasing(d)) by {
            assert(forall|i: int, j: int|
                0 <= i <= j < d.len() ==> d[i] == tr[i] && d[j] == tr[j]);
        }
        lemma_split_point(d, t_end);
        assert(forall|i: int| 0 <= i < d.len() ==> d[i] == tr[i]);
        // Past the split point of the shorter history every instant exceeds
        // `t_end`, and so does the last one.
        assert(forall|i: int| split_point(tr, t_end) <= i < d.len() ==> tr[i].time > t_end);
    }
}

/// Quota bound over any rolling window: over any time-ordered history served
/// from a fresh limiter, at most `max` requests of a key are allowed inside
/// `(t_end - window, t_end]`, wherever that window lies.
pub proof fn lemma_quota_bound_any_window(
    max: nat,
    window: u64,
    tr: Seq<Event>,
    k: Seq<char>,
    t_end: int,
)
    requires
        window >= 1,
        times_nondecreasing(tr),
    ensures
        in_window(allowed_times(init_view(max, window), tr, k), t_end, window).len() <= max,
{
    let v0 = init_view(max, window);
    let p = split_point(tr, t_end);
    lemma_split_point(tr, t_end);
    let a = tr.take(p);
    let b = tr.skip(p);
    assert(a + b =~= tr);
    lemma_allowed_app(v0, a, b, k);
    let aa = allowed_times(v0, a, k);
    let ab = allowed_times(run(v0, a), b, k);
    lemma_in_window_app(aa, ab, t_end, window);
    // The later part contributes nothing to the window.
    assert(forall|i: int| 0 <= i < b.len() ==> b[i].time > t_end);
    lemma_allowed_late(run(v0, a), b, k, t_end);
    lemma_in_window_all_late(ab, t_end, window);
    // The earlier part is bounded by the quota.
    assert(times_nondecreasing(a)) by {
        assert(forall|i: int, j: int|
            0 <= i <= j < a.len() ==> a[i] == tr[i] && a[j] == tr[j]);
    }
    assert(forall|i: int| 0 <= i < a.len() ==> a[i].time <= t_end);
    lemma_quota_bound(max, window, a, k, t_end);
    lemma_in_window_le_recent(aa, t_end, window);
    assert(in_window(aa, t_end, window) + Seq::<u64>::empty() =~= in_window(aa, t_end, window));
}

} // verus!
