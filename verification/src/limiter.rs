//! The limiter state and its one operation, decide-and-record.
//!
//! `RateLimiter` owns the mapping from client key to the timestamps of its
//! recent requests and the fixed policy. `decide_and_record` prunes the
//! key's log to the window, denies when the remainder reaches the quota,
//! and otherwise records the request. The surrounding process shares one
//! instance behind a lock; when a prior holder of that lock failed while
//! holding it the state is no longer trusted, `mark_corrupted` records the
//! fault, and every later call fails closed.
//!
//! Every operation is specified against the model of [`crate::model`]:
//! a call is exactly one `step_state` / `step_decision`.

use vstd::prelude::*;
use vstd::string::StringExecFns;

use crate::model::{
    corrupt, init_view, recent, retained, step_decision, step_state, Decision, DenyReason,
    LimiterView,
};
use crate::laws::{lemma_recent_len, lemma_recent_push};

verus! {

/// One client's record: its key and the timestamps of its recent requests.
struct ClientLog {
    key: String,
    stamps: Vec<u64>,
}

/// The timestamp logs of a sequence of client records, as a map from key to
/// log. Later records shadow earlier ones; under `distinct_keys` there is
/// nothing to shadow.
spec fn logs_of(s: Seq<ClientLog>) -> Map<Seq<char>, Seq<u64>>
    decreases s.len(),
{
    if s.len() == 0 {
        Map::empty()
    } else {
        logs_of(s.drop_last()).insert(s.last().key@, s.last().stamps@)
    }
}

/// No two records share a key.
spec fn distinct_keys(s: Seq<ClientLog>) -> bool {
    forall|i: int, j: int| 0 <= i < j < s.len() ==> s[i].key@ != s[j].key@
}

proof fn lemma_logs_of_absent(s: Seq<ClientLog>, k: Seq<char>)
    requires
        forall|i: int| 0 <= i < s.len() ==> s[i].key@ != k,
    ensures
        !logs_of(s).dom().contains(k),
    decreases s.len(),
{
    if s.len() > 0 {
        assert(forall|i: int| 0 <= i < s.drop_last().len() ==> s.drop_last()[i] == s[i]);
        lemma_logs_of_absent(s.drop_last(), k);
    }
}

proof fn lemma_logs_of_at(s: Seq<ClientLog>, i: int)
    requires
        distinct_keys(s),
        0 <= i < s.len(),
    ensures
        logs_of(s).dom().contains(s[i].key@),
        logs_of(s)[s[i].key@] == s[i].stamps@,
    decreases s.len(),
{
    if i < s.len() - 1 {
        let d = s.drop_last();
        assert(forall|x: int| 0 <= x < d.len() ==> d[x] == s[x]);
        lemma_logs_of_at(d, i);
        assert(s.last().key@ != s[i].key@);
    }
}

proof fn lemma_logs_of_update(s: Seq<ClientLog>, i: int, cl: ClientLog)
    requires
        distinct_keys(s),
        0 <= i < s.len(),
        cl.key@ == s[i].key@,
    ensures
        logs_of(s.update(i, cl)) == logs_of(s).insert(cl.key@, cl.stamps@),
    decreases s.len(),
{
    let s2 = s.update(i, cl);
    if i == s.len() - 1 {
        assert(s2.drop_last() =~= s.drop_last());
        assert(s2.last() == cl);
        assert(logs_of(s.drop_last()).insert(s.last().key@, s.last().stamps@).insert(
            cl.key@,
            cl.stamps@,
        ) =~= logs_of(s.drop_last()).insert(cl.key@, cl.stamps@));
    } else {
        let d = s.drop_last();
        assert(forall|x: int| 0 <= x < d.len() ==> d[x] == s[x]);
        assert(s2.drop_last() =~= d.update(i, cl));
        assert(s2.last() == s.last());
        lemma_logs_of_update(d, i, cl);
        assert(s.last().key@ != cl.key@);
        assert(logs_of(d).insert(cl.key@, cl.stamps@).insert(s.last().key@, s.last().stamps@)
            =~= logs_of(d).insert(s.last().key@, s.last().stamps@).insert(cl.key@, cl.stamps@));
    }
}

proof fn lemma_logs_of_push(s: Seq<ClientLog>, cl: ClientLog)
    ensures
        logs_of(s.push(cl)) == logs_of(s).insert(cl.key@, cl.stamps@),
{
    assert(s.push(cl).drop_last() =~= s);
    assert(s.push(cl).last() == cl);
}

/// The shared limiter state: per-client request logs and the fixed policy.
///
/// A client's record is created on its first request and never removed,
/// even once all its entries have aged out: the mapping grows monotonically
/// in distinct keys over the process's lifetime. That is deliberate — it
/// keeps the critical section a short bounded computation — and accepted:
/// a record never holds more than `max_requests` timestamps.
pub struct RateLimiter {
    clients: Vec<ClientLog>,
    max_requests: usize,
    window_size: u64,
    corrupted: bool,
}

impl View for RateLimiter {
    type V = LimiterView;

    closed spec fn view(&self) -> LimiterView {
        LimiterView {
            logs: logs_of(self.clients@),
            max_requests: self.max_requests as nat,
            window: self.window_size,
            corrupted: self.corrupted,
        }
    }
}

impl RateLimiter {
    /// Well-formedness: a positive window, one record per key, and no log
    /// beyond the quota.
    pub closed spec fn wf(&self) -> bool {
        &&& self.window_size >= 1
        &&& distinct_keys(self.clients@)
        &&& forall|i: int|
            0 <= i < self.clients@.len() ==> self.clients@[i].stamps@.len()
                <= self.max_requests
    }

    /// A fresh limiter with the given policy: quota `max_requests` per
    /// `window_size` seconds, an empty key mapping, trusted state.
    pub fn new(max_requests: usize, window_size: u64) -> (r: RateLimiter)
        requires
            window_size >= 1,
        ensures
            r.wf(),
            r@ == init_view(max_requests as nat, window_size),
    {
        RateLimiter { clients: Vec::new(), max_requests, window_size, corrupted: false }
    }

    /// Records that exclusive access to this state failed while a holder
    /// was inside the critical section: the counts are no longer trusted,
    /// and every later call is denied without reading them.
    pub fn mark_corrupted(&mut self)
        requires
            old(self).wf(),
        ensures
            final(self).wf(),
            final(self)@ == corrupt(old(self)@),
    {
        self.corrupted = true;
    }

    /// Decide-and-record for `key` at instant `now_secs`: prune the key's
    /// log to the window, deny if the remaining count has reached the
    /// quota, else record the request and allow it. Exactly one step of the
    /// model: the decision is `step_decision`, the new state `step_state`.
    pub fn decide_and_record(&mut self, key: String, now_secs: u64) -> (d: Decision)
        requires
            old(self).wf(),
        ensures
            final(self).wf(),
            final(self)@ == step_state(old(self)@, key@, now_secs),
            d == step_decision(old(self)@, key@, now_secs),
    {
        if self.corrupted {
            return Decision::Deny(DenyReason::StateAccessFailure);
        }
        let ghost v0 = self@;
        // Fetch the record for `key`, creating an empty one on first sight.
        let n = self.clients.len();
        let mut idx: usize = 0;
        while idx < n && !(self.clients[idx].key == key)
            invariant
                n == self.clients@.len(),
                idx <= n,
                forall|j: int| 0 <= j < idx ==> self.clients@[j].key@ != key@,
            decreases n - idx,
        {
            idx += 1;
        }
        if idx == n {
            proof {
                lemma_logs_of_absent(self.clients@, key@);
            }
            let fresh = ClientLog { key, stamps: Vec::new() };
            proof {
                lemma_logs_of_push(self.clients@, fresh);
            }
            self.clients.push(fresh);
        }
        let ghost s1 = self.clients@;
        let ghost kv = s1[idx as int].key@;
        proof {
            assert(kv == key@);
            assert(distinct_keys(s1));
            lemma_logs_of_at(s1, idx as int);
            // In both branches the fetched log is the key's log in the
            // starting state, and re-inserting the key reaches the same
            // maps as inserting into the starting state.
            if idx == n {
                assert(s1[idx as int].stamps@ =~= Seq::<u64>::empty());
                assert(v0.log_of(key@) =~= Seq::<u64>::empty());
            }
            assert(s1[idx as int].stamps@ == v0.log_of(key@));
        }
        // Prune: keep exactly the timestamps still inside the window
        // (strictly: an entry exactly `window_size` old is expired).
        let m = self.clients[idx].stamps.len();
        let mut pruned: Vec<u64> = Vec::new();
        let mut j: usize = 0;
        while j < m
            invariant
                j <= m,
                idx < self.clients@.len(),
                self.clients@ == s1,
                self.window_size >= 1,
                m == s1[idx as int].stamps@.len(),
                pruned@ == recent(s1[idx as int].stamps@.take(j as int), now_secs - self.window_size),
            decreases m - j,
        {
            let t = self.clients[idx].stamps[j];
            if t >= now_secs || now_secs - t < self.window_size {
                pruned.push(t);
            }
            j += 1;
            proof {
                let st = s1[idx as int].stamps@;
                assert(st.take(j as int) =~= st.take(j - 1).push(st[j - 1]));
                lemma_recent_push(st.take(j - 1), st[j - 1], now_secs - self.window_size);
            }
        }
        proof {
            assert(s1[idx as int].stamps@.take(m as int) =~= s1[idx as int].stamps@);
            assert(pruned@ == retained(v0.log_of(key@), now_secs, v0.window));
            lemma_recent_len(s1[idx as int].stamps@, now_secs - self.window_size);
        }
        // Decide, and store the pruned (and on ALLOW, extended) log.
        let d = if pruned.len() >= self.max_requests {
            Decision::Deny(DenyReason::QuotaExceeded)
        } else {
            pruned.push(now_secs);
            Decision::Allow
        };
        self.clients[idx].stamps = pruned;
        proof {
            let s2 = self.clients@;
            assert(s2 == s1.update(idx as int, s2[idx as int]));
            assert(s2[idx as int].key@ == kv);
            lemma_logs_of_update(s1, idx as int, s2[idx as int]);
            if idx == n {
                assert(logs_of(s1) == v0.logs.insert(key@, Seq::<u64>::empty()));
                assert(logs_of(s1).insert(key@, s2[idx as int].stamps@) =~= v0.logs.insert(
                    key@,
                    s2[idx as int].stamps@,
                ));
            }
            assert(self@.logs == step_state(v0, key@, now_secs).logs);
            assert(self@ == step_state(v0, key@, now_secs));
            // Well-formedness: keys unchanged, logs still within quota.
            assert(forall|i: int| 0 <= i < s2.len() ==> s2[i].key@ == s1[i].key@);
            assert(forall|i: int|
                0 <= i < s2.len() ==> s2[i].stamps@.len() <= self.max_requests);
        }
        d
    }

    /// True exactly when the request from `ip` at instant `now_secs` must
    /// be throttled, recording it when it is allowed.
    pub fn is_rate_limited(&mut self, ip: &str, now_secs: u64) -> (limited: bool)
        requires
            old(self).wf(),
        ensures
            final(self).wf(),
            final(self)@ == step_state(old(self)@, ip@, now_secs),
            limited == (step_decision(old(self)@, ip@, now_secs) != Decision::Allow),
    {
        let d = self.decide_and_record(String::from_str(ip), now_secs);
        match d {
            Decision::Allow => false,
            Decision::Deny(_) => true,
        }
    }
}

} // verus!
