//! Per-session sliding-window rate limiting: at most 5 messages within any
//! rolling 10-second window.
use vstd::prelude::*;
use crate::types::{Client, ClientV};

verus! {

/// Length of the rolling window, in seconds.
pub const RATE_WINDOW_SECS: u64 = 10;

/// Messages allowed inside one window.
pub const RATE_MAX_MSGS: usize = 5;

/// Whether a recorded timestamp still lies inside the window at `now`.
pub open spec fn in_window(t: u64, now: u64) -> bool {
    now - t < RATE_WINDOW_SECS
}

/// The timestamps that survive discarding entries older than the window.
pub open spec fn kept_times(ts: Seq<u64>, now: u64) -> Seq<u64> {
    ts.filter(|t: u64| in_window(t, now))
}

/// Whether a message at `now` is accepted against this window.
pub open spec fn rate_allowed(ts: Seq<u64>, now: u64) -> bool {
    kept_times(ts, now).len() < RATE_MAX_MSGS
}

/// The window after one send attempt at `now`.
pub open spec fn rate_next(ts: Seq<u64>, now: u64) -> Seq<u64> {
    if rate_allowed(ts, now) {
        kept_times(ts, now).push(now)
    } else {
        kept_times(ts, now)
    }
}

/// Sliding-window check: a message is accepted exactly when, after entries
/// older than 10 seconds are discarded, fewer than 5 remain; on acceptance
/// the current timestamp is recorded. Nothing else of the session changes.
pub fn check_rate_limit(client: &mut Client, now: u64) -> (allowed: bool)
    ensures
        allowed == rate_allowed(old(client).deep_view().last_message_times, now),
        final(client).deep_view() == (ClientV {
            last_message_times: rate_next(old(client).deep_view().last_message_times, now),
            ..old(client).deep_view()
        }),
{
    let ghost ts = client.last_message_times@;
    let mut kept: Vec<u64> = Vec::new();
    let mut i: usize = 0;
    let m = client.last_message_times.len();
    while i < m
        invariant
            0 <= i <= m,
            m == client.last_message_times@.len(),
            client.last_message_times@ == ts,
            *client == *old(client),
            kept@ =~= ts.subrange(0, i as int).filter(|t: u64| in_window(t, now)),
        decreases m - i,
    {
        let t = client.last_message_times[i];
        if t >= now || now - t < RATE_WINDOW_SECS {
            kept.push(t);
        }
        i = i + 1;
        proof {
            reveal(Seq::filter);
            assert(ts.subrange(0, i as int).drop_last() =~= ts.subrange(0, i - 1));
            assert(kept@ =~= ts.subrange(0, i as int).filter(|t: u64| in_window(t, now)));
        }
    }
    proof {
        assert(ts.subrange(0, m as int) =~= ts);
    }
    let allowed = kept.len() < RATE_MAX_MSGS;
    if allowed {
        kept.push(now);
    }
    client.last_message_times = kept;
    proof {
        assert(client.deep_view() =~~= ClientV {
            last_message_times: rate_next(ts, now),
            ..old(client).deep_view()
        });
    }
    allowed
}

/// A filter that every element passes changes nothing.
pub proof fn lemma_filter_all<A>(s: Seq<A>, pred: spec_fn(A) -> bool)
    requires
        forall|i: int| 0 <= i < s.len() ==> pred(s[i]),
    ensures
        s.filter(pred) == s,
    decreases s.len(),
{
    reveal(Seq::filter);
    if s.len() == 0 {
        assert(s.filter(pred) =~= s);
    } else {
        lemma_filter_all(s.drop_last(), pred);
        assert(s.filter(pred) =~= s);
    }
}

/// No timestamp passes the window test: everything is discarded.
pub proof fn lemma_filter_none<A>(s: Seq<A>, pred: spec_fn(A) -> bool)
    requires
        forall|i: int| 0 <= i < s.len() ==> !pred(s[i]),
    ensures
        s.filter(pred) == Seq::<A>::empty(),
    decreases s.len(),
{
    reveal(Seq::filter);
    if s.len() == 0 {
        assert(s.filter(pred) =~= Seq::<A>::empty());
    } else {
        lemma_filter_none(s.drop_last(), pred);
        assert(s.filter(pred) =~= Seq::<A>::empty());
    }
}

/// The rolling-window law: out of six sends inside one 10-second span,
/// starting from an empty window, the first five are accepted and the sixth
/// is rejected; once 10 seconds have passed since the last accepted send, a
/// new send is accepted again.
pub proof fn lemma_rate_limiter_window(
    t1: u64,
    t2: u64,
    t3: u64,
    t4: u64,
    t5: u64,
    t6: u64,
    t7: u64,
)
    requires
        t1 <= t2 <= t3 <= t4 <= t5 <= t6,
        t6 - t1 < RATE_WINDOW_SECS,
        t7 >= t5 + RATE_WINDOW_SECS,
    ensures
        ({
            let w0 = Seq::<u64>::empty();
            let w1 = rate_next(w0, t1);
            let w2 = rate_next(w1, t2);
            let w3 = rate_next(w2, t3);
            let w4 = rate_next(w3, t4);
            let w5 = rate_next(w4, t5);
            &&& rate_allowed(w0, t1)
            &&& rate_allowed(w1, t2)
            &&& rate_allowed(w2, t3)
            &&& rate_allowed(w3, t4)
            &&& rate_allowed(w4, t5)
            &&& !rate_allowed(w5, t6)
            &&& rate_allowed(rate_next(w5, t6), t7)
        }),
{
    let w0 = Seq::<u64>::empty();
    let w1 = rate_next(w0, t1);
    let w2 = rate_next(w1, t2);
    let w3 = rate_next(w2, t3);
    let w4 = rate_next(w3, t4);
    let w5 = rate_next(w4, t5);
    lemma_filter_none(w0, |t: u64| in_window(t, t1));
    assert(w1 =~= seq![t1]);
    lemma_filter_all(w1, |t: u64| in_window(t, t2));
    assert(w2 =~= seq![t1, t2]);
    lemma_filter_all(w2, |t: u64| in_window(t, t3));
    assert(w3 =~= seq![t1, t2, t3]);
    lemma_filter_all(w3, |t: u64| in_window(t, t4));
    assert(w4 =~= seq![t1, t2, t3, t4]);
    lemma_filter_all(w4, |t: u64| in_window(t, t5));
    assert(w5 =~= seq![t1, t2, t3, t4, t5]);
    lemma_filter_all(w5, |t: u64| in_window(t, t6));
    assert(kept_times(w5, t6) =~= w5);
    assert(!rate_allowed(w5, t6));
    let w6 = rate_next(w5, t6);
    assert(w6 =~= w5);
    lemma_filter_none(w6, |t: u64| in_window(t, t7));
    assert(kept_times(w6, t7) =~= Seq::<u64>::empty());
}

} // verus!
