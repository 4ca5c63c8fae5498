//! Replaying logged requests: which requests, and in what order with which
//! pauses. Sending them is the caller's.
use vstd::prelude::*;

use crate::http_client::HttpRequestBuilder;
use crate::logger::RequestLogEntry;

verus! {

/// One step of a replay run.
#[derive(PartialEq, Eq, Structural, Clone, Copy, Debug)]
pub enum ReplayStep {
    /// Start on request `request` (counted from 0).
    Begin { request: usize },
    /// Send request `request` (counted from 0) for the `attempt`-th time
    /// (counted from 1).
    Send { request: usize, attempt: usize },
    /// Wait this many milliseconds.
    Wait { millis: u64 },
}

/// The log entries written by `source`, or all of them.
pub open spec fn selected_entries(logs: Seq<RequestLogEntry>, source: Option<Seq<char>>) -> Seq<
    RequestLogEntry,
>
    decreases logs.len(),
{
    if logs.len() == 0 {
        Seq::empty()
    } else {
        let rest = selected_entries(logs.drop_last(), source);
        match source {
            Some(s) => if logs.last().source@ == s {
                rest.push(logs.last())
            } else {
                rest
            },
            None => rest.push(logs.last()),
        }
    }
}

/// The log entries written by `source` (all of them when no source is
/// given), in order.
pub fn entries_from_source(logs: Vec<RequestLogEntry>, source: &Option<String>) -> (r: Vec<
    RequestLogEntry,
>)
    ensures
        r@ == selected_entries(
            logs@,
            match source {
                Some(s) => Some(s@),
                None => None,
            },
        ),
{
    let ghost src = match source {
        Some(s) => Some(s@),
        None => None::<Seq<char>>,
    };
    let ghost all = logs@;
    let mut rest = logs;
    let mut reversed: Vec<RequestLogEntry> = Vec::new();
    while rest.len() > 0
        invariant
            rest@.len() <= all.len(),
            rest@ == all.subrange(0, rest@.len() as int),
            src == match source {
                Some(s) => Some(s@),
                None => None::<Seq<char>>,
            },
            selected_entries(all, src) == selected_entries(rest@, src) + reversed@.reverse(),
        decreases rest@.len(),
    {
        let ghost before = rest@;
        let ghost old_rev = reversed@;
        match rest.pop() {
            Some(e) => {
                assert(before.drop_last() =~= rest@);
                assert(before.last() == e);
                let wanted = match source {
                    Some(s) => e.source == *s,
                    None => true,
                };
                if wanted {
                    reversed.push(e);
                    assert(reversed@.reverse() =~= seq![e] + old_rev.reverse());
                    assert(selected_entries(rest@, src).push(e) + old_rev.reverse()
                        =~= selected_entries(rest@, src) + (seq![e] + old_rev.reverse()));
                }
            },
            None => {},
        }
    }
    assert(selected_entries(rest@, src) =~= Seq::<RequestLogEntry>::empty());
    let mut r: Vec<RequestLogEntry> = Vec::new();
    let ghost target = reversed@.reverse();
    assert(target =~= selected_entries(all, src));
    while reversed.len() > 0
        invariant
            target == r@ + reversed@.reverse(),
        decreases reversed@.len(),
    {
        let ghost before = reversed@;
        match reversed.pop() {
            Some(e) => {
                r.push(e);
                assert(before.reverse() =~= seq![e] + reversed@.reverse());
            },
            None => {},
        }
    }
    assert(r@ =~= target);
    r
}

/// `b` replays the logged request of `e`: same method, URL and headers,
/// the body preview as body (none when it is empty), a 30-second timeout,
/// redirects followed and certificates verified.
pub open spec fn is_replay_of(b: HttpRequestBuilder, e: RequestLogEntry) -> bool {
    &&& b.method == e.request.method
    &&& b.url == e.request.url
    &&& b.headers@ == e.request.headers@
    &&& if e.request.body_preview@.len() == 0 {
        b.body is None
    } else {
        b.body == Some(e.request.body_preview)
    }
    &&& b.timeout_seconds == 30
    &&& b.follow_redirects
    &&& b.verify_ssl
}

/// The requests to replay from the logs: one for each entry written by
/// `source` (or each entry when no source is given), in order.
pub fn requests_to_replay(logs: &Vec<RequestLogEntry>, source: &Option<String>) -> (r: Vec<
    HttpRequestBuilder,
>)
    ensures
        ({
            let sel = selected_entries(
                logs@,
                match source {
                    Some(s) => Some(s@),
                    None => None,
                },
            );
            &&& r@.len() == sel.len()
            &&& forall|i: int| 0 <= i < r@.len() ==> is_replay_of(#[trigger] r@[i], sel[i])
        }),
{
    let ghost src = match source {
        Some(s) => Some(s@),
        None => None::<Seq<char>>,
    };
    let mut r: Vec<HttpRequestBuilder> = Vec::new();
    let mut i: usize = 0;
    while i < logs.len()
        invariant
            i <= logs@.len(),
            src == match source {
                Some(s) => Some(s@),
                None => None::<Seq<char>>,
            },
            ({
                let sel = selected_entries(logs@.subrange(0, i as int), src);
                &&& r@.len() == sel.len()
                &&& forall|j: int| 0 <= j < r@.len() ==> is_replay_of(#[trigger] r@[j], sel[j])
            }),
        decreases logs@.len() - i,
    {
        let log = &logs[i];
        assert(logs@.subrange(0, i + 1).drop_last() =~= logs@.subrange(0, i as int));
        let wanted = match source {
            Some(s) => log.source == *s,
            None => true,
        };
        if wanted {
            let body = if log.request.body_preview.as_str().is_empty() {
                None
            } else {
                Some(log.request.body_preview.clone())
            };
            r.push(
                HttpRequestBuilder {
                    method: log.request.method.clone(),
                    url: log.request.url.clone(),
                    headers: log.request.headers.duplicate(),
                    body,
                    timeout_seconds: 30,
                    follow_redirects: true,
                    verify_ssl: true,
                },
            );
        }
        i = i + 1;
    }
    assert(logs@.subrange(0, i as int) =~= logs@);
    r
}

/// The steps for the first `a` attempts at request `i`: each attempt but
/// the last is followed by a pause of `delay` when there is a delay.
pub open spec fn attempt_steps(i: nat, a: nat, count: nat, delay: u64) -> Seq<ReplayStep>
    decreases a,
{
    if a == 0 {
        Seq::empty()
    } else {
        attempt_steps(i, (a - 1) as nat, count, delay) + seq![
            ReplayStep::Send { request: i as usize, attempt: a as usize },
        ] + (if a < count && delay > 0 {
            seq![ReplayStep::Wait { millis: delay }]
        } else {
            Seq::empty()
        })
    }
}

/// The steps for the first `k` of `n` requests: each request begins, is
/// attempted `count` times, and all but the last are followed by a pause of
/// twice the delay when there is a delay.
pub open spec fn schedule_upto(k: nat, n: nat, count: nat, delay: u64) -> Seq<ReplayStep>
    decreases k,
{
    if k == 0 {
        Seq::empty()
    } else {
        schedule_upto((k - 1) as nat, n, count, delay) + seq![
            ReplayStep::Begin { request: (k - 1) as usize },
        ] + attempt_steps(
            (k - 1) as nat,
            count,
            count,
            delay,
        ) + (if k < n && delay > 0 {
            seq![ReplayStep::Wait { millis: (delay * 2) as u64 }]
        } else {
            Seq::empty()
        })
    }
}

/// The steps of replaying `n` requests `count` times each with `delay`
/// milliseconds between attempts and twice that between requests. Twice
/// the delay must fit in a `u64` when it is used.
pub fn replay_schedule(n: usize, count: usize, delay: u64) -> (r: Vec<ReplayStep>)
    requires
        n >= 2 && delay > 0 ==> delay * 2 <= u64::MAX,
    ensures
        r@ == schedule_upto(n as nat, n as nat, count as nat, delay),
{
    let mut r: Vec<ReplayStep> = Vec::new();
    let mut i: usize = 0;
    while i < n
        invariant
            i <= n,
            n >= 2 && delay > 0 ==> delay * 2 <= u64::MAX,
            r@ == schedule_upto(i as nat, n as nat, count as nat, delay),
        decreases n - i,
    {
        r.push(ReplayStep::Begin { request: i });
        let ghost before = r@;
        let mut a: usize = 0;
        while a < count
            invariant
                a <= count,
                i < n,
                r@ == before + attempt_steps(i as nat, a as nat, count as nat, delay),
            decreases count - a,
        {
            let ghost mid = r@;
            r.push(ReplayStep::Send { request: i, attempt: a + 1 });
            if a + 1 < count && delay > 0 {
                r.push(ReplayStep::Wait { millis: delay });
            }
            assert(r@ =~= before + attempt_steps(i as nat, (a + 1) as nat, count as nat, delay));
            a = a + 1;
        }
        let ghost with_attempts = r@;
        if i + 1 < n && delay > 0 {
            r.push(ReplayStep::Wait { millis: delay * 2 });
        }
        assert(r@ =~= schedule_upto((i + 1) as nat, n as nat, count as nat, delay));
        i = i + 1;
    }
    r
}


// ---------------------------------------------------------------------
// Laws
// ---------------------------------------------------------------------

/// Number of `Send` steps in a sequence of steps.
pub open spec fn send_count(s: Seq<ReplayStep>) -> nat
    decreases s.len(),
{
    if s.len() == 0 {
        0
    } else {
        send_count(s.drop_last()) + (if s.last() is Send {
            1nat
        } else {
            0nat
        })
    }
}

proof fn lemma_send_count_append(a: Seq<ReplayStep>, b: Seq<ReplayStep>)
    ensures
        send_count(a + b) == send_count(a) + send_count(b),
    decreases b.len(),
{
    if b.len() == 0 {
        assert(a + b =~= a);
    } else {
        assert((a + b).drop_last() =~= a + b.drop_last());
        lemma_send_count_append(a, b.drop_last());
    }
}

proof fn lemma_attempt_sends(i: nat, a: nat, count: nat, delay: u64)
    ensures
        send_count(attempt_steps(i, a, count, delay)) == a,
        delay == 0 ==> forall|j: int|
            0 <= j < attempt_steps(i, a, count, delay).len() ==> (#[trigger] attempt_steps(
                i,
                a,
                count,
                delay,
            )[j]) is Send,
    decreases a,
{
    if a > 0 {
        let prev = attempt_steps(i, (a - 1) as nat, count, delay);
        let send = seq![ReplayStep::Send { request: i as usize, attempt: a as usize }];
        let wait: Seq<ReplayStep> = if a < count && delay > 0 {
            seq![ReplayStep::Wait { millis: delay }]
        } else {
            Seq::empty()
        };
        lemma_attempt_sends(i, (a - 1) as nat, count, delay);
        lemma_send_count_append(prev, send);
        lemma_send_count_append(prev + send, wait);
        assert(send_count(send) == 1) by {
            assert(send.drop_last() =~= Seq::<ReplayStep>::empty());
            assert(send_count(send.drop_last()) == 0);
            assert(send.last() is Send);
        }
        if a < count && delay > 0 {
            assert(send_count(wait) == 0) by {
                assert(wait.drop_last() =~= Seq::<ReplayStep>::empty());
                assert(send_count(wait.drop_last()) == 0);
                assert(wait.last() is Wait);
            }
        }
        if delay == 0 {
            let all = attempt_steps(i, a, count, delay);
            assert(all =~= prev + send);
            assert forall|j: int| 0 <= j < all.len() implies (#[trigger] all[j]) is Send by {
                if j < prev.len() {
                    assert(all[j] == prev[j]);
                }
            }
        }
    }
}

/// A replay run begins each of the `n` requests once and sends it `count`
/// times, `n * count` sends in all; without a delay it never waits.
pub proof fn replay_sends_each_request_count_times(n: nat, count: nat, delay: u64)
    ensures
        send_count(schedule_upto(n, n, count, delay)) == n * count,
        delay == 0 ==> forall|j: int|
            0 <= j < schedule_upto(n, n, count, delay).len() ==> !((#[trigger] schedule_upto(
                n,
                n,
                count,
                delay,
            )[j]) is Wait),
{
    lemma_schedule_sends(n, n, count, delay);
}

proof fn lemma_schedule_sends(k: nat, n: nat, count: nat, delay: u64)
    ensures
        send_count(schedule_upto(k, n, count, delay)) == k * count,
        delay == 0 ==> forall|j: int|
            0 <= j < schedule_upto(k, n, count, delay).len() ==> !((#[trigger] schedule_upto(
                k,
                n,
                count,
                delay,
            )[j]) is Wait),
    decreases k,
{
    if k > 0 {
        let prev = schedule_upto((k - 1) as nat, n, count, delay);
        let begin = seq![ReplayStep::Begin { request: (k - 1) as usize }];
        let att = attempt_steps((k - 1) as nat, count, count, delay);
        let wait: Seq<ReplayStep> = if k < n && delay > 0 {
            seq![ReplayStep::Wait { millis: (delay * 2) as u64 }]
        } else {
            Seq::empty()
        };
        lemma_schedule_sends((k - 1) as nat, n, count, delay);
        lemma_attempt_sends((k - 1) as nat, count, count, delay);
        lemma_send_count_append(prev, begin);
        lemma_send_count_append(prev + begin, att);
        lemma_send_count_append(prev + begin + att, wait);
        assert(send_count(begin) == 0) by {
            assert(begin.drop_last() =~= Seq::<ReplayStep>::empty());
            assert(send_count(begin.drop_last()) == 0);
            assert(begin.last() is Begin);
        }
        if k < n && delay > 0 {
            assert(send_count(wait) == 0) by {
                assert(wait.drop_last() =~= Seq::<ReplayStep>::empty());
                assert(send_count(wait.drop_last()) == 0);
                assert(wait.last() is Wait);
            }
        }
        assert(k * count == (k - 1) * count + count) by (nonlinear_arith)
            requires
                k > 0,
        ;
        if delay == 0 {
            let all = schedule_upto(k, n, count, delay);
            assert(all =~= prev + begin + att);
            assert forall|j: int| 0 <= j < all.len() implies !((#[trigger] all[j]) is Wait) by {
                if j < prev.len() {
                    assert(all[j] == prev[j]);
                } else if j == prev.len() {
                    assert(all[j] == begin[0]);
                } else {
                    assert(all[j] == att[j - prev.len() - 1]);
                }
            }
        }
    }
}

} // verus!
