//! A per-client limit on requests: a client (an IP address) may make at
//! most five requests in any sixty seconds.
use vstd::prelude::*;

verus! {

/// The length of the sliding window, in nanoseconds (sixty seconds).
pub const WINDOW_NANOS: u64 = 60_000_000_000;

/// How many requests a client may make within one window.
pub const MAX_REQUESTS: usize = 5;

/// The HTTP status of a refused request: 429 Too Many Requests.
pub const TOO_MANY_REQUESTS: u16 = 429;

/// A client, identified by its IP address: an IPv6 address, or an IPv4
/// address in the low 32 bits when `is_v6` is false. Requests from any port
/// of one address count together.
#[derive(Debug, Clone, Copy, PartialEq, Eq, Structural)]
pub struct ClientKey {
    pub ip: u128,
    pub is_v6: bool,
}

#[verifier::external_type_specification]
#[verifier::external_body]
pub struct ExInstant(std::time::Instant);

/// `Instant::now()`: a reading of the monotonic clock.
#[verifier::external_body]
fn clock_now() -> std::time::Instant {
    std::time::Instant::now()
}

/// `Instant::elapsed` of `origin`, in whole nanoseconds. Nothing is stated of
/// the value: it is read from the clock.
#[verifier::external_body]
fn nanos_since(origin: &std::time::Instant) -> u64 {
    origin.elapsed().as_nanos() as u64
}

/// A request made at time `t` still counts at time `now`: less than a window
/// lies between them (a `t` after `now` counts as no time at all).
pub open spec fn in_window(now: u64, t: u64) -> bool {
    now - t < WINDOW_NANOS
}

/// The request times of `ts` that still count at `now`, in order.
pub open spec fn recent(ts: Seq<u64>, now: u64) -> Seq<u64> {
    ts.filter(|t: u64| in_window(now, t))
}

/// The request times recorded for `key` in `m` (none if it was never seen).
pub open spec fn times_of(m: Map<ClientKey, Seq<u64>>, key: ClientKey) -> Seq<u64> {
    if m.contains_key(key) {
        m[key]
    } else {
        Seq::empty()
    }
}

/// Tracks the recent requests of each client. The clients are held as a
/// vector of pairs in which no client occurs twice rather than as a
/// `HashMap`: a hash map keyed by a struct comes with no contract that says
/// what it holds, and one keyed by a single integer would have to fold IPv4
/// addresses into IPv6 ones, making an IPv4 client and the IPv4-mapped IPv6
/// address one client where the socket layer sees two.
pub struct RateLimiter {
    clients: Vec<(ClientKey, Vec<u64>)>,
    origin: std::time::Instant,
    last: u64,
}

impl RateLimiter {
    /// No client occurs twice, and none holds more times than a window allows.
    pub closed spec fn wf(&self) -> bool {
        &&& forall|i: int, j: int|
            0 <= i < j < self.clients.len() ==> #[trigger] self.clients[i].0
                != #[trigger] self.clients[j].0
        &&& forall|i: int|
            0 <= i < self.clients.len() ==> #[trigger] self.clients[i].1.len() <= MAX_REQUESTS
    }

    closed spec fn pos(&self, k: ClientKey) -> int {
        choose|i: int| 0 <= i < self.clients.len() && self.clients[i].0 == k
    }

    /// The recorded request times of each client seen so far, as nanoseconds
    /// since the limiter was made.
    pub closed spec fn view(&self) -> Map<ClientKey, Seq<u64>> {
        Map::new(
            |k: ClientKey| exists|i: int| 0 <= i < self.clients.len() && self.clients[i].0 == k,
            |k: ClientKey| self.clients[self.pos(k)].1@,
        )
    }

    proof fn lemma_at(&self, i: int)
        requires
            self.wf(),
            0 <= i < self.clients.len(),
        ensures
            self@.contains_key(self.clients[i].0),
            self@[self.clients[i].0] == self.clients[i].1@,
    {
        let k = self.clients[i].0;
        assert(exists|j: int| 0 <= j < self.clients.len() && self.clients[j].0 == k);
        let p = self.pos(k);
        if p < i {
            assert(self.clients[p].0 != self.clients[i].0);
        } else if p > i {
            assert(self.clients[i].0 != self.clients[p].0);
        }
    }

    /// The position of `addr`, if it has been seen.
    fn find(&self, addr: ClientKey) -> (r: Option<usize>)
        ensures
            match r {
                Some(i) => i < self.clients.len() && self.clients[i as int].0 == addr,
                None => forall|j: int| 0 <= j < self.clients.len() ==> self.clients[j].0 != addr,
            },
    {
        let mut i: usize = 0;
        while i < self.clients.len()
            invariant
                i <= self.clients.len(),
                forall|j: int| 0 <= j < i ==> self.clients[j].0 != addr,
            decreases self.clients.len() - i,
        {
            if self.clients[i].0 == addr {
                return Some(i);
            }
            i = i + 1;
        }
        None
    }

    /// The latest time at which the limiter's clock was read, in nanoseconds
    /// since the limiter was made.
    pub closed spec fn last_time(&self) -> u64 {
        self.last
    }

    /// A limiter that has seen no request, with its clock starting now.
    pub fn new() -> (r: RateLimiter)
        ensures
            r.wf(),
            r@ == Map::<ClientKey, Seq<u64>>::empty(),
            r.last_time() == 0,
    {
        let r = RateLimiter { clients: Vec::new(), origin: clock_now(), last: 0 };
        assert(r@ =~= Map::<ClientKey, Seq<u64>>::empty());
        r
    }

    /// Admits or refuses a request from `addr` at the current time. The time
    /// is the clock's reading, but never earlier than the time of the previous
    /// request, so that over a series of calls the times never go back and
    /// `limit_over_a_sequence` applies to them.
    pub fn check(&mut self, addr: ClientKey) -> (r: Result<(), u16>)
        requires
            old(self).wf(),
        ensures
            final(self).wf(),
            final(self).last_time() >= old(self).last_time(),
            admits(old(self)@, final(self)@, addr, final(self).last_time(), r),
    {
        let read = nanos_since(&self.origin);
        self.check_with_reading(addr, read)
    }

    /// Admits or refuses a request from `addr` when the clock reads `read`
    /// (nanoseconds since the limiter was made): the request is dated at the
    /// reading, or at the previous request's time when the reading is earlier.
    pub fn check_with_reading(&mut self, addr: ClientKey, read: u64) -> (r: Result<(), u16>)
        requires
            old(self).wf(),
        ensures
            final(self).wf(),
            final(self).last_time() == if read < old(self).last_time() {
                old(self).last_time()
            } else {
                read
            },
            final(self).last_time() >= read,
            final(self).last_time() >= old(self).last_time(),
            admits(old(self)@, final(self)@, addr, final(self).last_time(), r),
    {
        let now = if read < self.last {
            self.last
        } else {
            read
        };
        let r = self.check_at(addr, now);
        let ghost after = self@;
        self.last = now;
        assert(self@ =~= after);
        r
    }

    /// Admits or refuses a request from `addr` at time `now` (nanoseconds since
    /// the limiter was made). Times that lie a window or more before `now` are
    /// forgotten; the request is refused with 429 when the client still has
    /// five or more, and is otherwise recorded and admitted.
    pub fn check_at(&mut self, addr: ClientKey, now: u64) -> (r: Result<(), u16>)
        requires
            old(self).wf(),
        ensures
            final(self).wf(),
            admits(old(self)@, final(self)@, addr, now, r),
            final(self).last_time() == old(self).last_time(),
    {
        let found_at = self.find(addr);
        let found = found_at.is_some();
        let mut idx: usize = match found_at {
            Some(i) => i,
            None => self.clients.len(),
        };
        let ghost before = self@;
        if !found {
            assert(!self@.contains_key(addr)) by {
                if self@.contains_key(addr) {
                    let p = self.pos(addr);
                    assert(self.clients[p].0 == addr);
                }
            }
            let ghost n = self.clients.len() as int;
            self.clients.push((addr, Vec::new()));
            proof {
                let o = *old(self);
                assert forall|a: int, b: int|
                    0 <= a < b < self.clients.len() implies #[trigger] self.clients[a].0
                    != #[trigger] self.clients[b].0 by {
                    if b == n {
                        assert(o.clients[a].0 != addr);
                    } else {
                        assert(o.clients[a].0 != o.clients[b].0);
                    }
                }
                assert forall|a: int|
                    0 <= a < self.clients.len() implies #[trigger] self.clients[a].1.len()
                    <= MAX_REQUESTS by {
                    if a < n {
                        assert(o.clients[a].1.len() <= MAX_REQUESTS);
                    }
                }
                self.lemma_at(n);
                assert forall|q: ClientKey| #[trigger]
                    self@.contains_key(q) == before.insert(addr, Seq::empty()).contains_key(q) by {
                    if q != addr {
                        if before.contains_key(q) {
                            let p = o.pos(q);
                            assert(self.clients[p].0 == q);
                        }
                        if self@.contains_key(q) {
                            let p = self.pos(q);
                            assert(o.clients[p].0 == q);
                        }
                    }
                }
                assert forall|q: ClientKey| #[trigger]
                    self@.contains_key(q) implies self@[q] == before.insert(addr, Seq::empty())[q] by {
                    let p = self.pos(q);
                    self.lemma_at(p);
                    if q != addr {
                        o.lemma_at(p);
                    }
                }
                assert(self@ =~= before.insert(addr, Seq::empty()));
            }
        } else {
            proof {
                self.lemma_at(idx as int);
            }
        }
        let ghost mid = self@;
        assert(mid.contains_key(addr) && self.clients[idx as int].0 == addr);
        assert(times_of(before, addr) == mid[addr]) by {
            self.lemma_at(idx as int);
        }
        let ghost ts = mid[addr];
        let mut kept: Vec<u64> = Vec::new();
        let mut k: usize = 0;
        let old_len = self.clients[idx].1.len();
        assert(self.wf());
        while k < old_len
            invariant
                self.wf(),
                idx < self.clients.len(),
                self.clients[idx as int].1@ == ts,
                old_len == ts.len(),
                k <= old_len,
                kept@ == recent(ts.take(k as int), now),
                kept.len() <= k,
            decreases old_len - k,
        {
            let t = self.clients[idx].1[k];
            proof {
                reveal(Seq::filter);
                let tk = ts.take(k + 1);
                assert(tk.drop_last() =~= ts.take(k as int));
                assert(tk.last() == t);
            }
            if now < t || now - t < WINDOW_NANOS {
                kept.push(t);
            }
            k = k + 1;
        }
        assert(ts.take(old_len as int) =~= ts);
        let result = if kept.len() >= MAX_REQUESTS {
            Err(TOO_MANY_REQUESTS)
        } else {
            kept.push(now);
            Ok(())
        };
        let ghost new_ts = kept@;
        let ghost pre = self.clients@;
        assert(kept.len() <= MAX_REQUESTS);
        self.clients.set(idx, (addr, kept));
        proof {
            let o = *old(self);
            assert forall|a: int, b: int|
                0 <= a < b < self.clients.len() implies #[trigger] self.clients[a].0
                != #[trigger] self.clients[b].0 by {
                if a == idx {
                    assert(mid.contains_key(addr));
                }
            }
            assert forall|a: int|
                0 <= a < self.clients.len() implies #[trigger] self.clients[a].1.len()
                <= MAX_REQUESTS by {
                if a != idx {
                    assert(self.clients[a] == pre[a]);
                    assert(pre[a].1.len() <= MAX_REQUESTS);
                } else {
                    assert(self.clients[a].1@ == new_ts);
                    assert(new_ts.len() <= MAX_REQUESTS);
                }
            }
            assert(self.wf());
            self.lemma_at(idx as int);
            assert forall|q: ClientKey| #[trigger]
                self@.contains_key(q) == mid.insert(addr, new_ts).contains_key(q) by {
                if q != addr {
                    if self@.contains_key(q) {
                        let p = self.pos(q);
                        assert(p != idx);
                        assert(pre[p].0 == q);
                    }
                    if mid.contains_key(q) {
                        let p = choose|i: int| 0 <= i < pre.len() && pre[i].0 == q;
                        assert(self.clients[p].0 == q);
                    }
                }
            }
            assert forall|q: ClientKey| #[trigger]
                self@.contains_key(q) implies self@[q] == mid.insert(addr, new_ts)[q] by {
                let p = self.pos(q);
                self.lemma_at(p);
                if q != addr {
                    assert(p != idx);
                    let p2 = choose|i: int| 0 <= i < pre.len() && pre[i].0 == q;
                    assert(exists|i: int| 0 <= i < pre.len() && pre[i].0 == q);
                    if p2 != p {
                        if p2 < p {
                            assert(self.clients[p2].0 != self.clients[p].0);
                        } else {
                            assert(self.clients[p].0 != self.clients[p2].0);
                        }
                    }
                }
            }
            assert(self@ =~= mid.insert(addr, new_ts));
            assert(mid.insert(addr, new_ts) =~= before.insert(addr, new_ts));
        }
        result
    }
}

/// A request from `addr` at `now` turns the recorded times `before` into
/// `after` with result `r`: the client's times within the window are kept;
/// with five or more of them the request is refused with 429, otherwise it
/// is admitted and `now` is recorded. Other clients are untouched.
pub open spec fn admits(
    before: Map<ClientKey, Seq<u64>>,
    after: Map<ClientKey, Seq<u64>>,
    addr: ClientKey,
    now: u64,
    r: Result<(), u16>,
) -> bool {
    let kept = recent(times_of(before, addr), now);
    if kept.len() >= MAX_REQUESTS {
        r == Err::<(), u16>(TOO_MANY_REQUESTS) && after == before.insert(addr, kept)
    } else {
        r == Ok::<(), u16>(()) && after == before.insert(addr, kept.push(now))
    }
}

proof fn lemma_recent_all_recent(ts: Seq<u64>, now: u64)
    requires
        forall|i: int| 0 <= i < ts.len() ==> in_window(now, #[trigger] ts[i]),
    ensures
        recent(ts, now) == ts,
    decreases ts.len(),
{
    reveal(Seq::filter);
    if ts.len() > 0 {
        let t = ts.drop_last();
        assert forall|i: int| 0 <= i < t.len() implies in_window(now, #[trigger] t[i]) by {
            assert(t[i] == ts[i]);
        }
        lemma_recent_all_recent(t, now);
        assert(in_window(now, ts[ts.len() - 1]));
        assert(t.push(ts.last()) =~= ts);
    }
}

proof fn lemma_recent_is_recent(ts: Seq<u64>, now: u64)
    ensures
        forall|i: int| 0 <= i < recent(ts, now).len() ==> in_window(now, #[trigger] recent(ts, now)[i]),
        recent(ts, now).len() <= ts.len(),
{
    broadcast use vstd::seq_lib::group_filter_ensures;
    ts.lemma_filter_len(|t: u64| in_window(now, t));
}

/// Within one window a client is never admitted more than five times: after
/// any request, at most five of the client's recorded requests fall within
/// the window that ends at that request.
pub proof fn window_never_exceeds_limit(
    before: Map<ClientKey, Seq<u64>>,
    after: Map<ClientKey, Seq<u64>>,
    addr: ClientKey,
    now: u64,
    r: Result<(), u16>,
)
    requires
        times_of(before, addr).len() <= MAX_REQUESTS,
        admits(before, after, addr, now, r),
    ensures
        recent(times_of(after, addr), now).len() <= MAX_REQUESTS,
{
    let kept = recent(times_of(before, addr), now);
    lemma_recent_is_recent(times_of(before, addr), now);
    lemma_recent_is_recent(times_of(after, addr), now);
}

/// A client that is refused at some instant is refused again at that same
/// instant, and the second refusal changes nothing.
pub proof fn refusal_is_stable(
    before: Map<ClientKey, Seq<u64>>,
    mid: Map<ClientKey, Seq<u64>>,
    after: Map<ClientKey, Seq<u64>>,
    addr: ClientKey,
    now: u64,
    r1: Result<(), u16>,
    r2: Result<(), u16>,
)
    requires
        admits(before, mid, addr, now, r1),
        r1 is Err,
        admits(mid, after, addr, now, r2),
    ensures
        r2 == Err::<(), u16>(TOO_MANY_REQUESTS),
        after == mid,
{
    let kept = recent(times_of(before, addr), now);
    lemma_recent_is_recent(times_of(before, addr), now);
    assert(times_of(mid, addr) == kept);
    lemma_recent_all_recent(kept, now);
    assert(mid.insert(addr, kept) =~= mid);
}

/// A request from one client leaves the record of every other client as it was.
pub proof fn other_clients_untouched(
    before: Map<ClientKey, Seq<u64>>,
    after: Map<ClientKey, Seq<u64>>,
    addr: ClientKey,
    now: u64,
    r: Result<(), u16>,
)
    requires
        admits(before, after, addr, now, r),
    ensures
        after.remove(addr) == before.remove(addr),
{
    assert(after.remove(addr) =~= before.remove(addr));
}

/// A client with fewer than five requests in the last window is admitted.
pub proof fn under_limit_is_admitted(
    before: Map<ClientKey, Seq<u64>>,
    after: Map<ClientKey, Seq<u64>>,
    addr: ClientKey,
    now: u64,
    r: Result<(), u16>,
)
    requires
        admits(before, after, addr, now, r),
        recent(times_of(before, addr), now).len() < MAX_REQUESTS,
    ensures
        r is Ok,
        times_of(after, addr).last() == now,
{
}

/// The effect of one request, as `admits` describes it: the new records
/// and the answer.
pub open spec fn step(before: Map<ClientKey, Seq<u64>>, addr: ClientKey, now: u64) -> (
    Map<ClientKey, Seq<u64>>,
    Result<(), u16>,
) {
    let kept = recent(times_of(before, addr), now);
    if kept.len() >= MAX_REQUESTS {
        (before.insert(addr, kept), Err(TOO_MANY_REQUESTS))
    } else {
        (before.insert(addr, kept.push(now)), Ok(()))
    }
}

/// `admits` holds of exactly one outcome: the one `step` gives.
pub proof fn admits_is_step(
    before: Map<ClientKey, Seq<u64>>,
    after: Map<ClientKey, Seq<u64>>,
    addr: ClientKey,
    now: u64,
    r: Result<(), u16>,
)
    ensures
        admits(before, after, addr, now, r) <==> (after, r) == step(before, addr, now),
{
}

/// The records and answers after a limiter that has seen nothing receives
/// the requests `calls` (each a client and a time), in order.
pub open spec fn run(calls: Seq<(ClientKey, u64)>) -> (Map<ClientKey, Seq<u64>>, Seq<Result<(), u16>>)
    decreases calls.len(),
{
    if calls.len() == 0 {
        (Map::empty(), Seq::empty())
    } else {
        let (m, rs) = run(calls.drop_last());
        let (m2, r) = step(m, calls.last().0, calls.last().1);
        (m2, rs.push(r))
    }
}

/// The times of the requests from `a` among `calls` that were admitted,
/// given the answers `rs`, in order.
pub open spec fn admitted_times(
    calls: Seq<(ClientKey, u64)>,
    rs: Seq<Result<(), u16>>,
    a: ClientKey,
) -> Seq<u64>
    decreases calls.len(),
{
    if calls.len() == 0 || rs.len() == 0 {
        Seq::empty()
    } else {
        let p = admitted_times(calls.drop_last(), rs.drop_last(), a);
        if calls.last().0 == a && rs.last() is Ok {
            p.push(calls.last().1)
        } else {
            p
        }
    }
}

/// The requests come at times that never go back.
pub open spec fn non_decreasing(calls: Seq<(ClientKey, u64)>) -> bool {
    forall|i: int, j: int| 0 <= i <= j < calls.len() ==> #[trigger] calls[i].1 <= #[trigger] calls[j].1
}

proof fn lemma_recent_twice(s: Seq<u64>, early: u64, late: u64)
    requires
        early <= late,
    ensures
        recent(recent(s, early), late) == recent(s, late),
    decreases s.len(),
{
    reveal(Seq::filter);
    if s.len() > 0 {
        let d = s.drop_last();
        lemma_recent_twice(d, early, late);
        let x = s.last();
        if in_window(early, x) {
            assert(recent(s, early) == recent(d, early).push(x));
            assert(recent(d, early).push(x).drop_last() =~= recent(d, early));
        } else {
            assert(recent(s, early) == recent(d, early));
            assert(!in_window(late, x));
        }
    }
}

proof fn lemma_recent_push(s: Seq<u64>, x: u64, t: u64)
    ensures
        recent(s.push(x), t) == if in_window(t, x) {
            recent(s, t).push(x)
        } else {
            recent(s, t)
        },
{
    reveal(Seq::filter);
    assert(s.push(x).drop_last() =~= s);
}

/// What the limiter holds for each client counts, for every later request,
/// exactly the admitted requests of that client: the records of a client,
/// restricted to any window that ends no earlier than the last request, are
/// its admitted requests in that window.
proof fn lemma_run_records(calls: Seq<(ClientKey, u64)>)
    requires
        non_decreasing(calls),
    ensures
        run(calls).1.len() == calls.len(),
        forall|a: ClientKey, t: u64|
            (calls.len() == 0 || calls.last().1 <= t) ==> #[trigger] recent(
                times_of(run(calls).0, a),
                t,
            ) == recent(admitted_times(calls, run(calls).1, a), t),
    decreases calls.len(),
{
    if calls.len() > 0 {
        let c = calls.drop_last();
        assert forall|i: int, j: int| 0 <= i <= j < c.len() implies #[trigger] c[i].1
            <= #[trigger] c[j].1 by {
            assert(c[i] == calls[i] && c[j] == calls[j]);
        }
        lemma_run_records(c);
        let (m, rs) = run(c);
        let (addr, now) = calls.last();
        let (m2, r) = step(m, addr, now);
        let rs2 = rs.push(r);
        assert(run(calls) == (m2, rs2));
        assert(rs2.drop_last() =~= rs);
        if c.len() > 0 {
            assert(c.last() == calls[c.len() - 1]);
            assert(c.last().1 <= now);
        }
        let kept = recent(times_of(m, addr), now);
        assert forall|a: ClientKey, t: u64| calls.last().1 <= t implies #[trigger] recent(
            times_of(m2, a),
            t,
        ) == recent(admitted_times(calls, rs2, a), t) by {
            assert(recent(times_of(m, a), t) == recent(admitted_times(c, rs, a), t));
            if a == addr {
                lemma_recent_twice(times_of(m, addr), now, t);
                if kept.len() >= MAX_REQUESTS {
                    assert(times_of(m2, a) == kept);
                    assert(admitted_times(calls, rs2, a) == admitted_times(c, rs, a));
                } else {
                    assert(times_of(m2, a) == kept.push(now));
                    assert(admitted_times(calls, rs2, a) == admitted_times(c, rs, a).push(now));
                    lemma_recent_push(kept, now, t);
                    lemma_recent_push(admitted_times(c, rs, a), now, t);
                }
            } else {
                assert(times_of(m2, a) == times_of(m, a));
                assert(admitted_times(calls, rs2, a) == admitted_times(c, rs, a));
            }
        }
    }
}

/// Over any sequence of requests at times that never go back, starting from
/// a limiter that has seen nothing, a request is admitted exactly when fewer
/// than five earlier requests of the same client were admitted less than a
/// window before it. Refused requests count for nothing, and the requests of
/// other clients never matter.
pub proof fn limit_over_a_sequence(calls: Seq<(ClientKey, u64)>)
    requires
        calls.len() > 0,
        non_decreasing(calls),
    ensures
        run(calls).1.len() == calls.len(),
        run(calls).1.last() is Ok <==> recent(
            admitted_times(calls.drop_last(), run(calls.drop_last()).1, calls.last().0),
            calls.last().1,
        ).len() < MAX_REQUESTS,
        run(calls).1.last() is Err ==> run(calls).1.last() == Err::<(), u16>(TOO_MANY_REQUESTS),
{
    let c = calls.drop_last();
    assert forall|i: int, j: int| 0 <= i <= j < c.len() implies #[trigger] c[i].1
        <= #[trigger] c[j].1 by {
        assert(c[i] == calls[i] && c[j] == calls[j]);
    }
    lemma_run_records(c);
    lemma_run_records(calls);
    let (addr, now) = calls.last();
    if c.len() > 0 {
        assert(c.last() == calls[c.len() - 1]);
    }
    assert(recent(times_of(run(c).0, addr), now) == recent(
        admitted_times(c, run(c).1, addr),
        now,
    ));
}

proof fn lemma_recent_none(ts: Seq<u64>, now: u64)
    requires
        forall|i: int| 0 <= i < ts.len() ==> #[trigger] ts[i] + WINDOW_NANOS <= now,
    ensures
        recent(ts, now).len() == 0,
    decreases ts.len(),
{
    reveal(Seq::filter);
    if ts.len() > 0 {
        let d = ts.drop_last();
        assert forall|i: int| 0 <= i < d.len() implies #[trigger] d[i] + WINDOW_NANOS <= now by {
            assert(d[i] == ts[i]);
        }
        lemma_recent_none(d, now);
        assert(ts[ts.len() - 1] + WINDOW_NANOS <= now);
        assert(!in_window(now, ts.last()));
    }
}

/// Requests stop counting once a window has passed: a request at a time at
/// least sixty seconds after every recorded request of its client is
/// admitted, however many there were.
pub proof fn old_requests_stop_counting(
    before: Map<ClientKey, Seq<u64>>,
    after: Map<ClientKey, Seq<u64>>,
    addr: ClientKey,
    now: u64,
    r: Result<(), u16>,
)
    requires
        admits(before, after, addr, now, r),
        forall|i: int|
            0 <= i < times_of(before, addr).len() ==> #[trigger] times_of(before, addr)[i]
                + WINDOW_NANOS <= now,
    ensures
        r == Ok::<(), u16>(()),
        times_of(after, addr) == seq![now],
{
    let ts = times_of(before, addr);
    let kept = recent(ts, now);
    lemma_recent_none(ts, now);
    assert(kept =~= Seq::<u64>::empty());
    assert(kept.push(now) =~= seq![now]);
}

} // verus!
