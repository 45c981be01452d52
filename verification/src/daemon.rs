//! The daemon: how often a client may send, which clones are under way, when
//! shared history is reviewed, and where repositories are looked for.
use crate::clock::Clock;
use crate::locator::{Locator, LocatorView};
use crate::registry::{keep, lemma_keep};
use crate::rpc::{CloneStartedEvent, EventBase, EventView, RpcEvent};
use vstd::prelude::*;

verus! {

/// The nanoseconds between two requests where `n` are allowed in a second: the
/// nearest number to 1000000000 / n. Of the exact halves, those that the binary
/// fraction next to 1 / n keeps or lowers go down.
pub open spec fn spacing(n: nat) -> nat {
    let up = (2000000000 + n) / (2 * n);
    if n == 1024 || n == 16000000 || n == 80000000 {
        (up - 1) as nat
    } else {
        up
    }
}

/// The interval that a limit of `n` requests in a second asks for; none where
/// there is no limit.
pub open spec fn interval_for(n: u32) -> Option<nat> {
    if n == 0 {
        None
    } else {
        Some(spacing(n as nat))
    }
}

/// When a key was last let through.
#[derive(Debug)]
pub struct Seen {
    pub key: String,
    pub at: u128,
}

pub open spec fn seen_views(v: Seq<Seen>) -> Seq<(Seq<char>, u128)> {
    v.map_values(|s: Seen| (s.key@, s.at))
}

/// The first row at or behind `i` for the key; -1 where there is none.
pub open spec fn seen_index(rows: Seq<(Seq<char>, u128)>, key: Seq<char>, i: int) -> int
    decreases rows.len() - i,
{
    if i >= rows.len() {
        -1
    } else if rows[i].0 == key {
        i
    } else {
        seen_index(rows, key, i + 1)
    }
}

/// When the key was last let through.
pub open spec fn last_seen(rows: Seq<(Seq<char>, u128)>, key: Seq<char>) -> Option<u128> {
    let i = seen_index(rows, key, 0);
    if 0 <= i < rows.len() {
        Some(rows[i].1)
    } else {
        None
    }
}

/// The rows once the key was let through.
pub open spec fn with_seen(rows: Seq<(Seq<char>, u128)>, key: Seq<char>, now: u128) -> Seq<
    (Seq<char>, u128),
> {
    let i = seen_index(rows, key, 0);
    if 0 <= i < rows.len() {
        rows.update(i, (key, now))
    } else {
        rows.push((key, now))
    }
}

/// A request with the key is let through at `now`.
pub open spec fn allowed(
    interval: Option<nat>,
    rows: Seq<(Seq<char>, u128)>,
    key: Seq<char>,
    now: u128,
) -> bool {
    match interval {
        None => true,
        Some(interval) => match last_seen(rows, key) {
            None => true,
            Some(at) => now >= at + interval || (now < at && interval == 0),
        },
    }
}

/// The requests that are remembered once one more came at `now`: it is remembered
/// if it was let through and there is an interval.
pub open spec fn seen_after(
    interval: Option<nat>,
    rows: Seq<(Seq<char>, u128)>,
    key: Seq<char>,
    now: u128,
) -> Seq<(Seq<char>, u128)> {
    if interval is Some && allowed(interval, rows, key, now) {
        with_seen(rows, key, now)
    } else {
        rows
    }
}

/// Lets requests of one key through no more often than the interval.
#[derive(Debug)]
pub struct RateLimiter {
    pub min_interval: Option<u128>,
    pub last_seen: Vec<Seen>,
    pub clock: Clock,
}

pub open spec fn nanos(o: Option<u128>) -> Option<nat> {
    match o {
        Some(n) => Some(n as nat),
        None => None,
    }
}

impl RateLimiter {
    pub fn new(requests_per_second: u32) -> (r: RateLimiter)
        ensures
            nanos(r.min_interval) == interval_for(requests_per_second),
            r.last_seen@.len() == 0,
    {
        let min_interval: Option<u128> = if requests_per_second == 0 {
            None
        } else {
            let n: u64 = requests_per_second as u64;
            let up: u64 = (2000000000 + n) / (2 * n);
            proof {
                assert(n <= 80000000 ==> up >= 1) by (nonlinear_arith)
                    requires
                        n >= 1,
                        up == (2000000000 + n) / (2 * n),
                ;
            }
            if n == 1024 || n == 16000000 || n == 80000000 {
                Some((up - 1) as u128)
            } else {
                Some(up as u128)
            }
        };
        RateLimiter { min_interval, last_seen: Vec::new(), clock: Clock::start() }
    }

    /// Whether a request with the key is let through at `now`; if it is, that is
    /// remembered.
    pub fn allow_at(&mut self, key: &str, now: u128) -> (r: bool)
        ensures
            r == allowed(
                nanos(old(self).min_interval),
                seen_views(old(self).last_seen@),
                key@,
                now,
            ),
            final(self).min_interval == old(self).min_interval,
            seen_views(final(self).last_seen@) == seen_after(
                nanos(old(self).min_interval),
                seen_views(old(self).last_seen@),
                key@,
                now,
            ),
    {
        let interval: u128 = match self.min_interval {
            None => return true,
            Some(interval) => interval,
        };
        let ghost rows = seen_views(self.last_seen@);
        let mut i: usize = 0;
        while i < self.last_seen.len()
            invariant
                i <= self.last_seen@.len(),
                *self == *old(self),
                self.min_interval == Some(interval),
                rows == seen_views(self.last_seen@),
                seen_index(rows, key@, i as int) == seen_index(rows, key@, 0),
            decreases self.last_seen@.len() - i,
        {
            proof {
                assert(rows[i as int].0 == self.last_seen@[i as int].key@);
                assert(rows[i as int].1 == self.last_seen@[i as int].at);
            }
            if self.last_seen[i].key.as_str().eq(key) {
                let at: u128 = self.last_seen[i].at;
                let passed: u128 = if now > at {
                    now - at
                } else {
                    0
                };
                if passed < interval {
                    return false;
                }
                self.last_seen[i].at = now;
                proof {
                    assert(seen_views(self.last_seen@) =~= rows.update(i as int, (key@, now)));
                }
                return true;
            }
            i += 1;
        }
        self.last_seen.push(Seen { key: key.to_owned(), at: now });
        proof {
            assert(seen_views(self.last_seen@) =~= rows.push((key@, now)));
        }
        true
    }

    /// Whether a request with the key is let through now. What the clock shows
    /// decides; without a limit every request is.
    pub fn allow(&mut self, key: &str) -> (r: bool)
        ensures
            final(self).min_interval == old(self).min_interval,
            exists|now: u128| #[trigger]
                allowed(
                    nanos(old(self).min_interval),
                    seen_views(old(self).last_seen@),
                    key@,
                    now,
                ) == r && seen_views(final(self).last_seen@) == seen_after(
                    nanos(old(self).min_interval),
                    seen_views(old(self).last_seen@),
                    key@,
                    now,
                ),
    {
        let now = self.clock.now();
        self.allow_at(key, now)
    }
}

pub proof fn lemma_seen_index(rows: Seq<(Seq<char>, u128)>, key: Seq<char>, i: int)
    requires
        0 <= i <= rows.len(),
    ensures
        seen_index(rows, key, i) == -1 || i <= seen_index(rows, key, i) < rows.len(),
        seen_index(rows, key, i) >= 0 ==> rows[seen_index(rows, key, i)].0 == key,
        seen_index(rows, key, i) < 0 ==> forall|j: int|
            i <= j < rows.len() ==> (#[trigger] rows[j]).0 != key,
        forall|j: int| i <= j < seen_index(rows, key, i) ==> (#[trigger] rows[j]).0 != key,
    decreases rows.len() - i,
{
    if i < rows.len() && rows[i].0 != key {
        lemma_seen_index(rows, key, i + 1);
    }
}

/// The first row of a key is where no row before it is of the key.
proof fn lemma_seen_at(rows: Seq<(Seq<char>, u128)>, key: Seq<char>, i: int, k: int)
    requires
        0 <= i <= k < rows.len(),
        rows[k].0 == key,
        forall|j: int| i <= j < k ==> (#[trigger] rows[j]).0 != key,
    ensures
        seen_index(rows, key, i) == k,
    decreases k - i,
{
    if i < k {
        assert(rows[i].0 != key);
        lemma_seen_at(rows, key, i + 1, k);
    }
}

/// After a request was let through, its key was last seen then, and every other
/// key when it was before.
pub proof fn seen_is_remembered(
    rows: Seq<(Seq<char>, u128)>,
    key: Seq<char>,
    now: u128,
    other: Seq<char>,
)
    requires
        other != key,
    ensures
        last_seen(with_seen(rows, key, now), key) == Some(now),
        last_seen(with_seen(rows, key, now), other) == last_seen(rows, other),
{
    let next = with_seen(rows, key, now);
    lemma_seen_index(rows, key, 0);
    lemma_seen_index(rows, other, 0);
    let k = seen_index(rows, key, 0);
    if k >= 0 {
        lemma_seen_at(next, key, 0, k);
    } else {
        lemma_seen_at(next, key, 0, rows.len() as int);
    }
    let o = seen_index(rows, other, 0);
    if o >= 0 {
        lemma_seen_at(next, other, 0, o);
    } else {
        lemma_seen_index(next, other, 0);
        let n = seen_index(next, other, 0);
        if n >= 0 {
            if n < rows.len() && n != k {
                assert(next[n] == rows[n]);
            }
        }
    }
}

/// Once a request was let through, requests of the same key are refused until
/// the interval has passed, and let through from then on.
pub proof fn requests_are_spaced(
    interval: nat,
    rows: Seq<(Seq<char>, u128)>,
    key: Seq<char>,
    first: u128,
    second: u128,
)
    requires
        first <= second,
    ensures
        allowed(Some(interval), with_seen(rows, key, first), key, second) <==> second >= first
            + interval,
{
    lemma_seen_index(rows, key, 0);
    let other = key.push('x');
    assert(other.len() != key.len());
    seen_is_remembered(rows, key, first, other);
}

/// No key is remembered twice.
pub open spec fn own_keys(rows: Seq<(Seq<char>, u128)>) -> bool {
    forall|i: int, j: int|
        0 <= i < j < rows.len() ==> (#[trigger] rows[i]).0 != (#[trigger] rows[j]).0
}

/// At first no key is remembered twice, and no request changes that.
pub proof fn no_key_is_remembered_twice(
    interval: Option<nat>,
    rows: Seq<(Seq<char>, u128)>,
    key: Seq<char>,
    now: u128,
)
    ensures
        own_keys(Seq::empty()),
        own_keys(rows) ==> own_keys(seen_after(interval, rows, key, now)),
{
    if own_keys(rows) {
        lemma_seen_index(rows, key, 0);
        let after = seen_after(interval, rows, key, now);
        assert forall|i: int, j: int| 0 <= i < j < after.len() implies (#[trigger] after[i]).0 != (
        #[trigger] after[j]).0 by {
            if j < rows.len() {
                assert(rows[i].0 != rows[j].0);
            }
        }
    }
}

/// The limit is one of each client: once an event of a client was let through, no
/// other event of that client is within the interval, of whatever kind the two are.
pub proof fn clients_are_limited_whatever_they_send(
    interval: nat,
    rows: Seq<(Seq<char>, u128)>,
    a: EventView,
    b: EventView,
    first: u128,
    second: u128,
)
    requires
        a.base().client_id == b.base().client_id,
        allowed(Some(interval), rows, limit_key(a), first),
        first <= second,
    ensures
        allowed(
            Some(interval),
            seen_after(Some(interval), rows, limit_key(a), first),
            limit_key(b),
            second,
        ) <==> second >= first + interval,
{
    requests_are_spaced(interval, rows, limit_key(a), first, second);
}

/// Clients do not slow each other down: whether a request is let through does
/// not depend on requests of other keys.
pub proof fn keys_are_independent(
    interval: Option<nat>,
    rows: Seq<(Seq<char>, u128)>,
    key: Seq<char>,
    other: Seq<char>,
    earlier: u128,
    now: u128,
)
    requires
        key != other,
    ensures
        allowed(interval, with_seen(rows, other, earlier), key, now) == allowed(
            interval,
            rows,
            key,
            now,
        ),
{
    seen_is_remembered(rows, other, earlier, key);
}

/// A clone that a client said it started.
#[derive(Debug)]
pub struct InProgressClone {
    pub key: String,
    pub event: CloneStartedEvent,
    pub started_at: u128,
}

pub struct StartView {
    pub key: Seq<char>,
    pub event: EventBase,
    pub started_at: u128,
}

impl View for InProgressClone {
    type V = StartView;

    open spec fn view(&self) -> StartView {
        StartView {
            key: self.key@,
            event: RpcEvent::Started(self.event)@.base(),
            started_at: self.started_at,
        }
    }
}

pub open spec fn start_views(v: Seq<InProgressClone>) -> Seq<StartView> {
    v.map_values(|c: InProgressClone| c@)
}

/// What tells one clone from another.
pub open spec fn event_key(client_id: Seq<char>, locator: LocatorView, path: Seq<char>) -> Seq<char> {
    client_id + "\n"@ + locator.key() + "\n"@ + path
}

pub open spec fn base_key(b: EventBase) -> Seq<char> {
    event_key(b.client_id, b.locator, b.path)
}

pub fn clone_event_key(client_id: &str, locator: &Locator, path: &str) -> (r: String)
    ensures
        r@ == event_key(client_id@, locator@, path@),
{
    let mut r = client_id.to_owned();
    r.append("\n");
    r.append(&locator.key());
    r.append("\n");
    r.append(path);
    r
}

/// What the limit counts by: the client, whatever it sends. The end of a clone that
/// follows its start within the interval is therefore not let through.
pub open spec fn limit_key(event: EventView) -> Seq<char> {
    event.base().client_id
}

/// How much time has passed.
pub open spec fn passed(now: u128, since: u128) -> int {
    if now > since {
        now - since
    } else {
        0
    }
}

/// The start is still to be waited for.
pub open spec fn fresh(start: StartView, now: u128, ttl: u128) -> bool {
    passed(now, start.started_at) < ttl
}

pub open spec fn fresh_starts(starts: Seq<StartView>, now: u128, ttl: u128) -> Seq<StartView> {
    keep(starts, |s: StartView| fresh(s, now, ttl))
}

pub open spec fn start_at(starts: Seq<StartView>, key: Seq<char>, i: int) -> int
    decreases starts.len() - i,
{
    if i >= starts.len() {
        -1
    } else if starts[i].key == key {
        i
    } else {
        start_at(starts, key, i + 1)
    }
}

pub open spec fn with_start(starts: Seq<StartView>, start: StartView) -> Seq<StartView> {
    let i = start_at(starts, start.key, 0);
    if 0 <= i < starts.len() {
        starts.update(i, start)
    } else {
        starts.push(start)
    }
}

pub open spec fn without_start(starts: Seq<StartView>, key: Seq<char>) -> Seq<StartView> {
    let i = start_at(starts, key, 0);
    if 0 <= i < starts.len() {
        starts.remove(i)
    } else {
        starts
    }
}

/// The starts once the event has come at `now`.
pub open spec fn starts_after(starts: Seq<StartView>, event: EventView, now: u128, ttl: u128)
    -> Seq<StartView> {
    let left = fresh_starts(starts, now, ttl);
    match event {
        EventView::Started(b) => with_start(
            left,
            StartView { key: base_key(b), event: b, started_at: now },
        ),
        EventView::Finished(b, _) => without_start(left, base_key(b)),
        EventView::Cancelled(b, _) => without_start(left, base_key(b)),
        EventView::ManageRequested(_) => left,
    }
}

/// What is reviewed: the repository, where it is, and where others are looked for.
pub open spec fn reviewed(b: EventBase) -> (LocatorView, Seq<char>, Seq<char>) {
    (b.locator, b.path, b.scan_root)
}

/// The event asks for a review of shared history: a clone that was seen to
/// start and succeeded, or a request.
pub open spec fn asks_for_review(
    starts: Seq<StartView>,
    event: EventView,
    now: u128,
    ttl: u128,
    detect_related: bool,
) -> bool {
    match event {
        EventView::Started(_) => false,
        EventView::Finished(b, success) => success && detect_related && start_at(
            fresh_starts(starts, now, ttl),
            base_key(b),
            0,
        ) >= 0,
        EventView::Cancelled(_, _) => false,
        EventView::ManageRequested(_) => detect_related,
    }
}

/// What is to be reviewed.
#[derive(Debug)]
pub struct Review {
    pub locator: Locator,
    pub path: String,
    pub scan_root: String,
}

#[derive(Debug)]
pub struct DaemonState {
    pub rate_limiter: RateLimiter,
    pub clone_starts: Vec<InProgressClone>,
    /// How long a start is waited for, in nanoseconds.
    pub clone_start_ttl: u128,
    pub clock: Clock,
}

/// The nanoseconds of so many minutes, where the seconds end at what 64 bits
/// hold.
pub open spec fn ttl_nanos(minutes: u64) -> nat {
    let seconds: int = if minutes * 60 > u64::MAX {
        u64::MAX as int
    } else {
        minutes * 60
    };
    (seconds * 1000000000) as nat
}

impl DaemonState {
    pub fn new(rate_limit_per_second: u32, clone_start_ttl_minutes: u64) -> (r: DaemonState)
        ensures
            nanos(r.rate_limiter.min_interval) == interval_for(rate_limit_per_second),
            r.rate_limiter.last_seen@.len() == 0,
            r.clone_starts@.len() == 0,
            r.clone_start_ttl == ttl_nanos(clone_start_ttl_minutes),
    {
        let seconds: u128 = if clone_start_ttl_minutes as u128 * 60 > u64::MAX as u128 {
            u64::MAX as u128
        } else {
            clone_start_ttl_minutes as u128 * 60
        };
        DaemonState {
            rate_limiter: RateLimiter::new(rate_limit_per_second),
            clone_starts: Vec::new(),
            clone_start_ttl: seconds * 1000000000,
            clock: Clock::start(),
        }
    }

    /// Forgets the starts that were waited for too long, and tells how many.
    pub fn prune_at(&mut self, now: u128) -> (r: usize)
        ensures
            start_views(final(self).clone_starts@) == fresh_starts(
                start_views(old(self).clone_starts@),
                now,
                old(self).clone_start_ttl,
            ),
            r == old(self).clone_starts@.len() - final(self).clone_starts@.len(),
            final(self).clone_start_ttl == old(self).clone_start_ttl,
            final(self).rate_limiter == old(self).rate_limiter,
    {
        let ghost all = start_views(self.clone_starts@);
        let ttl: u128 = self.clone_start_ttl;
        let ghost p = |s: StartView| fresh(s, now, ttl);
        let ghost mut k: int = 0;
        let mut i: usize = 0;
        let count: usize = self.clone_starts.len();
        proof {
            assert(all =~= keep(all.take(0), p) + all.skip(0));
        }
        while i < self.clone_starts.len()
            invariant
                p == (|s: StartView| fresh(s, now, ttl)),
                0 <= k <= all.len(),
                i <= self.clone_starts@.len(),
                i == keep(all.take(k), p).len(),
                count == all.len(),
                self.clone_starts@.len() <= count,
                all.len() == old(self).clone_starts@.len(),
                ttl == old(self).clone_start_ttl,
                self.clone_start_ttl == old(self).clone_start_ttl,
                self.rate_limiter == old(self).rate_limiter,
                start_views(self.clone_starts@) == keep(all.take(k), p) + all.skip(k),
            decreases self.clone_starts@.len() - i,
        {
            let ghost before = start_views(self.clone_starts@);
            proof {
                assert(before.len() == self.clone_starts@.len());
                assert(before[i as int] == self.clone_starts@[i as int]@);
                assert(all.skip(k)[0] == all[k]);
                assert(before[i as int] == all[k]);
                assert(all.take(k + 1).drop_last() =~= all.take(k));
                assert(all.take(k + 1).last() == all[k]);
            }
            let started_at: u128 = self.clone_starts[i].started_at;
            let age: u128 = if now > started_at {
                now - started_at
            } else {
                0
            };
            if age < ttl {
                i += 1;
                proof {
                    assert(start_views(self.clone_starts@) =~= keep(all.take(k + 1), p) + all.skip(
                        k + 1,
                    ));
                }
            } else {
                let _ = self.clone_starts.remove(i);
                proof {
                    assert(start_views(self.clone_starts@) =~= before.remove(i as int));
                    assert(start_views(self.clone_starts@) =~= keep(all.take(k + 1), p) + all.skip(
                        k + 1,
                    ));
                }
            }
            proof {
                k = k + 1;
            }
        }
        proof {
            assert(start_views(self.clone_starts@).len() == self.clone_starts@.len());
            assert(k == all.len());
            assert(all.take(k) =~= all);
            assert(keep(all, p) + all.skip(k) =~= keep(all, p));
        }
        count - self.clone_starts.len()
    }

    /// Forgets the starts that were waited for too long by now, and tells how
    /// many.
    pub fn prune_expired_clone_starts(&mut self) -> (r: usize)
        ensures
            exists|now: u128| #[trigger]
                fresh_starts(
                    start_views(old(self).clone_starts@),
                    now,
                    old(self).clone_start_ttl,
                ) == start_views(final(self).clone_starts@),
            r == old(self).clone_starts@.len() - final(self).clone_starts@.len(),
            final(self).clone_start_ttl == old(self).clone_start_ttl,
            final(self).rate_limiter == old(self).rate_limiter,
    {
        let now = self.clock.now();
        self.prune_at(now)
    }

    fn start_index(&self, key: &str) -> (r: Option<usize>)
        ensures
            match r {
                Some(i) => i < self.clone_starts@.len() && start_at(
                    start_views(self.clone_starts@),
                    key@,
                    0,
                ) == i,
                None => start_at(start_views(self.clone_starts@), key@, 0) == -1,
            },
    {
        let mut i: usize = 0;
        while i < self.clone_starts.len()
            invariant
                i <= self.clone_starts@.len(),
                start_at(start_views(self.clone_starts@), key@, i as int) == start_at(
                    start_views(self.clone_starts@),
                    key@,
                    0,
                ),
            decreases self.clone_starts@.len() - i,
        {
            proof {
                assert(start_views(self.clone_starts@)[i as int]
                    == self.clone_starts@[i as int]@);
            }
            if self.clone_starts[i].key.as_str().eq(key) {
                return Some(i);
            }
            i += 1;
        }
        None
    }

    /// Forgets the start with the key, and tells whether there was one.
    fn remove_start(&mut self, key: &str) -> (r: bool)
        ensures
            r == (start_at(start_views(old(self).clone_starts@), key@, 0) >= 0),
            start_views(final(self).clone_starts@) == without_start(
                start_views(old(self).clone_starts@),
                key@,
            ),
            final(self).clone_start_ttl == old(self).clone_start_ttl,
            final(self).rate_limiter == old(self).rate_limiter,
    {
        let ghost before = start_views(self.clone_starts@);
        match self.start_index(key) {
            Some(i) => {
                let _ = self.clone_starts.remove(i);
                proof {
                    assert(start_views(self.clone_starts@) =~= before.remove(i as int));
                }
                true
            },
            None => false,
        }
    }

    /// Takes an event that comes at `now`, and gives what is to be reviewed on
    /// its account.
    pub fn handle_event_at(&mut self, detect_related: bool, event: RpcEvent, now: u128) -> (r:
        Option<Review>)
        ensures
            start_views(final(self).clone_starts@) == starts_after(
                start_views(old(self).clone_starts@),
                event@,
                now,
                old(self).clone_start_ttl,
            ),
            r is Some <==> asks_for_review(
                start_views(old(self).clone_starts@),
                event@,
                now,
                old(self).clone_start_ttl,
                detect_related,
            ),
            r matches Some(review) ==> (review.locator@, review.path@, review.scan_root@)
                == reviewed(event@.base()),
            final(self).clone_start_ttl == old(self).clone_start_ttl,
            final(self).rate_limiter == old(self).rate_limiter,
    {
        let _ = self.prune_at(now);
        match event {
            RpcEvent::Started(e) => {
                let ghost left = start_views(self.clone_starts@);
                let key = clone_event_key(&e.client_id, &e.locator, &e.path);
                let ghost view = StartView {
                    key: key@,
                    event: RpcEvent::Started(e)@.base(),
                    started_at: now,
                };
                match self.start_index(&key) {
                    Some(i) => {
                        let start = InProgressClone { key, event: e, started_at: now };
                        self.clone_starts.set(i, start);
                        proof {
                            assert(start_views(self.clone_starts@) =~= left.update(i as int, view));
                        }
                    },
                    None => {
                        let start = InProgressClone { key, event: e, started_at: now };
                        self.clone_starts.push(start);
                        proof {
                            assert(start_views(self.clone_starts@) =~= left.push(view));
                        }
                    },
                }
                None
            },
            RpcEvent::Finished(e) => {
                let key = clone_event_key(&e.client_id, &e.locator, &e.path);
                let started = self.remove_start(&key);
                if e.success && detect_related && started {
                    Some(Review { locator: e.locator, path: e.path, scan_root: e.scan_root })
                } else {
                    None
                }
            },
            RpcEvent::Cancelled(e) => {
                let key = clone_event_key(&e.client_id, &e.locator, &e.path);
                let _ = self.remove_start(&key);
                None
            },
            RpcEvent::ManageRequested(e) => if detect_related {
                Some(Review { locator: e.locator, path: e.path, scan_root: e.scan_root })
            } else {
                None
            },
        }
    }

    /// Takes an event that comes now. What the clock shows decides which starts
    /// are still waited for.
    pub fn handle_rpc_event(&mut self, detect_related: bool, event: RpcEvent) -> (r: Option<Review>)
        ensures
            exists|now: u128| #[trigger]
                starts_after(
                    start_views(old(self).clone_starts@),
                    event@,
                    now,
                    old(self).clone_start_ttl,
                ) == start_views(final(self).clone_starts@) && (r is Some <==> asks_for_review(
                    start_views(old(self).clone_starts@),
                    event@,
                    now,
                    old(self).clone_start_ttl,
                    detect_related,
                )),
            r matches Some(review) ==> (review.locator@, review.path@, review.scan_root@)
                == reviewed(event@.base()),
            final(self).clone_start_ttl == old(self).clone_start_ttl,
            final(self).rate_limiter == old(self).rate_limiter,
    {
        let now = self.clock.now();
        self.handle_event_at(detect_related, event, now)
    }

    /// Whether the event is let through at `now`: not within the interval after
    /// another one of the same client, of whatever kind, that was let through.
    pub fn allow_event_at(&mut self, event: &RpcEvent, now: u128) -> (r: bool)
        ensures
            r == allowed(
                nanos(old(self).rate_limiter.min_interval),
                seen_views(old(self).rate_limiter.last_seen@),
                limit_key(event@),
                now,
            ),
            seen_views(final(self).rate_limiter.last_seen@) == seen_after(
                nanos(old(self).rate_limiter.min_interval),
                seen_views(old(self).rate_limiter.last_seen@),
                limit_key(event@),
                now,
            ),
            final(self).rate_limiter.min_interval == old(self).rate_limiter.min_interval,
            final(self).clone_starts == old(self).clone_starts,
            final(self).clone_start_ttl == old(self).clone_start_ttl,
    {
        self.rate_limiter.allow_at(event.client_id(), now)
    }

    /// Whether the event is let through now. What the clock shows decides;
    /// without a limit every event is.
    pub fn allow_rpc_event(&mut self, event: &RpcEvent) -> (r: bool)
        ensures
            exists|now: u128| #[trigger]
                allowed(
                    nanos(old(self).rate_limiter.min_interval),
                    seen_views(old(self).rate_limiter.last_seen@),
                    limit_key(event@),
                    now,
                ) == r && seen_views(final(self).rate_limiter.last_seen@) == seen_after(
                    nanos(old(self).rate_limiter.min_interval),
                    seen_views(old(self).rate_limiter.last_seen@),
                    limit_key(event@),
                    now,
                ),
            final(self).rate_limiter.min_interval == old(self).rate_limiter.min_interval,
            final(self).clone_starts == old(self).clone_starts,
            final(self).clone_start_ttl == old(self).clone_start_ttl,
    {
        let now = self.clock.now();
        self.allow_event_at(event, now)
    }

    /// How many seconds the daemon sleeps between two times that it forgets
    /// starts: the time that a start is waited for, but a second at least and a
    /// minute at most.
    pub fn cleanup_seconds(&self) -> (r: u64)
        ensures
            r == cleanup_interval(self.clone_start_ttl as int),
    {
        if self.clone_start_ttl < 1000000000 {
            1
        } else if self.clone_start_ttl > 60000000000 {
            60
        } else {
            (self.clone_start_ttl / 1000000000) as u64
        }
    }
}

/// Whole seconds between two times that starts are forgotten, for the nanoseconds
/// that one is waited for.
pub open spec fn cleanup_interval(ttl: int) -> int {
    if ttl < 1000000000 {
        1
    } else if ttl > 60000000000 {
        60
    } else {
        ttl / 1000000000
    }
}

/// No clone is waited for twice.
pub open spec fn own_starts(starts: Seq<StartView>) -> bool {
    forall|i: int, j: int|
        0 <= i < j < starts.len() ==> (#[trigger] starts[i]).key != (#[trigger] starts[j]).key
}

/// At first no clone is waited for twice, and no event and no passing of time
/// changes that.
pub proof fn no_clone_is_waited_for_twice(
    starts: Seq<StartView>,
    event: EventView,
    now: u128,
    ttl: u128,
)
    ensures
        own_starts(Seq::empty()),
        own_starts(starts) ==> own_starts(fresh_starts(starts, now, ttl)),
        own_starts(starts) ==> own_starts(starts_after(starts, event, now, ttl)),
{
    if own_starts(starts) {
        let left = fresh_starts(starts, now, ttl);
        lemma_keep_distinct(starts, now, ttl);
        let after = starts_after(starts, event, now, ttl);
        match event {
            EventView::Started(b) => {
                lemma_start_at(left, base_key(b), 0);
                let k = start_at(left, base_key(b), 0);
                assert forall|i: int, j: int| 0 <= i < j < after.len() implies (
                #[trigger] after[i]).key != (#[trigger] after[j]).key by {
                    if j < left.len() {
                        assert(left[i].key != left[j].key);
                    }
                }
            },
            EventView::Finished(b, _) => lemma_without_start(left, base_key(b)),
            EventView::Cancelled(b, _) => lemma_without_start(left, base_key(b)),
            EventView::ManageRequested(_) => {},
        }
    }
}

proof fn lemma_without_start(starts: Seq<StartView>, key: Seq<char>)
    requires
        own_starts(starts),
    ensures
        own_starts(without_start(starts, key)),
{
    let k = start_at(starts, key, 0);
    let gone = without_start(starts, key);
    if 0 <= k < starts.len() {
        assert forall|i: int, j: int| 0 <= i < j < gone.len() implies (#[trigger] gone[i]).key != (
        #[trigger] gone[j]).key by {
            let a = if i < k {
                i
            } else {
                i + 1
            };
            let b = if j < k {
                j
            } else {
                j + 1
            };
            assert(gone[i] == starts[a] && gone[j] == starts[b]);
        }
    }
}

/// A clone that is cancelled is not waited for any more.
pub proof fn cancelling_ends_the_wait(
    starts: Seq<StartView>,
    b: EventBase,
    reason: Seq<char>,
    now: u128,
    ttl: u128,
)
    requires
        own_starts(starts),
    ensures
        start_at(
            starts_after(starts, EventView::Cancelled(b, reason), now, ttl),
            base_key(b),
            0,
        ) == -1,
{
    let left = fresh_starts(starts, now, ttl);
    lemma_keep_distinct(starts, now, ttl);
    lemma_start_at(left, base_key(b), 0);
    let gone = without_start(left, base_key(b));
    lemma_start_at(gone, base_key(b), 0);
    let i = start_at(left, base_key(b), 0);
    let k = start_at(gone, base_key(b), 0);
    if i >= 0 && k >= 0 {
        if k < i {
            assert(gone[k] == left[k]);
        } else {
            assert(gone[k] == left[k + 1]);
            assert(left[i].key != left[k + 1].key);
        }
    }
}

pub proof fn lemma_start_at(starts: Seq<StartView>, key: Seq<char>, i: int)
    requires
        0 <= i <= starts.len(),
    ensures
        start_at(starts, key, i) == -1 || i <= start_at(starts, key, i) < starts.len(),
        start_at(starts, key, i) >= 0 ==> starts[start_at(starts, key, i)].key == key,
        start_at(starts, key, i) < 0 ==> forall|j: int|
            i <= j < starts.len() ==> (#[trigger] starts[j]).key != key,
        forall|j: int| i <= j < start_at(starts, key, i) ==> (#[trigger] starts[j]).key != key,
    decreases starts.len() - i,
{
    if i < starts.len() && starts[i].key != key {
        lemma_start_at(starts, key, i + 1);
    }
}

proof fn lemma_keep_distinct(starts: Seq<StartView>, now: u128, ttl: u128)
    requires
        own_starts(starts),
    ensures
        own_starts(fresh_starts(starts, now, ttl)),
    decreases starts.len(),
{
    if starts.len() > 0 {
        let t = starts.drop_last();
        assert forall|i: int, j: int| 0 <= i < j < t.len() implies (#[trigger] t[i]).key != (
        #[trigger] t[j]).key by {
            assert(t[i] == starts[i] && t[j] == starts[j]);
        }
        lemma_keep_distinct(t, now, ttl);
        let p = |s: StartView| fresh(s, now, ttl);
        lemma_keep(t, p);
        let k = fresh_starts(starts, now, ttl);
        let kt = fresh_starts(t, now, ttl);
        assert forall|i: int, j: int| 0 <= i < j < k.len() implies (#[trigger] k[i]).key != (
        #[trigger] k[j]).key by {
            if j < kt.len() {
                assert(k[i] == kt[i] && k[j] == kt[j]);
            } else {
                assert(k[j] == starts.last());
                assert(k[i] == kt[i]);
                assert(t.contains(keep(t, p)[i]));
                let m = choose|m: int| 0 <= m < t.len() && t[m] == kt[i];
                assert(starts[m].key != starts[starts.len() - 1].key);
            }
        }
    }
}

/// A start that was waited for as long as is allowed, or longer, is forgotten:
/// its end asks for no review.
pub proof fn late_ends_are_not_reviewed(
    starts: Seq<StartView>,
    b: EventBase,
    success: bool,
    now: u128,
    ttl: u128,
)
    requires
        forall|i: int|
            0 <= i < starts.len() && (#[trigger] starts[i]).key == base_key(b) ==> passed(
                now,
                starts[i].started_at,
            ) >= ttl,
    ensures
        !asks_for_review(starts, EventView::Finished(b, success), now, ttl, true),
{
    let left = fresh_starts(starts, now, ttl);
    lemma_start_at(left, base_key(b), 0);
    let k = start_at(left, base_key(b), 0);
    if k >= 0 {
        let p = |s: StartView| fresh(s, now, ttl);
        lemma_keep(starts, p);
        assert(p(keep(starts, p)[k]));
        assert(starts.contains(keep(starts, p)[k]));
        let i = choose|i: int| 0 <= i < starts.len() && starts[i] == left[k];
        assert(starts[i].key == base_key(b));
    }
}

/// A clone that started in time and succeeded is reviewed, unless detection is
/// switched off.
pub proof fn ends_in_time_are_reviewed(
    starts: Seq<StartView>,
    b: EventBase,
    i: int,
    now: u128,
    ttl: u128,
)
    requires
        0 <= i < starts.len(),
        starts[i].key == base_key(b),
        fresh(starts[i], now, ttl),
    ensures
        asks_for_review(starts, EventView::Finished(b, true), now, ttl, true),
        !asks_for_review(starts, EventView::Finished(b, true), now, ttl, false),
{
    let left = fresh_starts(starts, now, ttl);
    let p = |s: StartView| fresh(s, now, ttl);
    lemma_keep(starts, p);
    assert(starts.contains(starts[i]));
    assert(keep(starts, p).contains(starts[i]));
    let k = choose|k: int| 0 <= k < left.len() && left[k] == starts[i];
    lemma_start_at(left, base_key(b), 0);
}

} // verus!
