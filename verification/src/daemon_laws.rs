//! What holds of every event that reaches the daemon, and of every clone that tells of
//! itself.
use crate::clone::told;
use crate::daemon::{
    allowed, asks_for_review, fresh_starts, interval_for, own_starts, reviewed, seen_after,
    seen_index, spacing, start_at, starts_after, ttl_nanos, StartView,
};
use crate::locator::{new_locator, placed, LocatorView};
use crate::registry::lemma_keep;
use crate::rpc::{event_of, socket_of, EventBase, EventView, FieldsView, PayloadView};
use vstd::prelude::*;

verus! {

/// A clone that is waited for is told from others by its client, its repository and
/// its place.
pub open spec fn of_clone(start: StartView, b: EventBase) -> bool {
    start.key == b.client_id + "\n"@ + (b.locator.authority + "/"@ + b.locator.remote_path) + "\n"@
        + b.path
}

/// A start is young enough to be waited for.
pub open spec fn young(start: StartView, now: u128, ttl: u128) -> bool {
    ttl > 0 && now < start.started_at + ttl
}

/// A start of the clone is waited for.
pub open spec fn awaited(starts: Seq<StartView>, b: EventBase, now: u128, ttl: u128) -> bool {
    exists|i: int|
        0 <= i < starts.len() && of_clone(#[trigger] starts[i], b) && young(starts[i], now, ttl)
}

proof fn lemma_start(starts: Seq<StartView>, key: Seq<char>, i: int)
    requires
        0 <= i,
    ensures
        ({
            let k = start_at(starts, key, i);
            &&& k == -1 || (i <= k < starts.len() && starts[k].key == key)
            &&& k == -1 ==> forall|j: int| i <= j < starts.len() ==> (#[trigger] starts[j]).key != key
        }),
    decreases starts.len() - i,
{
    if i < starts.len() && starts[i].key != key {
        lemma_start(starts, key, i + 1);
    }
}

proof fn lemma_fresh(starts: Seq<StartView>, now: u128, ttl: u128)
    ensures
        forall|s: StartView| #[trigger]
            fresh_starts(starts, now, ttl).contains(s) <==> starts.contains(s) && young(s, now, ttl),
{
    lemma_keep(starts, |s: StartView| crate::daemon::fresh(s, now, ttl));
    let left = fresh_starts(starts, now, ttl);
    assert forall|s: StartView| #[trigger] left.contains(s) implies starts.contains(s) && young(
        s,
        now,
        ttl,
    ) by {
        let i = choose|i: int| 0 <= i < left.len() && left[i] == s;
        assert(crate::daemon::fresh(left[i], now, ttl));
        assert(starts.contains(left[i]));
    }
}

/// A review is asked for by a request, and by the end of a clone that succeeded and
/// whose start is still waited for; by no other event, and by none where related
/// history is not looked for.
pub proof fn reviews_follow_awaited_clones(
    starts: Seq<StartView>,
    event: EventView,
    now: u128,
    ttl: u128,
    detect_related: bool,
)
    ensures
        asks_for_review(starts, event, now, ttl, detect_related) <==> detect_related && match event {
            EventView::Started(_) => false,
            EventView::Cancelled(_, _) => false,
            EventView::ManageRequested(_) => true,
            EventView::Finished(b, success) => success && awaited(starts, b, now, ttl),
        },
{
    if let EventView::Finished(b, success) = event {
        let left = fresh_starts(starts, now, ttl);
        let key = crate::daemon::base_key(b);
        lemma_fresh(starts, now, ttl);
        lemma_start(left, key, 0);
        let k = start_at(left, key, 0);
        if k >= 0 {
            assert(left.contains(left[k]));
            let i = choose|i: int| 0 <= i < starts.len() && starts[i] == left[k];
            assert(of_clone(starts[i], b));
        }
        if awaited(starts, b, now, ttl) {
            let i = choose|i: int|
                0 <= i < starts.len() && of_clone(#[trigger] starts[i], b) && young(
                    starts[i],
                    now,
                    ttl,
                );
            assert(left.contains(starts[i]));
            let m = choose|m: int| 0 <= m < left.len() && left[m] == starts[i];
            assert(left[m].key == key);
        }
    }
}

/// After an event no start that is too old is waited for. A clone that starts is waited
/// for from then on, and one that ends or is cancelled no more; all others that are
/// young are waited for as before.
pub proof fn starts_are_awaited_until_they_end(
    starts: Seq<StartView>,
    event: EventView,
    now: u128,
    ttl: u128,
    s: StartView,
)
    requires
        own_starts(fresh_starts(starts, now, ttl)),
    ensures
        ({
            let after = starts_after(starts, event, now, ttl);
            let kept = starts.contains(s) && young(s, now, ttl);
            let b = event.base();
            match event {
                EventView::Started(_) => {
                    &&& after.contains(s) && of_clone(s, b) ==> s.event == b && s.started_at == now
                    &&& after.contains(s) && !of_clone(s, b) <==> kept && !of_clone(s, b)
                    &&& s.event == b && s.started_at == now && of_clone(s, b) ==> after.contains(s)
                },
                EventView::Finished(_, _) => after.contains(s) <==> kept && !of_clone(s, b),
                EventView::Cancelled(_, _) => after.contains(s) <==> kept && !of_clone(s, b),
                EventView::ManageRequested(_) => after.contains(s) <==> kept,
            }
        }),
{
    let left = fresh_starts(starts, now, ttl);
    let after = starts_after(starts, event, now, ttl);
    let b = event.base();
    let key = crate::daemon::base_key(b);
    lemma_fresh(starts, now, ttl);
    lemma_start(left, key, 0);
    let k = start_at(left, key, 0);
    if event is Started {
        let new = StartView { key, event: b, started_at: now };
        let at = if k >= 0 {
            k
        } else {
            left.len() as int
        };
        assert(after[at] == new);
        if after.contains(s) {
            let m = choose|m: int| 0 <= m < after.len() && after[m] == s;
            if m != at {
                assert(left[m] == s);
                assert(left.contains(s));
                if k >= 0 && s.key == key {
                    if m < k {
                        assert(left[m].key != left[k].key);
                    } else {
                        assert(left[k].key != left[m].key);
                    }
                }
            }
        }
        if left.contains(s) && s.key != key {
            let m = choose|m: int| 0 <= m < left.len() && left[m] == s;
            assert(after[m] == s);
        }
    } else if event is Finished || event is Cancelled {
        if k >= 0 {
            assert(after == left.remove(k));
            if after.contains(s) {
                let m = choose|m: int| 0 <= m < after.len() && after[m] == s;
                let n = if m < k {
                    m
                } else {
                    m + 1
                };
                assert(left[n] == s);
                assert(left.contains(s));
                if n < k {
                    assert(left[n].key != left[k].key);
                } else {
                    assert(left[k].key != left[n].key);
                }
            }
            if left.contains(s) && s.key != key {
                let m = choose|m: int| 0 <= m < left.len() && left[m] == s;
                assert(after[if m < k {
                    m
                } else {
                    m - 1
                }] == s);
            }
        } else {
            if left.contains(s) {
                let m = choose|m: int| 0 <= m < left.len() && left[m] == s;
                assert(left[m].key != key);
            }
        }
    }
}

/// Without a limit every request is let through and none is remembered. With one, a
/// request is let through exactly where its key was not seen before or the interval has
/// passed since.
pub proof fn limits_let_spaced_requests_through(
    interval: nat,
    rows: Seq<(Seq<char>, u128)>,
    key: Seq<char>,
    now: u128,
    k: int,
)
    requires
        interval > 0,
        0 <= k <= rows.len(),
        k < rows.len() ==> rows[k].0 == key,
        forall|j: int| 0 <= j < k ==> (#[trigger] rows[j]).0 != key,
    ensures
        allowed(None, rows, key, now),
        seen_after(None, rows, key, now) == rows,
        allowed(Some(interval), rows, key, now) <==> k == rows.len() || now - rows[k].1 >= interval,
        !allowed(Some(interval), rows, key, now) ==> seen_after(Some(interval), rows, key, now)
            == rows,
        allowed(Some(interval), rows, key, now) ==> seen_after(
            Some(interval),
            rows,
            key,
            now,
        ).contains((key, now)),
{
    lemma_seen(rows, key, 0, k);
    let after = seen_after(Some(interval), rows, key, now);
    if allowed(Some(interval), rows, key, now) {
        assert(after[k] == (key, now));
    }
}

proof fn lemma_seen(rows: Seq<(Seq<char>, u128)>, key: Seq<char>, i: int, k: int)
    requires
        0 <= i <= k <= rows.len(),
        k < rows.len() ==> rows[k].0 == key,
        forall|j: int| i <= j < k ==> (#[trigger] rows[j]).0 != key,
    ensures
        seen_index(rows, key, i) == if k < rows.len() {
            k
        } else {
            -1
        },
    decreases k - i,
{
    if i < k {
        lemma_seen(rows, key, i + 1, k);
    }
}

/// A limit of so many requests in a second spaces them so that no more than these fit
/// in it, up to half a nanosecond for each.
pub proof fn limits_share_a_second(n: u32)
    requires
        n > 0,
    ensures
        interval_for(0) is None,
        interval_for(n) is Some,
        2 * n * interval_for(n)->0 <= 2000000000 + n,
        2000000000 - n <= 2 * n * interval_for(n)->0,
{
    let m = n as int;
    let up = (2000000000 + m) / (2 * m);
    assert(2 * m * up <= 2000000000 + m && 2000000000 + m < 2 * m * up + 2 * m) by (nonlinear_arith)
        requires
            m > 0,
            up == (2000000000 + m) / (2 * m),
    ;
    let s = spacing(n as nat) as int;
    assert(2 * m * s <= 2000000000 + m && 2000000000 - m <= 2 * m * s) by {
        if n == 1024 {
            assert(2 * m * up == 2048 * up) by (nonlinear_arith)
                requires
                    m == 1024,
            ;
            assert(s == up - 1);
            assert(2 * m * s == 2048 * s) by (nonlinear_arith)
                requires
                    m == 1024,
            ;
        } else if n == 16000000 {
            assert(2 * m * up == 32000000 * up) by (nonlinear_arith)
                requires
                    m == 16000000,
            ;
            assert(s == up - 1);
            assert(2 * m * s == 32000000 * s) by (nonlinear_arith)
                requires
                    m == 16000000,
            ;
        } else if n == 80000000 {
            assert(2 * m * up == 160000000 * up) by (nonlinear_arith)
                requires
                    m == 80000000,
            ;
            assert(s == up - 1);
            assert(2 * m * s == 160000000 * s) by (nonlinear_arith)
                requires
                    m == 80000000,
            ;
        } else {
            assert(s == up);
        }
    }
    assert(2 * n * interval_for(n)->0 == 2 * m * s) by (nonlinear_arith)
        requires
            m == n,
            s == interval_for(n)->0,
    ;
}

/// A start is waited for as many minutes as are set.
pub proof fn minutes_are_waited(minutes: u64)
    ensures
        minutes <= u64::MAX / 60 ==> ttl_nanos(minutes) == minutes * 60000000000,
{
}

/// The locator that a message tells, where it is one.
pub open spec fn told_locator(f: FieldsView) -> Option<LocatorView> {
    match f.locator {
        Some((authority, remote_path)) => match new_locator(authority, remote_path) {
            Ok(locator) => Some(locator),
            Err(_) => None,
        },
        None => None,
    }
}

/// An event is read from a message exactly where all that it has to tell is there, and
/// then it tells just that.
pub proof fn complete_messages_are_read(f: FieldsView, success: bool, reason: Seq<char>)
    ensures
        ({
            let whole = f.client_id.len() > 0 && f.url.len() > 0 && f.path.len() > 0
                && f.scan_root.len() > 0 && told_locator(f) is Some;
            let base = EventBase {
                client_id: f.client_id,
                url: f.url,
                locator: told_locator(f)->0,
                path: f.path,
                scan_root: f.scan_root,
            };
            let started = event_of(1, Some(PayloadView::Started(f)));
            let finished = event_of(1, Some(PayloadView::Finished(f, success)));
            let cancelled = event_of(1, Some(PayloadView::Cancelled(f, reason)));
            let requested = event_of(1, Some(PayloadView::ManageRequested(f)));
            &&& started is Ok <==> whole
            &&& whole ==> started->Ok_0 == EventView::Started(base)
            &&& finished is Ok <==> whole
            &&& whole ==> finished->Ok_0 == EventView::Finished(base, success)
            &&& cancelled is Ok <==> whole && reason.len() > 0
            &&& cancelled is Ok ==> cancelled->Ok_0 == EventView::Cancelled(base, reason)
            &&& requested is Ok <==> whole
            &&& whole ==> requested->Ok_0 == EventView::ManageRequested(base)
            &&& event_of(1, None) is Err
        }),
{
}

/// The daemon listens at the path of an endpoint whose scheme is `unix`, and at no
/// other.
pub proof fn endpoints_are_sockets(
    input: Seq<char>,
    scheme: Seq<char>,
    host: Option<Seq<char>>,
    port: Option<u16>,
    path: Seq<char>,
)
    ensures
        socket_of(input, Some((scheme, host, port, path))) is Ok <==> scheme == "unix"@ && path.len()
            > 0,
        socket_of(input, Some((scheme, host, port, path))) is Ok ==> socket_of(
            input,
            Some((scheme, host, port, path)),
        )->Ok_0 == path,
        socket_of(input, None) is Err,
{
}

/// A clone tells of itself where it goes: to the place of its locator below the root,
/// which is also what is searched for related history.
pub proof fn clones_tell_their_place(
    client_id: Seq<char>,
    clone_root: Seq<char>,
    url: Seq<char>,
    locator: LocatorView,
)
    ensures
        ({
            let b = told(client_id, clone_root, url, locator);
            &&& b.client_id == client_id
            &&& b.url == url
            &&& b.locator == locator
            &&& b.path == placed(clone_root, locator)
            &&& b.scan_root == clone_root
        }),
{
}

/// What is reviewed of a clone is the repository at the place that it went to, and
/// others are looked for below the root that it went under.
pub proof fn clones_are_reviewed_at_their_place(
    client_id: Seq<char>,
    clone_root: Seq<char>,
    url: Seq<char>,
    locator: LocatorView,
)
    ensures
        reviewed(told(client_id, clone_root, url, locator)) == (
            locator,
            placed(clone_root, locator),
            clone_root,
        ),
{
}

} // verus!
