//! Per-address authentication rate limiter over a sliding window.
//!
//! For each client address the limiter keeps the times of recent failed
//! logins. An address is throttled once it has at least `max_failures`
//! failures that are not older than the window. Times are nanoseconds on
//! the limiter's own monotonic clock; the `_at` methods take the time as an
//! argument, the others read the clock.

use vstd::prelude::*;
use std::collections::VecDeque;

use crate::clock;
use crate::constants;

verus! {

/// A client address: IPv4 or IPv6, as its numeric value.
#[derive(Clone, Copy, Debug, PartialEq, Eq, Hash, Structural)]
pub enum PeerIp {
    V4(u32),
    V6(u128),
}

impl PeerIp {
    /// The IPv4 address `a.b.c.d`.
    pub fn v4(a: u8, b: u8, c: u8, d: u8) -> (ip: Self)
        ensures
            ip == PeerIp::V4((a * 0x1000000 + b * 0x10000 + c * 0x100 + d) as u32),
    {
        PeerIp::V4((a as u32) * 0x1000000 + (b as u32) * 0x10000 + (c as u32) * 0x100 + (d as u32))
    }
}

/// Is a failure at time `t` outside the window at time `now`?
pub open spec fn expired(t: u128, now: u128, window: u128) -> bool {
    t + window < now
}

/// The failure times `s` (oldest first) without the expired ones at the
/// front, as the limiter prunes them.
pub open spec fn drop_expired(s: Seq<u128>, now: u128, window: u128) -> Seq<u128>
    decreases s.len(),
{
    if s.len() > 0 && expired(s[0], now, window) {
        drop_expired(s.drop_first(), now, window)
    } else {
        s
    }
}

/// The failures recorded for one address.
#[derive(Debug)]
struct IpFailures {
    ip: PeerIp,
    times: VecDeque<u128>,
}

/// The failure times of `ip` among the entries, if it has an entry.
spec fn lookup(s: Seq<IpFailures>, ip: PeerIp) -> Option<Seq<u128>>
    decreases s.len(),
{
    if s.len() == 0 {
        None
    } else if s.last().ip == ip {
        Some(s.last().times@)
    } else {
        lookup(s.drop_last(), ip)
    }
}

/// No address has two entries.
spec fn distinct_ips(s: Seq<IpFailures>) -> bool {
    forall|i: int, j: int| 0 <= i < j < s.len() ==> s[i].ip != s[j].ip
}

/// The table of an entry list.
spec fn table_of(s: Seq<IpFailures>) -> Map<PeerIp, Seq<u128>> {
    Map::new(|ip: PeerIp| lookup(s, ip) is Some, |ip: PeerIp| lookup(s, ip)->Some_0)
}

proof fn lemma_lookup_at(s: Seq<IpFailures>, i: int)
    requires
        distinct_ips(s),
        0 <= i < s.len(),
    ensures
        lookup(s, s[i].ip) == Some(s[i].times@),
    decreases s.len(),
{
    if i < s.len() - 1 {
        assert(s.last().ip != s[i].ip);
        assert(s.drop_last()[i] == s[i]);
        lemma_lookup_at(s.drop_last(), i);
    }
}

proof fn lemma_lookup_absent(s: Seq<IpFailures>, ip: PeerIp)
    requires
        forall|i: int| 0 <= i < s.len() ==> s[i].ip != ip,
    ensures
        lookup(s, ip) is None,
    decreases s.len(),
{
    if s.len() > 0 {
        lemma_lookup_absent(s.drop_last(), ip);
    }
}

proof fn lemma_lookup_present(s: Seq<IpFailures>, ip: PeerIp) -> (i: int)
    requires
        lookup(s, ip) is Some,
    ensures
        0 <= i < s.len(),
        s[i].ip == ip,
    decreases s.len(),
{
    if s.last().ip == ip {
        s.len() - 1
    } else {
        let j = lemma_lookup_present(s.drop_last(), ip);
        j
    }
}

proof fn lemma_lookup_update(s: Seq<IpFailures>, i: int, e: IpFailures, ip: PeerIp)
    requires
        0 <= i < s.len(),
        e.ip == s[i].ip,
        distinct_ips(s),
    ensures
        distinct_ips(s.update(i, e)),
        lookup(s.update(i, e), ip) == (if ip == e.ip {
            Some(e.times@)
        } else {
            lookup(s, ip)
        }),
    decreases s.len(),
{
    let t = s.update(i, e);
    assert(forall|k: int| 0 <= k < s.len() ==> #[trigger] t[k].ip == s[k].ip);
    if ip == e.ip {
        lemma_lookup_at(t, i);
    } else if i == s.len() - 1 {
        assert(t.drop_last() =~= s.drop_last());
    } else {
        assert(t.drop_last() =~= s.drop_last().update(i, e));
        lemma_lookup_update(s.drop_last(), i, e, ip);
    }
}

proof fn lemma_lookup_push(s: Seq<IpFailures>, e: IpFailures, ip: PeerIp)
    ensures
        lookup(s.push(e), ip) == (if ip == e.ip {
            Some(e.times@)
        } else {
            lookup(s, ip)
        }),
{
    assert(s.push(e).drop_last() =~= s);
}

proof fn lemma_lookup_remove(s: Seq<IpFailures>, i: int, ip: PeerIp)
    requires
        0 <= i < s.len(),
        distinct_ips(s),
    ensures
        distinct_ips(s.remove(i)),
        lookup(s.remove(i), ip) == (if ip == s[i].ip {
            None
        } else {
            lookup(s, ip)
        }),
    decreases s.len(),
{
    let t = s.remove(i);
    assert(forall|k: int| 0 <= k < t.len() ==> #[trigger] t[k] == (if k < i {
        s[k]
    } else {
        s[k + 1]
    }));
    if ip == s[i].ip {
        lemma_lookup_absent(t, ip);
    } else if i == s.len() - 1 {
        assert(t =~= s.drop_last());
    } else {
        assert(t.drop_last() =~= s.drop_last().remove(i));
        lemma_lookup_remove(s.drop_last(), i, ip);
        assert(t.last() == s.last());
    }
}


/// The table after recording failures of `ip` at each of `times`, in order.
pub open spec fn recorded_all(
    table: Map<PeerIp, Seq<u128>>,
    ip: PeerIp,
    times: Seq<u128>,
    window: u128,
) -> Map<PeerIp, Seq<u128>>
    decreases times.len(),
{
    if times.len() == 0 {
        table
    } else {
        recorded(recorded_all(table, ip, times.drop_last(), window), ip, times.last(), window)
    }
}

/// After a reset an address is not throttled, whatever the time.
pub proof fn lemma_reset_clears(
    table: Map<PeerIp, Seq<u128>>,
    ip: PeerIp,
    now: u128,
    window: u128,
    max_failures: usize,
)
    ensures
        !throttled_in(table.remove(ip), ip, now, window, max_failures),
{
}

/// Checking, recording or resetting one address leaves every other
/// address's history, and whether it is throttled, as it was. (A limiter
/// that tracks as many addresses as it makes room for first drops one
/// before recording a new address: see [`evicted_for`].)
pub proof fn lemma_addresses_independent(
    table: Map<PeerIp, Seq<u128>>,
    ip: PeerIp,
    other: PeerIp,
    now: u128,
    at: u128,
    window: u128,
    max_failures: usize,
)
    requires
        ip != other,
    ensures
        checked(table, ip, at, window).remove(ip) == table.remove(ip),
        recorded(table, ip, at, window).remove(ip) == table.remove(ip),
        throttled_in(checked(table, ip, at, window), other, now, window, max_failures)
            == throttled_in(table, other, now, window, max_failures),
        throttled_in(recorded(table, ip, at, window), other, now, window, max_failures)
            == throttled_in(table, other, now, window, max_failures),
        throttled_in(table.remove(ip), other, now, window, max_failures) == throttled_in(
            table,
            other,
            now,
            window,
            max_failures,
        ),
{
    assert(checked(table, ip, at, window).remove(ip) =~= table.remove(ip));
    assert(recorded(table, ip, at, window).remove(ip) =~= table.remove(ip));
}

proof fn lemma_none_expired(s: Seq<u128>, now: u128, window: u128)
    requires
        s.len() == 0 || !expired(s[0], now, window),
    ensures
        drop_expired(s, now, window) == s,
{
}

/// Failures recorded in time order, none of them older than the window at
/// `now`, are all kept: an address with no earlier history is throttled at
/// `now` exactly when there are at least `max_failures` of them.
pub proof fn lemma_recent_failures_throttle(
    table: Map<PeerIp, Seq<u128>>,
    ip: PeerIp,
    times: Seq<u128>,
    now: u128,
    window: u128,
    max_failures: usize,
)
    requires
        !table.contains_key(ip),
        forall|i: int, j: int| 0 <= i < j < times.len() ==> times[i] <= times[j],
        forall|i: int| 0 <= i < times.len() ==> times[i] <= now && !expired(#[trigger] times[i], now, window),
    ensures
        times.len() > 0 ==> recorded_all(table, ip, times, window)[ip] == times,
        throttled_in(recorded_all(table, ip, times, window), ip, now, window, max_failures) == (
        times.len() > 0 && times.len() >= max_failures),
    decreases times.len(),
{
    if times.len() > 0 {
        let prev = times.drop_last();
        lemma_recent_failures_throttle(table, ip, prev, now, window, max_failures);
        let t = recorded_all(table, ip, prev, window);
        let last = times.last();
        if prev.len() > 0 {
            assert(t[ip] == prev);
            assert(!expired(prev[0], last, window)) by {
                assert(times[0] <= last);
                assert(!expired(times[0], now, window));
            }
            lemma_none_expired(prev, last, window);
        } else {
            assert(!t.contains_key(ip)) by {
                assert(t == table);
            }
        }
        assert(recorded_all(table, ip, times, window)[ip] =~= times);
        assert(!expired(times[0], now, window));
        lemma_none_expired(times, now, window);
    } else {
        assert(recorded_all(table, ip, times, window) == table);
    }
}

/// Failures that are all older than the window are forgotten: an address
/// whose every failure has expired at `now` is throttled only if the limit
/// is zero.
pub proof fn lemma_expired_failures_forgotten(
    table: Map<PeerIp, Seq<u128>>,
    ip: PeerIp,
    now: u128,
    window: u128,
    max_failures: usize,
)
    requires
        table.contains_key(ip),
        forall|i: int| 0 <= i < table[ip].len() ==> expired(#[trigger] table[ip][i], now, window),
    ensures
        drop_expired(table[ip], now, window).len() == 0,
        throttled_in(table, ip, now, window, max_failures) == (max_failures == 0),
{
    lemma_all_expired(table[ip], now, window);
}

proof fn lemma_all_expired(s: Seq<u128>, now: u128, window: u128)
    requires
        forall|i: int| 0 <= i < s.len() ==> expired(#[trigger] s[i], now, window),
    ensures
        drop_expired(s, now, window).len() == 0,
    decreases s.len(),
{
    if s.len() > 0 {
        assert(expired(s[0], now, window));
        assert forall|i: int| 0 <= i < s.drop_first().len() implies expired(
            #[trigger] s.drop_first()[i],
            now,
            window,
        ) by {
            assert(s.drop_first()[i] == s[i + 1]);
        }
        lemma_all_expired(s.drop_first(), now, window);
    }
}

/// In-memory per-address failure tracker.
#[derive(Debug)]
pub struct AuthRateLimiter {
    window: u128,
    max_failures: usize,
    max_entries: usize,
    origin: std::time::Instant,
    measured: core::time::Duration,
    latest: u128,
    failures: Vec<IpFailures>,
}

/// Is an address with failure history `h` (if any) throttled at `now`?
pub open spec fn throttled_in(
    table: Map<PeerIp, Seq<u128>>,
    ip: PeerIp,
    now: u128,
    window: u128,
    max_failures: usize,
) -> bool {
    table.contains_key(ip) && drop_expired(table[ip], now, window).len() >= max_failures
}

/// The table after checking `ip` at `now`: its history is pruned.
pub open spec fn checked(
    table: Map<PeerIp, Seq<u128>>,
    ip: PeerIp,
    now: u128,
    window: u128,
) -> Map<PeerIp, Seq<u128>> {
    if table.contains_key(ip) {
        table.insert(ip, drop_expired(table[ip], now, window))
    } else {
        table
    }
}

/// The table after recording a failure of `ip` at `now`: its history is
/// pruned and `now` appended.
pub open spec fn recorded(
    table: Map<PeerIp, Seq<u128>>,
    ip: PeerIp,
    now: u128,
    window: u128,
) -> Map<PeerIp, Seq<u128>> {
    let h = if table.contains_key(ip) {
        table[ip]
    } else {
        Seq::empty()
    };
    table.insert(ip, drop_expired(h, now, window).push(now))
}

/// Are the failure times `h` in time order?
pub open spec fn sorted_times(h: Seq<u128>) -> bool {
    forall|i: int, j: int| 0 <= i <= j < h.len() ==> h[i] <= h[j]
}

/// How many of the failure times `h` are not older than the window at `now`.
pub open spec fn unexpired_count(h: Seq<u128>, now: u128, window: u128) -> nat
    decreases h.len(),
{
    if h.len() == 0 {
        0
    } else {
        (if expired(h[0], now, window) {
            0nat
        } else {
            1nat
        }) + unexpired_count(h.drop_first(), now, window)
    }
}

/// Is every history in time order and no later than `clock`?
pub open spec fn history_ordered(table: Map<PeerIp, Seq<u128>>, clock: u128) -> bool {
    forall|k: PeerIp|
        #[trigger] table.contains_key(k) ==> sorted_times(table[k]) && forall|i: int|
            0 <= i < table[k].len() ==> table[k][i] <= clock
}

proof fn lemma_all_unexpired(h: Seq<u128>, now: u128, window: u128)
    requires
        forall|i: int| 0 <= i < h.len() ==> !expired(#[trigger] h[i], now, window),
    ensures
        unexpired_count(h, now, window) == h.len(),
    decreases h.len(),
{
    if h.len() > 0 {
        assert(!expired(h[0], now, window));
        assert forall|i: int| 0 <= i < h.drop_first().len() implies !expired(
            #[trigger] h.drop_first()[i],
            now,
            window,
        ) by {
            assert(h.drop_first()[i] == h[i + 1]);
        }
        lemma_all_unexpired(h.drop_first(), now, window);
    }
}

/// Pruning a time-ordered history keeps exactly its unexpired failures, the
/// last ones of it.
proof fn lemma_prune_sorted(h: Seq<u128>, now: u128, window: u128)
    requires
        sorted_times(h),
    ensures
        drop_expired(h, now, window).len() == unexpired_count(h, now, window),
        drop_expired(h, now, window).len() <= h.len(),
        forall|i: int|
            0 <= i < drop_expired(h, now, window).len() ==> #[trigger] drop_expired(
                h,
                now,
                window,
            )[i] == h[h.len() - drop_expired(h, now, window).len() + i],
    decreases h.len(),
{
    if h.len() > 0 && expired(h[0], now, window) {
        let t = h.drop_first();
        assert(sorted_times(t)) by {
            assert forall|i: int, j: int| 0 <= i <= j < t.len() implies t[i] <= t[j] by {
                assert(t[i] == h[i + 1] && t[j] == h[j + 1]);
            }
        }
        lemma_prune_sorted(t, now, window);
        let d = drop_expired(t, now, window);
        assert(drop_expired(h, now, window) == d);
        assert forall|i: int| 0 <= i < d.len() implies #[trigger] d[i] == h[h.len() - d.len()
            + i] by {
            assert(d[i] == t[t.len() - d.len() + i]);
            assert(t[t.len() - d.len() + i] == h[t.len() - d.len() + i + 1]);
        }
    } else {
        assert forall|i: int| 0 <= i < h.len() implies !expired(#[trigger] h[i], now, window) by {
            assert(h[0] <= h[i]);
        }
        lemma_all_unexpired(h, now, window);
    }
}

/// The sliding-window law: for an address whose failures are in time
/// order, being throttled at `now` means having at least `max_failures`
/// failures not older than the window, however many older ones are mixed in
/// before them.
pub proof fn lemma_sliding_window(
    table: Map<PeerIp, Seq<u128>>,
    ip: PeerIp,
    now: u128,
    window: u128,
    max_failures: usize,
)
    requires
        table.contains_key(ip) ==> sorted_times(table[ip]),
    ensures
        throttled_in(table, ip, now, window, max_failures) == (table.contains_key(ip)
            && unexpired_count(table[ip], now, window) >= max_failures),
{
    if table.contains_key(ip) {
        lemma_prune_sorted(table[ip], now, window);
    }
}

proof fn lemma_push_count(s: Seq<u128>, t: u128, now: u128, window: u128)
    ensures
        unexpired_count(s.push(t), now, window) == unexpired_count(s, now, window) + (if expired(
            t,
            now,
            window,
        ) {
            0nat
        } else {
            1nat
        }),
    decreases s.len(),
{
    if s.len() == 0 {
        assert(s.push(t).drop_first() =~= Seq::<u128>::empty());
        assert(s.push(t)[0] == t);
        assert(unexpired_count(s.push(t).drop_first(), now, window) == 0);
    } else {
        assert(s.push(t).drop_first() =~= s.drop_first().push(t));
        assert(s.push(t)[0] == s[0]);
        lemma_push_count(s.drop_first(), t, now, window);
    }
}

/// Pruning at an earlier time drops only failures that have also expired
/// later, so it does not change how many are unexpired later.
proof fn lemma_prune_keeps_count(h: Seq<u128>, at: u128, now: u128, window: u128)
    requires
        at <= now,
    ensures
        unexpired_count(drop_expired(h, at, window), now, window) == unexpired_count(
            h,
            now,
            window,
        ),
    decreases h.len(),
{
    if h.len() > 0 && expired(h[0], at, window) {
        lemma_prune_keeps_count(h.drop_first(), at, now, window);
    }
}

/// The sliding window over a run of failures: after failures of an address
/// with no history (or just reset) at the clock readings `times`, in time
/// order and none later than `now`, the address is throttled at `now`
/// exactly when at least `max_failures` of those failures are not older
/// than the window, however many older ones came before them, and whatever
/// the other addresses' histories.
pub proof fn lemma_failure_count(
    table: Map<PeerIp, Seq<u128>>,
    ip: PeerIp,
    times: Seq<u128>,
    now: u128,
    window: u128,
    max_failures: usize,
)
    requires
        !table.contains_key(ip),
        sorted_times(times),
        forall|i: int| 0 <= i < times.len() ==> #[trigger] times[i] <= now,
    ensures
        times.len() > 0 ==> {
            let h = recorded_all(table, ip, times, window)[ip];
            &&& recorded_all(table, ip, times, window).contains_key(ip)
            &&& sorted_times(h)
            &&& forall|i: int| 0 <= i < h.len() ==> #[trigger] h[i] <= times.last()
            &&& unexpired_count(h, now, window) == unexpired_count(times, now, window)
        },
        times.len() == 0 ==> recorded_all(table, ip, times, window) == table,
        throttled_in(recorded_all(table, ip, times, window), ip, now, window, max_failures) == (
        times.len() > 0 && unexpired_count(times, now, window) >= max_failures),
    decreases times.len(),
{
    if times.len() > 0 {
        let prev = times.drop_last();
        let last = times.last();
        assert(sorted_times(prev));
        assert forall|i: int| 0 <= i < prev.len() implies #[trigger] prev[i] <= now by {
            assert(prev[i] == times[i]);
        }
        lemma_failure_count(table, ip, prev, now, window, max_failures);
        let t = recorded_all(table, ip, prev, window);
        let h = if t.contains_key(ip) {
            t[ip]
        } else {
            Seq::<u128>::empty()
        };
        assert(sorted_times(h));
        assert forall|i: int| 0 <= i < h.len() implies #[trigger] h[i] <= last by {
            assert(prev.last() == times[times.len() - 2]);
        }
        lemma_prune_sorted(h, last, window);
        let p = drop_expired(h, last, window);
        let r = recorded_all(table, ip, times, window);
        assert(r == recorded(t, ip, last, window));
        assert(r[ip] == p.push(last));
        assert(sorted_times(p.push(last))) by {
            assert forall|i: int, j: int| 0 <= i <= j < p.push(last).len() implies p.push(last)[i]
                <= p.push(last)[j] by {
                if j < p.len() {
                    assert(p[i] == h[h.len() - p.len() + i]);
                    assert(p[j] == h[h.len() - p.len() + j]);
                } else if i < p.len() {
                    assert(p[i] == h[h.len() - p.len() + i]);
                }
            }
        }
        assert forall|i: int| 0 <= i < p.push(last).len() implies #[trigger] p.push(last)[i]
            <= last by {
            if i < p.len() {
                assert(p[i] == h[h.len() - p.len() + i]);
            }
        }
        assert(last <= now) by {
            assert(times[times.len() - 1] <= now);
        }
        lemma_push_count(p, last, now, window);
        lemma_prune_keeps_count(h, last, now, window);
        assert(times =~= prev.push(last));
        lemma_push_count(prev, last, now, window);
        lemma_sliding_window(r, ip, now, window, max_failures);
    } else {
        assert(recorded_all(table, ip, times, window) == table);
    }
}

/// Histories no later than one clock reading are no later than any later
/// reading.
proof fn lemma_ordered_later(table: Map<PeerIp, Seq<u128>>, clock: u128, now: u128)
    requires
        history_ordered(table, clock),
        clock <= now,
    ensures
        history_ordered(table, now),
{
}

/// Every history in time order and no later than `clock` stays so when an address is checked at any time or reset, and
/// when a failure at a reading `now` no earlier than `clock` is recorded
/// (after an address, if any, made room); the latest reading is then `now`.
pub proof fn lemma_ordered_kept(
    table: Map<PeerIp, Seq<u128>>,
    ip: PeerIp,
    gone: Option<PeerIp>,
    clock: u128,
    now: u128,
    window: u128,
)
    requires
        history_ordered(table, clock),
    ensures
        history_ordered(checked(table, ip, now, window), clock),
        history_ordered(table.remove(ip), clock),
        clock <= now ==> history_ordered(recorded(without(table, gone), ip, now, window), now),
{
    if table.contains_key(ip) {
        let hh = table[ip];
        lemma_prune_sorted(hh, now, window);
        let q = drop_expired(hh, now, window);
        assert(sorted_times(q)) by {
            assert forall|i: int, j: int| 0 <= i <= j < q.len() implies q[i] <= q[j] by {
                assert(q[i] == hh[hh.len() - q.len() + i]);
                assert(q[j] == hh[hh.len() - q.len() + j]);
            }
        }
        assert forall|i: int| 0 <= i < q.len() implies q[i] <= clock by {
            assert(q[i] == hh[hh.len() - q.len() + i]);
        }
    }
    assert(history_ordered(table.remove(ip), clock));
    if clock <= now {
        let w = without(table, gone);
        let h = if w.contains_key(ip) {
            w[ip]
        } else {
            Seq::<u128>::empty()
        };
        assert(sorted_times(h) && forall|i: int| 0 <= i < h.len() ==> h[i] <= now);
        lemma_prune_sorted(h, now, window);
        let p = drop_expired(h, now, window);
        assert(sorted_times(p.push(now))) by {
            assert forall|i: int, j: int| 0 <= i <= j < p.push(now).len() implies p.push(now)[i]
                <= p.push(now)[j] by {
                if j < p.len() {
                    assert(p[i] == h[h.len() - p.len() + i]);
                    assert(p[j] == h[h.len() - p.len() + j]);
                } else if i < p.len() {
                    assert(p[i] == h[h.len() - p.len() + i]);
                }
            }
        }
        assert forall|i: int| 0 <= i < p.push(now).len() implies p.push(now)[i] <= now by {
            if i < p.len() {
                assert(p[i] == h[h.len() - p.len() + i]);
            }
        }
    }
}

/// Is `v` the tracked address whose latest failure is the oldest (among
/// addresses with any failure)?
pub open spec fn oldest_latest(table: Map<PeerIp, Seq<u128>>, v: PeerIp) -> bool {
    &&& table.contains_key(v)
    &&& table[v].len() > 0
    &&& forall|k: PeerIp|
        #![trigger table[k]]
        table.contains_key(k) && table[k].len() > 0 ==> table[v].last() <= table[k].last()
}

/// Does no tracked address have a failure?
pub open spec fn no_failures(table: Map<PeerIp, Seq<u128>>) -> bool {
    forall|k: PeerIp| #[trigger] table.contains_key(k) ==> table[k].len() == 0
}

/// Which address, if any, makes room before a failure of `ip` is recorded
/// with at most `cap` addresses tracked: none while `ip` is tracked or there
/// is room; otherwise the address whose latest failure is the oldest
/// (none when no address has a failure).
pub open spec fn evicted_for(
    table: Map<PeerIp, Seq<u128>>,
    ip: PeerIp,
    cap: usize,
    gone: Option<PeerIp>,
) -> bool {
    if table.contains_key(ip) || table.dom().len() < cap {
        gone is None
    } else {
        match gone {
            None => no_failures(table),
            Some(v) => oldest_latest(table, v),
        }
    }
}

/// The table without the evicted address, if any.
pub open spec fn without(table: Map<PeerIp, Seq<u128>>, gone: Option<PeerIp>) -> Map<
    PeerIp,
    Seq<u128>,
> {
    match gone {
        Some(v) => table.remove(v),
        None => table,
    }
}

proof fn lemma_table_size(s: Seq<IpFailures>)
    requires
        distinct_ips(s),
    ensures
        table_of(s).dom().finite(),
        table_of(s).dom().len() == s.len(),
    decreases s.len(),
{
    if s.len() == 0 {
        lemma_lookup_absent_all(s);
        assert(table_of(s).dom() =~= Set::<PeerIp>::empty());
    } else {
        let t = s.drop_last();
        assert(distinct_ips(t));
        lemma_table_size(t);
        assert forall|i: int| 0 <= i < t.len() implies t[i].ip != s.last().ip by {
            assert(t[i] == s[i]);
        }
        lemma_lookup_absent(t, s.last().ip);
        assert(table_of(s).dom() =~= table_of(t).dom().insert(s.last().ip));
    }
}

proof fn lemma_lookup_absent_all(s: Seq<IpFailures>)
    requires
        s.len() == 0,
    ensures
        forall|ip: PeerIp| #[trigger] lookup(s, ip) is None,
{
}

impl AuthRateLimiter {
    /// The failure histories by address (oldest first).
    pub closed spec fn table(&self) -> Map<PeerIp, Seq<u128>> {
        table_of(self.failures@)
    }

    /// The window length in nanoseconds.
    pub closed spec fn window_nanos(&self) -> u128 {
        self.window
    }

    /// The failure count at which an address is throttled.
    pub closed spec fn limit(&self) -> usize {
        self.max_failures
    }

    /// The last reading of the limiter's clock (nanoseconds since it was
    /// made); readings never go back.
    pub closed spec fn clock(&self) -> u128 {
        self.latest
    }

    /// The time since the limiter was made, as measured at its latest
    /// clock reading (zero before the first).
    pub closed spec fn last_measured(&self) -> core::time::Duration {
        self.measured
    }

    /// How many addresses the limiter makes room for before evicting.
    pub closed spec fn capacity(&self) -> usize {
        self.max_entries
    }

    /// The limiter's invariant: one entry per address.
    pub closed spec fn wf(&self) -> bool {
        distinct_ips(self.failures@)
    }

    /// Is every address's history in time order and no later than the
    /// latest clock reading? Every limiter made and used through the clock
    /// readings of [`Self::now`] is.
    pub open spec fn ordered(&self) -> bool {
        history_ordered(self.table(), self.clock())
    }

    /// A limiter with the given window and failure limit, tracking up to
    /// `DEFAULT_RATE_LIMITER_MAX_ENTRIES` addresses, and no history.
    pub fn new(window: core::time::Duration, max_failures: usize) -> (r: Self)
        ensures
            r.wf(),
            r.table() == Map::<PeerIp, Seq<u128>>::empty(),
            r.window_nanos() == clock::duration_total_nanos(window),
            r.limit() == max_failures,
            r.capacity() == constants::DEFAULT_RATE_LIMITER_MAX_ENTRIES,
            r.clock() == 0,
            r.ordered(),
    {
        Self::with_max_entries(window, max_failures, constants::DEFAULT_RATE_LIMITER_MAX_ENTRIES)
    }

    /// A limiter with the given window, failure limit and number of
    /// addresses tracked, and no history.
    pub fn with_max_entries(
        window: core::time::Duration,
        max_failures: usize,
        max_entries: usize,
    ) -> (r: Self)
        ensures
            r.wf(),
            r.table() == Map::<PeerIp, Seq<u128>>::empty(),
            r.window_nanos() == clock::duration_total_nanos(window),
            r.limit() == max_failures,
            r.capacity() == max_entries,
            r.clock() == 0,
            r.ordered(),
    {
        Self::with_window_nanos(clock::duration_nanos(&window), max_failures, max_entries)
    }

    /// A limiter with a window of `window` nanoseconds, the given failure
    /// limit and number of addresses tracked, and no history.
    pub fn with_window_nanos(window: u128, max_failures: usize, max_entries: usize) -> (r: Self)
        ensures
            r.wf(),
            r.table() == Map::<PeerIp, Seq<u128>>::empty(),
            r.window_nanos() == window,
            r.limit() == max_failures,
            r.capacity() == max_entries,
            r.clock() == 0,
            r.ordered(),
            clock::duration_total_nanos(r.last_measured()) == 0,
    {
        let r = Self {
            window,
            max_failures,
            max_entries,
            origin: clock::instant_now(),
            measured: clock::duration_from_secs(0),
            latest: 0,
            failures: Vec::new(),
        };
        assert(r.table() =~= Map::<PeerIp, Seq<u128>>::empty());
        r
    }

    /// Read the limiter's clock: the time since the limiter was made, in
    /// nanoseconds, as `Instant::now` measures it against the limiter's
    /// origin; an earlier reading that was larger is kept instead.
    pub fn now(&mut self) -> (t: u128)
        ensures
            t >= old(self).clock(),
            t >= clock::duration_total_nanos(final(self).last_measured()),
            t == old(self).clock() || t == clock::duration_total_nanos(final(self).last_measured()),
            final(self).clock() == t,
            final(self).table() == old(self).table(),
            final(self).window_nanos() == old(self).window_nanos(),
            final(self).limit() == old(self).limit(),
            final(self).capacity() == old(self).capacity(),
            final(self).wf() == old(self).wf(),
            old(self).ordered() ==> final(self).ordered(),
    {
        let instant = clock::instant_now();
        let elapsed = clock::elapsed_between(&instant, &self.origin);
        self.advance(elapsed)
    }

    /// Move the limiter's clock to the time `elapsed` since the limiter was
    /// made: the reading is `elapsed` in nanoseconds, or the latest reading
    /// if that was larger.
    pub fn advance(&mut self, elapsed: core::time::Duration) -> (t: u128)
        ensures
            final(self).last_measured() == elapsed,
            t >= old(self).clock(),
            t >= clock::duration_total_nanos(elapsed),
            t == old(self).clock() || t == clock::duration_total_nanos(elapsed),
            final(self).clock() == t,
            final(self).table() == old(self).table(),
            final(self).window_nanos() == old(self).window_nanos(),
            final(self).limit() == old(self).limit(),
            final(self).capacity() == old(self).capacity(),
            final(self).wf() == old(self).wf(),
            old(self).ordered() ==> final(self).ordered(),
    {
        let nanos = clock::duration_nanos(&elapsed);
        let t = if nanos < self.latest {
            self.latest
        } else {
            nanos
        };
        proof {
            if self.ordered() {
                lemma_ordered_later(self.table(), self.latest, t);
            }
        }
        self.measured = elapsed;
        self.latest = t;
        t
    }

    fn position(&self, ip: PeerIp) -> (r: Option<usize>)
        requires
            self.wf(),
        ensures
            match r {
                Some(i) => i < self.failures@.len() && self.failures@[i as int].ip == ip,
                None => forall|i: int| 0 <= i < self.failures@.len() ==> self.failures@[i].ip != ip,
            },
    {
        let mut i: usize = 0;
        while i < self.failures.len()
            invariant
                i <= self.failures@.len(),
                forall|j: int| 0 <= j < i ==> self.failures@[j].ip != ip,
            decreases self.failures@.len() - i,
        {
            if self.failures[i].ip == ip {
                return Some(i);
            }
            i = i + 1;
        }
        None
    }

    /// Is `ip` throttled at time `now`? Prunes its expired failures first.
    pub fn is_throttled_at(&mut self, ip: PeerIp, now: u128) -> (b: bool)
        requires
            old(self).wf(),
        ensures
            final(self).wf(),
            b == throttled_in(old(self).table(), ip, now, old(self).window_nanos(), old(self).limit()),
            final(self).table() == checked(old(self).table(), ip, now, old(self).window_nanos()),
            final(self).window_nanos() == old(self).window_nanos(),
            final(self).limit() == old(self).limit(),
            final(self).capacity() == old(self).capacity(),
            final(self).clock() == old(self).clock(),
            final(self).last_measured() == old(self).last_measured(),
            old(self).ordered() ==> final(self).ordered() && b == (old(self).table().contains_key(
                ip,
            ) && unexpired_count(old(self).table()[ip], now, old(self).window_nanos())
                >= old(self).limit()),
    {
        proof {
            if self.ordered() {
                lemma_ordered_kept(self.table(), ip, None, self.latest, now, self.window);
                lemma_sliding_window(self.table(), ip, now, self.window, self.max_failures);
            }
        }
        match self.position(ip) {
            None => {
                proof {
                    lemma_lookup_absent(self.failures@, ip);
                }
                false
            },
            Some(i) => {
                proof {
                    lemma_lookup_at(self.failures@, i as int);
                }
                let ghost s = self.failures@;
                let mut entry = self.failures.remove(i);
                prune(&mut entry.times, now, self.window);
                let n = entry.times.len();
                self.failures.insert(i, entry);
                proof {
                    assert(self.failures@ =~= s.update(i as int, entry));
                    assert forall|k: PeerIp| #[trigger] lookup(self.failures@, k) == (if k == ip {
                        Some(entry.times@)
                    } else {
                        lookup(s, k)
                    }) by {
                        lemma_lookup_update(s, i as int, entry, k);
                    }
                    lemma_lookup_update(s, i as int, entry, ip);
                    assert(self.table() =~= checked(table_of(s), ip, now, self.window));
                }
                n >= self.max_failures
            },
        }
    }

    /// Make room by dropping the entry whose latest failure is the oldest;
    /// nothing goes when no entry has a failure.
    fn evict_oldest(&mut self) -> (gone: Option<PeerIp>)
        requires
            old(self).wf(),
        ensures
            final(self).wf(),
            match gone {
                None => no_failures(old(self).table()),
                Some(v) => oldest_latest(old(self).table(), v),
            },
            final(self).table() == without(old(self).table(), gone),
            final(self).window_nanos() == old(self).window_nanos(),
            final(self).limit() == old(self).limit(),
            final(self).capacity() == old(self).capacity(),
            final(self).clock() == old(self).clock(),
            final(self).last_measured() == old(self).last_measured(),
    {
        let ghost s = self.failures@;
        let mut best: Option<usize> = None;
        let mut i: usize = 0;
        while i < self.failures.len()
            invariant
                self.failures@ == s,
                i <= s.len(),
                match best {
                    None => forall|j: int| 0 <= j < i ==> #[trigger] s[j].times@.len() == 0,
                    Some(b) => {
                        &&& b < i
                        &&& s[b as int].times@.len() > 0
                        &&& forall|j: int|
                            0 <= j < i && #[trigger] s[j].times@.len() > 0
                                ==> s[b as int].times@.last() <= s[j].times@.last()
                    },
                },
            decreases s.len() - i,
        {
            let n = self.failures[i].times.len();
            if n > 0 {
                let last = self.failures[i].times[n - 1];
                match best {
                    None => {
                        best = Some(i);
                    },
                    Some(b) => {
                        let bn = self.failures[b].times.len();
                        let blast = self.failures[b].times[bn - 1];
                        if last < blast {
                            best = Some(i);
                        }
                    },
                }
            }
            i = i + 1;
        }
        match best {
            None => {
                proof {
                    assert forall|k: PeerIp| #[trigger]
                        table_of(s).contains_key(k) implies table_of(s)[k].len() == 0 by {
                        let j = lemma_lookup_present(s, k);
                        lemma_lookup_at(s, j);
                    }
                    assert(self.table() =~= without(table_of(s), None));
                }
                None
            },
            Some(b) => {
                let v = self.failures[b].ip;
                proof {
                    lemma_lookup_at(s, b as int);
                    assert forall|k: PeerIp|
                        #![trigger table_of(s)[k]]
                        table_of(s).contains_key(k) && table_of(s)[k].len() > 0 implies table_of(
                            s,
                        )[v].last() <= table_of(s)[k].last() by {
                        let j = lemma_lookup_present(s, k);
                        lemma_lookup_at(s, j);
                        assert(s[j].times@.len() > 0);
                    }
                }
                self.failures.remove(b);
                proof {
                    assert forall|k: PeerIp| #[trigger] lookup(self.failures@, k) == (if k == v {
                        None
                    } else {
                        lookup(s, k)
                    }) by {
                        lemma_lookup_remove(s, b as int, k);
                    }
                    lemma_lookup_remove(s, b as int, v);
                    assert(self.table() =~= table_of(s).remove(v));
                }
                Some(v)
            },
        }
    }

    /// Record a failed login of `ip` at time `now`. When `ip` is not tracked
    /// and the limiter already tracks as many addresses as it makes room
    /// for, the address whose latest failure is the oldest is dropped
    /// first. Then the failures of `ip` are pruned and `now` appended.
    pub fn record_failure_at(&mut self, ip: PeerIp, now: u128)
        requires
            old(self).wf(),
        ensures
            final(self).wf(),
            exists|gone: Option<PeerIp>|
                evicted_for(old(self).table(), ip, old(self).capacity(), gone)
                    && final(self).table() == recorded(
                    without(old(self).table(), gone),
                    ip,
                    now,
                    old(self).window_nanos(),
                ),
            final(self).window_nanos() == old(self).window_nanos(),
            final(self).limit() == old(self).limit(),
            final(self).capacity() == old(self).capacity(),
            final(self).clock() == old(self).clock(),
            final(self).last_measured() == old(self).last_measured(),
            old(self).ordered() && old(self).clock() <= now ==> history_ordered(
                final(self).table(),
                now,
            ),
    {
        proof {
            lemma_table_size(self.failures@);
        }
        let ghost t0 = self.table();
        let tracked_now = self.position(ip).is_some();
        proof {
            if tracked_now {
                let i = choose|i: int| 0 <= i < self.failures@.len() && self.failures@[i].ip == ip;
                lemma_lookup_at(self.failures@, i);
            } else {
                lemma_lookup_absent(self.failures@, ip);
            }
        }
        let gone = if !tracked_now && self.failures.len() >= self.max_entries {
            self.evict_oldest()
        } else {
            None
        };
        proof {
            assert(evicted_for(t0, ip, self.max_entries, gone));
            assert(self.table() == without(t0, gone));
        }
        self.record_entry(ip, now);
        proof {
            if history_ordered(t0, self.latest) {
                lemma_ordered_kept(t0, ip, gone, self.latest, now, self.window);
            }
        }
    }

    /// Prune the failures of `ip` and append `now`.
    fn record_entry(&mut self, ip: PeerIp, now: u128)
        requires
            old(self).wf(),
        ensures
            final(self).wf(),
            final(self).table() == recorded(old(self).table(), ip, now, old(self).window_nanos()),
            final(self).window_nanos() == old(self).window_nanos(),
            final(self).limit() == old(self).limit(),
            final(self).capacity() == old(self).capacity(),
            final(self).clock() == old(self).clock(),
            final(self).last_measured() == old(self).last_measured(),
    {
        let ghost s = self.failures@;
        match self.position(ip) {
            None => {
                proof {
                    lemma_lookup_absent(s, ip);
                }
                let mut times: VecDeque<u128> = VecDeque::new();
                times.push_back(now);
                let entry = IpFailures { ip, times };
                self.failures.push(entry);
                proof {
                    assert forall|k: PeerIp| #[trigger] lookup(self.failures@, k) == (if k == ip {
                        Some(entry.times@)
                    } else {
                        lookup(s, k)
                    }) by {
                        lemma_lookup_push(s, entry, k);
                    }
                    assert(distinct_ips(self.failures@));
                    assert(drop_expired(Seq::<u128>::empty(), now, self.window) =~= Seq::<
                        u128,
                    >::empty());
                    assert(self.table() =~= recorded(table_of(s), ip, now, self.window));
                }
            },
            Some(i) => {
                proof {
                    lemma_lookup_at(s, i as int);
                }
                let mut entry = self.failures.remove(i);
                prune(&mut entry.times, now, self.window);
                entry.times.push_back(now);
                self.failures.insert(i, entry);
                proof {
                    assert(self.failures@ =~= s.update(i as int, entry));
                    assert forall|k: PeerIp| #[trigger] lookup(self.failures@, k) == (if k == ip {
                        Some(entry.times@)
                    } else {
                        lookup(s, k)
                    }) by {
                        lemma_lookup_update(s, i as int, entry, k);
                    }
                    lemma_lookup_update(s, i as int, entry, ip);
                    assert(self.table() =~= recorded(table_of(s), ip, now, self.window));
                }
            },
        }
    }

    /// Clear the failure history of `ip` (after a successful login).
    pub fn reset(&mut self, ip: PeerIp)
        requires
            old(self).wf(),
        ensures
            final(self).wf(),
            final(self).table() == old(self).table().remove(ip),
            final(self).window_nanos() == old(self).window_nanos(),
            final(self).limit() == old(self).limit(),
            final(self).capacity() == old(self).capacity(),
            final(self).clock() == old(self).clock(),
            final(self).last_measured() == old(self).last_measured(),
            old(self).ordered() ==> final(self).ordered(),
    {
        proof {
            if self.ordered() {
                lemma_ordered_kept(self.table(), ip, None, self.latest, self.latest, self.window);
            }
        }
        let ghost s = self.failures@;
        match self.position(ip) {
            None => {
                proof {
                    lemma_lookup_absent(s, ip);
                    assert(self.table() =~= table_of(s).remove(ip));
                }
            },
            Some(i) => {
                self.failures.remove(i);
                proof {
                    assert forall|k: PeerIp| #[trigger] lookup(self.failures@, k) == (if k == ip {
                        None
                    } else {
                        lookup(s, k)
                    }) by {
                        lemma_lookup_remove(s, i as int, k);
                    }
                    lemma_lookup_remove(s, i as int, ip);
                    assert(self.table() =~= table_of(s).remove(ip));
                }
            },
        }
    }

    /// Is `ip` throttled now? Reads the limiter's clock, and prunes the
    /// address's expired failures first.
    pub fn is_throttled(&mut self, ip: PeerIp) -> (b: bool)
        requires
            old(self).wf(),
        ensures
            final(self).wf(),
            final(self).clock() >= old(self).clock(),
            final(self).clock() >= clock::duration_total_nanos(final(self).last_measured()),
            final(self).clock() == old(self).clock() || final(self).clock()
                == clock::duration_total_nanos(final(self).last_measured()),
            b == throttled_in(
                old(self).table(),
                ip,
                final(self).clock(),
                old(self).window_nanos(),
                old(self).limit(),
            ),
            final(self).table() == checked(
                old(self).table(),
                ip,
                final(self).clock(),
                old(self).window_nanos(),
            ),
            final(self).window_nanos() == old(self).window_nanos(),
            final(self).limit() == old(self).limit(),
            final(self).capacity() == old(self).capacity(),
            old(self).ordered() ==> final(self).ordered() && b == (old(self).table().contains_key(
                ip,
            ) && unexpired_count(old(self).table()[ip], final(self).clock(), old(self).window_nanos())
                >= old(self).limit()),
    {
        let now = self.now();
        self.is_throttled_at(ip, now)
    }

    /// Record a failed login of `ip` now: reads the limiter's clock, makes
    /// room as [`Self::record_failure_at`] does, prunes the address's
    /// expired failures and appends the reading.
    pub fn record_failure(&mut self, ip: PeerIp)
        requires
            old(self).wf(),
        ensures
            final(self).wf(),
            final(self).clock() >= old(self).clock(),
            final(self).clock() >= clock::duration_total_nanos(final(self).last_measured()),
            final(self).clock() == old(self).clock() || final(self).clock()
                == clock::duration_total_nanos(final(self).last_measured()),
            exists|gone: Option<PeerIp>|
                evicted_for(old(self).table(), ip, old(self).capacity(), gone)
                    && final(self).table() == recorded(
                    without(old(self).table(), gone),
                    ip,
                    final(self).clock(),
                    old(self).window_nanos(),
                ),
            final(self).window_nanos() == old(self).window_nanos(),
            final(self).limit() == old(self).limit(),
            final(self).capacity() == old(self).capacity(),
            old(self).ordered() ==> final(self).ordered(),
    {
        let now = self.now();
        self.record_failure_at(ip, now);
    }
}

/// Drop the expired failure times at the front of `times`.
fn prune(times: &mut VecDeque<u128>, now: u128, window: u128)
    ensures
        final(times)@ == drop_expired(old(times)@, now, window),
{
    while times.len() > 0 && times[0] < now && now - times[0] > window
        invariant
            drop_expired(times@, now, window) == drop_expired(old(times)@, now, window),
        decreases times@.len(),
    {
        let ghost before = times@;
        times.pop_front();
        assert(times@ =~= before.drop_first());
    }
}

} // verus!
