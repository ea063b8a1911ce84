//! Request admission: token buckets per client address, a global ceiling for
//! unknown clients, and a bounded memory of trusted ones.

use std::sync::Arc;

use vstd::prelude::*;

use crate::clock::{Clock, NANOS_PER_SEC};
use crate::diagnostics::AccessEvent;
use crate::net::IpAddress;

verus! {

/// Maximum number of distinct addresses tracked before the stalest leave.
pub const MAX_TRACKED_IPS: usize = 10_000;

/// A token bucket.
///
/// `balance` counts tokens in parts: one token is as many parts as the bucket's
/// window has nanoseconds, so a refill over any whole number of nanoseconds is
/// exact.
#[derive(Debug, Clone, Copy, PartialEq, Eq, Structural)]
pub struct Bucket {
    pub balance: u128,
    pub last_refill: u64,
}

/// Parts that a full bucket of `capacity` tokens holds.
pub open spec fn full_balance(capacity: u64, window: u64) -> int {
    capacity * window
}

/// Nanoseconds from `earlier` to `now`, zero if `now` lies before it.
pub open spec fn elapsed_since(earlier: u64, now: u64) -> int {
    if now >= earlier {
        now - earlier
    } else {
        0
    }
}

/// A bucket after what it gained up to `now`: `capacity` tokens per window,
/// never more than `capacity` in all.
pub open spec fn refilled(bucket: Bucket, capacity: u64, window: u64, now: u64) -> Bucket {
    let gained = bucket.balance + elapsed_since(bucket.last_refill, now) * capacity;
    let full = full_balance(capacity, window);
    Bucket { balance: (if gained < full { gained } else { full }) as u128, last_refill: now }
}

/// Whether a whole token can be taken.
pub open spec fn has_token(bucket: Bucket, capacity: u64, window: u64) -> bool {
    capacity > 0 && bucket.balance >= window
}

/// A bucket one token lighter.
pub open spec fn minus_token(bucket: Bucket, window: u64) -> Bucket {
    Bucket { balance: (bucket.balance - window) as u128, last_refill: bucket.last_refill }
}

/// A bucket that never holds more than its capacity.
pub open spec fn bucket_wf(bucket: Bucket, capacity: u64, window: u64) -> bool {
    bucket.balance <= full_balance(capacity, window)
}

/// What one request at `now` makes of a bucket, and whether it is allowed. An
/// address without a bucket starts with a full one.
pub open spec fn bucket_step(
    bucket: Option<Bucket>,
    capacity: u64,
    window: u64,
    now: u64,
) -> (Bucket, bool) {
    let ready = match bucket {
        Some(b) => refilled(b, capacity, window, now),
        None => Bucket { balance: full_balance(capacity, window) as u128, last_refill: now },
    };
    if has_token(ready, capacity, window) {
        (minus_token(ready, window), true)
    } else {
        (ready, false)
    }
}

proof fn lemma_full_fits(capacity: u64, window: u64)
    ensures
        0 <= capacity * window <= u128::MAX,
{
    assert(0 <= capacity * window <= u64::MAX * u64::MAX) by (nonlinear_arith)
        requires
            0 <= capacity <= u64::MAX,
            0 <= window <= u64::MAX,
    ;
}

impl Bucket {
    /// A bucket that holds `capacity` tokens at `now`.
    fn full(capacity: u64, window: u64, now: u64) -> (bucket: Bucket)
        ensures
            bucket.balance == full_balance(capacity, window),
            bucket.last_refill == now,
            bucket_wf(bucket, capacity, window),
    {
        proof {
            lemma_full_fits(capacity, window);
        }
        Bucket { balance: capacity as u128 * window as u128, last_refill: now }
    }

    /// Credit the time up to `now`.
    fn refill(&self, capacity: u64, window: u64, now: u64) -> (bucket: Bucket)
        requires
            bucket_wf(*self, capacity, window),
        ensures
            bucket == refilled(*self, capacity, window, now),
            bucket_wf(bucket, capacity, window),
    {
        let elapsed: u64 = if now >= self.last_refill {
            now - self.last_refill
        } else {
            0
        };
        proof {
            lemma_full_fits(capacity, window);
            lemma_full_fits(elapsed, capacity);
        }
        let full: u128 = capacity as u128 * window as u128;
        let gain: u128 = elapsed as u128 * capacity as u128;
        let room: u128 = full - self.balance;
        let balance: u128 = if gain >= room {
            full
        } else {
            self.balance + gain
        };
        Bucket { balance, last_refill: now }
    }
}


/// Whether `small` is what is left of `big` once only the `max` entries with
/// the latest refill stay: nothing is altered, and whoever stayed was refilled
/// no earlier than whoever left. Between equal refill times either may go.
pub open spec fn keeps_most_recent(
    big: Map<IpAddress, Bucket>,
    small: Map<IpAddress, Bucket>,
    max: nat,
) -> bool {
    &&& small.submap_of(big)
    &&& small.dom().finite()
    &&& small.len() == max
    &&& forall|kept: IpAddress, gone: IpAddress|
        #![trigger small.dom().contains(kept), big.dom().contains(gone)]
        small.dom().contains(kept) && big.dom().contains(gone) && !small.dom().contains(gone)
            ==> small[kept].last_refill >= big[gone].last_refill
}

/// The entries refilled within the last two windows before `now`.
pub open spec fn recent_only(
    buckets: Map<IpAddress, Bucket>,
    window: u64,
    now: u64,
) -> Map<IpAddress, Bucket> {
    Map::new(
        |ip: IpAddress| buckets.dom().contains(ip) && buckets[ip].last_refill + 2 * window > now,
        |ip: IpAddress| buckets[ip],
    )
}

/// The bucket of `ip`, if it is tracked.
pub open spec fn lookup(buckets: Map<IpAddress, Bucket>, ip: IpAddress) -> Option<Bucket> {
    if buckets.dom().contains(ip) {
        Some(buckets[ip])
    } else {
        None
    }
}

/// The contents of `before` once a table over `cap` entries has shed its
/// stalest ones.
pub open spec fn capped(
    before: Map<IpAddress, Bucket>,
    after: Map<IpAddress, Bucket>,
    cap: nat,
) -> bool {
    if before.len() <= cap {
        after == before
    } else {
        keeps_most_recent(before, after, cap)
    }
}

/// Every bucket of the table within its capacity.
pub open spec fn buckets_wf(
    buckets: Map<IpAddress, Bucket>,
    capacity: u64,
    window: u64,
) -> bool {
    forall|ip: IpAddress| #[trigger]
        buckets.dom().contains(ip) ==> bucket_wf(buckets[ip], capacity, window)
}

/// Token buckets by address. Each address occurs once.
pub struct IpTable {
    entries: Vec<(IpAddress, Bucket)>,
}

impl View for IpTable {
    type V = Map<IpAddress, Bucket>;

    closed spec fn view(&self) -> Map<IpAddress, Bucket> {
        entries_map(self.entries@)
    }
}

spec fn has_ip(entries: Seq<(IpAddress, Bucket)>, ip: IpAddress) -> bool {
    exists|i: int| 0 <= i < entries.len() && (#[trigger] entries[i]).0 == ip
}

spec fn position_of(entries: Seq<(IpAddress, Bucket)>, ip: IpAddress) -> int {
    choose|i: int| 0 <= i < entries.len() && (#[trigger] entries[i]).0 == ip
}

spec fn entries_map(entries: Seq<(IpAddress, Bucket)>) -> Map<IpAddress, Bucket> {
    Map::new(
        |ip: IpAddress| has_ip(entries, ip),
        |ip: IpAddress| entries[position_of(entries, ip)].1,
    )
}

spec fn distinct_ips(entries: Seq<(IpAddress, Bucket)>) -> bool {
    forall|i: int, j: int|
        #![trigger entries[i], entries[j]]
        0 <= i < j < entries.len() ==> entries[i].0 != entries[j].0
}

proof fn lemma_entry_at(entries: Seq<(IpAddress, Bucket)>, i: int)
    requires
        distinct_ips(entries),
        0 <= i < entries.len(),
    ensures
        entries_map(entries).dom().contains(entries[i].0),
        entries_map(entries)[entries[i].0] == entries[i].1,
        position_of(entries, entries[i].0) == i,
{
    let ip = entries[i].0;
    assert(has_ip(entries, ip));
    let j = position_of(entries, ip);
    assert(0 <= j < entries.len() && entries[j].0 == ip);
    assert(j == i);
}

proof fn lemma_entries_len(entries: Seq<(IpAddress, Bucket)>)
    requires
        distinct_ips(entries),
    ensures
        entries_map(entries).dom().finite(),
        entries_map(entries).len() == entries.len(),
{
    let ips = entries.map_values(|e: (IpAddress, Bucket)| e.0);
    assert(ips.no_duplicates());
    ips.unique_seq_to_set();
    let dom = entries_map(entries).dom();
    assert forall|ip: IpAddress| dom.contains(ip) <==> ips.to_set().contains(ip) by {
        if dom.contains(ip) {
            let i = position_of(entries, ip);
            assert(ips[i] == ip);
        }
        if ips.to_set().contains(ip) {
            let i = choose|i: int| 0 <= i < ips.len() && ips[i] == ip;
            assert(entries[i].0 == ip);
        }
    }
    assert(dom =~= ips.to_set());
}

impl IpTable {
    /// No address occurs twice.
    pub closed spec fn wf(&self) -> bool {
        distinct_ips(self.entries@)
    }

    /// A table without entries.
    fn new() -> (table: IpTable)
        ensures
            table.wf(),
            table@ == Map::<IpAddress, Bucket>::empty(),
    {
        let table = IpTable { entries: Vec::new() };
        assert(table@ =~= Map::<IpAddress, Bucket>::empty());
        table
    }

    fn len(&self) -> (n: usize)
        requires
            self.wf(),
        ensures
            n == self@.len(),
            self@.dom().finite(),
    {
        proof {
            lemma_entries_len(self.entries@);
        }
        self.entries.len()
    }

    fn find(&self, ip: IpAddress) -> (index: Option<usize>)
        requires
            self.wf(),
        ensures
            match index {
                Some(i) => i < self.entries@.len() && self.entries@[i as int].0 == ip,
                None => !self@.dom().contains(ip),
            },
    {
        let mut i: usize = 0;
        while i < self.entries.len()
            invariant
                i <= self.entries@.len(),
                forall|j: int| 0 <= j < i ==> (#[trigger] self.entries@[j]).0 != ip,
            decreases self.entries@.len() - i,
        {
            if self.entries[i].0 == ip {
                return Some(i);
            }
            i += 1;
        }
        assert(!has_ip(self.entries@, ip));
        None
    }

    /// The bucket of `ip`, if it is tracked.
    fn get(&self, ip: IpAddress) -> (bucket: Option<Bucket>)
        requires
            self.wf(),
        ensures
            bucket == lookup(self@, ip),
    {
        match self.find(ip) {
            Some(i) => {
                proof {
                    lemma_entry_at(self.entries@, i as int);
                }
                Some(self.entries[i].1)
            },
            None => None,
        }
    }

    /// Set the bucket of `ip`.
    fn put(&mut self, ip: IpAddress, bucket: Bucket)
        requires
            old(self).wf(),
        ensures
            final(self).wf(),
            final(self)@ == old(self)@.insert(ip, bucket),
    {
        let ghost before = self.entries@;
        match self.find(ip) {
            Some(i) => {
                self.entries.set(i, (ip, bucket));
                proof {
                    let after = self.entries@;
                    assert(distinct_ips(after)) by {
                        assert forall|a: int, b: int|
                            #![trigger after[a], after[b]]
                            0 <= a < b < after.len() implies after[a].0 != after[b].0 by {
                            assert(before[a].0 != before[b].0);
                        }
                    }
                    assert forall|other: IpAddress|
                        has_ip(after, other) <==> has_ip(before, other) || other == ip by {
                        if has_ip(after, other) {
                            let k = position_of(after, other);
                            assert(before[k].0 == other);
                        }
                        if has_ip(before, other) {
                            let k = position_of(before, other);
                            assert(after[k].0 == other);
                        }
                        assert(after[i as int].0 == ip);
                    }
                    assert forall|other: IpAddress| has_ip(after, other) implies #[trigger]
                        entries_map(after)[other] == entries_map(before).insert(ip, bucket)[other] by {
                        let k = position_of(after, other);
                        lemma_entry_at(after, k);
                        lemma_entry_at(before, k);
                    }
                    assert(entries_map(after) =~= entries_map(before).insert(ip, bucket));
                }
            },
            None => {
                self.entries.push((ip, bucket));
                proof {
                    let after = self.entries@;
                    let last = before.len() as int;
                    assert(after[last] == (ip, bucket));
                    assert forall|a: int, b: int|
                        #![trigger after[a], after[b]]
                        0 <= a < b < after.len() implies after[a].0 != after[b].0 by {
                        if b == last {
                            assert(before[a].0 != ip) by {
                                if before[a].0 == ip {
                                    assert(has_ip(before, ip));
                                }
                            }
                        } else {
                            assert(before[a].0 != before[b].0);
                        }
                    }
                    assert forall|other: IpAddress|
                        has_ip(after, other) <==> has_ip(before, other) || other == ip by {
                        if has_ip(after, other) {
                            let k = position_of(after, other);
                            if k < last {
                                assert(before[k].0 == other);
                            }
                        }
                        if has_ip(before, other) {
                            let k = position_of(before, other);
                            assert(after[k].0 == other);
                        }
                    }
                    assert forall|other: IpAddress| has_ip(after, other) implies #[trigger]
                        entries_map(after)[other] == entries_map(before).insert(ip, bucket)[other] by {
                        let k = position_of(after, other);
                        lemma_entry_at(after, k);
                        if k < last {
                            lemma_entry_at(before, k);
                        }
                    }
                    assert(entries_map(after) =~= entries_map(before).insert(ip, bucket));
                }
            },
        }
    }

    /// Drop every entry that was last refilled two windows or more before `now`.
    fn retain_recent(&mut self, window: u64, now: u64)
        requires
            old(self).wf(),
        ensures
            final(self).wf(),
            final(self)@ == recent_only(old(self)@, window, now),
    {
        let ghost before = self.entries@;
        let mut kept: Vec<(IpAddress, Bucket)> = Vec::new();
        let mut i: usize = 0;
        while i < self.entries.len()
            invariant
                self.entries@ == before,
                distinct_ips(before),
                i <= before.len(),
                distinct_ips(kept@),
                forall|k: int| 0 <= k < kept@.len() ==> #[trigger] kept@[k].1.last_refill + 2 * window > now,
                forall|k: int| 0 <= k < kept@.len() ==> exists|j: int|
                    0 <= j < i && #[trigger] before[j] == #[trigger] kept@[k],
                forall|j: int|
                    0 <= j < i && (#[trigger] before[j]).1.last_refill + 2 * window > now
                        ==> exists|k: int| 0 <= k < kept@.len() && #[trigger] kept@[k] == before[j],
            decreases before.len() - i,
        {
            let entry = self.entries[i];
            if entry.1.last_refill as u128 + 2 * (window as u128) > now as u128 {
                let ghost prior = kept@;
                kept.push(entry);
                proof {
                    let n = prior.len() as int;
                    assert(kept@[n] == before[i as int]);
                    assert forall|a: int, b: int|
                        #![trigger kept@[a], kept@[b]]
                        0 <= a < b < kept@.len() implies kept@[a].0 != kept@[b].0 by {
                        if b == n {
                            let j = choose|j: int| 0 <= j < i && #[trigger] before[j] == prior[a];
                            assert(before[j].0 != before[i as int].0);
                        } else {
                            assert(prior[a].0 != prior[b].0);
                        }
                    }
                    assert forall|k: int| 0 <= k < kept@.len() implies exists|j: int|
                        0 <= j < i + 1 && #[trigger] before[j] == #[trigger] kept@[k] by {
                        if k < n {
                            let j = choose|j: int| 0 <= j < i && #[trigger] before[j] == prior[k];
                            assert(before[j] == kept@[k]);
                        } else {
                            assert(before[i as int] == kept@[k]);
                        }
                    }
                    assert forall|j: int|
                        0 <= j < i + 1 && (#[trigger] before[j]).1.last_refill + 2 * window > now
                        implies exists|k: int| 0 <= k < kept@.len() && #[trigger] kept@[k] == before[j] by {
                        if j < i {
                            let k = choose|k: int| 0 <= k < prior.len() && #[trigger] prior[k] == before[j];
                            assert(kept@[k] == before[j]);
                        } else {
                            assert(kept@[n] == before[j]);
                        }
                    }
                }
            }
            i += 1;
        }
        proof {
            let after = kept@;
            let want = recent_only(entries_map(before), window, now);
            assert forall|ip: IpAddress| has_ip(after, ip) <==> #[trigger] want.dom().contains(ip) by {
                if has_ip(after, ip) {
                    let k = position_of(after, ip);
                    let j = choose|j: int| 0 <= j < before.len() && #[trigger] before[j] == after[k];
                    lemma_entry_at(before, j);
                }
                if want.dom().contains(ip) {
                    let j = position_of(before, ip);
                    lemma_entry_at(before, j);
                    let k = choose|k: int| 0 <= k < after.len() && #[trigger] after[k] == before[j];
                    assert(after[k].0 == ip);
                }
            }
            assert forall|ip: IpAddress| has_ip(after, ip) implies #[trigger] entries_map(after)[ip] == want[ip] by {
                let k = position_of(after, ip);
                lemma_entry_at(after, k);
                let j = choose|j: int| 0 <= j < before.len() && #[trigger] before[j] == after[k];
                lemma_entry_at(before, j);
                assert(want.dom().contains(ip));
            }
            assert(entries_map(after) =~= want);
        }
        self.entries = kept;
    }

    /// The position of an entry refilled no later than any other.
    fn stalest(&self) -> (index: usize)
        requires
            self.entries@.len() > 0,
        ensures
            index < self.entries@.len(),
            forall|j: int|
                0 <= j < self.entries@.len() ==> (#[trigger] self.entries@[j]).1.last_refill
                    >= self.entries@[index as int].1.last_refill,
    {
        let mut best: usize = 0;
        let mut i: usize = 1;
        while i < self.entries.len()
            invariant
                best < self.entries@.len(),
                1 <= i <= self.entries@.len(),
                forall|j: int|
                    0 <= j < i ==> (#[trigger] self.entries@[j]).1.last_refill
                        >= self.entries@[best as int].1.last_refill,
            decreases self.entries@.len() - i,
        {
            if self.entries[i].1.last_refill < self.entries[best].1.last_refill {
                best = i;
            }
            i += 1;
        }
        best
    }

    /// Forget one entry that was refilled no later than any other.
    fn drop_stalest(&mut self) -> (gone: IpAddress)
        requires
            old(self).wf(),
            old(self)@.len() > 0,
        ensures
            final(self).wf(),
            old(self)@.dom().contains(gone),
            final(self)@ == old(self)@.remove(gone),
            forall|ip: IpAddress| #[trigger]
                old(self)@.dom().contains(ip) ==> old(self)@[ip].last_refill
                    >= old(self)@[gone].last_refill,
    {
        let ghost before = self.entries@;
        proof {
            lemma_entries_len(before);
        }
        let index: usize = self.stalest();
        let entry = self.entries.swap_remove(index);
        proof {
            let after = self.entries@;
            let last = before.len() - 1;
            lemma_entry_at(before, index as int);
            assert forall|i: int| 0 <= i < after.len() implies #[trigger] after[i] == before[if i == index { last } else { i }] by {}
            assert forall|a: int, b: int|
                #![trigger after[a], after[b]]
                0 <= a < b < after.len() implies after[a].0 != after[b].0 by {
                let sa = if a == index { last } else { a };
                let sb = if b == index { last } else { b };
                assert(before[sa].0 != before[sb].0);
            }
            assert forall|ip: IpAddress|
                has_ip(after, ip) <==> has_ip(before, ip) && ip != entry.0 by {
                if has_ip(after, ip) {
                    let k = position_of(after, ip);
                    let source = if k == index { last } else { k };
                    assert(before[source].0 == ip);
                    assert(before[source].0 != before[index as int].0);
                }
                if has_ip(before, ip) && ip != entry.0 {
                    let k = position_of(before, ip);
                    if k == last {
                        assert(after[index as int].0 == ip);
                    } else {
                        assert(after[k].0 == ip);
                    }
                }
            }
            assert forall|ip: IpAddress| has_ip(after, ip) implies #[trigger] entries_map(after)[ip]
                == entries_map(before)[ip] by {
                let k = position_of(after, ip);
                lemma_entry_at(after, k);
                lemma_entry_at(before, if k == index { last } else { k });
            }
            assert(entries_map(after) =~= entries_map(before).remove(entry.0));
            assert forall|ip: IpAddress| #[trigger] entries_map(before).dom().contains(ip) implies
                entries_map(before)[ip].last_refill >= entries_map(before)[entry.0].last_refill by {
                lemma_entry_at(before, position_of(before, ip));
            }
        }
        entry.0
    }

    /// Trim the table down to `max_ips` entries, keeping the most recently
    /// refilled.
    fn evict_stalest(&mut self, max_ips: usize)
        requires
            old(self).wf(),
        ensures
            final(self).wf(),
            capped(old(self)@, final(self)@, max_ips as nat),
    {
        let ghost before = self@;
        let mut count: usize = self.len();
        if count <= max_ips {
            return;
        }
        while count > max_ips
            invariant
                self.wf(),
                count == self@.len(),
                count >= max_ips,
                self@.dom().finite(),
                self@.submap_of(before),
                forall|kept: IpAddress, gone: IpAddress|
                    #![trigger self@.dom().contains(kept), before.dom().contains(gone)]
                    self@.dom().contains(kept) && before.dom().contains(gone)
                        && !self@.dom().contains(gone) ==> self@[kept].last_refill
                        >= before[gone].last_refill,
            decreases count,
        {
            let ghost prior = self@;
            let gone = self.drop_stalest();
            count -= 1;
        }
    }
}

/// What a [`RateLimiter`] remembers.
#[verifier::ext_equal]
pub struct RateLimiterState {
    pub buckets: Map<IpAddress, Bucket>,
    pub next_cleanup: int,
    pub capacity: u64,
    pub window: u64,
}

/// The entries still tracked once a cleanup that is due at `now` has run.
pub open spec fn tracked_at(
    buckets: Map<IpAddress, Bucket>,
    next_cleanup: int,
    window: u64,
    now: u64,
) -> Map<IpAddress, Bucket> {
    if now >= next_cleanup {
        recent_only(buckets, window, now)
    } else {
        buckets
    }
}

/// When the next cleanup is due, as seen at `now`.
pub open spec fn cleanup_after(next_cleanup: int, window: u64, now: u64) -> int {
    if now >= next_cleanup {
        now + window
    } else {
        next_cleanup
    }
}

/// What a request from `ip` at `now` does to a limiter, and its answer.
pub open spec fn rate_check(
    before: RateLimiterState,
    ip: IpAddress,
    now: u64,
    allowed: bool,
    after: RateLimiterState,
) -> bool {
    let live = tracked_at(before.buckets, before.next_cleanup, before.window, now);
    let step = bucket_step(lookup(live, ip), before.capacity, before.window, now);
    &&& allowed == step.1
    &&& capped(live.insert(ip, step.0), after.buckets, MAX_TRACKED_IPS as nat)
    &&& after.next_cleanup == cleanup_after(before.next_cleanup, before.window, now)
    &&& after.capacity == before.capacity
    &&& after.window == before.window
}

proof fn lemma_refilled_wf(bucket: Bucket, capacity: u64, window: u64, now: u64)
    requires
        bucket_wf(bucket, capacity, window),
    ensures
        bucket_wf(refilled(bucket, capacity, window, now), capacity, window),
        refilled(bucket, capacity, window, now).balance <= bucket.balance + elapsed_since(
            bucket.last_refill,
            now,
        ) * capacity,
        refilled(bucket, capacity, window, now).last_refill == now,
        refilled(bucket, capacity, window, now).balance == {
            let gained = bucket.balance + elapsed_since(bucket.last_refill, now) * capacity;
            if gained < full_balance(capacity, window) {
                gained
            } else {
                full_balance(capacity, window)
            }
        },
{
    lemma_full_fits(capacity, window);
    let elapsed = elapsed_since(bucket.last_refill, now);
    assert(elapsed * capacity >= 0) by (nonlinear_arith)
        requires
            elapsed >= 0,
            capacity >= 0,
    ;
}

proof fn lemma_step_wf(bucket: Option<Bucket>, capacity: u64, window: u64, now: u64)
    requires
        bucket matches Some(b) ==> bucket_wf(b, capacity, window),
    ensures
        bucket_wf(bucket_step(bucket, capacity, window, now).0, capacity, window),
        bucket_step(bucket, capacity, window, now).0.last_refill == now,
{
    lemma_full_fits(capacity, window);
    if let Some(b) = bucket {
        lemma_refilled_wf(b, capacity, window, now);
    }
}

proof fn lemma_capped_wf(
    before: Map<IpAddress, Bucket>,
    after: Map<IpAddress, Bucket>,
    cap: nat,
    capacity: u64,
    window: u64,
)
    requires
        capped(before, after, cap),
        buckets_wf(before, capacity, window),
    ensures
        buckets_wf(after, capacity, window),
{
    assert forall|ip: IpAddress| #[trigger] after.dom().contains(ip) implies bucket_wf(
        after[ip],
        capacity,
        window,
    ) by {
        assert(before.dom().contains(ip));
        assert(after[ip] == before[ip]);
    }
}

/// Per-address token-bucket rate limiter.
///
/// Each address gets a token bucket that refills at a constant rate. A single
/// burst of up to `capacity` requests is allowed; sustained throughput is
/// limited to `capacity` requests per `window`.
pub struct RateLimiter {
    buckets: IpTable,
    next_cleanup: u128,
    capacity: u64,
    window: u64,
    clock: Clock,
}

impl View for RateLimiter {
    type V = RateLimiterState;

    closed spec fn view(&self) -> RateLimiterState {
        RateLimiterState {
            buckets: self.buckets@,
            next_cleanup: self.next_cleanup as int,
            capacity: self.capacity,
            window: self.window,
        }
    }
}

impl RateLimiter {
    /// Every bucket within its capacity.
    pub closed spec fn wf(&self) -> bool {
        &&& self.buckets.wf()
        &&& buckets_wf(self.buckets@, self.capacity, self.window)
    }

    /// Create a limiter that allows `max_per_window` requests from one address
    /// within `window` nanoseconds. `max_per_window` is also the burst size.
    pub fn new(max_per_window: u64, window: u64) -> (limiter: RateLimiter)
        ensures
            limiter.wf(),
            limiter@ == (RateLimiterState {
                buckets: Map::empty(),
                next_cleanup: window as int,
                capacity: max_per_window,
                window,
            }),
    {
        RateLimiter {
            buckets: IpTable::new(),
            next_cleanup: window as u128,
            capacity: max_per_window,
            window,
            clock: Clock::start(),
        }
    }

    /// Check whether a request from `ip` right now is within the rate limit.
    ///
    /// Returns `true` if the request is allowed, `false` if it is rate-limited.
    pub fn check(&mut self, ip: IpAddress) -> (allowed: bool)
        requires
            old(self).wf(),
        ensures
            final(self).wf(),
            exists|now: u64| #[trigger] rate_check(old(self)@, ip, now, allowed, final(self)@),
    {
        let now: u64 = self.clock.now();
        self.check_at(ip, now)
    }

    /// Nanoseconds since the limiter was made.
    pub fn now(&self) -> u64 {
        self.clock.now()
    }

    /// [`RateLimiter::check`] at `now` nanoseconds after the limiter was made.
    pub fn check_at(&mut self, ip: IpAddress, now: u64) -> (allowed: bool)
        requires
            old(self).wf(),
        ensures
            final(self).wf(),
            rate_check(old(self)@, ip, now, allowed, final(self)@),
    {
        if now as u128 >= self.next_cleanup {
            self.buckets.retain_recent(self.window, now);
            self.next_cleanup = now as u128 + self.window as u128;
        }
        let ghost live = self.buckets@;
        let tracked_bucket = self.buckets.get(ip);
        let mut bucket = match tracked_bucket {
            Some(bucket) => bucket.refill(self.capacity, self.window, now),
            None => Bucket::full(self.capacity, self.window, now),
        };
        proof {
            lemma_step_wf(tracked_bucket, self.capacity, self.window, now);
        }
        let allowed = self.capacity > 0 && bucket.balance >= self.window as u128;
        if allowed {
            bucket = Bucket {
                balance: bucket.balance - self.window as u128,
                last_refill: bucket.last_refill,
            };
        }
        self.buckets.put(ip, bucket);
        let ghost touched = self.buckets@;
        self.buckets.evict_stalest(MAX_TRACKED_IPS);
        proof {
            assert(buckets_wf(touched, self.capacity, self.window));
            lemma_capped_wf(
                touched,
                self.buckets@,
                MAX_TRACKED_IPS as nat,
                self.capacity,
                self.window,
            );
        }
        allowed
    }
}

/// Per-address admission budget for unknown clients (requests per second).
/// Each unknown address is limited to this rate individually, so a single
/// scanner cannot hog the global pool.
pub const ADMISSION_PER_IP_BUDGET: u64 = 2;

/// Global admission cap for all unknown addresses combined (requests per
/// second).
pub const ADMISSION_GLOBAL_CAP: u64 = 20;

/// How often stale unknown addresses are purged from the admission gate, in
/// nanoseconds.
pub const ADMISSION_CLEANUP_INTERVAL: u64 = 10_000_000_000;

/// Maximum number of distinct unknown addresses the admission gate tracks before the
/// stalest leave.
pub const ADMISSION_MAX_UNKNOWN_IPS: usize = 10_000;

/// Maximum number of trusted addresses before the oldest leaves.
pub const ADMISSION_MAX_TRUSTED_IPS: usize = 10_000;

/// The trusted addresses, oldest first, once `ip` is among them.
pub open spec fn trust(trusted: Seq<IpAddress>, ip: IpAddress) -> Seq<IpAddress> {
    if trusted.contains(ip) {
        trusted
    } else if trusted.len() + 1 > ADMISSION_MAX_TRUSTED_IPS {
        trusted.push(ip).drop_first()
    } else {
        trusted.push(ip)
    }
}

/// A bounded set of trusted addresses. Once the capacity is exceeded, the entry
/// trusted longest leaves.
pub struct TrustedSet {
    order: Vec<IpAddress>,
}

impl View for TrustedSet {
    type V = Seq<IpAddress>;

    closed spec fn view(&self) -> Seq<IpAddress> {
        self.order@
    }
}

impl TrustedSet {
    /// Nothing occurs twice and the capacity is kept.
    pub open spec fn wf(&self) -> bool {
        self@.no_duplicates() && self@.len() <= ADMISSION_MAX_TRUSTED_IPS
    }

    fn new() -> (set: TrustedSet)
        ensures
            set.wf(),
            set@ == Seq::<IpAddress>::empty(),
    {
        TrustedSet { order: Vec::new() }
    }

    /// Check whether `ip` is in the set.
    fn contains(&self, ip: IpAddress) -> (found: bool)
        ensures
            found == self@.contains(ip),
    {
        let mut i: usize = 0;
        while i < self.order.len()
            invariant
                i <= self.order@.len(),
                forall|j: int| 0 <= j < i ==> self.order@[j] != ip,
            decreases self.order@.len() - i,
        {
            if self.order[i] == ip {
                return true;
            }
            i += 1;
        }
        false
    }

    /// Insert `ip` and drop the oldest entry if over capacity.
    fn insert(&mut self, ip: IpAddress)
        requires
            old(self).wf(),
        ensures
            final(self).wf(),
            final(self)@ == trust(old(self)@, ip),
    {
        if !self.contains(ip) {
            self.order.push(ip);
            if self.order.len() > ADMISSION_MAX_TRUSTED_IPS {
                let ghost full = self.order@;
                self.order.remove(0);
                assert(self.order@ =~= full.drop_first());
            }
        }
    }
}

/// What an [`AdmissionGate`] remembers.
#[verifier::ext_equal]
pub struct GateState {
    /// Trusted addresses, oldest first.
    pub trusted: Seq<IpAddress>,
    /// Buckets of the unknown addresses that passed before.
    pub per_ip: Map<IpAddress, Bucket>,
    /// The bucket that all unknown addresses share.
    pub global: Bucket,
    pub next_cleanup: int,
    pub per_ip_budget: u64,
    pub global_cap: u64,
}

/// The bucket of an address that has just been admitted for the first time:
/// its budget, which is not nothing, less the token of that request.
pub open spec fn first_bucket(budget: u64, now: u64) -> Bucket
    recommends
        budget > 0,
{
    Bucket { balance: ((budget - 1) * NANOS_PER_SEC) as u128, last_refill: now }
}

/// What a request from `ip` at `now` does to a gate, and whether it is
/// admitted.
///
/// Trusted addresses pass and leave no trace. An unknown address must have a
/// token of its own, where a new one has its whole budget, and there must be a
/// global one; it is charged both. A request that the global ceiling refuses costs
/// the address nothing, one that its own budget refuses costs the others nothing,
/// and an address that was never admitted is not recorded.
pub open spec fn gate_admit(
    before: GateState,
    ip: IpAddress,
    now: u64,
    admitted: bool,
    after: GateState,
) -> bool {
    if before.trusted.contains(ip) {
        admitted && after == before
    } else {
        let live = tracked_at(before.per_ip, before.next_cleanup, ADMISSION_CLEANUP_INTERVAL, now);
        let known = live.dom().contains(ip);
        let own = refilled(live[ip], before.per_ip_budget, NANOS_PER_SEC, now);
        let shared = refilled(before.global, before.global_cap, NANOS_PER_SEC, now);
        &&& after.trusted == before.trusted
        &&& after.per_ip_budget == before.per_ip_budget
        &&& after.global_cap == before.global_cap
        &&& after.next_cleanup == cleanup_after(
            before.next_cleanup,
            ADMISSION_CLEANUP_INTERVAL,
            now,
        )
        &&& if before.per_ip_budget == 0 || (known && !has_token(
            own,
            before.per_ip_budget,
            NANOS_PER_SEC,
        )) {
            &&& !admitted
            &&& after.per_ip == if known {
                live.insert(ip, own)
            } else {
                live
            }
            &&& after.global == before.global
        } else if !has_token(shared, before.global_cap, NANOS_PER_SEC) {
            &&& !admitted
            &&& after.per_ip == if known {
                live.insert(ip, own)
            } else {
                live
            }
            &&& after.global == shared
        } else {
            let charged = if known {
                minus_token(own, NANOS_PER_SEC)
            } else {
                first_bucket(before.per_ip_budget, now)
            };
            &&& admitted
            &&& capped(live.insert(ip, charged), after.per_ip, ADMISSION_MAX_UNKNOWN_IPS as nat)
            &&& after.global == minus_token(shared, NANOS_PER_SEC)
        }
    }
}

/// What marking `ip` as trusted does to a gate.
pub open spec fn gate_trust(before: GateState, ip: IpAddress, after: GateState) -> bool {
    after == (GateState { trusted: trust(before.trusted, ip), ..before })
}

/// A gate whose buckets are within their capacity and whose trusted addresses
/// are distinct and bounded in number.
pub open spec fn gate_wf(gate: GateState) -> bool {
    &&& gate.trusted.no_duplicates()
    &&& gate.trusted.len() <= ADMISSION_MAX_TRUSTED_IPS
    &&& buckets_wf(gate.per_ip, gate.per_ip_budget, NANOS_PER_SEC)
    &&& bucket_wf(gate.global, gate.global_cap, NANOS_PER_SEC)
}

/// A two-tier admission gate that prioritizes known (authenticated) addresses.
///
/// Addresses that have authenticated successfully **bypass the admission gate entirely**;
/// the rate limiter is their only ceiling. Each unknown address has its own tiny
/// token bucket, and all of them together share a hard global ceiling.
pub struct AdmissionGate {
    trusted: TrustedSet,
    per_ip: IpTable,
    global: Bucket,
    next_cleanup: u128,
    per_ip_budget: u64,
    global_cap: u64,
    clock: Clock,
}

impl View for AdmissionGate {
    type V = GateState;

    closed spec fn view(&self) -> GateState {
        GateState {
            trusted: self.trusted@,
            per_ip: self.per_ip@,
            global: self.global,
            next_cleanup: self.next_cleanup as int,
            per_ip_budget: self.per_ip_budget,
            global_cap: self.global_cap,
        }
    }
}

impl AdmissionGate {
    /// The admission gate's invariant.
    pub closed spec fn wf(&self) -> bool {
        self.per_ip.wf() && self.trusted.wf() && gate_wf(self@)
    }

    /// Create a gate that grants each unknown address `per_ip_budget` requests
    /// per second, and `global_cap` to all of them together.
    pub fn new(per_ip_budget: u64, global_cap: u64) -> (gate: AdmissionGate)
        ensures
            gate.wf(),
            gate@ == (GateState {
                trusted: Seq::empty(),
                per_ip: Map::empty(),
                global: Bucket {
                    balance: full_balance(global_cap, NANOS_PER_SEC) as u128,
                    last_refill: 0,
                },
                next_cleanup: ADMISSION_CLEANUP_INTERVAL as int,
                per_ip_budget,
                global_cap,
            }),
    {
        AdmissionGate {
            trusted: TrustedSet::new(),
            per_ip: IpTable::new(),
            global: Bucket::full(global_cap, NANOS_PER_SEC, 0),
            next_cleanup: ADMISSION_CLEANUP_INTERVAL as u128,
            per_ip_budget,
            global_cap,
            clock: Clock::start(),
        }
    }

    /// Check whether a request from `ip` should be admitted for processing
    /// right now.
    pub fn try_admit(&mut self, ip: IpAddress) -> (admitted: bool)
        requires
            old(self).wf(),
        ensures
            final(self).wf(),
            exists|now: u64| #[trigger] gate_admit(old(self)@, ip, now, admitted, final(self)@),
    {
        let now: u64 = self.clock.now();
        self.try_admit_at(ip, now)
    }

    /// Nanoseconds since the admission gate was made.
    pub fn now(&self) -> u64 {
        self.clock.now()
    }

    /// [`AdmissionGate::try_admit`] at `now` nanoseconds after the admission gate was made.
    pub fn try_admit_at(&mut self, ip: IpAddress, now: u64) -> (admitted: bool)
        requires
            old(self).wf(),
        ensures
            final(self).wf(),
            gate_admit(old(self)@, ip, now, admitted, final(self)@),
    {
        // The rate limiter is the ceiling of those who authenticated before.
        if self.trusted.contains(ip) {
            return true;
        }
        if now as u128 >= self.next_cleanup {
            self.per_ip.retain_recent(ADMISSION_CLEANUP_INTERVAL, now);
            self.next_cleanup = now as u128 + ADMISSION_CLEANUP_INTERVAL as u128;
        }
        let ghost live = self.per_ip@;
        let budget: u64 = self.per_ip_budget;
        let own: Option<Bucket> = match self.per_ip.get(ip) {
            Some(bucket) => Some(bucket.refill(budget, NANOS_PER_SEC, now)),
            None => None,
        };
        match own {
            Some(bucket) => {
                if budget == 0 || bucket.balance < NANOS_PER_SEC as u128 {
                    self.per_ip.put(ip, bucket);
                    return false;
                }
            },
            None => {
                if budget == 0 {
                    return false;
                }
            },
        }
        self.global = self.global.refill(self.global_cap, NANOS_PER_SEC, now);
        if self.global_cap == 0 || self.global.balance < NANOS_PER_SEC as u128 {
            // The address keeps the token it could have spent.
            if let Some(bucket) = own {
                self.per_ip.put(ip, bucket);
            }
            return false;
        }
        self.global = Bucket {
            balance: self.global.balance - NANOS_PER_SEC as u128,
            last_refill: now,
        };
        let charged = match own {
            Some(bucket) => Bucket {
                balance: bucket.balance - NANOS_PER_SEC as u128,
                last_refill: now,
            },
            None => Bucket {
                balance: (budget - 1) as u128 * NANOS_PER_SEC as u128,
                last_refill: now,
            },
        };
        assert(bucket_wf(charged, budget, NANOS_PER_SEC));
        self.per_ip.put(ip, charged);
        let ghost touched = self.per_ip@;
        self.per_ip.evict_stalest(ADMISSION_MAX_UNKNOWN_IPS);
        proof {
            assert(buckets_wf(touched, budget, NANOS_PER_SEC));
            lemma_capped_wf(
                touched,
                self.per_ip@,
                ADMISSION_MAX_UNKNOWN_IPS as nat,
                budget,
                NANOS_PER_SEC,
            );
        }
        true
    }

    /// Mark `ip` as trusted, after a successful authentication. Its future
    /// requests bypass the admission gate. At capacity the address trusted longest leaves
    /// to make room.
    pub fn mark_trusted(&mut self, ip: IpAddress)
        requires
            old(self).wf(),
        ensures
            final(self).wf(),
            gate_trust(old(self)@, ip, final(self)@),
    {
        self.trusted.insert(ip);
    }
}

/// How many of the requests of one address at `times` its bucket allows.
pub open spec fn allowed_count(
    bucket: Option<Bucket>,
    capacity: u64,
    window: u64,
    times: Seq<u64>,
) -> nat
    decreases times.len(),
{
    if times.len() == 0 {
        0
    } else {
        let step = bucket_step(bucket, capacity, window, times[0]);
        let rest = allowed_count(Some(step.0), capacity, window, times.drop_first());
        if step.1 {
            rest + 1
        } else {
            rest
        }
    }
}

/// Times that never run backwards.
pub open spec fn in_order(times: Seq<u64>) -> bool {
    forall|i: int, j: int| 0 <= i <= j < times.len() ==> times[i] <= times[j]
}

proof fn lemma_allowed_from(bucket: Bucket, capacity: u64, window: u64, times: Seq<u64>, end: u64)
    requires
        bucket_wf(bucket, capacity, window),
        in_order(times),
        times.len() > 0 ==> bucket.last_refill <= times[0] && times.last() <= end,
        bucket.last_refill <= end,
    ensures
        allowed_count(Some(bucket), capacity, window, times) * window <= bucket.balance + (end
            - bucket.last_refill) * capacity,
    decreases times.len(),
{
    if times.len() == 0 {
        assert((end - bucket.last_refill) * capacity >= 0) by (nonlinear_arith)
            requires
                end >= bucket.last_refill,
                capacity >= 0,
        ;
        assert(0 * window == 0);
    } else {
        let now = times[0];
        let rest = times.drop_first();
        let step = bucket_step(Some(bucket), capacity, window, now);
        lemma_step_wf(Some(bucket), capacity, window, now);
        lemma_refilled_wf(bucket, capacity, window, now);
        assert forall|i: int, j: int| 0 <= i <= j < rest.len() implies rest[i] <= rest[j] by {
            assert(times[i + 1] <= times[j + 1]);
        }
        if rest.len() > 0 {
            assert(rest[0] == times[1]);
            assert(times[0] <= times[1]);
            assert(rest.last() == times.last());
        }
        assert(times[0] <= times[times.len() - 1]);
        lemma_allowed_from(step.0, capacity, window, rest, end);
        let n = allowed_count(Some(step.0), capacity, window, rest);
        assert((end - bucket.last_refill) * capacity == (end - now) * capacity + (now
            - bucket.last_refill) * capacity) by (nonlinear_arith);
        assert((n + 1) * window == n * window + window) by (nonlinear_arith);
    }
}

/// Sustained throughput is limited to `capacity` requests per `window`, on top
/// of one burst of `capacity`: among the requests of one address from the first
/// time to the last, no more are allowed than a full bucket and what it gains
/// in between can pay for.
pub proof fn law_sustained_rate(
    bucket: Option<Bucket>,
    capacity: u64,
    window: u64,
    times: Seq<u64>,
)
    requires
        bucket matches Some(b) ==> bucket_wf(b, capacity, window),
        in_order(times),
        times.len() > 0,
    ensures
        allowed_count(bucket, capacity, window, times) * window <= capacity * window + (
        times.last() - times[0]) * capacity,
{
    let now = times[0];
    let end = times.last();
    let rest = times.drop_first();
    let step = bucket_step(bucket, capacity, window, now);
    lemma_full_fits(capacity, window);
    lemma_step_wf(bucket, capacity, window, now);
    if let Some(b) = bucket {
        lemma_refilled_wf(b, capacity, window, now);
    }
    assert forall|i: int, j: int| 0 <= i <= j < rest.len() implies rest[i] <= rest[j] by {
        assert(times[i + 1] <= times[j + 1]);
    }
    if rest.len() > 0 {
        assert(times[0] <= times[1]);
        assert(rest.last() == times.last());
    }
    assert(times[0] <= times[times.len() - 1]);
    lemma_allowed_from(step.0, capacity, window, rest, end);
    let n = allowed_count(Some(step.0), capacity, window, rest);
    assert((n + 1) * window == n * window + window) by (nonlinear_arith);
}

proof fn lemma_burst(left: nat, capacity: u64, window: u64, now: u64, n: nat)
    requires
        window > 0,
        capacity > 0,
        left <= capacity,
    ensures
        allowed_count(
            Some(Bucket { balance: (left * window) as u128, last_refill: now }),
            capacity,
            window,
            Seq::new(n, |i: int| now),
        ) == if n < left {
            n
        } else {
            left
        },
    decreases n,
{
    let times = Seq::new(n, |i: int| now);
    lemma_full_fits(capacity, window);
    assert(left * window <= capacity * window) by (nonlinear_arith)
        requires
            left <= capacity,
    ;
    if n > 0 {
        let bucket = Bucket { balance: (left * window) as u128, last_refill: now };
        lemma_refilled_wf(bucket, capacity, window, now);
        assert(0 * capacity == 0);
        let fewer = (n - 1) as nat;
        assert(times.drop_first() =~= Seq::new(fewer, |i: int| now));
        if left > 0 {
            assert(left * window >= window) by (nonlinear_arith)
                requires
                    left >= 1,
            ;
            let less = (left - 1) as nat;
            assert(left * window - window == less * window) by (nonlinear_arith)
                requires
                    less == left - 1,
            ;
            lemma_burst(less, capacity, window, now, fewer);
        } else {
            assert(0 * window == 0);
            lemma_burst(0, capacity, window, now, fewer);
        }
    }
}

/// A burst of up to `capacity` requests at one moment is allowed to an address
/// that was not seen before, and not one request more.
pub proof fn law_burst(capacity: u64, window: u64, now: u64, n: nat)
    requires
        window > 0,
    ensures
        allowed_count(None, capacity, window, Seq::new(n, |i: int| now)) == if n < capacity {
            n
        } else {
            capacity as nat
        },
    decreases n,
{
    lemma_full_fits(capacity, window);
    let times = Seq::new(n, |i: int| now);
    if n > 0 {
        let fewer = (n - 1) as nat;
        assert(times.drop_first() =~= Seq::new(fewer, |i: int| now));
        if capacity > 0 {
            let less = (capacity - 1) as nat;
            assert(capacity * window >= window) by (nonlinear_arith)
                requires
                    capacity >= 1,
            ;
            assert(capacity * window - window == less * window) by (nonlinear_arith)
                requires
                    less == capacity - 1,
            ;
            lemma_burst(less, capacity, window, now, fewer);
        } else {
            lemma_none_allowed(
                Bucket { balance: full_balance(0, window) as u128, last_refill: now },
                window,
                times.drop_first(),
            );
        }
    }
}

proof fn lemma_none_allowed(bucket: Bucket, window: u64, times: Seq<u64>)
    ensures
        allowed_count(Some(bucket), 0, window, times) == 0,
    decreases times.len(),
{
    if times.len() > 0 {
        let step = bucket_step(Some(bucket), 0, window, times[0]);
        lemma_none_allowed(step.0, window, times.drop_first());
    }
}

/// An address that stayed away for a whole window has its full burst back.
pub proof fn law_idle_window_refills(bucket: Bucket, capacity: u64, window: u64, now: u64)
    requires
        bucket_wf(bucket, capacity, window),
        now >= bucket.last_refill + window,
    ensures
        refilled(bucket, capacity, window, now).balance == full_balance(capacity, window),
{
    lemma_full_fits(capacity, window);
    lemma_refilled_wf(bucket, capacity, window, now);
    let elapsed = now - bucket.last_refill;
    assert(elapsed * capacity >= capacity * window) by (nonlinear_arith)
        requires
            elapsed >= window,
            capacity >= 0,
    ;
}

/// The periodic cleanup is invisible: whether or not it has run, the next
/// request of any address is answered the same way and leaves the same bucket.
pub proof fn law_cleanup_is_invisible(
    buckets: Map<IpAddress, Bucket>,
    capacity: u64,
    window: u64,
    ip: IpAddress,
    now: u64,
)
    requires
        buckets_wf(buckets, capacity, window),
    ensures
        bucket_step(lookup(recent_only(buckets, window, now), ip), capacity, window, now)
            == bucket_step(lookup(buckets, ip), capacity, window, now),
{
    if buckets.dom().contains(ip) && !recent_only(buckets, window, now).dom().contains(ip) {
        assert(bucket_wf(buckets[ip], capacity, window));
        law_idle_window_refills(buckets[ip], capacity, window, now);
    }
}

/// A request of one address leaves the bucket of every other one alone, unless
/// a cleanup was due or the table was over its cap.
pub proof fn law_addresses_do_not_share_buckets(
    before: RateLimiterState,
    ip: IpAddress,
    now: u64,
    allowed: bool,
    after: RateLimiterState,
    other: IpAddress,
)
    requires
        rate_check(before, ip, now, allowed, after),
        other != ip,
        now < before.next_cleanup,
        before.buckets.dom().finite(),
        before.buckets.len() < MAX_TRACKED_IPS,
    ensures
        lookup(after.buckets, other) == lookup(before.buckets, other),
{
    let step = bucket_step(lookup(before.buckets, ip), before.capacity, before.window, now);
    assert(before.buckets.insert(ip, step.0).len() <= before.buckets.len() + 1);
}

/// A request to a rate limiter and its answer.
pub struct RateRequest {
    pub ip: IpAddress,
    pub now: u64,
    pub allowed: bool,
}

/// A history of a limiter: `requests[i]` takes `states[i]` to `states[i + 1]`.
pub open spec fn rate_history(states: Seq<RateLimiterState>, requests: Seq<RateRequest>) -> bool {
    &&& states.len() == requests.len() + 1
    &&& forall|i: int|
        0 <= i < requests.len() ==> rate_check(
            states[i],
            (#[trigger] requests[i]).ip,
            requests[i].now,
            requests[i].allowed,
            states[i + 1],
        )
}

/// The table always has room for one more address.
pub open spec fn room_in_table(states: Seq<RateLimiterState>) -> bool {
    forall|i: int|
        0 <= i < states.len() ==> (#[trigger] states[i]).buckets.dom().finite()
            && states[i].buckets.len() < MAX_TRACKED_IPS
}

/// Requests between `start` and `end`, in order of time.
pub open spec fn made_between(requests: Seq<RateRequest>, start: u64, end: u64) -> bool {
    &&& forall|i: int| 0 <= i < requests.len() ==> start <= (#[trigger] requests[i]).now <= end
    &&& forall|i: int, j: int|
        0 <= i <= j < requests.len() ==> (#[trigger] requests[i]).now <= (
        #[trigger] requests[j]).now
}

/// When `ip` made its requests.
pub open spec fn times_of(requests: Seq<RateRequest>, ip: IpAddress) -> Seq<u64>
    decreases requests.len(),
{
    if requests.len() == 0 {
        Seq::empty()
    } else if requests[0].ip == ip {
        seq![requests[0].now] + times_of(requests.drop_first(), ip)
    } else {
        times_of(requests.drop_first(), ip)
    }
}

/// How many requests of `ip` were allowed.
pub open spec fn allowed_to(requests: Seq<RateRequest>, ip: IpAddress) -> nat
    decreases requests.len(),
{
    if requests.len() == 0 {
        0
    } else if requests[0].ip == ip && requests[0].allowed {
        allowed_to(requests.drop_first(), ip) + 1
    } else {
        allowed_to(requests.drop_first(), ip)
    }
}

/// The table holds `bucket` for `ip`, or has forgotten it after it was idle for so
/// long that it is full again by the time of any request to come.
spec fn stands_for(
    state: RateLimiterState,
    bucket: Option<Bucket>,
    ip: IpAddress,
    requests: Seq<RateRequest>,
) -> bool {
    lookup(state.buckets, ip) == bucket || (lookup(state.buckets, ip) is None && bucket is Some
        && forall|i: int|
        0 <= i < requests.len() ==> (#[trigger] requests[i]).now >= bucket->0.last_refill
            + state.window)
}

proof fn lemma_idle_step(bucket: Bucket, capacity: u64, window: u64, now: u64)
    requires
        bucket_wf(bucket, capacity, window),
        now >= bucket.last_refill + window,
    ensures
        bucket_step(Some(bucket), capacity, window, now) == bucket_step(
            None,
            capacity,
            window,
            now,
        ),
{
    law_idle_window_refills(bucket, capacity, window, now);
}

proof fn lemma_times_between(requests: Seq<RateRequest>, ip: IpAddress, start: u64, end: u64)
    requires
        made_between(requests, start, end),
    ensures
        in_order(times_of(requests, ip)),
        forall|i: int|
            0 <= i < times_of(requests, ip).len() ==> start <= #[trigger] times_of(requests, ip)[i]
                <= end,
    decreases requests.len(),
{
    if requests.len() > 0 {
        let rest = requests.drop_first();
        let first = requests[0].now;
        assert forall|i: int| 0 <= i < rest.len() implies first <= (#[trigger] rest[i]).now
            <= end by {
            assert(rest[i] == requests[i + 1]);
        }
        assert forall|i: int, j: int| 0 <= i <= j < rest.len() implies (#[trigger] rest[i]).now <= (
        #[trigger] rest[j]).now by {
            assert(rest[i] == requests[i + 1] && rest[j] == requests[j + 1]);
        }
        lemma_times_between(rest, ip, first, end);
        let later = times_of(rest, ip);
        if requests[0].ip == ip {
            let all = seq![first] + later;
            assert forall|i: int, j: int| 0 <= i <= j < all.len() implies all[i] <= all[j] by {
                if i > 0 {
                    assert(later[i - 1] <= later[j - 1]);
                } else if j > 0 {
                    assert(first <= later[j - 1]);
                }
            }
        }
    }
}

proof fn lemma_history_counts(
    states: Seq<RateLimiterState>,
    requests: Seq<RateRequest>,
    bucket: Option<Bucket>,
    ip: IpAddress,
    start: u64,
    end: u64,
)
    requires
        rate_history(states, requests),
        room_in_table(states),
        made_between(requests, start, end),
        bucket matches Some(b) ==> bucket_wf(b, states[0].capacity, states[0].window),
        stands_for(states[0], bucket, ip, requests),
    ensures
        allowed_to(requests, ip) == allowed_count(
            bucket,
            states[0].capacity,
            states[0].window,
            times_of(requests, ip),
        ),
    decreases requests.len(),
{
    if requests.len() > 0 {
        let before = states[0];
        let after = states[1];
        let request = requests[0];
        let now = request.now;
        let rest = requests.drop_first();
        let later = states.drop_first();
        assert(rate_check(states[0], requests[0].ip, requests[0].now, requests[0].allowed, after));
        assert forall|i: int| 0 <= i < rest.len() implies rate_check(
            later[i],
            (#[trigger] rest[i]).ip,
            rest[i].now,
            rest[i].allowed,
            later[i + 1],
        ) by {
            assert(rest[i] == requests[i + 1]);
            assert(later[i] == states[i + 1] && later[i + 1] == states[i + 2]);
        }
        assert forall|i: int| 0 <= i < later.len() implies (
        #[trigger] later[i]).buckets.dom().finite() && later[i].buckets.len()
            < MAX_TRACKED_IPS by {
            assert(later[i] == states[i + 1]);
        }
        assert forall|i: int| 0 <= i < rest.len() implies now <= (#[trigger] rest[i]).now
            <= end by {
            assert(rest[i] == requests[i + 1]);
        }
        assert forall|i: int, j: int| 0 <= i <= j < rest.len() implies (#[trigger] rest[i]).now <= (
        #[trigger] rest[j]).now by {
            assert(rest[i] == requests[i + 1] && rest[j] == requests[j + 1]);
        }
        let live = tracked_at(before.buckets, before.next_cleanup, before.window, now);
        assert(live.dom().subset_of(before.buckets.dom()));
        vstd::set_lib::lemma_len_subset(live.dom(), before.buckets.dom());
        let step = bucket_step(lookup(live, request.ip), before.capacity, before.window, now);
        assert(live.insert(request.ip, step.0).len() <= live.len() + 1);
        assert(after.buckets == live.insert(request.ip, step.0));
        let own = bucket_step(bucket, before.capacity, before.window, now);
        lemma_step_wf(bucket, before.capacity, before.window, now);
        if request.ip == ip {
            if lookup(live, ip) != bucket {
                lemma_idle_step(bucket->0, before.capacity, before.window, now);
            }
            assert(own == step);
            lemma_history_counts(later, rest, Some(own.0), ip, now, end);
            let times = times_of(requests, ip);
            assert(times.drop_first() =~= times_of(rest, ip));
        } else {
            lemma_history_counts(later, rest, bucket, ip, now, end);
        }
    }
}

/// The limit holds for every address: of all requests that it makes between `start`
/// and `end`, among those of any other addresses and whatever cleanups ran in between,
/// no more are allowed than `capacity` and `capacity` for each window.
///
/// The table of addresses must not overflow meanwhile; an address that is dropped from
/// a full table starts afresh.
pub proof fn law_rate_limit(
    states: Seq<RateLimiterState>,
    requests: Seq<RateRequest>,
    ip: IpAddress,
    start: u64,
    end: u64,
)
    requires
        rate_history(states, requests),
        room_in_table(states),
        made_between(requests, start, end),
        start <= end,
        buckets_wf(states[0].buckets, states[0].capacity, states[0].window),
    ensures
        allowed_to(requests, ip) * states[0].window <= states[0].capacity * states[0].window + (end
            - start) * states[0].capacity,
{
    let bucket = lookup(states[0].buckets, ip);
    let capacity = states[0].capacity;
    let times = times_of(requests, ip);
    lemma_history_counts(states, requests, bucket, ip, start, end);
    lemma_times_between(requests, ip, start, end);
    assert((end - start) * capacity >= 0 && capacity * states[0].window >= 0)
        by (nonlinear_arith)
        requires
            end >= start,
            capacity >= 0,
            states[0].window >= 0,
    ;
    if times.len() > 0 {
        law_sustained_rate(bucket, capacity, states[0].window, times);
        let first = times[0];
        let last = times.last();
        assert(last == times[times.len() - 1]);
        assert((last - first) * capacity <= (end - start) * capacity) by (nonlinear_arith)
            requires
                last - first <= end - start,
                capacity >= 0,
        ;
    } else {
        assert(0 * states[0].window == 0);
    }
}

/// What can happen to an admission gate.
pub enum GateEvent {
    Request { ip: IpAddress, now: u64, admitted: bool },
    Trusted { ip: IpAddress },
}

/// One event taking a gate from `before` to `after`.
pub open spec fn gate_event(before: GateState, event: GateEvent, after: GateState) -> bool {
    match event {
        GateEvent::Request { ip, now, admitted } => gate_admit(before, ip, now, admitted, after),
        GateEvent::Trusted { ip } => gate_trust(before, ip, after),
    }
}

/// A history of a gate: `events[i]` takes `states[i]` to `states[i + 1]`.
pub open spec fn gate_history(states: Seq<GateState>, events: Seq<GateEvent>) -> bool {
    &&& states.len() == events.len() + 1
    &&& forall|i: int|
        0 <= i < events.len() ==> gate_event(states[i], #[trigger] events[i], states[i + 1])
}

/// Every request of the history is made between `start` and `end`, in order of
/// time.
pub open spec fn requests_between(events: Seq<GateEvent>, start: u64, end: u64) -> bool {
    &&& forall|i: int|
        0 <= i < events.len() && (#[trigger] events[i]) is Request ==> start
            <= events[i]->Request_now <= end
    &&& forall|i: int, j: int|
        0 <= i <= j < events.len() && (#[trigger] events[i]) is Request && (
        #[trigger] events[j]) is Request ==> events[i]->Request_now <= events[j]->Request_now
}

/// How many of the first `n` events are admitted requests of unknown addresses.
pub open spec fn unknown_admitted(
    states: Seq<GateState>,
    events: Seq<GateEvent>,
    n: nat,
) -> nat
    decreases n,
{
    if n == 0 {
        0
    } else {
        let earlier = unknown_admitted(states, events, (n - 1) as nat);
        match events[n - 1] {
            GateEvent::Request { ip, now, admitted } => if admitted
                && !states[n - 1].trusted.contains(ip) {
                earlier + 1
            } else {
                earlier
            },
            GateEvent::Trusted { ip } => earlier,
        }
    }
}

proof fn lemma_global_spending(
    states: Seq<GateState>,
    events: Seq<GateEvent>,
    n: nat,
    start: u64,
    end: u64,
)
    requires
        gate_history(states, events),
        n <= events.len(),
        requests_between(events.take(n as int), start, end),
        start <= end,
        bucket_wf(states[0].global, states[0].global_cap, NANOS_PER_SEC),
        states[0].global.last_refill <= start,
    ensures
        states[n as int].global_cap == states[0].global_cap,
        bucket_wf(states[n as int].global, states[0].global_cap, NANOS_PER_SEC),
        states[n as int].global.last_refill <= end,
        unknown_admitted(states, events, n) * NANOS_PER_SEC + states[n as int].global.balance
            <= states[0].global_cap * NANOS_PER_SEC + elapsed_since(
            start,
            states[n as int].global.last_refill,
        ) * states[0].global_cap,
    decreases n,
{
    let cap = states[0].global_cap;
    if n == 0 {
        let last_refill = states[0].global.last_refill;
        assert(elapsed_since(start, last_refill) * cap >= 0) by (nonlinear_arith)
            requires
                elapsed_since(start, last_refill) >= 0,
                cap >= 0,
        ;
    } else {
        let m = (n - 1) as nat;
        let event = events[m as int];
        let before = states[m as int];
        let after = states[n as int];
        let head = events.take(n as int);
        assert(head[m as int] == event);
        assert(gate_event(states[m as int], events[m as int], states[m as int + 1]));
        let bound = match event {
            GateEvent::Request { now, .. } => now,
            GateEvent::Trusted { .. } => end,
        };
        let prefix = events.take(m as int);
        assert forall|i: int| 0 <= i < prefix.len() && (#[trigger] prefix[i]) is Request implies start
            <= prefix[i]->Request_now <= bound by {
            assert(head[i] == prefix[i]);
        }
        assert forall|i: int, j: int|
            0 <= i <= j < prefix.len() && (#[trigger] prefix[i]) is Request && (
            #[trigger] prefix[j]) is Request implies prefix[i]->Request_now
            <= prefix[j]->Request_now by {
            assert(head[i] == prefix[i] && head[j] == prefix[j]);
        }
        lemma_global_spending(states, events, m, start, bound);
        if let GateEvent::Request { ip, now, admitted } = event {
            if !before.trusted.contains(ip) {
                lemma_refilled_wf(before.global, cap, NANOS_PER_SEC, now);
                let shared = refilled(before.global, cap, NANOS_PER_SEC, now);
                let spent = unknown_admitted(states, events, m) * NANOS_PER_SEC;
                let since = elapsed_since(start, before.global.last_refill);
                let until = elapsed_since(start, now);
                let gained = elapsed_since(before.global.last_refill, now);
                if before.global.last_refill >= start {
                    assert(until * cap == since * cap + gained * cap) by (nonlinear_arith)
                        requires
                            until == since + gained,
                    ;
                    assert(spent + shared.balance <= cap * NANOS_PER_SEC + until * cap);
                } else {
                    assert forall|i: int| 0 <= i < m && (#[trigger] events[i]) is Request implies start
                        <= events[i]->Request_now by {
                        assert(head[i] == events[i]);
                    }
                    lemma_untouched_spends_nothing(states, events, m, start);
                    assert(until * cap >= 0) by (nonlinear_arith)
                        requires
                            until >= 0,
                            cap >= 0,
                    ;
                    assert(spent + shared.balance <= cap * NANOS_PER_SEC + until * cap);
                }
            }
        }
    }
}

/// As long as the shared bucket was last refilled before `start`, no request
/// of an unknown address has been admitted since.
proof fn lemma_untouched_spends_nothing(
    states: Seq<GateState>,
    events: Seq<GateEvent>,
    n: nat,
    start: u64,
)
    requires
        gate_history(states, events),
        n <= events.len(),
        forall|i: int|
            0 <= i < n && (#[trigger] events[i]) is Request ==> start <= events[i]->Request_now,
        states[n as int].global.last_refill < start,
    ensures
        unknown_admitted(states, events, n) == 0,
    decreases n,
{
    if n > 0 {
        let m = (n - 1) as nat;
        assert(gate_event(states[m as int], events[m as int], states[m as int + 1]));
        lemma_untouched_spends_nothing(states, events, m, start);
    }
}

/// Unknown traffic never exceeds the global ceiling: of all requests that
/// unknown addresses make between `start` and `end`, whatever their number,
/// no more are admitted than `global_cap` and `global_cap` for each second.
pub proof fn law_global_ceiling(
    states: Seq<GateState>,
    events: Seq<GateEvent>,
    start: u64,
    end: u64,
)
    requires
        gate_history(states, events),
        requests_between(events, start, end),
        start <= end,
        gate_wf(states[0]),
        states[0].global.last_refill <= start,
    ensures
        unknown_admitted(states, events, events.len()) * NANOS_PER_SEC <= states[0].global_cap
            * NANOS_PER_SEC + (end - start) * states[0].global_cap,
{
    let n = events.len();
    assert(events.take(n as int) =~= events);
    lemma_global_spending(states, events, n, start, end);
    let cap = states[0].global_cap;
    let since = elapsed_since(start, states[n as int].global.last_refill);
    assert(since * cap <= (end - start) * cap) by (nonlinear_arith)
        requires
            since <= end - start,
            cap >= 0,
    ;
}

/// How many requests of `ip` were admitted.
pub open spec fn admitted_to(events: Seq<GateEvent>, ip: IpAddress) -> nat
    decreases events.len(),
{
    if events.len() == 0 {
        0
    } else {
        let later = admitted_to(events.drop_first(), ip);
        match events[0] {
            GateEvent::Request { ip: from, now, admitted } => if from == ip && admitted {
                later + 1
            } else {
                later
            },
            GateEvent::Trusted { ip } => later,
        }
    }
}

/// The address stays unknown, and the table always has room for one more.
pub open spec fn stays_unknown(states: Seq<GateState>, ip: IpAddress) -> bool {
    forall|i: int|
        0 <= i < states.len() ==> !(#[trigger] states[i]).trusted.contains(ip)
            && states[i].per_ip.dom().finite() && states[i].per_ip.len()
            < ADMISSION_MAX_UNKNOWN_IPS
}

/// What a bucket can pay for from `start` until `end`, in parts of a token. Where there
/// is none yet, a full one is made.
spec fn credit(bucket: Option<Bucket>, budget: u64, start: u64, end: u64) -> int {
    (end - start) * budget + match bucket {
        Some(b) => refilled(b, budget, NANOS_PER_SEC, start).balance as int,
        None => budget * NANOS_PER_SEC,
    }
}

/// The table holds `bucket` for `ip`, or has forgotten it after it was idle for a
/// second and more.
spec fn gate_stands_for(
    per_ip: Map<IpAddress, Bucket>,
    bucket: Option<Bucket>,
    ip: IpAddress,
    start: u64,
) -> bool {
    lookup(per_ip, ip) == bucket || (lookup(per_ip, ip) is None && bucket is Some && start
        >= bucket->0.last_refill + NANOS_PER_SEC)
}

proof fn lemma_gate_spending(
    states: Seq<GateState>,
    events: Seq<GateEvent>,
    bucket: Option<Bucket>,
    ip: IpAddress,
    start: u64,
    end: u64,
)
    requires
        gate_history(states, events),
        stays_unknown(states, ip),
        requests_between(events, start, end),
        start <= end,
        states[0].per_ip_budget > 0,
        bucket matches Some(b) ==> bucket_wf(b, states[0].per_ip_budget, NANOS_PER_SEC)
            && b.last_refill <= start,
        gate_stands_for(states[0].per_ip, bucket, ip, start),
    ensures
        admitted_to(events, ip) * NANOS_PER_SEC <= credit(
            bucket,
            states[0].per_ip_budget,
            start,
            end,
        ),
    decreases events.len(),
{
    let budget = states[0].per_ip_budget;
    lemma_full_fits(budget, NANOS_PER_SEC);
    assert((end - start) * budget >= 0) by (nonlinear_arith)
        requires
            end >= start,
            budget >= 0,
    ;
    if events.len() > 0 {
        let before = states[0];
        let after = states[1];
        let rest = events.drop_first();
        let later = states.drop_first();
        assert(gate_event(states[0], events[0], after));
        assert forall|i: int| 0 <= i < rest.len() implies gate_event(
            later[i],
            #[trigger] rest[i],
            later[i + 1],
        ) by {
            assert(rest[i] == events[i + 1]);
            assert(later[i] == states[i + 1] && later[i + 1] == states[i + 2]);
        }
        assert forall|i: int| 0 <= i < later.len() implies !(
        #[trigger] later[i]).trusted.contains(ip) && later[i].per_ip.dom().finite()
            && later[i].per_ip.len() < ADMISSION_MAX_UNKNOWN_IPS by {
            assert(later[i] == states[i + 1]);
        }
        assert(!states[0].trusted.contains(ip));
        let from = match events[0] {
            GateEvent::Request { now, .. } => now,
            GateEvent::Trusted { .. } => start,
        };
        assert forall|i: int| 0 <= i < rest.len() && (#[trigger] rest[i]) is Request implies from
            <= rest[i]->Request_now <= end by {
            assert(rest[i] == events[i + 1]);
        }
        assert forall|i: int, j: int|
            0 <= i <= j < rest.len() && (#[trigger] rest[i]) is Request && (
            #[trigger] rest[j]) is Request implies rest[i]->Request_now
            <= rest[j]->Request_now by {
            assert(rest[i] == events[i + 1] && rest[j] == events[j + 1]);
        }
        match events[0] {
            GateEvent::Trusted { ip: marked } => {
                lemma_gate_spending(later, rest, bucket, ip, start, end);
            },
            GateEvent::Request { ip: requester, now, admitted } => {
                lemma_gate_request(before, requester, now, admitted, after, bucket, ip, start);
                let next = bucket_after(before, requester, now, admitted, bucket, ip);
                lemma_gate_spending(later, rest, next, ip, now, end);
                lemma_credit(bucket, next, requester == ip && admitted, budget, start, now, end);
                let n = admitted_to(rest, ip);
                assert((n + 1) * NANOS_PER_SEC == n * NANOS_PER_SEC + NANOS_PER_SEC);
            },
        }
    } else {
        assert(0 * NANOS_PER_SEC == 0);
    }
}

/// The bucket that stands for `ip` after a request of `requester`.
spec fn bucket_after(
    before: GateState,
    requester: IpAddress,
    now: u64,
    admitted: bool,
    bucket: Option<Bucket>,
    ip: IpAddress,
) -> Option<Bucket> {
    let budget = before.per_ip_budget;
    let live = tracked_at(before.per_ip, before.next_cleanup, ADMISSION_CLEANUP_INTERVAL, now);
    if requester != ip {
        bucket
    } else if admitted {
        match bucket {
            Some(b) => Some(minus_token(refilled(b, budget, NANOS_PER_SEC, now), NANOS_PER_SEC)),
            None => Some(first_bucket(budget, now)),
        }
    } else if live.dom().contains(ip) {
        Some(refilled(live[ip], budget, NANOS_PER_SEC, now))
    } else {
        bucket
    }
}

proof fn lemma_gate_request(
    before: GateState,
    requester: IpAddress,
    now: u64,
    admitted: bool,
    after: GateState,
    bucket: Option<Bucket>,
    ip: IpAddress,
    start: u64,
)
    requires
        gate_admit(before, requester, now, admitted, after),
        start <= now,
        before.per_ip_budget > 0,
        !before.trusted.contains(ip),
        before.per_ip.dom().finite(),
        before.per_ip.len() < ADMISSION_MAX_UNKNOWN_IPS,
        bucket matches Some(b) ==> bucket_wf(b, before.per_ip_budget, NANOS_PER_SEC)
            && b.last_refill <= start,
        gate_stands_for(before.per_ip, bucket, ip, start),
    ensures
        after.per_ip_budget == before.per_ip_budget,
        gate_stands_for(
            after.per_ip,
            bucket_after(before, requester, now, admitted, bucket, ip),
            ip,
            now,
        ),
        bucket_after(before, requester, now, admitted, bucket, ip) matches Some(b) ==> bucket_wf(
            b,
            before.per_ip_budget,
            NANOS_PER_SEC,
        ) && b.last_refill <= now,
        requester == ip && admitted && bucket is Some ==> refilled(
            bucket->0,
            before.per_ip_budget,
            NANOS_PER_SEC,
            now,
        ).balance >= NANOS_PER_SEC,
{
    let budget = before.per_ip_budget;
    lemma_full_fits(budget, NANOS_PER_SEC);
    assert(budget * NANOS_PER_SEC >= NANOS_PER_SEC) by (nonlinear_arith)
        requires
            budget >= 1,
    ;
    assert((budget - 1) * NANOS_PER_SEC == budget * NANOS_PER_SEC - NANOS_PER_SEC)
        by (nonlinear_arith);
    if let Some(b) = bucket {
        lemma_refilled_wf(b, budget, NANOS_PER_SEC, now);
        if now >= b.last_refill + NANOS_PER_SEC {
            law_idle_window_refills(b, budget, NANOS_PER_SEC, now);
        }
    }
    if !before.trusted.contains(requester) {
        let live = tracked_at(before.per_ip, before.next_cleanup, ADMISSION_CLEANUP_INTERVAL, now);
        assert(live.dom().subset_of(before.per_ip.dom()));
        vstd::set_lib::lemma_len_subset(live.dom(), before.per_ip.dom());
        assert forall|b: Bucket| (#[trigger] live.insert(requester, b)).len() <= live.len() + 1 by {
        }
    }
}

proof fn lemma_credit(
    bucket: Option<Bucket>,
    next: Option<Bucket>,
    charged: bool,
    budget: u64,
    start: u64,
    now: u64,
    end: u64,
)
    requires
        budget > 0,
        start <= now <= end,
        bucket matches Some(b) ==> bucket_wf(b, budget, NANOS_PER_SEC) && b.last_refill <= start,
        charged ==> next == match bucket {
            Some(b) => Some(minus_token(refilled(b, budget, NANOS_PER_SEC, now), NANOS_PER_SEC)),
            None => Some(first_bucket(budget, now)),
        },
        charged && bucket is Some ==> refilled(bucket->0, budget, NANOS_PER_SEC, now).balance
            >= NANOS_PER_SEC,
        !charged ==> next == bucket || (bucket is Some && next == Some(
            refilled(bucket->0, budget, NANOS_PER_SEC, now),
        )),
    ensures
        credit(next, budget, now, end) + (if charged {
            NANOS_PER_SEC as int
        } else {
            0
        }) <= credit(bucket, budget, start, end),
{
    lemma_full_fits(budget, NANOS_PER_SEC);
    assert((end - now) * budget <= (end - start) * budget) by (nonlinear_arith)
        requires
            start <= now <= end,
            budget >= 0,
    ;
    assert((budget - 1) * NANOS_PER_SEC == budget * NANOS_PER_SEC - NANOS_PER_SEC)
        by (nonlinear_arith);
    assert(0 <= (budget - 1) * NANOS_PER_SEC) by (nonlinear_arith)
        requires
            budget >= 1,
    ;
    assert((end - start) * budget == (end - now) * budget + (now - start) * budget)
        by (nonlinear_arith);
    if let Some(b) = bucket {
        lemma_refilled_wf(b, budget, NANOS_PER_SEC, start);
        lemma_refilled_wf(b, budget, NANOS_PER_SEC, now);
        assert((now - b.last_refill) * budget == (now - start) * budget + (start - b.last_refill)
            * budget) by (nonlinear_arith);
    }
    if let Some(b) = next {
        if bucket_wf(b, budget, NANOS_PER_SEC) {
            lemma_refilled_wf(b, budget, NANOS_PER_SEC, now);
        }
        assert(0 * budget == 0);
    }
}

/// An unknown address never exceeds its own budget: of all requests that it makes
/// between `start` and `end`, no more are admitted than the budget and the budget for
/// each second.
///
/// The table of addresses must not overflow meanwhile, as an address that is dropped
/// from a full table starts afresh.
pub proof fn law_unknown_address_budget(
    states: Seq<GateState>,
    events: Seq<GateEvent>,
    ip: IpAddress,
    start: u64,
    end: u64,
)
    requires
        gate_history(states, events),
        stays_unknown(states, ip),
        requests_between(events, start, end),
        start <= end,
        gate_wf(states[0]),
        states[0].per_ip.dom().contains(ip) ==> states[0].per_ip[ip].last_refill <= start,
    ensures
        admitted_to(events, ip) * NANOS_PER_SEC <= states[0].per_ip_budget * NANOS_PER_SEC + (end
            - start) * states[0].per_ip_budget,
{
    let budget = states[0].per_ip_budget;
    if budget == 0 {
        law_no_budget_admits_no_unknown(states, events, ip);
        assert(0 * NANOS_PER_SEC == 0);
        assert((end - start) * budget == 0) by (nonlinear_arith)
            requires
                budget == 0,
        ;
    } else {
        let held = lookup(states[0].per_ip, ip);
        if let Some(b) = held {
            assert(bucket_wf(states[0].per_ip[ip], budget, NANOS_PER_SEC));
            lemma_refilled_wf(b, budget, NANOS_PER_SEC, start);
        }
        lemma_gate_spending(states, events, held, ip, start, end);
    }
}

/// A gate that grants unknown addresses nothing admits no request of an address as long
/// as the address is unknown.
pub proof fn law_no_budget_admits_no_unknown(
    states: Seq<GateState>,
    events: Seq<GateEvent>,
    ip: IpAddress,
)
    requires
        gate_history(states, events),
        forall|i: int| 0 <= i < states.len() ==> !(#[trigger] states[i]).trusted.contains(ip),
        states[0].per_ip_budget == 0,
    ensures
        admitted_to(events, ip) == 0,
    decreases events.len(),
{
    if events.len() > 0 {
        let rest = events.drop_first();
        let later = states.drop_first();
        assert(gate_event(states[0], events[0], states[1]));
        assert forall|i: int| 0 <= i < rest.len() implies gate_event(
            later[i],
            #[trigger] rest[i],
            later[i + 1],
        ) by {
            assert(rest[i] == events[i + 1]);
            assert(later[i] == states[i + 1] && later[i + 1] == states[i + 2]);
        }
        assert forall|i: int| 0 <= i < later.len() implies !(
        #[trigger] later[i]).trusted.contains(ip) by {
            assert(later[i] == states[i + 1]);
        }
        assert(!states[0].trusted.contains(ip));
        law_no_budget_admits_no_unknown(later, rest, ip);
    }
}

/// An unknown address without a budget is refused: no bucket is made for it, and the
/// bucket that all share is left alone.
pub proof fn law_no_budget_costs_nothing(
    before: GateState,
    ip: IpAddress,
    now: u64,
    admitted: bool,
    after: GateState,
)
    requires
        gate_admit(before, ip, now, admitted, after),
        !before.trusted.contains(ip),
        before.per_ip_budget == 0,
    ensures
        !admitted,
        after.global == before.global,
        after.per_ip.dom().contains(ip) ==> before.per_ip.dom().contains(ip),
{
}

/// How many of the first `n` events made an address trusted that was not.
pub open spec fn newly_trusted(states: Seq<GateState>, events: Seq<GateEvent>, n: nat) -> nat
    decreases n,
{
    if n == 0 {
        0
    } else {
        let i = n as int - 1;
        let earlier = newly_trusted(states, events, i as nat);
        match events[i] {
            GateEvent::Trusted { ip } => if states[i].trusted.contains(ip) {
                earlier
            } else {
                earlier + 1
            },
            GateEvent::Request { .. } => earlier,
        }
    }
}

proof fn lemma_place_of_trust(
    states: Seq<GateState>,
    events: Seq<GateEvent>,
    place: int,
    ip: IpAddress,
    n: nat,
) -> (p: int)
    requires
        gate_history(states, events),
        states[0].trusted.len() <= ADMISSION_MAX_TRUSTED_IPS,
        0 <= place < states[0].trusted.len(),
        states[0].trusted[place] == ip,
        n <= events.len(),
        newly_trusted(states, events, n) <= ADMISSION_MAX_TRUSTED_IPS - states[0].trusted.len()
            + place,
    ensures
        states[n as int].trusted.len() <= ADMISSION_MAX_TRUSTED_IPS,
        0 <= p < states[n as int].trusted.len(),
        states[n as int].trusted[p] == ip,
        states[n as int].trusted.len() - p <= states[0].trusted.len() - place + newly_trusted(
            states,
            events,
            n,
        ),
    decreases n,
{
    if n == 0 {
        place
    } else {
        let i = n as int - 1;
        let q = lemma_place_of_trust(states, events, place, ip, i as nat);
        assert(gate_event(states[i], events[i], states[i + 1]));
        match events[i] {
            GateEvent::Trusted { ip: marked } => {
                let held = states[i].trusted;
                let grown = held.push(marked);
                assert(grown[q] == ip);
                if held.contains(marked) {
                    q
                } else if grown.len() > ADMISSION_MAX_TRUSTED_IPS {
                    assert(grown.drop_first()[q - 1] == ip);
                    q - 1
                } else {
                    q
                }
            },
            GateEvent::Request { .. } => q,
        }
    }
}

/// Trust lasts: an address that was trusted at `place`, counted from the one trusted
/// longest, stays trusted until more addresses were newly trusted than there was room
/// for and stood before it. As long as it is trusted each of its requests is admitted
/// and leaves the admission gate as it was, so that the answers to all others are the
/// same as if it had not been made.
pub proof fn law_trust_lasts(
    states: Seq<GateState>,
    events: Seq<GateEvent>,
    place: int,
    ip: IpAddress,
    n: nat,
)
    requires
        gate_history(states, events),
        gate_wf(states[0]),
        0 <= place < states[0].trusted.len(),
        states[0].trusted[place] == ip,
        n <= events.len(),
        newly_trusted(states, events, n) <= ADMISSION_MAX_TRUSTED_IPS - states[0].trusted.len()
            + place,
    ensures
        states[n as int].trusted.contains(ip),
        n < events.len() ==> (events[n as int] matches GateEvent::Request {
            ip: from,
            now,
            admitted,
        } ==> from == ip ==> admitted && states[n as int + 1] == states[n as int]),
{
    let p = lemma_place_of_trust(states, events, place, ip, n);
    assert(states[n as int].trusted[p] == ip);
    if n < events.len() {
        assert(gate_event(states[n as int], events[n as int], states[n as int + 1]));
    }
}

/// An address newly marked as trusted stays trusted while fewer others were newly
/// trusted since than the set of trusted addresses can hold. Until then each of its
/// requests is admitted, whatever the budgets have left, and takes nothing from them.
pub proof fn law_marked_stays_trusted(
    before: GateState,
    ip: IpAddress,
    states: Seq<GateState>,
    events: Seq<GateEvent>,
    n: nat,
)
    requires
        gate_wf(before),
        !before.trusted.contains(ip),
        gate_history(states, events),
        gate_trust(before, ip, states[0]),
        n <= events.len(),
        newly_trusted(states, events, n) < ADMISSION_MAX_TRUSTED_IPS,
    ensures
        states[n as int].trusted.contains(ip),
        n < events.len() ==> (events[n as int] matches GateEvent::Request {
            ip: from,
            now,
            admitted,
        } ==> from == ip ==> admitted && states[n as int + 1] == states[n as int]),
{
    law_marked_is_trusted(before, ip, states[0]);
    let held = states[0].trusted;
    assert(held[held.len() - 1] == ip);
    law_trust_lasts(states, events, held.len() - 1, ip, n);
}

/// Marking an address as trusted makes it trusted, whatever the admission gate held.
pub proof fn law_marked_is_trusted(before: GateState, ip: IpAddress, after: GateState)
    requires
        gate_wf(before),
        gate_trust(before, ip, after),
    ensures
        after.trusted.contains(ip),
        gate_wf(after),
{
    let grown = before.trusted.push(ip);
    assert(grown[before.trusted.len() as int] == ip);
    if !before.trusted.contains(ip) && grown.len() > ADMISSION_MAX_TRUSTED_IPS {
        let kept = grown.drop_first();
        assert(kept[kept.len() - 1] == ip);
    }
}

/// The first in is the first out: trusting a new address makes at most the one
/// trusted longest leave.
pub proof fn law_only_oldest_trust_lapses(
    before: GateState,
    ip: IpAddress,
    after: GateState,
    other: IpAddress,
)
    requires
        gate_wf(before),
        gate_trust(before, ip, after),
        before.trusted.contains(other),
        before.trusted.len() < ADMISSION_MAX_TRUSTED_IPS || other != before.trusted[0],
    ensures
        after.trusted.contains(other),
{
    let i = choose|i: int| 0 <= i < before.trusted.len() && before.trusted[i] == other;
    let grown = before.trusted.push(ip);
    assert(grown[i] == other);
    if !before.trusted.contains(ip) {
        if grown.len() > ADMISSION_MAX_TRUSTED_IPS {
            assert(grown.drop_first()[i - 1] == other);
        } else {
            assert(after.trusted[i] == other);
        }
    }
}

/// Trusted addresses bypass the admission gate: they are admitted at any time, and the
/// budgets of the unknown ones are left alone.
pub proof fn law_trusted_bypass(
    before: GateState,
    ip: IpAddress,
    now: u64,
    admitted: bool,
    after: GateState,
)
    requires
        gate_admit(before, ip, now, admitted, after),
        before.trusted.contains(ip),
    ensures
        admitted,
        after == before,
{
}

/// A refused request never brings its address into the table, so the table
/// cannot be filled with requests that were not admitted.
pub proof fn law_refused_are_not_recorded(
    before: GateState,
    ip: IpAddress,
    now: u64,
    after: GateState,
    other: IpAddress,
)
    requires
        gate_admit(before, ip, now, false, after),
        after.per_ip.dom().contains(other),
    ensures
        before.per_ip.dom().contains(other),
{
}

/// A refused request costs its address nothing: the address holds what it held, plus what time has added.
pub proof fn law_refusal_costs_nothing(
    before: GateState,
    ip: IpAddress,
    now: u64,
    after: GateState,
)
    requires
        gate_wf(before),
        gate_admit(before, ip, now, false, after),
        after.per_ip.dom().contains(ip),
        !before.trusted.contains(ip),
    ensures
        after.per_ip[ip] == refilled(before.per_ip[ip], before.per_ip_budget, NANOS_PER_SEC, now),
        after.per_ip[ip].balance >= before.per_ip[ip].balance,
{
    assert(bucket_wf(before.per_ip[ip], before.per_ip_budget, NANOS_PER_SEC));
    lemma_refilled_wf(before.per_ip[ip], before.per_ip_budget, NANOS_PER_SEC, now);
    let elapsed = elapsed_since(before.per_ip[ip].last_refill, now);
    let budget = before.per_ip_budget;
    assert(elapsed * budget >= 0) by (nonlinear_arith)
        requires
            elapsed >= 0,
            budget >= 0,
    ;
}

/// Where unknown addresses have a budget, a first request of an address that was never
/// admitted passes whenever the shared bucket has a token.
pub proof fn law_newcomer_needs_only_the_ceiling(
    before: GateState,
    ip: IpAddress,
    now: u64,
    admitted: bool,
    after: GateState,
)
    requires
        gate_admit(before, ip, now, admitted, after),
        !before.trusted.contains(ip),
        !before.per_ip.dom().contains(ip),
        before.per_ip_budget > 0,
    ensures
        admitted == has_token(
            refilled(before.global, before.global_cap, NANOS_PER_SEC, now),
            before.global_cap,
            NANOS_PER_SEC,
        ),
{
}

/// Maximum number of concurrent connections across all addresses.
///
/// Once this ceiling is reached new connections are dropped. This keeps file
/// descriptors, tasks and handshake work bounded.
pub const MAX_CONCURRENT_CONNECTIONS: usize = 512;

/// Seconds within which a handshake has to be completed. The permit is held
/// meanwhile, so handshakes are capped too; the timeout keeps incomplete ones from
/// holding their permits for good.
pub const ACCEPT_TIMEOUT_SECS: u64 = 15;

/// `tokio::sync::Semaphore`.
#[verifier::external_type_specification]
#[verifier::external_body]
pub struct ExSemaphore(tokio::sync::Semaphore);

/// `tokio::sync::OwnedSemaphorePermit`.
#[verifier::external_type_specification]
#[verifier::external_body]
pub struct ExOwnedSemaphorePermit(tokio::sync::OwnedSemaphorePermit);

/// How many permits a semaphore was made with.
pub uninterp spec fn permits_made(semaphore: tokio::sync::Semaphore) -> nat;

/// Calls `tokio::sync::Semaphore::new`, which panics above `Semaphore::MAX_PERMITS`,
/// an eighth of the largest number. The semaphore is made with `max` permits.
#[verifier::external_body]
fn new_semaphore(max: usize) -> (semaphore: Arc<tokio::sync::Semaphore>)
    requires
        max <= usize::MAX / 8,
    ensures
        permits_made(*semaphore) == max,
{
    Arc::new(tokio::sync::Semaphore::new(max))
}

/// Calls `tokio::sync::Semaphore::try_acquire_owned` on a clone of the handle. Whether
/// a permit is left depends on what other connections hold at that moment; of a
/// semaphore without permits none is ever had.
#[verifier::external_body]
fn acquire_permit(semaphore: &Arc<tokio::sync::Semaphore>) -> (permit: Option<
    tokio::sync::OwnedSemaphorePermit,
>)
    ensures
        permits_made(**semaphore) == 0 ==> permit is None,
{
    Arc::clone(semaphore).try_acquire_owned().ok()
}

/// Caps concurrent connections.
///
/// Each accepted connection holds a permit for its lifetime; the permit is released
/// when it is dropped.
pub struct ConnectionLimiter {
    semaphore: Arc<tokio::sync::Semaphore>,
}

impl ConnectionLimiter {
    /// How many connections can be open at a time.
    pub closed spec fn max(&self) -> nat {
        permits_made(*self.semaphore)
    }

    /// Create a limiter that lets `max` connections be open at a time.
    pub fn new(max: usize) -> (limiter: ConnectionLimiter)
        requires
            max <= usize::MAX / 8,
        ensures
            limiter.max() == max,
    {
        ConnectionLimiter { semaphore: new_semaphore(max) }
    }

    /// Try to acquire a permit. Returns `None` when the server is at capacity; the
    /// connection should then be dropped at once.
    pub fn try_acquire(&self) -> (permit: Option<tokio::sync::OwnedSemaphorePermit>)
        ensures
            self.max() == 0 ==> permit is None,
    {
        acquire_permit(&self.semaphore)
    }
}

impl Clone for ConnectionLimiter {
    /// A second handle on the same permits.
    fn clone(&self) -> (copy: ConnectionLimiter)
        ensures
            copy.max() == self.max(),
    {
        ConnectionLimiter { semaphore: self.semaphore.clone() }
    }
}

/// How a handshake ended.
#[derive(Debug, Clone, Copy, PartialEq, Eq, Structural)]
pub enum Handshake {
    Completed,
    /// It failed by itself.
    Failed,
    /// It was not completed in time.
    TimedOut,
}

/// What becomes of a connection.
#[derive(Debug, Clone, Copy, PartialEq, Eq, Structural)]
pub enum Acceptance {
    /// It is served.
    Serve,
    /// It is dropped, with the error of the handshake.
    HandshakeError,
    /// It is dropped for this reason.
    Refuse(ConnectionRefusal),
}

/// Why the server drops a connection.
#[derive(Debug, Clone, Copy, PartialEq, Eq, Structural)]
pub enum ConnectionRefusal {
    AtCapacity,
    HandshakeTimedOut,
}

impl ConnectionRefusal {
    /// The error text.
    pub open spec fn spec_message(self) -> Seq<char> {
        match self {
            ConnectionRefusal::AtCapacity => "server at capacity"@,
            ConnectionRefusal::HandshakeTimedOut => "handshake timed out"@,
        }
    }

    /// The event that is counted.
    pub open spec fn spec_access_event(self) -> AccessEvent {
        match self {
            ConnectionRefusal::AtCapacity => AccessEvent::ConnectionRejected,
            ConnectionRefusal::HandshakeTimedOut => AccessEvent::AcceptTimeout,
        }
    }

    /// The error text.
    pub fn message(&self) -> (text: &'static str)
        ensures
            text@ == self.spec_message(),
    {
        match self {
            ConnectionRefusal::AtCapacity => "server at capacity",
            ConnectionRefusal::HandshakeTimedOut => "handshake timed out",
        }
    }

    /// The event that is counted.
    pub fn access_event(&self) -> (event: AccessEvent)
        ensures
            event == self.spec_access_event(),
    {
        match self {
            ConnectionRefusal::AtCapacity => AccessEvent::ConnectionRejected,
            ConnectionRefusal::HandshakeTimedOut => AccessEvent::AcceptTimeout,
        }
    }
}

/// What becomes of a connection, by whether it got a permit and, if it did, how its
/// handshake ended.
pub fn acceptance(permitted: bool, handshake: Option<Handshake>) -> (acceptance: Option<Acceptance>)
    ensures
        acceptance == if !permitted {
            Some(Acceptance::Refuse(ConnectionRefusal::AtCapacity))
        } else {
            match handshake {
                None => None,
                Some(Handshake::Completed) => Some(Acceptance::Serve),
                Some(Handshake::Failed) => Some(Acceptance::HandshakeError),
                Some(Handshake::TimedOut) => Some(
                    Acceptance::Refuse(ConnectionRefusal::HandshakeTimedOut),
                ),
            }
        },
{
    if !permitted {
        return Some(Acceptance::Refuse(ConnectionRefusal::AtCapacity));
    }
    match handshake {
        None => None,
        Some(Handshake::Completed) => Some(Acceptance::Serve),
        Some(Handshake::Failed) => Some(Acceptance::HandshakeError),
        Some(Handshake::TimedOut) => Some(
            Acceptance::Refuse(ConnectionRefusal::HandshakeTimedOut),
        ),
    }
}

/// A new limiter tracks nobody and has the rate that it was given.
pub proof fn law_new_limiters_track_nobody(max: u64, window: u64, limiter: RateLimiter)
    requires
        call_ensures(RateLimiter::new, (max, window), limiter),
    ensures
        limiter@.buckets.dom() == Set::<IpAddress>::empty(),
        limiter@.capacity == max,
        limiter@.window == window,
        limiter@.next_cleanup == window,
{
    assert(limiter@.buckets.dom() =~= Set::<IpAddress>::empty());
}

/// A whole request is worth one window's length, and an address earns its capacity for
/// each nanosecond since its last one. A request is allowed if and only if the address has
/// as much, counting what it earned since; one that is not tracked has a full bucket. No
/// capacity allows no request.
pub proof fn law_requests_are_paid_for(
    limiter: &mut RateLimiter,
    ip: IpAddress,
    now: u64,
    allowed: bool,
)
    requires
        old(limiter).wf(),
        call_ensures(RateLimiter::check_at, (limiter, ip, now), allowed),
    ensures
        old(limiter)@.capacity == 0 ==> !allowed,
        !old(limiter)@.buckets.dom().contains(ip) && old(limiter)@.capacity > 0 ==> allowed,
        old(limiter)@.buckets.dom().contains(ip) && old(limiter)@.capacity > 0 && now
            >= old(limiter)@.buckets[ip].last_refill ==> (allowed
            <==> old(limiter)@.buckets[ip].balance + (now
            - old(limiter)@.buckets[ip].last_refill) * old(limiter)@.capacity
            >= old(limiter)@.window),
        old(limiter)@.buckets.dom().contains(ip) && old(limiter)@.capacity > 0 && now
            < old(limiter)@.buckets[ip].last_refill ==> (allowed
            <==> old(limiter)@.buckets[ip].balance >= old(limiter)@.window),
        final(limiter)@.capacity == old(limiter)@.capacity,
        final(limiter)@.window == old(limiter)@.window,
{
    let before = old(limiter)@;
    let capacity = before.capacity;
    let window = before.window;
    lemma_full_fits(capacity, window);
    assert(capacity > 0 ==> capacity * window >= window) by (nonlinear_arith)
        requires
            capacity >= 0,
            window >= 0,
    ;
    if before.buckets.dom().contains(ip) {
        let bucket = before.buckets[ip];
        lemma_refilled_wf(bucket, capacity, window, now);
        let elapsed = elapsed_since(bucket.last_refill, now);
        assert(bucket.last_refill + 2 * window <= now && capacity > 0 ==> elapsed * capacity
            >= window) by (nonlinear_arith)
            requires
                bucket.last_refill + 2 * window <= now ==> elapsed >= window,
                capacity >= 0,
                elapsed >= 0,
                window >= 0,
        ;
        assert(elapsed == 0 ==> elapsed * capacity == 0);
    }
}

proof fn lemma_table_finite(table: IpTable)
    requires
        table.wf(),
    ensures
        table@.dom().finite(),
        table@.len() == table@.dom().len(),
{
    lemma_entries_len(table.entries@);
}

proof fn lemma_capped_entry(
    before: Map<IpAddress, Bucket>,
    after: Map<IpAddress, Bucket>,
    cap: nat,
    ip: IpAddress,
)
    requires
        capped(before, after, cap),
    ensures
        after.dom().contains(ip) ==> before.dom().contains(ip) && after[ip] == before[ip],
        after.len() <= cap,
{
    if before.len() > cap && after.dom().contains(ip) {
        assert(after.submap_of(before));
        assert(after.contains_key(ip));
    }
}

/// An allowed request costs one window's length and a refused one nothing; nobody owns more
/// than the capacity is worth. What others own is not touched.
pub proof fn law_requests_are_charged(
    limiter: &mut RateLimiter,
    ip: IpAddress,
    other: IpAddress,
    now: u64,
    allowed: bool,
)
    requires
        old(limiter).wf(),
        call_ensures(RateLimiter::check_at, (limiter, ip, now), allowed),
        ip != other,
    ensures
        final(limiter)@.buckets.dom().contains(other) ==> old(limiter)@.buckets.dom().contains(other)
            && final(limiter)@.buckets[other] == old(limiter)@.buckets[other],
        final(limiter)@.buckets.len() <= 10_000,
        old(limiter)@.buckets.len() < 10_000 ==> final(limiter)@.buckets.dom().contains(ip),
        old(limiter)@.buckets.len() < 10_000 && now < old(limiter)@.next_cleanup
            && old(limiter)@.buckets.dom().contains(other)
            ==> final(limiter)@.buckets.dom().contains(other),
        old(limiter)@.buckets.len() < 10_000 && old(limiter)@.buckets.dom().contains(other) && now
            < old(limiter)@.buckets[other].last_refill + 2 * old(limiter)@.window
            ==> final(limiter)@.buckets.dom().contains(other),
        now >= old(limiter)@.next_cleanup && final(limiter)@.buckets.dom().contains(other) ==> now
            < final(limiter)@.buckets[other].last_refill + 2 * old(limiter)@.window,
        final(limiter)@.buckets.dom().contains(ip) ==> final(limiter)@.buckets[ip].last_refill
            == now,
        final(limiter)@.buckets.dom().contains(ip) && !old(limiter)@.buckets.dom().contains(ip)
            && allowed ==> final(limiter)@.buckets[ip].balance == (old(limiter)@.capacity - 1)
            * old(limiter)@.window,
        final(limiter)@.buckets.dom().contains(ip) && old(limiter)@.buckets.dom().contains(ip) && now
            < old(limiter)@.next_cleanup && now == old(limiter)@.buckets[ip].last_refill
            ==> final(limiter)@.buckets[ip].balance == old(limiter)@.buckets[ip].balance - (
        if allowed {
            old(limiter)@.window as int
        } else {
            0
        }),
        final(limiter)@.buckets.dom().contains(ip) ==> final(limiter)@.buckets[ip].balance
            <= old(limiter)@.capacity * old(limiter)@.window,
        now < old(limiter)@.next_cleanup ==> final(limiter)@.next_cleanup
            == old(limiter)@.next_cleanup,
        now >= old(limiter)@.next_cleanup ==> final(limiter)@.next_cleanup == now
            + old(limiter)@.window,
{
    let before = old(limiter)@;
    let after = final(limiter)@;
    let capacity = before.capacity;
    let window = before.window;
    lemma_table_finite(old(limiter).buckets);
    lemma_table_finite(final(limiter).buckets);
    lemma_full_fits(capacity, window);
    assert(capacity * window - window == (capacity - 1) * window) by (nonlinear_arith);
    assert(capacity > 0 ==> capacity * window >= window) by (nonlinear_arith)
        requires
            capacity >= 0,
            window >= 0,
    ;
    let live = tracked_at(before.buckets, before.next_cleanup, window, now);
    assert(live.dom().subset_of(before.buckets.dom()));
    vstd::set_lib::lemma_len_subset(live.dom(), before.buckets.dom());
    let step = bucket_step(lookup(live, ip), capacity, window, now);
    let touched = live.insert(ip, step.0);
    assert(touched.dom() =~= live.dom().insert(ip));
    assert(touched.len() <= before.buckets.len() + 1);
    if live.dom().contains(ip) {
        let bucket = before.buckets[ip];
        lemma_refilled_wf(bucket, capacity, window, now);
        assert(elapsed_since(bucket.last_refill, now) == 0 ==> elapsed_since(
            bucket.last_refill,
            now,
        ) * capacity == 0);
    }
    lemma_step_wf(lookup(live, ip), capacity, window, now);
    lemma_capped_entry(touched, after.buckets, 10_000, ip);
    lemma_capped_entry(touched, after.buckets, 10_000, other);
    if before.buckets.dom().contains(other) && (now < before.next_cleanup || now
        < before.buckets[other].last_refill + 2 * window) {
        assert(touched.dom().contains(other));
    }
}

/// A new admission gate trusts nobody and knows nobody; all budget is there.
pub proof fn law_new_gates_trust_nobody(budget: u64, cap: u64, gate: AdmissionGate)
    requires
        call_ensures(AdmissionGate::new, (budget, cap), gate),
    ensures
        gate@.trusted.len() == 0,
        gate@.per_ip.dom() == Set::<IpAddress>::empty(),
        gate@.per_ip_budget == budget,
        gate@.global_cap == cap,
        gate@.global.balance == cap * 1_000_000_000,
        gate@.next_cleanup == 10_000_000_000,
{
    lemma_full_fits(cap, NANOS_PER_SEC);
    assert(gate@.per_ip.dom() =~= Set::<IpAddress>::empty());
}

/// Whether `bucket` holds a whole request at `now`, where `rate` requests are earned each
/// second and one is worth a billion parts.
pub open spec fn pays(bucket: Bucket, rate: u64, now: u64) -> bool {
    let earned: int = if now >= bucket.last_refill {
        (now - bucket.last_refill) * rate
    } else {
        0
    };
    rate > 0 && bucket.balance + earned >= 1_000_000_000
}

/// Trusted addresses pass. Another passes if and only if its own budget and the ceiling
/// that all unknown addresses share both pay for a request; one that was not seen before
/// has its whole budget.
pub proof fn law_unknown_addresses_need_both_budgets(
    gate: &mut AdmissionGate,
    ip: IpAddress,
    now: u64,
    admitted: bool,
)
    requires
        old(gate).wf(),
        call_ensures(AdmissionGate::try_admit_at, (gate, ip, now), admitted),
    ensures
        old(gate)@.trusted.contains(ip) ==> admitted && final(gate)@ == old(gate)@,
        !old(gate)@.trusted.contains(ip) && !old(gate)@.per_ip.dom().contains(ip) ==> (admitted
            <==> old(gate)@.per_ip_budget > 0 && pays(old(gate)@.global, old(gate)@.global_cap, now)),
        !old(gate)@.trusted.contains(ip) && old(gate)@.per_ip.dom().contains(ip) ==> (admitted
            <==> pays(old(gate)@.per_ip[ip], old(gate)@.per_ip_budget, now) && pays(
            old(gate)@.global,
            old(gate)@.global_cap,
            now,
        )),
        final(gate)@.trusted == old(gate)@.trusted,
        final(gate)@.per_ip_budget == old(gate)@.per_ip_budget,
        final(gate)@.global_cap == old(gate)@.global_cap,
{
    let before = old(gate)@;
    let budget = before.per_ip_budget;
    let cap = before.global_cap;
    lemma_full_fits(cap, NANOS_PER_SEC);
    lemma_full_fits(budget, NANOS_PER_SEC);
    lemma_refilled_wf(before.global, cap, NANOS_PER_SEC, now);
    if before.per_ip.dom().contains(ip) {
        let bucket = before.per_ip[ip];
        lemma_refilled_wf(bucket, budget, NANOS_PER_SEC, now);
        let elapsed = elapsed_since(bucket.last_refill, now);
        assert(elapsed >= 20_000_000_000 && budget > 0 ==> elapsed * budget >= 1_000_000_000)
            by (nonlinear_arith)
            requires
                budget >= 0,
        ;
    }
}

proof fn lemma_refilled_at_once(bucket: Bucket, capacity: u64, window: u64)
    requires
        bucket_wf(bucket, capacity, window),
    ensures
        refilled(bucket, capacity, window, bucket.last_refill) == bucket,
{
    lemma_refilled_wf(bucket, capacity, window, bucket.last_refill);
    let elapsed = elapsed_since(bucket.last_refill, bucket.last_refill);
    assert(elapsed == 0);
    assert(elapsed * capacity == 0) by (nonlinear_arith)
        requires
            elapsed == 0,
    ;
}

proof fn lemma_live_entries(gate: AdmissionGate, now: u64)
    requires
        gate.wf(),
    ensures
        ({
            let live = tracked_at(
                gate@.per_ip,
                gate@.next_cleanup,
                ADMISSION_CLEANUP_INTERVAL,
                now,
            );
            &&& live.dom().finite()
            &&& live.len() <= gate@.per_ip.len()
            &&& forall|ip: IpAddress| #[trigger]
                live.dom().contains(ip) ==> gate@.per_ip.dom().contains(ip) && live[ip]
                    == gate@.per_ip[ip]
            &&& forall|ip: IpAddress|
                now < gate@.next_cleanup && #[trigger] gate@.per_ip.dom().contains(ip)
                    ==> live.dom().contains(ip)
        }),
{
    lemma_table_finite(gate.per_ip);
    let live = tracked_at(gate@.per_ip, gate@.next_cleanup, ADMISSION_CLEANUP_INTERVAL, now);
    assert(live.dom().subset_of(gate@.per_ip.dom()));
    vstd::set_lib::lemma_len_subset(live.dom(), gate@.per_ip.dom());
}

/// An admitted request costs a second's worth of one request from the shared ceiling, and
/// a refused one costs nothing.
pub proof fn law_ceiling_pays_for_the_admitted(
    gate: &mut AdmissionGate,
    ip: IpAddress,
    now: u64,
    admitted: bool,
)
    requires
        old(gate).wf(),
        call_ensures(AdmissionGate::try_admit_at, (gate, ip, now), admitted),
        !old(gate)@.trusted.contains(ip),
        now == old(gate)@.global.last_refill,
    ensures
        final(gate)@.global.balance == old(gate)@.global.balance - (if admitted {
            1_000_000_000int
        } else {
            0int
        }),
        now < old(gate)@.next_cleanup ==> final(gate)@.next_cleanup == old(gate)@.next_cleanup,
        now >= old(gate)@.next_cleanup ==> final(gate)@.next_cleanup == now + 10_000_000_000,
{
    lemma_refilled_at_once(old(gate)@.global, old(gate)@.global_cap, NANOS_PER_SEC);
}

/// An admitted request costs its address a second's worth of one request, out of a whole
/// budget if it is the first; a refused one costs it nothing, and leaves no trace of an
/// address that was not known.
pub proof fn law_admission_is_charged(
    gate: &mut AdmissionGate,
    ip: IpAddress,
    now: u64,
    admitted: bool,
)
    requires
        old(gate).wf(),
        call_ensures(AdmissionGate::try_admit_at, (gate, ip, now), admitted),
        !old(gate)@.trusted.contains(ip),
    ensures
        final(gate)@.per_ip.dom().contains(ip) && !old(gate)@.per_ip.dom().contains(ip)
            ==> admitted && final(gate)@.per_ip[ip].balance == (old(gate)@.per_ip_budget - 1)
            * 1_000_000_000 && final(gate)@.per_ip[ip].last_refill == now,
        final(gate)@.per_ip.dom().contains(ip) && old(gate)@.per_ip.dom().contains(ip) && now
            < old(gate)@.next_cleanup && old(gate)@.per_ip[ip].last_refill == now
            ==> final(gate)@.per_ip[ip].balance == old(gate)@.per_ip[ip].balance - (if admitted {
            1_000_000_000int
        } else {
            0int
        }),
        old(gate)@.per_ip.len() < 10_000 && admitted ==> final(gate)@.per_ip.dom().contains(ip),
{
    let before = old(gate)@;
    let after = final(gate)@;
    let budget = before.per_ip_budget;
    let live = tracked_at(before.per_ip, before.next_cleanup, ADMISSION_CLEANUP_INTERVAL, now);
    lemma_live_entries(*old(gate), now);
    if budget > 0 {
        lemma_full_fits((budget - 1) as u64, NANOS_PER_SEC);
    }
    if live.dom().contains(ip) && before.per_ip[ip].last_refill == now {
        lemma_refilled_at_once(before.per_ip[ip], budget, NANOS_PER_SEC);
    }
    if admitted {
        let charged = if live.dom().contains(ip) {
            minus_token(refilled(live[ip], budget, NANOS_PER_SEC, now), NANOS_PER_SEC)
        } else {
            first_bucket(budget, now)
        };
        let touched = live.insert(ip, charged);
        assert(touched.dom() =~= live.dom().insert(ip));
        assert(touched.len() <= before.per_ip.len() + 1);
        lemma_capped_entry(touched, after.per_ip, 10_000, ip);
        assert(after.per_ip.dom().contains(ip) ==> after.per_ip[ip] == charged);
    }
}

/// A request of one address does not touch what another owns.
pub proof fn law_admission_leaves_others_alone(
    gate: &mut AdmissionGate,
    ip: IpAddress,
    other: IpAddress,
    now: u64,
    admitted: bool,
)
    requires
        old(gate).wf(),
        call_ensures(AdmissionGate::try_admit_at, (gate, ip, now), admitted),
        ip != other,
    ensures
        final(gate)@.per_ip.dom().contains(other) ==> old(gate)@.per_ip.dom().contains(other)
            && final(gate)@.per_ip[other] == old(gate)@.per_ip[other],
        old(gate)@.per_ip.len() < 10_000 && now < old(gate)@.next_cleanup
            && old(gate)@.per_ip.dom().contains(other) ==> final(gate)@.per_ip.dom().contains(other),
{
    let before = old(gate)@;
    let after = final(gate)@;
    let budget = before.per_ip_budget;
    let live = tracked_at(before.per_ip, before.next_cleanup, ADMISSION_CLEANUP_INTERVAL, now);
    lemma_live_entries(*old(gate), now);
    if admitted && !before.trusted.contains(ip) {
        let charged = if live.dom().contains(ip) {
            minus_token(refilled(live[ip], budget, NANOS_PER_SEC, now), NANOS_PER_SEC)
        } else {
            first_bucket(budget, now)
        };
        let touched = live.insert(ip, charged);
        assert(touched.dom() =~= live.dom().insert(ip));
        assert(touched.len() <= before.per_ip.len() + 1);
        lemma_capped_entry(touched, after.per_ip, 10_000, other);
        assert(live.dom().contains(other) ==> touched.dom().contains(other));
    }
}

/// A marked address is trusted from then on, whoever else was trusted stays so while fewer
/// than ten thousand are, and beyond that the one trusted longest makes room.
pub proof fn law_marking_adds_to_the_trusted(
    gate: &mut AdmissionGate,
    ip: IpAddress,
    other: IpAddress,
)
    requires
        old(gate).wf(),
        call_ensures(AdmissionGate::mark_trusted, (gate, ip), ()),
        ip != other,
    ensures
        final(gate)@.trusted.contains(ip),
        final(gate)@.trusted.len() <= 10_000,
        final(gate)@.trusted.contains(other) ==> old(gate)@.trusted.contains(other),
        old(gate)@.trusted.contains(other) && (old(gate)@.trusted.len() < 10_000 || other
            != old(gate)@.trusted[0] || old(gate)@.trusted.contains(ip))
            ==> final(gate)@.trusted.contains(other),
        old(gate)@.trusted.len() < 10_000 && !old(gate)@.trusted.contains(ip)
            ==> final(gate)@.trusted.last() == ip && final(gate)@.trusted.drop_last()
            == old(gate)@.trusted,
        final(gate)@.per_ip == old(gate)@.per_ip,
        final(gate)@.global == old(gate)@.global,
        final(gate)@.next_cleanup == old(gate)@.next_cleanup,
        final(gate)@.per_ip_budget == old(gate)@.per_ip_budget,
        final(gate)@.global_cap == old(gate)@.global_cap,
{
    let before = old(gate)@.trusted;
    let after = final(gate)@.trusted;
    if !before.contains(ip) {
        let pushed = before.push(ip);
        assert(pushed[before.len() as int] == ip);
        if before.len() + 1 > ADMISSION_MAX_TRUSTED_IPS {
            assert(after =~= pushed.drop_first());
            assert(after[before.len() - 1] == ip);
            if before.contains(other) && other != before[0] {
                let i = choose|i: int| 0 <= i < before.len() && before[i] == other;
                assert(after[i - 1] == other);
            }
            if after.contains(other) {
                let i = choose|i: int| 0 <= i < after.len() && after[i] == other;
                assert(before[i + 1] == other);
            }
        } else {
            if before.contains(other) {
                let i = choose|i: int| 0 <= i < before.len() && before[i] == other;
                assert(after[i] == other);
            }
            if after.contains(other) {
                let i = choose|i: int| 0 <= i < after.len() && after[i] == other;
                assert(before[i] == other);
            }
            assert(pushed.drop_last() =~= before);
        }
    }
}

/// A connection is served if and only if it got a permit and completed its handshake.
/// Without a permit it is refused before the handshake; a handshake that takes too long is
/// refused, and one that fails ends the connection.
pub proof fn law_connections_need_permit_and_handshake(
    permitted: bool,
    handshake: Option<Handshake>,
    result: Option<Acceptance>,
)
    requires
        call_ensures(acceptance, (permitted, handshake), result),
    ensures
        result == Some(Acceptance::Serve) <==> permitted && handshake == Some(Handshake::Completed),
        result == Some(Acceptance::HandshakeError) <==> permitted && handshake == Some(
            Handshake::Failed,
        ),
        result == Some(Acceptance::Refuse(ConnectionRefusal::AtCapacity)) <==> !permitted,
        result == Some(Acceptance::Refuse(ConnectionRefusal::HandshakeTimedOut)) <==> permitted
            && handshake == Some(Handshake::TimedOut),
        result is None <==> permitted && handshake is None,
{
}

/// A connection beyond the capacity counts as rejected and one that was too slow as timed
/// out.
pub proof fn law_refused_connections_are_counted(refusal: ConnectionRefusal, event: AccessEvent)
    requires
        call_ensures(ConnectionRefusal::access_event, (&refusal,), event),
    ensures
        refusal is AtCapacity ==> event is ConnectionRejected,
        refusal is HandshakeTimedOut ==> event is AcceptTimeout,
{
}

/// As many connections can be open as the limiter was made for, by each of its handles, and
/// none where that is none.
pub proof fn law_connections_are_capped(
    max: usize,
    limiter: ConnectionLimiter,
    permit: Option<tokio::sync::OwnedSemaphorePermit>,
)
    requires
        call_ensures(ConnectionLimiter::new, (max,), limiter),
        call_ensures(ConnectionLimiter::try_acquire, (&limiter,), permit),
    ensures
        limiter.max() == max,
        max == 0 ==> permit is None,
{
}

/// A dropped connection is told why.
pub proof fn law_refused_connections_are_told_why(refusal: ConnectionRefusal, text: &'static str)
    requires
        call_ensures(ConnectionRefusal::message, (&refusal,), text),
    ensures
        refusal is AtCapacity ==> text@ == "server at capacity"@,
        refusal is HandshakeTimedOut ==> text@ == "handshake timed out"@,
{
}

/// The server holds 512 connections at a time, and gives each a quarter of a minute to
/// complete its handshake.
pub proof fn law_connections_have_their_limits()
    ensures
        MAX_CONCURRENT_CONNECTIONS == 512,
        ACCEPT_TIMEOUT_SECS * 4 == 60,
        MAX_CONCURRENT_CONNECTIONS <= usize::MAX / 8,
{
}

/// Whatever the time: no capacity allows no request, an address that is not tracked gets
/// its first one, and the rate stays as it is.
pub proof fn law_first_requests_are_allowed_at_any_time(
    limiter: &mut RateLimiter,
    ip: IpAddress,
    allowed: bool,
)
    requires
        old(limiter).wf(),
        call_ensures(RateLimiter::check, (limiter, ip), allowed),
    ensures
        old(limiter)@.capacity == 0 ==> !allowed,
        !old(limiter)@.buckets.dom().contains(ip) && old(limiter)@.capacity > 0 ==> allowed,
        final(limiter)@.capacity == old(limiter)@.capacity,
        final(limiter)@.window == old(limiter)@.window,
{
    let before = old(limiter)@;
    let now = choose|now: u64| #[trigger] rate_check(before, ip, now, allowed, final(limiter)@);
    lemma_full_fits(before.capacity, before.window);
    assert(before.capacity > 0 ==> before.capacity * before.window >= before.window)
        by (nonlinear_arith)
        requires
            before.capacity >= 0,
            before.window >= 0,
    ;
    let live = tracked_at(before.buckets, before.next_cleanup, before.window, now);
    assert(live.dom().contains(ip) ==> before.buckets.dom().contains(ip));
}

/// Whatever the time: trusted addresses pass without a trace, and without a budget or a
/// ceiling no other does.
pub proof fn law_trusted_pass_at_any_time(gate: &mut AdmissionGate, ip: IpAddress, admitted: bool)
    requires
        old(gate).wf(),
        call_ensures(AdmissionGate::try_admit, (gate, ip), admitted),
    ensures
        old(gate)@.trusted.contains(ip) ==> admitted && final(gate)@ == old(gate)@,
        !old(gate)@.trusted.contains(ip) && (old(gate)@.per_ip_budget == 0 || old(gate)@.global_cap
            == 0) ==> !admitted,
        final(gate)@.trusted == old(gate)@.trusted,
{
    let now = choose|now: u64|
        #[trigger] gate_admit(old(gate)@, ip, now, admitted, final(gate)@);
    assert(gate_admit(old(gate)@, ip, now, admitted, final(gate)@));
}

} // verus!
