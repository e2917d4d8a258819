//! How often a host may connect.
use crate::address::IpAddr;
use crate::table;
use crate::table::Table;
use vstd::prelude::*;

verus! {

/// Most hosts that are tracked at a time.
pub const MAX_TRACKED_IPS: usize = 100_000;

/// Stale entries are dropped once in so many attempts.
pub const CLEANUP_EVERY_N_INSERTIONS: usize = 1_000;

/// Limits of the server.
#[derive(Debug, Clone, PartialEq, Eq, Structural)]
pub struct N2NRateLimitConfig {
    /// Most connections of a host within the window.
    pub max_connections_per_ip: usize,
    /// Length of the window in seconds.
    pub rate_limit_window_secs: u64,
    /// Most blocks of a range that a peer may ask for.
    pub max_blockfetch_range: u64,
}

impl Default for N2NRateLimitConfig {
    fn default() -> (r: N2NRateLimitConfig)
        ensures
            r == (N2NRateLimitConfig {
                max_connections_per_ip: 10,
                rate_limit_window_secs: 60,
                max_blockfetch_range: 2000,
            }),
    {
        N2NRateLimitConfig {
            max_connections_per_ip: 10,
            rate_limit_window_secs: 60,
            max_blockfetch_range: 2000,
        }
    }
}

/// Remembers when hosts connected. Times are readings of a clock that is never set back;
/// the window is in the same unit.
#[derive(Debug)]
pub struct ConnectionRateLimiter {
    /// When each host connected.
    pub attempts: Table<IpAddr, Vec<u64>>,
    /// Most connections of a host within the window.
    pub max_per_ip: usize,
    pub window: u64,
    /// Number of attempts so far.
    pub insertion_count: usize,
    /// Most hosts that are tracked at a time.
    pub max_tracked_ips: usize,
}

/// Whether a connection at time `t` lies within the window that ends now.
pub open spec fn recent(t: u64, now: u64, window: u64) -> bool {
    if t <= now {
        now - t < window
    } else {
        0 < window
    }
}

/// The times that lie within the window.
pub open spec fn retained(times: Seq<u64>, now: u64, window: u64) -> Seq<u64>
    decreases times.len(),
{
    if times.len() == 0 {
        times
    } else {
        let before = retained(times.drop_last(), now, window);
        if recent(times.last(), now, window) {
            before.push(times.last())
        } else {
            before
        }
    }
}

/// The hosts that connected within the window, with the times.
pub open spec fn cleaned(m: Map<IpAddr, Seq<u64>>, now: u64, window: u64) -> Map<
    IpAddr,
    Seq<u64>,
> {
    Map::new(
        |ip: IpAddr| m.dom().contains(ip) && retained(m[ip], now, window).len() > 0,
        |ip: IpAddr| retained(m[ip], now, window),
    )
}

/// When each host connected, by contents.
pub open spec fn attempts_of(m: Map<IpAddr, Vec<u64>>) -> Map<IpAddr, Seq<u64>> {
    m.map_values(|v: Vec<u64>| v@)
}

/// The attempts that are known before another one is looked at: the stale ones are
/// dropped if it is time for that.
pub open spec fn known_attempts(l: ConnectionRateLimiter, now: u64) -> Map<IpAddr, Seq<u64>> {
    if l.insertion_count > 0 && l.insertion_count % CLEANUP_EVERY_N_INSERTIONS == 0 {
        cleaned(attempts_of(l.attempts@), now, l.window)
    } else {
        attempts_of(l.attempts@)
    }
}

/// The times within the window at which a host connected.
pub open spec fn recent_times(l: ConnectionRateLimiter, ip: IpAddr, now: u64) -> Seq<u64> {
    let m = known_attempts(l, now);
    if m.dom().contains(ip) {
        retained(m[ip], now, l.window)
    } else {
        Seq::empty()
    }
}

/// Whether there is no room to track the host.
pub open spec fn untracked(l: ConnectionRateLimiter, ip: IpAddr, now: u64) -> bool {
    let m = known_attempts(l, now);
    m.dom().len() >= l.max_tracked_ips && !m.dom().contains(ip)
}

/// Whether a host may connect.
pub open spec fn allowed(l: ConnectionRateLimiter, ip: IpAddr, now: u64) -> bool {
    !untracked(l, ip, now) && recent_times(l, ip, now).len() < l.max_per_ip
}

/// The attempts that are known after a host tried to connect.
pub open spec fn attempts_after(l: ConnectionRateLimiter, ip: IpAddr, now: u64) -> Map<
    IpAddr,
    Seq<u64>,
> {
    let m = known_attempts(l, now);
    let times = recent_times(l, ip, now);
    if untracked(l, ip, now) {
        m
    } else if allowed(l, ip, now) {
        m.insert(ip, times.push(now))
    } else {
        m.insert(ip, times)
    }
}

/// What becomes of a host that wants to connect.
#[derive(Debug, Clone, Copy, PartialEq, Eq, Structural)]
pub enum Admission {
    /// It is served.
    Admitted,
    /// It is turned away because it connects too often.
    TooOften,
    /// It is turned away because there are enough connections.
    Full,
}

/// What becomes of a host that wants to connect while `active` connections are open. That
/// it connects too often is looked at first.
pub open spec fn admission(
    l: ConnectionRateLimiter,
    ip: IpAddr,
    now: u64,
    active: usize,
    max_connections: usize,
) -> Admission {
    if !allowed(l, ip, now) {
        Admission::TooOften
    } else if active >= max_connections {
        Admission::Full
    } else {
        Admission::Admitted
    }
}

/// Drops the times that do not lie within the window.
fn retain(times: &Vec<u64>, now: u64, window: u64) -> (r: Vec<u64>)
    ensures
        r@ == retained(times@, now, window),
{
    let mut r: Vec<u64> = Vec::new();
    let mut i: usize = 0;
    while i < times.len()
        invariant
            i <= times@.len(),
            r@ == retained(times@.take(i as int), now, window),
        decreases times@.len() - i,
    {
        let t: u64 = times[i];
        assert(times@.take(i + 1).drop_last() =~= times@.take(i as int));
        let keep: bool = if t <= now {
            now - t < window
        } else {
            0 < window
        };
        if keep {
            r.push(t);
        }
        i += 1;
    }
    assert(times@.take(i as int) =~= times@);
    r
}

proof fn lemma_attempts_insert(m: Map<IpAddr, Vec<u64>>, k: IpAddr, v: Vec<u64>)
    ensures
        attempts_of(m.insert(k, v)) == attempts_of(m).insert(k, v@),
{
    assert(attempts_of(m.insert(k, v)) =~= attempts_of(m).insert(k, v@));
}

impl ConnectionRateLimiter {
    /// Whether the table of hosts holds none twice.
    pub open spec fn wf(&self) -> bool {
        self.attempts.wf()
    }

    /// A limiter that has seen no connection.
    pub fn new(max_per_ip: usize, window: u64) -> (r: ConnectionRateLimiter)
        ensures
            r.wf(),
            attempts_of(r.attempts@) == Map::<IpAddr, Seq<u64>>::empty(),
            r.max_per_ip == max_per_ip,
            r.window == window,
            r.insertion_count == 0,
            r.max_tracked_ips == MAX_TRACKED_IPS,
    {
        let attempts: Table<IpAddr, Vec<u64>> = Table::new();
        assert(attempts_of(attempts@) =~= Map::empty());
        ConnectionRateLimiter {
            attempts,
            max_per_ip,
            window,
            insertion_count: 0,
            max_tracked_ips: MAX_TRACKED_IPS,
        }
    }

    /// Drops the stale times, and the hosts of which none is left.
    pub fn cleanup(&mut self, now: u64)
        requires
            old(self).wf(),
        ensures
            final(self).wf(),
            attempts_of(final(self).attempts@) == cleaned(
                attempts_of(old(self).attempts@),
                now,
                old(self).window,
            ),
            final(self).max_per_ip == old(self).max_per_ip,
            final(self).window == old(self).window,
            final(self).insertion_count == old(self).insertion_count,
            final(self).max_tracked_ips == old(self).max_tracked_ips,
    {
        let window: u64 = self.window;
        let ghost all = self.attempts.entries@;
        let mut kept: Table<IpAddr, Vec<u64>> = Table::new();
        let mut i: usize = 0;
        proof {
            table::lemma_entries(all);
        }
        while i < self.attempts.entries.len()
            invariant
                self.attempts.entries@ == all,
                self.attempts.wf(),
                i <= all.len(),
                kept.wf(),
                forall|k: IpAddr|
                    #![trigger kept@.dom().contains(k)]
                    kept@.dom().contains(k) <==> exists|j: int|
                        0 <= j < i && (#[trigger] all[j]).0 == k && retained(
                            all[j].1@,
                            now,
                            window,
                        ).len() > 0,
                forall|j: int|
                    0 <= j < i && retained((#[trigger] all[j]).1@, now, window).len() > 0
                        ==> kept@[all[j].0]@ == retained(all[j].1@, now, window),
            decreases all.len() - i,
        {
            let times = retain(&self.attempts.entries[i].1, now, window);
            let ghost before = kept@;
            if times.len() > 0 {
                let k = self.attempts.entries[i].0;
                kept.insert(k, times);
                proof {
                    assert forall|j: int|
                        0 <= j < i + 1 && retained((#[trigger] all[j]).1@, now, window).len()
                            > 0 implies kept@[all[j].0]@ == retained(all[j].1@, now, window) by {
                        if j < i {
                            assert(table::keys(all)[j] == all[j].0);
                            assert(table::keys(all)[i as int] == all[i as int].0);
                        }
                    }
                    assert forall|x: IpAddr|
                        #![trigger kept@.dom().contains(x)]
                        kept@.dom().contains(x) <==> exists|j: int|
                            0 <= j < i + 1 && (#[trigger] all[j]).0 == x && retained(
                                all[j].1@,
                                now,
                                window,
                            ).len() > 0 by {
                        if x == k {
                            assert(all[i as int].0 == x);
                        } else if before.dom().contains(x) {
                            let j = choose|j: int|
                                0 <= j < i && (#[trigger] all[j]).0 == x && retained(
                                    all[j].1@,
                                    now,
                                    window,
                                ).len() > 0;
                            assert(all[j].0 == x);
                        }
                    }
                }
            } else {
                proof {
                    assert forall|x: IpAddr|
                        #![trigger kept@.dom().contains(x)]
                        kept@.dom().contains(x) <==> exists|j: int|
                            0 <= j < i + 1 && (#[trigger] all[j]).0 == x && retained(
                                all[j].1@,
                                now,
                                window,
                            ).len() > 0 by {
                        if before.dom().contains(x) {
                            let j = choose|j: int|
                                0 <= j < i && (#[trigger] all[j]).0 == x && retained(
                                    all[j].1@,
                                    now,
                                    window,
                                ).len() > 0;
                            assert(all[j].0 == x);
                        }
                    }
                }
            }
            i += 1;
        }
        proof {
            let m = attempts_of(self.attempts@);
            let c = cleaned(m, now, window);
            assert forall|x: IpAddr| attempts_of(kept@).dom().contains(x) <==> c.dom().contains(
                x,
            ) by {
                if kept@.dom().contains(x) {
                    let j = choose|j: int|
                        0 <= j < i && (#[trigger] all[j]).0 == x && retained(
                            all[j].1@,
                            now,
                            window,
                        ).len() > 0;
                    assert(self.attempts@.dom().contains(all[j].0));
                }
                if c.dom().contains(x) {
                    let j = choose|j: int| 0 <= j < all.len() && (#[trigger] all[j]).0 == x;
                    assert(self.attempts@[all[j].0] == all[j].1);
                    assert(kept@.dom().contains(x));
                }
            }
            assert forall|x: IpAddr| c.dom().contains(x) implies attempts_of(kept@)[x] == c[x] by {
                let j = choose|j: int| 0 <= j < all.len() && (#[trigger] all[j]).0 == x;
                assert(self.attempts@[all[j].0] == all[j].1);
                assert(kept@.dom().contains(x));
            }
            assert(attempts_of(kept@) =~= c);
        }
        self.attempts = kept;
    }

    /// Whether a host may connect now. An attempt that is allowed is remembered.
    pub fn check_and_record(&mut self, ip: IpAddr, now: u64) -> (r: bool)
        requires
            old(self).wf(),
        ensures
            final(self).wf(),
            r == allowed(*old(self), ip, now),
            attempts_of(final(self).attempts@) == attempts_after(*old(self), ip, now),
            final(self).insertion_count == (if old(self).insertion_count == usize::MAX {
                0int
            } else {
                old(self).insertion_count + 1
            }),
            final(self).max_per_ip == old(self).max_per_ip,
            final(self).window == old(self).window,
            final(self).max_tracked_ips == old(self).max_tracked_ips,
    {
        let count: usize = self.insertion_count;
        self.insertion_count = if count == usize::MAX {
            0
        } else {
            count + 1
        };
        if count > 0 && count % CLEANUP_EVERY_N_INSERTIONS == 0 {
            self.cleanup(now);
        }
        let ghost m = known_attempts(*old(self), now);
        assert(attempts_of(self.attempts@) == m);
        assert(m.dom() =~= self.attempts@.dom());
        let found = self.attempts.find(&ip);
        if self.attempts.len() >= self.max_tracked_ips && found.is_none() {
            return false;
        }
        let mut times: Vec<u64> = match found {
            Some(i) => retain(&self.attempts.entries[i].1, now, self.window),
            None => Vec::new(),
        };
        assert(times@ =~= recent_times(*old(self), ip, now));
        let ok: bool = times.len() < self.max_per_ip;
        if ok {
            times.push(now);
        }
        proof {
            lemma_attempts_insert(self.attempts@, ip, times);
        }
        self.attempts.insert(ip, times);
        ok
    }

    /// Decides on a host that wants to connect while `active` connections are open. The
    /// attempt counts even if there are enough connections.
    pub fn decide(
        &mut self,
        ip: IpAddr,
        now: u64,
        active: usize,
        max_connections: usize,
    ) -> (r: Admission)
        requires
            old(self).wf(),
        ensures
            final(self).wf(),
            r == admission(*old(self), ip, now, active, max_connections),
            attempts_of(final(self).attempts@) == attempts_after(*old(self), ip, now),
            final(self).insertion_count == (if old(self).insertion_count == usize::MAX {
                0int
            } else {
                old(self).insertion_count + 1
            }),
            final(self).max_per_ip == old(self).max_per_ip,
            final(self).window == old(self).window,
            final(self).max_tracked_ips == old(self).max_tracked_ips,
    {
        if !self.check_and_record(ip, now) {
            Admission::TooOften
        } else if active >= max_connections {
            Admission::Full
        } else {
            Admission::Admitted
        }
    }

    /// Number of hosts that are tracked.
    pub fn tracked_ip_count(&self) -> (r: usize)
        requires
            self.wf(),
        ensures
            r == attempts_of(self.attempts@).dom().len(),
    {
        assert(attempts_of(self.attempts@).dom() =~= self.attempts@.dom());
        self.attempts.len()
    }
}

/// Whether every known time of a host may stay within the limit.
pub open spec fn within_limit(l: ConnectionRateLimiter) -> bool {
    forall|ip: IpAddr|
        #![trigger attempts_of(l.attempts@)[ip]]
        attempts_of(l.attempts@).dom().contains(ip) ==> attempts_of(l.attempts@)[ip].len()
            <= l.max_per_ip
}

proof fn lemma_retained_len(times: Seq<u64>, now: u64, window: u64)
    ensures
        retained(times, now, window).len() <= times.len(),
    decreases times.len(),
{
    if times.len() > 0 {
        lemma_retained_len(times.drop_last(), now, window);
    }
}

/// No host is remembered with more connections than the limit: if that holds before an
/// attempt, it holds after it.
pub proof fn lemma_limit_is_kept(
    l: ConnectionRateLimiter,
    l2: ConnectionRateLimiter,
    ip: IpAddr,
    now: u64,
)
    requires
        within_limit(l),
        attempts_of(l2.attempts@) == attempts_after(l, ip, now),
        l2.max_per_ip == l.max_per_ip,
    ensures
        within_limit(l2),
{
    let m0 = attempts_of(l.attempts@);
    let m = known_attempts(l, now);
    assert forall|x: IpAddr| #![trigger m[x]] m.dom().contains(x) implies m[x].len()
        <= l.max_per_ip by {
        lemma_retained_len(m0[x], now, l.window);
    }
    if m.dom().contains(ip) {
        lemma_retained_len(m[ip], now, l.window);
    }
    assert forall|x: IpAddr|
        #![trigger attempts_of(l2.attempts@)[x]]
        attempts_of(l2.attempts@).dom().contains(x) implies attempts_of(l2.attempts@)[x].len()
        <= l2.max_per_ip by {
        assert(m.dom().contains(x) ==> m[x].len() <= l.max_per_ip);
    }
}

/// The number of tracked hosts never exceeds the cap: if it does not before an attempt,
/// it does not after it.
pub proof fn lemma_tracked_hosts_are_capped(
    l: ConnectionRateLimiter,
    l2: ConnectionRateLimiter,
    ip: IpAddr,
    now: u64,
)
    requires
        l.wf(),
        attempts_of(l.attempts@).dom().len() <= l.max_tracked_ips,
        attempts_of(l2.attempts@) == attempts_after(l, ip, now),
        l2.max_tracked_ips == l.max_tracked_ips,
    ensures
        attempts_of(l2.attempts@).dom().len() <= l2.max_tracked_ips,
{
    table::lemma_entries(l.attempts.entries@);
    let m0 = attempts_of(l.attempts@);
    let m = known_attempts(l, now);
    assert(m0.dom() =~= l.attempts@.dom());
    assert(m.dom().subset_of(m0.dom()));
    vstd::set_lib::lemma_len_subset(m.dom(), m0.dom());
    let after = attempts_after(l, ip, now);
    if !untracked(l, ip, now) {
        assert(after.dom() =~= m.dom().insert(ip));
    }
}

/// The connections that count are those within the window, in their order: a time counts
/// exactly where the window has not passed since.
pub proof fn lemma_what_counts(times: Seq<u64>, now: u64, window: u64, t: u64)
    requires
        window > 0,
    ensures
        retained(times, now, window).contains(t) <==> times.contains(t) && now < t + window,
        retained(times, now, window).len() <= times.len(),
        (forall|i: int| 0 <= i < times.len() ==> now < (#[trigger] times[i]) + window) ==> retained(
            times,
            now,
            window,
        ) == times,
    decreases times.len(),
{
    if times.len() > 0 {
        let init = times.drop_last();
        let before = retained(init, now, window);
        let all = retained(times, now, window);
        lemma_what_counts(init, now, window, t);
        assert(times[times.len() - 1] == times.last());
        assert(times.contains(t) <==> init.contains(t) || times.last() == t) by {
            if init.contains(t) {
                let j = choose|j: int| 0 <= j < init.len() && init[j] == t;
                assert(times[j] == t);
            }
            if times.contains(t) {
                let j = choose|j: int| 0 <= j < times.len() && times[j] == t;
                if j < init.len() {
                    assert(init[j] == t);
                }
            }
        }
        assert(all.contains(t) <==> before.contains(t) || (recent(times.last(), now, window)
            && times.last() == t)) by {
            if before.contains(t) {
                let j = choose|j: int| 0 <= j < before.len() && before[j] == t;
                assert(all[j] == t);
            }
            if recent(times.last(), now, window) {
                assert(all[before.len() as int] == times.last());
            }
            if all.contains(t) {
                let j = choose|j: int| 0 <= j < all.len() && all[j] == t;
                if j < before.len() {
                    assert(before[j] == t);
                }
            }
        }
        if forall|i: int| 0 <= i < times.len() ==> now < (#[trigger] times[i]) + window {
            assert forall|i: int| 0 <= i < init.len() implies now < (#[trigger] init[i])
                + window by {
                assert(init[i] == times[i]);
            }
            assert(all =~= times);
        }
    }
}

/// A host that is tracked, or for which there is room, may connect exactly while fewer of its
/// connections count than the limit; a connection that is allowed is remembered as the latest
/// one. Nothing is forgotten of other hosts but once in a thousand attempts.
pub proof fn lemma_who_may_connect(l: ConnectionRateLimiter, ip: IpAddr, now: u64, other: IpAddr)
    requires
        l.insertion_count % 1_000 != 0,
        other != ip,
    ensures
        ({
            let m = l.attempts@;
            let times = if m.dom().contains(ip) {
                retained(m[ip]@, now, l.window)
            } else {
                Seq::empty()
            };
            let after = attempts_after(l, ip, now);
            let room = m.dom().contains(ip) || m.dom().len() < l.max_tracked_ips;
            &&& allowed(l, ip, now) <==> room && times.len() < l.max_per_ip
            &&& allowed(l, ip, now) ==> after.dom().contains(ip) && after[ip] == times.push(now)
            &&& !allowed(l, ip, now) && room ==> after[ip] == times
            &&& after.dom().contains(other) == m.dom().contains(other)
            &&& m.dom().contains(other) ==> after[other] == m[other]@
        }),
{
    assert(CLEANUP_EVERY_N_INSERTIONS == 1_000);
    assert(attempts_of(l.attempts@).dom() =~= l.attempts@.dom());
}

/// A host that connects too often is turned away as such, whether or not there is room for
/// connections; any other is admitted exactly while fewer connections are open than may be.
pub proof fn lemma_admission(
    l: ConnectionRateLimiter,
    ip: IpAddr,
    now: u64,
    active: usize,
    max_connections: usize,
)
    ensures
        !allowed(l, ip, now) <==> admission(l, ip, now, active, max_connections)
            == Admission::TooOften,
        allowed(l, ip, now) && active < max_connections <==> admission(
            l,
            ip,
            now,
            active,
            max_connections,
        ) == Admission::Admitted,
{
}

/// Once in a thousand attempts, what no longer counts is forgotten first: of every host only
/// the times within the window stay, and hosts without any are dropped.
pub proof fn lemma_what_is_forgotten(l: ConnectionRateLimiter, now: u64, ip: IpAddr)
    requires
        l.insertion_count > 0,
        l.insertion_count % 1_000 == 0,
    ensures
        ({
            let m = l.attempts@;
            let kept = known_attempts(l, now);
            &&& kept.dom().contains(ip) <==> m.dom().contains(ip) && retained(
                m[ip]@,
                now,
                l.window,
            ).len() > 0
            &&& kept.dom().contains(ip) ==> kept[ip] == retained(m[ip]@, now, l.window)
        }),
{
    assert(CLEANUP_EVERY_N_INSERTIONS == 1_000);
}

} // verus!
