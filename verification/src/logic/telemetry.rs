//! Machine-wide load, as exact counter arithmetic.
//!
//! The idle, kernel and user counters are cumulative since boot, so a busy
//! share needs two readings. Kernel time already includes idle time: the
//! elapsed processor time is `kernel + user`, and the busy part of it is that
//! minus idle. Shares are returned as the exact pair (busy, elapsed); the
//! percentage is their ratio.
use vstd::prelude::*;

verus! {

/// One reading of the idle/kernel/user counters, in 100 ns units.
#[derive(Debug, Clone, Copy, PartialEq, Eq, Structural, Default)]
pub struct CpuTimes {
    pub idle_100ns: u64,
    /// Includes idle.
    pub kernel_100ns: u64,
    pub user_100ns: u64,
}

pub open spec fn saturating_add(a: u64, b: u64) -> u64 {
    if a + b > u64::MAX {
        u64::MAX
    } else {
        (a + b) as u64
    }
}

pub open spec fn saturating_sub(a: u64, b: u64) -> u64 {
    if a >= b {
        (a - b) as u64
    } else {
        0
    }
}

impl CpuTimes {
    pub open spec fn spec_total(&self) -> u64 {
        saturating_add(self.kernel_100ns, self.user_100ns)
    }

    /// Elapsed processor time: kernel (idle included) plus user.
    pub fn total(&self) -> (r: u64)
        ensures
            r == self.spec_total(),
    {
        self.kernel_100ns.saturating_add(self.user_100ns)
    }
}

/// The busy part of an interval and the interval itself, in 100 ns units of
/// processor time; the busy percentage is `100 * busy / total`.
#[derive(Debug, Clone, Copy, PartialEq, Eq, Structural)]
pub struct BusyShare {
    pub busy_100ns: u64,
    pub total_100ns: u64,
}

/// The busy share between two readings; none when no processor time elapsed
/// at all, which is no measurement rather than an idle one. Counters that went
/// backwards count as no time, so the share never leaves 0-100%.
pub open spec fn spec_busy_share(previous: CpuTimes, now: CpuTimes) -> Option<BusyShare> {
    let total = saturating_sub(now.spec_total(), previous.spec_total());
    if total == 0 {
        None
    } else {
        let idle = saturating_sub(now.idle_100ns, previous.idle_100ns);
        Some(BusyShare { busy_100ns: saturating_sub(total, idle), total_100ns: total })
    }
}

pub fn busy_share(previous: CpuTimes, now: CpuTimes) -> (r: Option<BusyShare>)
    ensures
        r == spec_busy_share(previous, now),
{
    let total = now.total().saturating_sub(previous.total());
    if total == 0 {
        return None;
    }
    let idle = now.idle_100ns.saturating_sub(previous.idle_100ns);
    Some(BusyShare { busy_100ns: total.saturating_sub(idle), total_100ns: total })
}

/// Per-core shares, pairwise in order; none when the core counts differ, when
/// there are no cores, or when any core measured no interval.
pub open spec fn spec_per_core(previous: Seq<CpuTimes>, now: Seq<CpuTimes>) -> Option<Seq<BusyShare>> {
    if previous.len() != now.len() || now.len() == 0 {
        None
    } else if exists|i: int| 0 <= i < now.len() && #[trigger] spec_busy_share(previous[i], now[i]) is None {
        None
    } else {
        Some(Seq::new(now.len(), |i: int| spec_busy_share(previous[i], now[i])->Some_0))
    }
}

/// Previous readings, so the next tick can produce a rate.
pub struct SystemCpuTracker {
    total: Option<CpuTimes>,
    per_core: Option<Vec<CpuTimes>>,
}

impl SystemCpuTracker {
    pub closed spec fn last_total(&self) -> Option<CpuTimes> {
        self.total
    }

    pub closed spec fn last_per_core(&self) -> Option<Seq<CpuTimes>> {
        match self.per_core {
            Some(v) => Some(v@),
            None => None,
        }
    }

    pub fn new() -> (t: Self)
        ensures
            t.last_total() is None,
            t.last_per_core() is None,
    {
        SystemCpuTracker { total: None, per_core: None }
    }

    /// Machine-wide busy share since the previous call; none on the first
    /// call, which has nothing to difference against.
    pub fn observe(&mut self, now: CpuTimes) -> (r: Option<BusyShare>)
        ensures
            final(self).last_total() == Some(now),
            final(self).last_per_core() == old(self).last_per_core(),
            r == match old(self).last_total() {
                Some(previous) => spec_busy_share(previous, now),
                None => None,
            },
    {
        let previous = self.total;
        self.total = Some(now);
        match previous {
            Some(p) => busy_share(p, now),
            None => None,
        }
    }

    /// Per-core busy shares since the previous call. None until there is a
    /// previous reading, and whenever the processor count changed: pairing
    /// mismatched lists would give one core's time to another.
    pub fn observe_per_core(&mut self, now: Vec<CpuTimes>) -> (r: Option<Vec<BusyShare>>)
        ensures
            final(self).last_per_core() == Some(now@),
            final(self).last_total() == old(self).last_total(),
            match r {
                Some(v) => old(self).last_per_core() is Some && spec_per_core(
                    old(self).last_per_core()->Some_0,
                    now@,
                ) == Some(v@),
                None => old(self).last_per_core() is None || spec_per_core(
                    old(self).last_per_core()->Some_0,
                    now@,
                ) is None,
            },
    {
        let mut kept: Vec<CpuTimes> = Vec::new();
        let mut k: usize = 0;
        while k < now.len()
            invariant
                k <= now@.len(),
                kept@ == now@.take(k as int),
            decreases now@.len() - k,
        {
            kept.push(now[k]);
            proof {
                assert(now@.take(k as int).push(now@[k as int]) =~= now@.take(k + 1));
            }
            k = k + 1;
        }
        proof {
            assert(now@.take(now@.len() as int) =~= now@);
        }
        let ghost before = old(self).last_per_core();
        let mut previous: Option<Vec<CpuTimes>> = Some(kept);
        core::mem::swap(&mut previous, &mut self.per_core);
        assert(self.last_per_core() == Some(now@));
        let previous = match previous {
            Some(p) => p,
            None => return None,
        };
        if previous.len() != now.len() || now.len() == 0 {
            return None;
        }
        let mut out: Vec<BusyShare> = Vec::new();
        let mut i: usize = 0;
        while i < now.len()
            invariant
                previous@.len() == now@.len(),
                now@.len() > 0,
                Some(previous@) == before,
                before == old(self).last_per_core(),
                self.last_per_core() == Some(now@),
                self.last_total() == old(self).last_total(),
                i <= now@.len(),
                out@.len() == i,
                forall|j: int|
                    0 <= j < i ==> spec_busy_share(previous@[j], now@[j]) == Some(#[trigger] out@[j]),
            decreases now@.len() - i,
        {
            match busy_share(previous[i], now[i]) {
                Some(s) => out.push(s),
                None => {
                    proof {
                        assert(spec_busy_share(previous@[i as int], now@[i as int]) is None);
                        assert(spec_per_core(previous@, now@) is None);
                        assert(before->Some_0 == previous@);
                    }
                    return None;
                },
            }
            i = i + 1;
        }
        proof {
            assert(!exists|j: int| 0 <= j < now@.len() && #[trigger] spec_busy_share(previous@[j], now@[j]) is None) by {
                assert forall|j: int| 0 <= j < now@.len() implies !(#[trigger] spec_busy_share(previous@[j], now@[j]) is None) by {
                    assert(spec_busy_share(previous@[j], now@[j]) == Some(out@[j]));
                }
            }
            assert(out@ =~= spec_per_core(previous@, now@)->Some_0);
        }
        Some(out)
    }
}

/// A physical memory reading.
#[derive(Debug, Clone, Copy, PartialEq, Eq, Structural)]
pub struct MemoryStatus {
    pub total_bytes: u64,
    pub available_bytes: u64,
}

impl MemoryStatus {
    /// Bytes in use: total minus available, floored at zero. "Available"
    /// counts the reclaimable standby cache, as Windows itself does.
    pub fn used_bytes(&self) -> (r: u64)
        ensures
            r == saturating_sub(self.total_bytes, self.available_bytes),
    {
        self.total_bytes.saturating_sub(self.available_bytes)
    }
}

/// A share never exceeds the interval it is a share of, and a reading taken
/// against itself measures nothing.
pub proof fn law_busy_share_is_a_share(previous: CpuTimes, now: CpuTimes)
    ensures
        match spec_busy_share(previous, now) {
            Some(s) => s.busy_100ns <= s.total_100ns && s.total_100ns > 0,
            None => true,
        },
        spec_busy_share(now, now) is None,
{
}

/// Per-core shares come only from two readings of the same, non-zero number
/// of cores in which every core's processor time advanced; then there is one
/// share per core, in order, each measured from that core's own readings.
pub proof fn law_per_core_shares_need_matching_cores(previous: Seq<CpuTimes>, now: Seq<CpuTimes>)
    ensures
        spec_per_core(previous, now) is Some <==> (previous.len() == now.len() && now.len() > 0 && forall|
            i: int,
        |
            0 <= i < now.len() ==> saturating_sub(#[trigger] now[i].spec_total(), previous[i].spec_total())
                > 0),
        spec_per_core(previous, now) matches Some(v) ==> v.len() == now.len() && forall|i: int|
            0 <= i < now.len() ==> spec_busy_share(previous[i], now[i]) == Some(#[trigger] v[i]),
{
    if previous.len() == now.len() && now.len() > 0 {
        if forall|i: int|
            0 <= i < now.len() ==> saturating_sub(#[trigger] now[i].spec_total(), previous[i].spec_total())
                > 0 {
            assert(!exists|i: int| 0 <= i < now.len() && #[trigger] spec_busy_share(previous[i], now[i]) is None);
        } else {
            let i = choose|i: int|
                0 <= i < now.len() && !(saturating_sub(#[trigger] now[i].spec_total(), previous[i].spec_total())
                    > 0);
            assert(spec_busy_share(previous[i], now[i]) is None);
        }
    }
}

/// A busy share splits the processor time that passed between two readings:
/// the time counted (kernel plus user, which includes idle) is the share's
/// total, and busy time plus idle time make up that total when idle time did
/// not outrun it.
pub proof fn law_busy_share_splits_elapsed_time(previous: CpuTimes, now: CpuTimes)
    requires
        previous.kernel_100ns + previous.user_100ns <= u64::MAX,
        now.kernel_100ns + now.user_100ns <= u64::MAX,
        previous.kernel_100ns + previous.user_100ns <= now.kernel_100ns + now.user_100ns,
        previous.idle_100ns <= now.idle_100ns,
    ensures
        ({
            let elapsed = (now.kernel_100ns + now.user_100ns) - (previous.kernel_100ns + previous.user_100ns);
            let idle = now.idle_100ns - previous.idle_100ns;
            &&& (spec_busy_share(previous, now) is Some <==> elapsed > 0)
            &&& spec_busy_share(previous, now) matches Some(b) ==> b.total_100ns == elapsed && (idle <= elapsed
                ==> b.busy_100ns + idle == elapsed) && (idle > elapsed ==> b.busy_100ns == 0)
        }),
{
}

} // verus!
