//! CPU share per process, as exact integer arithmetic.
//!
//! Windows reports cumulative kernel + user time per process, so a share is a
//! rate over two points:
//!
//! ```text
//! share = Δ(kernel + user) / Δ(wall clock) / logical cores
//! ```
//!
//! Shares are reported in hundredths of a percent of the whole machine,
//! rounded half up and clamped to 100%: a single-threaded process pinning one
//! core of eight reads 1250.
use vstd::prelude::*;

use crate::assoc::Assoc;
use crate::models::ProcessId;

verus! {

/// The clamp, in hundredths of a percent: the whole machine.
pub const MAX_HUNDREDTHS: u32 = 10000;

/// One process's cumulative CPU time at one instant, keyed by its identity.
///
/// The identity, not the PID, is the key: a recycled PID must not inherit the
/// previous occupant's CPU total.
#[derive(Debug, Clone)]
pub struct CpuObservation {
    pub id: ProcessId,
    /// Kernel + user, in 100-nanosecond units, since the process started.
    pub cpu_time_100ns: u64,
    /// When the process started, Unix milliseconds.
    pub created_at_millis: i64,
}

/// Remembers the previous scan so the next one can be a rate.
pub struct CpuTracker {
    previous: Assoc<u64>,
    previous_at_millis: Option<i64>,
    logical_cores: u32,
}

/// The share for `cpu_delta_100ns` of CPU time over `elapsed_millis` of wall
/// time on `cores` cores, in hundredths of a percent; `None` when there is no
/// measurable interval.
pub open spec fn spec_hundredths(cpu_delta_100ns: nat, elapsed_millis: int, cores: nat) -> Option<u32> {
    if elapsed_millis <= 0 || cores == 0 {
        None
    } else {
        // One millisecond is 10_000 units of 100 ns, and one percent is 100
        // hundredths: the two factors cancel.
        let d = elapsed_millis * cores;
        let rounded = (2 * cpu_delta_100ns + d) / (2 * d);
        Some(if rounded > MAX_HUNDREDTHS { MAX_HUNDREDTHS } else { rounded as u32 })
    }
}

/// The counter difference, floored at zero: a counter that went backwards
/// counts as no work.
pub open spec fn saturating_delta(now: u64, before: u64) -> nat {
    if now >= before {
        (now - before) as nat
    } else {
        0
    }
}

/// The window a process is measured over: since the previous scan when it was
/// seen there, since its creation otherwise.
pub open spec fn spec_window(
    previous: Map<Seq<char>, u64>,
    previous_at: Option<i64>,
    now_millis: i64,
    o: Reading,
) -> Option<(nat, int)> {
    if previous.contains_key(o.0) {
        match previous_at {
            Some(then) => Some((saturating_delta(o.1, previous[o.0]), now_millis - then)),
            None => None,
        }
    } else {
        Some((o.1 as nat, now_millis - o.2))
    }
}

/// An observation as plain values: identity text, cumulative CPU time,
/// creation time.
pub type Reading = (Seq<char>, u64, i64);

pub open spec fn reading(o: CpuObservation) -> Reading {
    (o.id@, o.cpu_time_100ns, o.created_at_millis)
}

pub open spec fn readings(current: Seq<CpuObservation>) -> Seq<Reading> {
    current.map_values(|o: CpuObservation| reading(o))
}

/// The share reported for one observation, if any.
pub open spec fn spec_share(
    previous: Map<Seq<char>, u64>,
    previous_at: Option<i64>,
    cores: nat,
    now_millis: i64,
    o: Reading,
) -> Option<u32> {
    match spec_window(previous, previous_at, now_millis, o) {
        Some(w) => spec_hundredths(w.0, w.1, cores),
        None => None,
    }
}

/// The shares a scan reports, keyed by identity; a later observation of the
/// same identity replaces an earlier one.
pub open spec fn spec_shares(
    previous: Map<Seq<char>, u64>,
    previous_at: Option<i64>,
    cores: nat,
    now_millis: i64,
    current: Seq<Reading>,
) -> Map<Seq<char>, u32>
    decreases current.len(),
{
    if current.len() == 0 {
        Map::empty()
    } else {
        let before = spec_shares(previous, previous_at, cores, now_millis, current.drop_last());
        match spec_share(previous, previous_at, cores, now_millis, current.last()) {
            Some(h) => before.insert(current.last().0, h),
            None => before,
        }
    }
}

/// The totals a scan leaves behind: exactly the identities it saw.
pub open spec fn spec_totals(current: Seq<Reading>) -> Map<Seq<char>, u64>
    decreases current.len(),
{
    if current.len() == 0 {
        Map::empty()
    } else {
        spec_totals(current.drop_last()).insert(current.last().0, current.last().1)
    }
}

/// The identities in a scan.
pub open spec fn scan_ids(current: Seq<Reading>) -> Set<Seq<char>> {
    Set::new(|k: Seq<char>| exists|i: int| 0 <= i < current.len() && #[trigger] current[i].0 == k)
}

fn hundredths(cpu_delta_100ns: u64, elapsed_millis: i128, cores: u32) -> (r: Option<u32>)
    requires
        -0x1_0000_0000_0000_0000i128 < elapsed_millis < 0x1_0000_0000_0000_0000i128,
    ensures
        r == spec_hundredths(cpu_delta_100ns as nat, elapsed_millis as int, cores as nat),
{
    if elapsed_millis <= 0 || cores == 0 {
        return None;
    }
    let e: u128 = elapsed_millis as u128;
    let c: u128 = cores as u128;
    assert(1 <= e * c < 0x1_0000_0000_0000_0000_0000_0000u128) by (nonlinear_arith)
        requires
            1 <= e < 0x1_0000_0000_0000_0000u128,
            1 <= c < 0x1_0000_0000u128,
    ;
    let d: u128 = e * c;
    let rounded: u128 = (2 * (cpu_delta_100ns as u128) + d) / (2 * d);
    if rounded > 10000 {
        Some(MAX_HUNDREDTHS)
    } else {
        Some(rounded as u32)
    }
}

impl CpuTracker {
    pub closed spec fn wf(&self) -> bool {
        &&& self.previous.wf()
        &&& self.logical_cores >= 1
    }

    /// The totals remembered from the previous scan.
    pub closed spec fn remembered(&self) -> Map<Seq<char>, u64> {
        self.previous.view()
    }

    /// When the previous scan was taken.
    pub closed spec fn last_scan(&self) -> Option<i64> {
        self.previous_at_millis
    }

    /// The divisor: the logical core count, floored at one.
    pub closed spec fn cores(&self) -> nat {
        self.logical_cores as nat
    }

    /// A tracker that has seen nothing. A core count of zero is floored at
    /// one rather than divided by.
    pub fn new(logical_cores: u32) -> (t: Self)
        ensures
            t.wf(),
            t.remembered() == Map::<Seq<char>, u64>::empty(),
            t.last_scan() is None,
            t.cores() == if logical_cores == 0 { 1 } else { logical_cores as nat },
    {
        CpuTracker {
            previous: Assoc::new(),
            previous_at_millis: None,
            logical_cores: if logical_cores == 0 { 1 } else { logical_cores },
        }
    }

    /// How many processes are being remembered.
    pub fn remembered_count(&self) -> (n: usize)
        requires
            self.wf(),
        ensures
            n == self.remembered().len(),
    {
        self.previous.len()
    }

    /// Fold one scan in and return this scan's shares.
    ///
    /// A process seen in the previous scan is measured since that scan; one
    /// seen for the first time since its creation; one that disappeared is
    /// forgotten. The result holds only the processes a share could be
    /// computed for.
    pub fn observe(&mut self, now_millis: i64, current: &[CpuObservation]) -> (shares: Assoc<u32>)
        requires
            old(self).wf(),
        ensures
            final(self).wf(),
            shares.wf(),
            shares.view() == spec_shares(
                old(self).remembered(),
                old(self).last_scan(),
                old(self).cores(),
                now_millis,
                readings(current@),
            ),
            final(self).remembered() == spec_totals(readings(current@)),
            final(self).last_scan() == Some(now_millis),
            final(self).cores() == old(self).cores(),
    {
        let mut shares: Assoc<u32> = Assoc::new();
        let mut next: Assoc<u64> = Assoc::new();
        let ghost previous = self.previous.view();
        let mut i: usize = 0;
        while i < current.len()
            invariant
                self.wf(),
                self.previous.view() == previous,
                i <= current@.len(),
                shares.wf(),
                next.wf(),
                shares.view() == spec_shares(
                    previous,
                    self.previous_at_millis,
                    self.logical_cores as nat,
                    now_millis,
                    readings(current@.take(i as int)),
                ),
                next.view() == spec_totals(readings(current@.take(i as int))),
            decreases current@.len() - i,
        {
            let obs = &current[i];
            proof {
                assert(readings(current@.take(i as int + 1)).drop_last() =~= readings(current@.take(i as int)));
                assert(readings(current@.take(i as int + 1)).last() == reading(current@[i as int]));
            }
            let window: Option<(u64, i128)> = match self.previous.get(obs.id.as_str()) {
                Some(before) => match self.previous_at_millis {
                    Some(then) => {
                        let delta: u64 = if obs.cpu_time_100ns >= *before {
                            obs.cpu_time_100ns - *before
                        } else {
                            0
                        };
                        Some((delta, (now_millis as i128) - (then as i128)))
                    },
                    None => None,
                },
                None => Some((obs.cpu_time_100ns, (now_millis as i128) - (obs.created_at_millis as i128))),
            };
            match window {
                Some((delta, elapsed)) => {
                    match hundredths(delta, elapsed, self.logical_cores) {
                        Some(h) => {
                            shares.insert(obs.id.clone(), h);
                        },
                        None => {},
                    }
                },
                None => {},
            }
            next.insert(obs.id.clone(), obs.cpu_time_100ns);
            i = i + 1;
        }
        proof {
            assert(current@.take(current@.len() as int) =~= current@);
        }
        self.previous = next;
        self.previous_at_millis = Some(now_millis);
        shares
    }
}

/// Every identity a scan remembers is one it saw.
pub proof fn lemma_totals_domain(current: Seq<Reading>)
    ensures
        spec_totals(current).dom() == scan_ids(current),
        spec_totals(current).dom().finite(),
    decreases current.len(),
{
    if current.len() > 0 {
        let rest = current.drop_last();
        lemma_totals_domain(rest);
        assert forall|k: Seq<char>| #[trigger] scan_ids(current).contains(k) <==> spec_totals(
            current,
        ).dom().contains(k) by {
            if scan_ids(current).contains(k) {
                let i = choose|i: int| 0 <= i < current.len() && #[trigger] current[i].0 == k;
                if i < current.len() - 1 {
                    assert(rest[i].0 == k);
                    assert(scan_ids(rest).contains(k));
                }
            }
            if spec_totals(current).dom().contains(k) && k != current.last().0 {
                assert(scan_ids(rest).contains(k));
                let i = choose|i: int| 0 <= i < rest.len() && #[trigger] rest[i].0 == k;
                assert(current[i].0 == k);
            }
        }
        assert(spec_totals(current).dom() =~= scan_ids(current));
    } else {
        assert(scan_ids(current) =~= Set::empty());
    }
}

/// Every identity a scan reports a share for is one it saw.
pub proof fn lemma_shares_domain(
    previous: Map<Seq<char>, u64>,
    previous_at: Option<i64>,
    cores: nat,
    now_millis: i64,
    current: Seq<Reading>,
)
    ensures
        spec_shares(previous, previous_at, cores, now_millis, current).dom().subset_of(
            scan_ids(current),
        ),
    decreases current.len(),
{
    if current.len() > 0 {
        let rest = current.drop_last();
        lemma_shares_domain(previous, previous_at, cores, now_millis, rest);
        assert forall|k: Seq<char>| #[trigger] spec_shares(
            previous,
            previous_at,
            cores,
            now_millis,
            current,
        ).dom().contains(k) implies scan_ids(current).contains(k) by {
            if k == current.last().0 {
                assert(current[current.len() - 1].0 == k);
            } else {
                assert(scan_ids(rest).contains(k));
                let i = choose|i: int| 0 <= i < rest.len() && #[trigger] rest[i].0 == k;
                assert(current[i].0 == k);
            }
        }
    }
}

/// State stays bounded by what is running: after a scan the tracker
/// remembers exactly the identities that scan saw, never more of them than
/// the scan had observations, and reports shares for none other.
pub proof fn law_tracker_forgets_exited_processes(
    previous: Map<Seq<char>, u64>,
    previous_at: Option<i64>,
    cores: nat,
    now_millis: i64,
    current: Seq<Reading>,
)
    ensures
        spec_totals(current).dom() == scan_ids(current),
        spec_totals(current).len() <= current.len(),
        spec_shares(previous, previous_at, cores, now_millis, current).dom().subset_of(
            spec_totals(current).dom(),
        ),
    decreases current.len(),
{
    lemma_totals_domain(current);
    lemma_shares_domain(previous, previous_at, cores, now_millis, current);
    if current.len() > 0 {
        law_tracker_forgets_exited_processes(previous, previous_at, cores, now_millis, current.drop_last());
        lemma_totals_domain(current.drop_last());
        assert(spec_totals(current).dom() =~= spec_totals(current.drop_last()).dom().insert(
            current.last().0,
        ));
    } else {
        assert(spec_totals(current).dom() =~= Set::empty());
    }
}

/// A share never exceeds the whole machine, and an interval of no length
/// yields none: a clock that stood still or went backwards is no
/// measurement.
pub proof fn law_share_is_bounded(cpu_delta_100ns: nat, elapsed_millis: int, cores: nat)
    ensures
        elapsed_millis <= 0 ==> spec_hundredths(cpu_delta_100ns, elapsed_millis, cores) is None,
        match spec_hundredths(cpu_delta_100ns, elapsed_millis, cores) {
            Some(h) => h <= MAX_HUNDREDTHS,
            None => true,
        },
{
    if elapsed_millis > 0 && cores > 0 {
        let d = elapsed_millis * cores;
        assert(d > 0) by (nonlinear_arith)
            requires
                elapsed_millis > 0,
                cores > 0,
                d == elapsed_millis * cores,
        ;
        let rounded = (2 * cpu_delta_100ns + d) / (2 * d);
        assert(rounded >= 0) by (nonlinear_arith)
            requires
                d > 0,
                rounded == (2 * cpu_delta_100ns + d) / (2 * d),
                cpu_delta_100ns >= 0,
        ;
    }
}

pub open spec fn ids_distinct(current: Seq<Reading>) -> bool {
    forall|i: int, j: int| 0 <= i < j < current.len() ==> #[trigger] current[i].0 != #[trigger] current[j].0
}

/// Each process in a scan is measured on its own: its share is the one its
/// own window gives (since the previous scan when it was seen there, since it
/// started otherwise), it has none exactly when that window gives none, and
/// afterwards the tracker holds its CPU total. This holds when the scan
/// lists each identity once.
pub proof fn law_each_share_is_measured_over_its_own_window(
    previous: Map<Seq<char>, u64>,
    previous_at: Option<i64>,
    cores: nat,
    now_millis: i64,
    current: Seq<Reading>,
    i: int,
)
    requires
        ids_distinct(current),
        0 <= i < current.len(),
    ensures
        spec_shares(previous, previous_at, cores, now_millis, current).contains_key(current[i].0)
            <==> spec_share(previous, previous_at, cores, now_millis, current[i]) is Some,
        spec_share(previous, previous_at, cores, now_millis, current[i]) matches Some(h) ==> spec_shares(
            previous,
            previous_at,
            cores,
            now_millis,
            current,
        )[current[i].0] == h,
        spec_totals(current).contains_key(current[i].0),
        spec_totals(current)[current[i].0] == current[i].1,
    decreases current.len(),
{
    let rest = current.drop_last();
    if i < current.len() - 1 {
        assert(ids_distinct(rest)) by {
            assert forall|a: int, b: int| 0 <= a < b < rest.len() implies #[trigger] rest[a].0
                != #[trigger] rest[b].0 by {
                assert(rest[a] == current[a] && rest[b] == current[b]);
            }
        }
        assert(rest[i] == current[i]);
        assert(current[i].0 != current[current.len() - 1].0);
        law_each_share_is_measured_over_its_own_window(previous, previous_at, cores, now_millis, rest, i);
    } else {
        lemma_shares_domain(previous, previous_at, cores, now_millis, rest);
        let k = current[i].0;
        if spec_shares(previous, previous_at, cores, now_millis, rest).contains_key(k) {
            assert(scan_ids(rest).contains(k));
            let j = choose|j: int| 0 <= j < rest.len() && #[trigger] rest[j].0 == k;
            assert(current[j].0 == k);
        }
    }
}

/// A share in hundredths of a percent, written out: `delta` units of 100 ns
/// of processor time over `elapsed` milliseconds of wall time on `cores`
/// cores, rounded half up and capped at the whole machine.
pub open spec fn share_over(delta: int, elapsed: int, cores: int) -> int {
    let q = (2 * delta + elapsed * cores) / (2 * elapsed * cores);
    if q > 10000 {
        10000
    } else {
        q
    }
}

/// How each process in a scan (listing each identity once) is measured. A
/// process the previous scan saw is measured over the wall time since that
/// scan, whenever it started, on the processor time it used since then
/// (none if its counter went backwards). A process seen for the first time
/// is measured since its own creation. Either has no share exactly when its
/// window has no length.
pub proof fn law_shares_are_measured_since_the_previous_scan(
    previous: Map<Seq<char>, u64>,
    then: i64,
    cores: nat,
    now_millis: i64,
    current: Seq<Reading>,
    i: int,
)
    requires
        ids_distinct(current),
        0 <= i < current.len(),
        cores >= 1,
    ensures
        ({
            let o = current[i];
            let shares = spec_shares(previous, Some(then), cores, now_millis, current);
            &&& previous.contains_key(o.0) ==> {
                let delta = if o.1 >= previous[o.0] { o.1 - previous[o.0] } else { 0 };
                &&& (shares.contains_key(o.0) <==> now_millis > then)
                &&& now_millis > then ==> shares[o.0] == share_over(delta, now_millis - then, cores as int)
            }
            &&& !previous.contains_key(o.0) ==> {
                &&& (shares.contains_key(o.0) <==> now_millis > o.2)
                &&& now_millis > o.2 ==> shares[o.0] == share_over(o.1 as int, now_millis - o.2, cores as int)
            }
        }),
{
    law_each_share_is_measured_over_its_own_window(previous, Some(then), cores, now_millis, current, i);
    let o = current[i];
    let shares = spec_shares(previous, Some(then), cores, now_millis, current);
    let (delta, elapsed): (int, int) = if previous.contains_key(o.0) {
        (saturating_delta(o.1, previous[o.0]) as int, now_millis - then)
    } else {
        (o.1 as int, now_millis - o.2)
    };
    assert(spec_window(previous, Some(then), now_millis, o) == Some((delta as nat, elapsed)));
    if elapsed > 0 {
        let d = elapsed * cores;
        assert(2 * d == 2 * elapsed * cores) by (nonlinear_arith)
            requires
                d == elapsed * cores,
        ;
        assert(d > 0) by (nonlinear_arith)
            requires
                d == elapsed * cores,
                elapsed > 0,
                cores >= 1,
        ;
        let q = (2 * delta + d) / (2 * d);
        assert(q >= 0) by (nonlinear_arith)
            requires
                q == (2 * delta + d) / (2 * d),
                d > 0,
                delta >= 0,
        ;
        assert(spec_hundredths(delta as nat, elapsed, cores) == Some(
            if q > 10000 {
                10000u32
            } else {
                q as u32
            },
        ));
        assert(shares[o.0] as int == share_over(delta, elapsed, cores as int));
    }
}

} // verus!
