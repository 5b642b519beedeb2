//! Mapping enumerated processes onto process rows.
//!
//! Every enumerated process lands in exactly one of three places: a row, the
//! access-denied count, or the exited-during-scan count. A process whose
//! creation time cannot be read has no `{pid}-{startedAt}` identity, and a row
//! with a made-up one would look safe to act on.
use vstd::prelude::*;

use crate::logic::cpu::{spec_shares, spec_totals, CpuObservation, CpuTracker, Reading};
use crate::logic::identity::lemma_process_id_injective;
use crate::models::{make_process_id, spec_process_id, ProcessRow, ProcessStatus};
use crate::time::{spec_iso8601, to_iso8601};

verus! {

/// What opening one process yielded.
///
/// Access denied is a value, not an error: protected processes refuse an
/// unelevated caller, and that is a fact about them rather than a failed scan.
#[derive(Debug, Clone, Copy, PartialEq, Eq, Structural)]
pub enum ProcessProbe {
    Read {
        /// Creation time, Unix milliseconds. Half of the identity.
        created_at_millis: i64,
        /// Kernel + user time since the process started, in 100 ns units.
        cpu_time_100ns: u64,
        /// Working set: the number Task Manager's "Memory" column shows.
        working_set_bytes: u64,
    },
    AccessDenied,
    /// The process exited between being listed and being read.
    Gone,
}

/// One process, shaped the way the OS reported it.
#[derive(Debug, Clone)]
pub struct RawProcess {
    pub pid: u32,
    pub parent_pid: u32,
    /// Executable file name, e.g. `node.exe`.
    pub name: String,
    pub thread_count: u32,
    pub probe: ProcessProbe,
}

/// The result of mapping one scan.
#[derive(Debug, Clone)]
pub struct ProcessMapping {
    pub rows: Vec<ProcessRow>,
    /// Enumerated, but the app may not open them.
    pub access_denied: u32,
    /// Enumerated, then exited before they could be read.
    pub exited_during_scan: u32,
}

/// The processes whose probe succeeded, in scan order.
pub open spec fn readable(raw: Seq<RawProcess>) -> Seq<RawProcess>
    decreases raw.len(),
{
    if raw.len() == 0 {
        seq![]
    } else if raw.last().probe is Read {
        readable(raw.drop_last()).push(raw.last())
    } else {
        readable(raw.drop_last())
    }
}

pub open spec fn count_denied(raw: Seq<RawProcess>) -> nat
    decreases raw.len(),
{
    if raw.len() == 0 {
        0
    } else {
        count_denied(raw.drop_last()) + if raw.last().probe is AccessDenied { 1nat } else { 0nat }
    }
}

pub open spec fn count_gone(raw: Seq<RawProcess>) -> nat
    decreases raw.len(),
{
    if raw.len() == 0 {
        0
    } else {
        count_gone(raw.drop_last()) + if raw.last().probe is Gone { 1nat } else { 0nat }
    }
}

/// Milliseconds between creation and the capture instant, floored at zero:
/// a process created while the scan was walking is not from the future.
pub open spec fn spec_uptime_millis(created_at_millis: i64, captured_at_millis: i64) -> nat {
    if captured_at_millis <= created_at_millis {
        0
    } else {
        (captured_at_millis - created_at_millis) as nat
    }
}

pub fn uptime_millis(created_at_millis: i64, captured_at_millis: i64) -> (r: u64)
    ensures
        r == spec_uptime_millis(created_at_millis, captured_at_millis),
{
    if captured_at_millis <= created_at_millis {
        0
    } else {
        ((captured_at_millis as i128) - (created_at_millis as i128)) as u64
    }
}

/// The CPU reading a readable process contributes.
pub open spec fn process_reading(p: RawProcess) -> Reading {
    match p.probe {
        ProcessProbe::Read { created_at_millis, cpu_time_100ns, .. } => (
            spec_process_id(p.pid, spec_iso8601(created_at_millis as int)),
            cpu_time_100ns,
            created_at_millis,
        ),
        _ => (seq![], 0, 0),
    }
}

pub open spec fn process_readings(raw: Seq<RawProcess>) -> Seq<Reading> {
    readable(raw).map_values(|p: RawProcess| process_reading(p))
}

/// `r` is the row for readable process `p`, with CPU share taken from
/// `shares` (zero when no share could be measured this tick).
pub open spec fn process_row_for(
    r: ProcessRow,
    p: RawProcess,
    captured_at_millis: i64,
    shares: Map<Seq<char>, u32>,
) -> bool {
    match p.probe {
        ProcessProbe::Read { created_at_millis, cpu_time_100ns, working_set_bytes } => {
            let started = spec_iso8601(created_at_millis as int);
            let id = spec_process_id(p.pid, started);
            &&& r.id@ == id
            &&& r.pid == p.pid
            &&& r.parent_pid == p.parent_pid
            &&& r.name@ == p.name@
            &&& r.cpu_hundredths == (if shares.contains_key(id) { shares[id] } else { 0 })
            &&& r.memory_bytes == working_set_bytes
            &&& r.thread_count == p.thread_count
            &&& r.started_at@ == started
            &&& r.uptime_millis == spec_uptime_millis(created_at_millis, captured_at_millis)
            &&& r.status == ProcessStatus::Running
            &&& !r.is_service
        },
        _ => false,
    }
}

/// Turn enumerated processes into rows, measuring each readable process's CPU
/// share against the tracker's previous scan.
///
/// `captured_at_millis` is the one instant every uptime in a tick is measured
/// against. `is_service` is left false: the service join decides it.
pub fn map_processes(raw: &[RawProcess], captured_at_millis: i64, cpu: &mut CpuTracker) -> (m: ProcessMapping)
    requires
        old(cpu).wf(),
        raw@.len() <= u32::MAX,
    ensures
        final(cpu).wf(),
        m.rows@.len() == readable(raw@).len(),
        forall|i: int|
            0 <= i < m.rows@.len() ==> process_row_for(
                #[trigger] m.rows@[i],
                readable(raw@)[i],
                captured_at_millis,
                spec_shares(
                    old(cpu).remembered(),
                    old(cpu).last_scan(),
                    old(cpu).cores(),
                    captured_at_millis,
                    process_readings(raw@),
                ),
            ),
        m.access_denied == count_denied(raw@),
        m.exited_during_scan == count_gone(raw@),
        final(cpu).remembered() == spec_totals(process_readings(raw@)),
        final(cpu).last_scan() == Some(captured_at_millis),
        final(cpu).cores() == old(cpu).cores(),
{
    let mut rows: Vec<ProcessRow> = Vec::new();
    let mut observations: Vec<CpuObservation> = Vec::new();
    let mut access_denied: u32 = 0;
    let mut exited_during_scan: u32 = 0;
    let mut i: usize = 0;
    while i < raw.len()
        invariant
            i <= raw@.len(),
            raw@.len() <= u32::MAX,
            rows@.len() == readable(raw@.take(i as int)).len(),
            observations@.len() == rows@.len(),
            forall|k: int|
                0 <= k < rows@.len() ==> process_row_for(
                    #[trigger] rows@[k],
                    readable(raw@.take(i as int))[k],
                    captured_at_millis,
                    Map::empty(),
                ),
            crate::logic::cpu::readings(observations@) == process_readings(raw@.take(i as int)),
            access_denied == count_denied(raw@.take(i as int)),
            exited_during_scan == count_gone(raw@.take(i as int)),
            access_denied + exited_during_scan + rows@.len() == i,
        decreases raw@.len() - i,
    {
        let p = &raw[i];
        let ghost prefix = raw@.take(i as int + 1);
        proof {
            assert(prefix.drop_last() =~= raw@.take(i as int));
            assert(prefix.last() == raw@[i as int]);
        }
        match p.probe {
            ProcessProbe::Read { created_at_millis, cpu_time_100ns, working_set_bytes } => {
                let started_at = to_iso8601(created_at_millis);
                let id = make_process_id(p.pid, started_at.as_str());
                let ghost old_obs = observations@;
                let obs = CpuObservation { id: id.clone(), cpu_time_100ns, created_at_millis };
                proof {
                    assert(crate::logic::cpu::reading(obs) == process_reading(raw@[i as int]));
                }
                observations.push(obs);
                proof {
                    assert(crate::logic::cpu::readings(observations@) =~= crate::logic::cpu::readings(
                        old_obs,
                    ).push(crate::logic::cpu::reading(obs)));
                }
                rows.push(
                    ProcessRow {
                        id,
                        pid: p.pid,
                        parent_pid: p.parent_pid,
                        name: p.name.clone(),
                        cpu_hundredths: 0,
                        memory_bytes: working_set_bytes,
                        thread_count: p.thread_count,
                        started_at,
                        uptime_millis: uptime_millis(created_at_millis, captured_at_millis),
                        status: ProcessStatus::Running,
                        is_service: false,
                    },
                );
                proof {
                    assert(readable(prefix) == readable(raw@.take(i as int)).push(raw@[i as int]));
                    assert(process_readings(prefix) =~= process_readings(raw@.take(i as int)).push(
                        process_reading(raw@[i as int]),
                    ));
                }
            },
            ProcessProbe::AccessDenied => {
                access_denied = access_denied + 1;
            },
            ProcessProbe::Gone => {
                exited_during_scan = exited_during_scan + 1;
            },
        }
        i = i + 1;
    }
    proof {
        assert(raw@.take(raw@.len() as int) =~= raw@);
    }
    let shares = cpu.observe(captured_at_millis, observations.as_slice());
    let ghost share_map = shares.view();
    let ghost before = rows@;
    let mut k: usize = 0;
    while k < rows.len()
        invariant
            shares.wf(),
            shares.view() == share_map,
            rows@.len() == before.len(),
            k <= rows@.len(),
            crate::logic::cpu::readings(observations@) == process_readings(raw@),
            observations@.len() == rows@.len(),
            rows@.len() == readable(raw@).len(),
            forall|j: int|
                0 <= j < rows@.len() ==> process_row_for(
                    #[trigger] before[j],
                    readable(raw@)[j],
                    captured_at_millis,
                    Map::empty(),
                ),
            forall|j: int|
                0 <= j < k ==> process_row_for(
                    #[trigger] rows@[j],
                    readable(raw@)[j],
                    captured_at_millis,
                    share_map,
                ),
            forall|j: int| k <= j < rows@.len() ==> #[trigger] rows@[j] == before[j],
        decreases rows@.len() - k,
    {
        let h: u32 = match shares.get(rows[k].id.as_str()) {
            Some(v) => *v,
            None => 0,
        };
        let row = with_cpu(&rows[k], h);
        rows.set(k, row);
        k = k + 1;
    }
    ProcessMapping { rows, access_denied, exited_during_scan }
}

fn with_cpu(r: &ProcessRow, cpu_hundredths: u32) -> (n: ProcessRow)
    ensures
        n == (ProcessRow { cpu_hundredths, ..*r }),
{
    ProcessRow {
        id: r.id.clone(),
        pid: r.pid,
        parent_pid: r.parent_pid,
        name: r.name.clone(),
        cpu_hundredths,
        memory_bytes: r.memory_bytes,
        thread_count: r.thread_count,
        started_at: r.started_at.clone(),
        uptime_millis: r.uptime_millis,
        status: r.status,
        is_service: r.is_service,
    }
}

/// Nothing vanishes: every enumerated process is a row or is counted.
pub proof fn law_every_process_is_accounted_for(raw: Seq<RawProcess>)
    ensures
        readable(raw).len() + count_denied(raw) + count_gone(raw) == raw.len(),
    decreases raw.len(),
{
    if raw.len() > 0 {
        law_every_process_is_accounted_for(raw.drop_last());
    }
}

pub open spec fn pids_distinct(raw: Seq<RawProcess>) -> bool {
    forall|i: int, j: int| 0 <= i < j < raw.len() ==> #[trigger] raw[i].pid != #[trigger] raw[j].pid
}

pub(crate) proof fn lemma_readable_comes_from(raw: Seq<RawProcess>)
    ensures
        forall|i: int|
            0 <= i < readable(raw).len() ==> exists|k: int| 0 <= k < raw.len() && #[trigger] readable(raw)[i] == raw[k],
    decreases raw.len(),
{
    if raw.len() > 0 {
        let front = raw.drop_last();
        lemma_readable_comes_from(front);
        assert forall|i: int| 0 <= i < readable(raw).len() implies exists|k: int|
            0 <= k < raw.len() && #[trigger] readable(raw)[i] == raw[k] by {
            if i < readable(front).len() {
                let k = choose|k: int| 0 <= k < front.len() && readable(front)[i] == front[k];
                assert(raw[k] == front[k]);
            } else {
                assert(readable(raw)[i] == raw[raw.len() - 1]);
            }
        }
    }
}

proof fn lemma_readable_pids_distinct(raw: Seq<RawProcess>)
    requires
        pids_distinct(raw),
    ensures
        pids_distinct(readable(raw)),
    decreases raw.len(),
{
    if raw.len() > 0 {
        let front = raw.drop_last();
        assert(pids_distinct(front)) by {
            assert forall|i: int, j: int| 0 <= i < j < front.len() implies #[trigger] front[i].pid
                != #[trigger] front[j].pid by {
                assert(front[i] == raw[i] && front[j] == raw[j]);
            }
        }
        lemma_readable_pids_distinct(front);
        if raw.last().probe is Read {
            lemma_readable_comes_from(front);
            let r = readable(raw);
            assert forall|i: int, j: int| 0 <= i < j < r.len() implies #[trigger] r[i].pid != #[trigger] r[j].pid by {
                if j < readable(front).len() {
                } else {
                    let k = choose|k: int| 0 <= k < front.len() && readable(front)[i] == front[k];
                    assert(front[k] == raw[k]);
                    assert(r[j] == raw[raw.len() - 1]);
                }
            }
        }
    }
}

/// One tick never shows two rows with the same identity: when the
/// enumeration lists each PID once, every row's `{pid}-{startedAt}` is its
/// own.
pub proof fn law_rows_have_distinct_identities(
    raw: Seq<RawProcess>,
    rows: Seq<ProcessRow>,
    captured_at_millis: i64,
    shares: Map<Seq<char>, u32>,
)
    requires
        pids_distinct(raw),
        rows.len() == readable(raw).len(),
        forall|i: int|
            0 <= i < rows.len() ==> process_row_for(#[trigger] rows[i], readable(raw)[i], captured_at_millis, shares),
    ensures
        forall|i: int, j: int| 0 <= i < j < rows.len() ==> #[trigger] rows[i].id@ != #[trigger] rows[j].id@,
{
    lemma_readable_pids_distinct(raw);
    let r = readable(raw);
    assert forall|i: int, j: int| 0 <= i < j < rows.len() implies #[trigger] rows[i].id@ != #[trigger] rows[j].id@ by {
        assert(process_row_for(rows[i], r[i], captured_at_millis, shares));
        assert(process_row_for(rows[j], r[j], captured_at_millis, shares));
        if rows[i].id@ == rows[j].id@ {
            lemma_process_id_injective(r[i].pid, rows[i].started_at@, r[j].pid, rows[j].started_at@);
        }
    }
}

/// Uptime is the time from creation to the capture instant: it never goes
/// negative, a later capture of the same process never reads less, and a
/// process created before the capture adds its creation time back to give
/// the capture instant.
pub proof fn law_uptime_measures_from_creation(created: i64, earlier: i64, later: i64)
    requires
        earlier <= later,
    ensures
        spec_uptime_millis(created, earlier) <= spec_uptime_millis(created, later),
        created < later ==> created + spec_uptime_millis(created, later) == later,
        later <= created ==> spec_uptime_millis(created, later) == 0,
{
}

/// Each process lands in the tally its probe names: the rows are exactly
/// the processes that were read, in enumeration order; the denied count is
/// the number refused access; the exited count the number gone before they
/// could be read.
pub proof fn law_each_process_lands_where_its_probe_says(raw: Seq<RawProcess>)
    ensures
        readable(raw) == raw.filter(|p: RawProcess| p.probe is Read),
        count_denied(raw) == raw.filter(|p: RawProcess| p.probe is AccessDenied).len(),
        count_gone(raw) == raw.filter(|p: RawProcess| p.probe is Gone).len(),
    decreases raw.len(),
{
    reveal(Seq::filter);
    if raw.len() > 0 {
        law_each_process_lands_where_its_probe_says(raw.drop_last());
    }
}

} // verus!
