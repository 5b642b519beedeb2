//! The sampler's state and the tick that advances it.
//!
//! One scan folds into state and produces one snapshot: processes, then the
//! service join, then the port rows that point at it, then classification.
//! Every view in a snapshot is built from the same tick's data, so a service,
//! its process row and its port rows never describe different moments.
//!
//! The scans themselves, the clock and the thread that repeats all this are
//! outside this module; they hand it plain values.
use vstd::prelude::*;

use crate::assoc::Assoc;
use crate::errors::SystemError;
use crate::logic::classify::{
    apply, classified, law_every_verdict_is_a_sentence, line_for, needs_command_line,
    spec_needs_command_line,
};
use crate::logic::cpu::{spec_shares, spec_totals, CpuTracker};
use crate::logic::ports::{
    first_occurrences, identity_for, map_ports, name_for, opt_text, row_for, RawEndpoint,
};
use crate::logic::process::{
    count_denied, count_gone, law_rows_have_distinct_identities, map_processes, pids_distinct,
    process_readings, process_row_for, readable, RawProcess,
};
use crate::logic::service::{
    is_service_id, join_services, labels_of, law_services_come_from_qualifying_rows, qualifies, service_for,
    service_rows,
};
use crate::logic::telemetry::{spec_busy_share, spec_per_core, BusyShare, CpuTimes, SystemCpuTracker};
use crate::models::{ProcessRow, Service, Snapshot};
use crate::order::{is_stable_arrangement, is_stable_sort_of, lemma_arrangement_is_onto};
use crate::text::{chars_of, string_of};
use crate::time::{spec_iso8601, to_iso8601};

verus! {

/// Fastest cadence the sampler accepts: a full scan stays a small share of
/// each interval.
pub const MIN_INTERVAL_MS: u64 = 250;

/// Slowest cadence the sampler accepts: past a minute the live readout would
/// be an average long enough to hide everything interesting.
pub const MAX_INTERVAL_MS: u64 = 60_000;

pub open spec fn interval_in_range(interval_ms: u64) -> bool {
    MIN_INTERVAL_MS <= interval_ms <= MAX_INTERVAL_MS
}

/// Reject a cadence that would make the sampler misbehave, naming the
/// bounds. Rejecting rather than clamping: a caller asking for 0 ms has a bug
/// that running at 250 ms would hide.
pub fn validate_interval(interval_ms: u64) -> (r: Result<u64, SystemError>)
    ensures
        match r {
            Ok(ms) => interval_in_range(interval_ms) && ms == interval_ms,
            Err(e) => !interval_in_range(interval_ms) && e == (SystemError::InvalidInterval {
                requested_ms: interval_ms,
                min_ms: MIN_INTERVAL_MS,
                max_ms: MAX_INTERVAL_MS,
            }),
        },
{
    if interval_ms < MIN_INTERVAL_MS || interval_ms > MAX_INTERVAL_MS {
        return Err(SystemError::invalid_interval(interval_ms, MIN_INTERVAL_MS, MAX_INTERVAL_MS));
    }
    Ok(interval_ms)
}

/// The snapshot served before the first scan lands: structurally valid,
/// sequence zero, nothing enumerated, conflicts unknown.
pub fn empty_snapshot(captured_at_millis: i64) -> (s: Snapshot)
    ensures
        s.sequence == 0,
        s.captured_at@ == spec_iso8601(captured_at_millis as int),
        s.services@.len() == 0,
        s.processes@.len() == 0,
        s.ports@.len() == 0,
        s.conflicts is None,
{
    Snapshot::empty(0, to_iso8601(captured_at_millis))
}

/// The command lines kept after a tick: exactly the services that need one.
/// A line already held is kept as it is, including a remembered failure; a
/// missing one is read once, for the first service that needs it.
pub open spec fn refreshed<F: Fn(u32, &str) -> Option<String>>(
    before: Map<Seq<char>, Option<String>>,
    services: Seq<Service>,
    read: F,
    after: Map<Seq<char>, Option<String>>,
) -> bool {
    &&& forall|id: Seq<char>| #[trigger]
        after.contains_key(id) <==> exists|i: int|
            0 <= i < services.len() && #[trigger] services[i].id@ == id && spec_needs_command_line(
                services[i].process_name@,
            )
    &&& forall|id: Seq<char>| #[trigger]
        after.contains_key(id) && before.contains_key(id) ==> after[id] == before[id]
    &&& forall|id: Seq<char>| #[trigger]
        after.contains_key(id) && !before.contains_key(id) ==> exists|i: int, at: &str|
            #![trigger call_ensures(read, (services[i].pid, at), after[id])]
            0 <= i < services.len() && services[i].id@ == id && at@ == services[i].started_at@
                && call_ensures(read, (services[i].pid, at), after[id])
}

/// What one tick produced: `rows` are the process rows before the join
/// marks them, `unsorted` the services in row order, `joined` the services
/// in identity order before classification, `ports` the port rows in socket
/// order of first appearance.
pub open spec fn tick_outcome<F: Fn(u32, &str) -> Option<String>>(
    cpu_before: CpuTracker,
    lines_before: Map<Seq<char>, Option<String>>,
    lines_after: Map<Seq<char>, Option<String>>,
    read: F,
    captured_at_millis: i64,
    raw: Seq<RawProcess>,
    endpoints: Seq<RawEndpoint>,
    s: Snapshot,
    rows: Seq<ProcessRow>,
    unsorted: Seq<Service>,
    joined: Seq<Service>,
    ports: Seq<crate::models::PortRow>,
) -> bool {
    // The process rows, before the join marks them.
    &&& rows.len() == readable(raw).len()
    &&& forall|i: int|
        0 <= i < rows.len() ==> process_row_for(
            #[trigger] rows[i],
            readable(raw)[i],
            captured_at_millis,
            spec_shares(
                cpu_before.remembered(),
                cpu_before.last_scan(),
                cpu_before.cores(),
                captured_at_millis,
                process_readings(raw),
            ),
        )
    // Marked: a row is a service exactly when its process
    // holds a non-system port.
    &&& s.processes@.len() == rows.len()
    &&& forall|i: int|
        0 <= i < rows.len() ==> #[trigger] s.processes@[i] == (ProcessRow {
            is_service: crate::logic::service::is_service_id(
                rows,
                endpoints,
                rows[i].id@,
            ),
            ..rows[i]
        })
    // The join, then classification.
    &&& unsorted.len() == service_rows(rows, endpoints).len()
    &&& forall|i: int|
        0 <= i < unsorted.len() ==> service_for(
            #[trigger] unsorted[i],
            service_rows(rows, endpoints)[i],
            endpoints,
        )
    &&& is_stable_sort_of(joined, unsorted)
    &&& refreshed(lines_before, joined, read, lines_after)
    &&& s.services@.len() == joined.len()
    &&& forall|i: int|
        0 <= i < joined.len() ==> classified(
            #[trigger] s.services@[i],
            joined[i],
            lines_after,
        )
    // The port rows, labelled by the join.
    &&& ports.len() == first_occurrences(endpoints).len()
    &&& forall|i: int|
        0 <= i < ports.len() ==> row_for(
            #[trigger] ports[i],
            first_occurrences(endpoints)[i],
            raw,
            rows,
            labels_of(unsorted),
        )
    &&& is_stable_sort_of(s.ports@, ports)
}

pub open spec fn socket_scan_incomplete() -> Seq<char> {
    "The socket scan did not complete."@
}

pub open spec fn ticks_exhausted() -> Seq<char> {
    "The sampler has run out of tick numbers."@
}

pub open spec fn too_many_processes() -> Seq<char> {
    "The process scan listed more processes than can be counted."@
}

/// `after` is `before` advanced by one tick captured at `captured_at_millis`:
/// the sequence is one higher, and the snapshot held carries that sequence
/// and that instant.
pub open spec fn tick_stamps(before: SamplerState, after: SamplerState, captured_at_millis: i64) -> bool {
    &&& after.sequence() == before.sequence() + 1
    &&& after.last_snapshot().sequence == after.sequence()
    &&& after.last_snapshot().captured_at@ == spec_iso8601(captured_at_millis as int)
}

/// Everything the sampler remembers between ticks. Anything a scan can
/// recompute is not kept.
pub struct SamplerState {
    /// The most recent snapshot; what is served between scans.
    snapshot: Snapshot,
    cpu: CpuTracker,
    system_cpu: SystemCpuTracker,
    command_lines: Assoc<Option<String>>,
    sequence: u64,
    interval_ms: u64,
    running: bool,
}

impl SamplerState {
    pub closed spec fn wf(&self) -> bool {
        &&& self.cpu.wf()
        &&& self.command_lines.wf()
        &&& self.snapshot.sequence == self.sequence
    }

    pub closed spec fn sequence(&self) -> u64 {
        self.sequence
    }

    pub closed spec fn last_snapshot(&self) -> Snapshot {
        self.snapshot
    }

    pub closed spec fn interval(&self) -> u64 {
        self.interval_ms
    }

    pub closed spec fn running(&self) -> bool {
        self.running
    }

    pub closed spec fn lines(&self) -> Map<Seq<char>, Option<String>> {
        self.command_lines.view()
    }

    pub closed spec fn cpu(&self) -> CpuTracker {
        self.cpu
    }

    pub closed spec fn system_cpu(&self) -> SystemCpuTracker {
        self.system_cpu
    }

    /// A stopped sampler that has scanned nothing, holding the empty
    /// snapshot captured at `captured_at_millis` so there is always something
    /// well formed to serve.
    pub fn new(logical_cores: u32, interval_ms: u64, captured_at_millis: i64) -> (s: Self)
        ensures
            s.wf(),
            s.sequence() == 0,
            s.interval() == interval_ms,
            !s.running(),
            s.lines() == Map::<Seq<char>, Option<String>>::empty(),
            s.cpu().remembered() == Map::<Seq<char>, u64>::empty(),
            s.cpu().last_scan() is None,
            s.cpu().cores() == if logical_cores == 0 { 1 } else { logical_cores as nat },
            s.system_cpu().last_total() is None,
            s.system_cpu().last_per_core() is None,
            s.last_snapshot().sequence == 0,
            s.last_snapshot().captured_at@ == spec_iso8601(captured_at_millis as int),
            s.last_snapshot().services@.len() == 0,
            s.last_snapshot().processes@.len() == 0,
            s.last_snapshot().ports@.len() == 0,
            s.last_snapshot().conflicts is None,
    {
        SamplerState {
            snapshot: empty_snapshot(captured_at_millis),
            cpu: CpuTracker::new(logical_cores),
            system_cpu: SystemCpuTracker::new(),
            command_lines: Assoc::new(),
            sequence: 0,
            interval_ms,
            running: false,
        }
    }

    /// The most recent snapshot: a state read, never a scan.
    pub fn snapshot(&self) -> (r: &Snapshot)
        ensures
            *r == self.last_snapshot(),
    {
        &self.snapshot
    }

    /// The per-process CPU tracker.
    pub fn cpu_tracker(&self) -> (r: &CpuTracker)
        ensures
            *r == self.cpu(),
    {
        &self.cpu
    }

    pub fn sequence_number(&self) -> (r: u64)
        ensures
            r == self.sequence(),
    {
        self.sequence
    }

    pub fn interval_ms(&self) -> (r: u64)
        ensures
            r == self.interval(),
    {
        self.interval_ms
    }

    pub fn is_running(&self) -> (r: bool)
        ensures
            r == self.running(),
    {
        self.running
    }

    /// Marks the sampler running or stopped; returns whether it was running.
    pub fn set_running(&mut self, running: bool) -> (was: bool)
        ensures
            was == old(self).running(),
            final(self).running() == running,
            final(self).wf() == old(self).wf(),
            final(self).sequence() == old(self).sequence(),
            final(self).interval() == old(self).interval(),
            final(self).lines() == old(self).lines(),
            final(self).cpu() == old(self).cpu(),
            final(self).system_cpu() == old(self).system_cpu(),
            final(self).last_snapshot() == old(self).last_snapshot(),
    {
        let was = self.running;
        self.running = running;
        was
    }

    /// Change the cadence; a refused one leaves the current cadence alone.
    pub fn set_interval(&mut self, interval_ms: u64) -> (r: Result<(), SystemError>)
        ensures
            r is Ok <==> interval_in_range(interval_ms),
            final(self).interval() == if interval_in_range(interval_ms) {
                interval_ms
            } else {
                old(self).interval()
            },
            r is Err ==> r == Err::<(), SystemError>(
                SystemError::InvalidInterval {
                    requested_ms: interval_ms,
                    min_ms: MIN_INTERVAL_MS,
                    max_ms: MAX_INTERVAL_MS,
                },
            ),
            final(self).wf() == old(self).wf(),
            final(self).sequence() == old(self).sequence(),
            final(self).running() == old(self).running(),
            final(self).lines() == old(self).lines(),
            final(self).cpu() == old(self).cpu(),
            final(self).system_cpu() == old(self).system_cpu(),
            final(self).last_snapshot() == old(self).last_snapshot(),
    {
        match validate_interval(interval_ms) {
            Ok(ms) => {
                self.interval_ms = ms;
                Ok(())
            },
            Err(e) => Err(e),
        }
    }

    /// Machine-wide and per-core busy shares for this tick, from whatever
    /// readings the machine gave; a reading that failed is simply absent and
    /// leaves its previous value in place.
    pub fn observe_system(&mut self, total: Option<CpuTimes>, per_core: Option<Vec<CpuTimes>>) -> (r: (
        Option<BusyShare>,
        Option<Vec<BusyShare>>,
    ))
        ensures
            r.0 == match (total, old(self).system_cpu().last_total()) {
                (Some(now), Some(previous)) => spec_busy_share(previous, now),
                _ => None,
            },
            final(self).system_cpu().last_total() == match total {
                Some(now) => Some(now),
                None => old(self).system_cpu().last_total(),
            },
            match r.1 {
                Some(v) => per_core is Some && old(self).system_cpu().last_per_core() is Some
                    && spec_per_core(old(self).system_cpu().last_per_core()->Some_0, per_core->Some_0@)
                    == Some(v@),
                None => per_core is None || old(self).system_cpu().last_per_core() is None
                    || spec_per_core(old(self).system_cpu().last_per_core()->Some_0, per_core->Some_0@)
                    is None,
            },
            final(self).system_cpu().last_per_core() == match per_core {
                Some(now) => Some(now@),
                None => old(self).system_cpu().last_per_core(),
            },
            final(self).wf() == old(self).wf(),
            final(self).sequence() == old(self).sequence(),
            final(self).interval() == old(self).interval(),
            final(self).running() == old(self).running(),
            final(self).lines() == old(self).lines(),
            final(self).cpu() == old(self).cpu(),
            final(self).last_snapshot() == old(self).last_snapshot(),
    {
        let machine = match total {
            Some(now) => self.system_cpu.observe(now),
            None => None,
        };
        let cores = match per_core {
            Some(now) => self.system_cpu.observe_per_core(now),
            None => None,
        };
        (machine, cores)
    }

    /// Top up the command-line cache for the services that need one, and drop
    /// what no longer does. Keyed by identity and read once: a failed read is
    /// remembered as a failure rather than retried every tick.
    pub fn refresh_command_lines<F: Fn(u32, &str) -> Option<String>>(&mut self, services: &Vec<Service>, read: &F)
        requires
            old(self).wf(),
            forall|pid: u32, at: &str| #[trigger] call_requires(*read, (pid, at)),
        ensures
            final(self).wf(),
            refreshed(old(self).lines(), services@, *read, final(self).lines()),
            final(self).sequence() == old(self).sequence(),
            final(self).interval() == old(self).interval(),
            final(self).running() == old(self).running(),
            final(self).cpu() == old(self).cpu(),
            final(self).system_cpu() == old(self).system_cpu(),
            final(self).last_snapshot() == old(self).last_snapshot(),
    {
        let ghost before = self.command_lines.view();
        let mut next: Assoc<Option<String>> = Assoc::new();
        let mut i: usize = 0;
        while i < services.len()
            invariant
                self.wf(),
                self.command_lines.view() == before,
                forall|pid: u32, at: &str| #[trigger] call_requires(*read, (pid, at)),
                i <= services@.len(),
                next.wf(),
                forall|id: Seq<char>| #[trigger]
                    next.view().contains_key(id) <==> exists|k: int|
                        0 <= k < i && #[trigger] services@[k].id@ == id && spec_needs_command_line(
                            services@[k].process_name@,
                        ),
                forall|id: Seq<char>| #[trigger]
                    next.view().contains_key(id) && before.contains_key(id) ==> next.view()[id] == before[id],
                forall|id: Seq<char>| #[trigger]
                    next.view().contains_key(id) && !before.contains_key(id) ==> exists|k: int, at: &str|
                        #![trigger call_ensures(*read, (services@[k].pid, at), next.view()[id])]
                        0 <= k < i && services@[k].id@ == id && at@ == services@[k].started_at@
                            && call_ensures(*read, (services@[k].pid, at), next.view()[id]),
            decreases services@.len() - i,
        {
            let service = &services[i];
            let ghost id = service.id@;
            let ghost old_next = next.view();
            let ghost mut fresh_at: &str = "";
            let ghost mut fresh = false;
            if needs_command_line(service) && !next.contains_key(service.id.as_str()) {
                match self.command_lines.get(service.id.as_str()) {
                    Some(held) => {
                        let value = match held {
                            Some(line) => Some(line.clone()),
                            None => None,
                        };
                        next.insert(service.id.clone(), value);
                    },
                    None => {
                        let at = service.started_at.as_str();
                        let line = read(service.pid, at);
                        proof {
                            fresh_at = at;
                            fresh = true;
                        }
                        next.insert(service.id.clone(), line);
                    },
                }
            }
            proof {
                assert forall|k: Seq<char>| #[trigger] next.view().contains_key(k) <==> exists|m: int|
                    0 <= m < i + 1 && #[trigger] services@[m].id@ == k && spec_needs_command_line(
                        services@[m].process_name@,
                    ) by {
                    if k == id && spec_needs_command_line(services@[i as int].process_name@) {
                        assert(services@[i as int].id@ == k);
                    }
                }
                assert forall|k: Seq<char>| #[trigger] next.view().contains_key(k) && !before.contains_key(k)
                    implies exists|m: int, at: &str|
                    #![trigger call_ensures(*read, (services@[m].pid, at), next.view()[k])]
                    0 <= m < i + 1 && services@[m].id@ == k && at@ == services@[m].started_at@
                        && call_ensures(*read, (services@[m].pid, at), next.view()[k]) by {
                    if fresh && k == id {
                        assert(call_ensures(*read, (services@[i as int].pid, fresh_at), next.view()[k]));
                    } else {
                        assert(old_next.contains_key(k));
                        let (m, at) = choose|m: int, at: &str|
                            #![trigger call_ensures(*read, (services@[m].pid, at), old_next[k])]
                            0 <= m < i && services@[m].id@ == k && at@ == services@[m].started_at@
                                && call_ensures(*read, (services@[m].pid, at), old_next[k]);
                        assert(call_ensures(*read, (services@[m].pid, at), next.view()[k]));
                    }
                }
            }
            i = i + 1;
        }
        self.command_lines = next;
    }

    /// Why this tick's scans cannot be folded in, or none when they can. A
    /// failed process scan reports its error and a socket scan that did not
    /// complete says so; either way the snapshot held stays as it was. When
    /// none is returned, `advance` may be called with these scans.
    pub fn scan_failure(
        &self,
        processes: &Result<Vec<RawProcess>, SystemError>,
        endpoints: &Option<Vec<RawEndpoint>>,
    ) -> (r: Option<String>)
        ensures
            match processes {
                Err(e) => r matches Some(m) && m@ == e.spec_message(),
                Ok(raw) => if endpoints is None {
                    r matches Some(m) && m@ == socket_scan_incomplete()
                } else if self.sequence() == u64::MAX {
                    r matches Some(m) && m@ == ticks_exhausted()
                } else if raw@.len() > u32::MAX {
                    r matches Some(m) && m@ == too_many_processes()
                } else {
                    r is None
                },
            },
    {
        match processes {
            Err(e) => Some(e.message()),
            Ok(raw) => {
                if endpoints.is_none() {
                    Some(string_of(chars_of("The socket scan did not complete.").as_slice()))
                } else if self.sequence == u64::MAX {
                    Some(string_of(chars_of("The sampler has run out of tick numbers.").as_slice()))
                } else if raw.len() > 0xFFFF_FFFF {
                    Some(string_of(chars_of("The process scan listed more processes than can be counted.").as_slice()))
                } else {
                    None
                }
            },
        }
    }

    /// Fold one successful scan into state; its snapshot replaces the one
    /// held.
    ///
    /// The sequence advances by one. Processes are mapped and measured
    /// against the previous scan; the join decides which are services and
    /// marks their rows; sockets become port rows labelled by that join;
    /// command lines are topped up for the services that need them, through
    /// `read`; and every service is classified.
    pub fn advance<F: Fn(u32, &str) -> Option<String>>(
        &mut self,
        captured_at_millis: i64,
        raw: &[RawProcess],
        endpoints: &[RawEndpoint],
        read: &F,
    )
        requires
            old(self).wf(),
            old(self).sequence() < u64::MAX,
            raw@.len() <= u32::MAX,
            forall|pid: u32, at: &str| #[trigger] call_requires(*read, (pid, at)),
        ensures
            final(self).wf(),
            final(self).sequence() == old(self).sequence() + 1,
            final(self).interval() == old(self).interval(),
            final(self).running() == old(self).running(),
            final(self).system_cpu() == old(self).system_cpu(),
            final(self).last_snapshot().sequence == final(self).sequence(),
            final(self).last_snapshot().captured_at@ == spec_iso8601(captured_at_millis as int),
            final(self).last_snapshot().conflicts is None,
            tick_stamps(*old(self), *final(self), captured_at_millis),
            final(self).cpu().remembered() == spec_totals(process_readings(raw@)),
            final(self).cpu().last_scan() == Some(captured_at_millis),
            final(self).cpu().cores() == old(self).cpu().cores(),
            exists|rows: Seq<ProcessRow>, unsorted: Seq<Service>, joined: Seq<Service>, ports: Seq<
                crate::models::PortRow,
            >|
                #[trigger] tick_outcome(
                    old(self).cpu(),
                    old(self).lines(),
                    final(self).lines(),
                    *read,
                    captured_at_millis,
                    raw@,
                    endpoints@,
                    final(self).last_snapshot(),
                    rows,
                    unsorted,
                    joined,
                    ports,
                ),
    {
        let next_sequence = self.sequence + 1;
        let mapping = map_processes(raw, captured_at_millis, &mut self.cpu);
        let ghost rows = mapping.rows@;
        let join = join_services(&mapping.rows, endpoints);
        let ghost unsorted = choose|unsorted: Seq<Service>|
            {
                &&& unsorted.len() == service_rows(rows, endpoints@).len()
                &&& forall|i: int|
                    0 <= i < unsorted.len() ==> service_for(
                        #[trigger] unsorted[i],
                        service_rows(rows, endpoints@)[i],
                        endpoints@,
                    )
                &&& is_stable_sort_of(join.services@, unsorted)
                &&& join.label_map() == labels_of(unsorted)
            };
        let ports = map_ports(endpoints, raw, mapping.rows.as_slice(), join.labels());
        let ghost port_rows = choose|unsorted_ports: Seq<crate::models::PortRow>|
            {
                &&& unsorted_ports.len() == first_occurrences(endpoints@).len()
                &&& forall|i: int|
                    0 <= i < unsorted_ports.len() ==> row_for(
                        #[trigger] unsorted_ports[i],
                        first_occurrences(endpoints@)[i],
                        raw@,
                        rows,
                        join.label_map(),
                    )
                &&& is_stable_sort_of(ports@, unsorted_ports)
            };
        let mut process_rows = mapping.rows;
        let mut marked: Vec<ProcessRow> = Vec::new();
        while process_rows.len() > 0
            invariant
                join.wf(),
                marked@.len() + process_rows@.len() == rows.len(),
                forall|m: int| 0 <= m < process_rows@.len() ==> #[trigger] process_rows@[m] == rows[marked@.len() + m],
                forall|id: Seq<char>| #[trigger] join.label_map().contains_key(id) <==> crate::logic::service::is_service_id(rows, endpoints@, id),
                forall|m: int|
                    0 <= m < marked@.len() ==> #[trigger] marked@[m] == (ProcessRow {
                        is_service: crate::logic::service::is_service_id(rows, endpoints@, rows[m].id@),
                        ..rows[m]
                    }),
            decreases process_rows@.len(),
        {
            let row = process_rows.remove(0);
            let is_service = join.is_service(row.id.as_str());
            let ghost m = marked@.len();
            marked.push(ProcessRow { is_service, ..row });
        }
        let mut services = join.services;
        let ghost joined = services@;
        self.refresh_command_lines(&services, read);
        apply(&mut services, &self.command_lines);
        let snapshot = Snapshot {
            sequence: next_sequence,
            captured_at: to_iso8601(captured_at_millis),
            services,
            processes: marked,
            ports,
            conflicts: None,
        };
        self.sequence = next_sequence;
        self.snapshot = snapshot;
        proof {
            assert(tick_outcome(
                old(self).cpu(),
                old(self).lines(),
                self.lines(),
                *read,
                captured_at_millis,
                raw@,
                endpoints@,
                self.last_snapshot(),
                rows,
                unsorted,
                joined,
                port_rows,
            ));
        }
    }
}

/// One tick's three views agree: a process row is marked as a service
/// exactly when a service with its identity is in the snapshot, every
/// service is one of the tick's process rows, and every service carries the
/// sentence that classified it.
pub proof fn law_a_tick_agrees_with_itself<F: Fn(u32, &str) -> Option<String>>(
    cpu_before: CpuTracker,
    lines_before: Map<Seq<char>, Option<String>>,
    lines_after: Map<Seq<char>, Option<String>>,
    read: F,
    captured_at_millis: i64,
    raw: Seq<RawProcess>,
    endpoints: Seq<RawEndpoint>,
    s: Snapshot,
    rows: Seq<ProcessRow>,
    unsorted: Seq<Service>,
    joined: Seq<Service>,
    ports: Seq<crate::models::PortRow>,
)
    requires
        tick_outcome(
            cpu_before,
            lines_before,
            lines_after,
            read,
            captured_at_millis,
            raw,
            endpoints,
            s,
            rows,
            unsorted,
            joined,
            ports,
        ),
    ensures
        forall|i: int|
            0 <= i < s.processes@.len() ==> (#[trigger] s.processes@[i].is_service <==> exists|k: int|
                0 <= k < s.services@.len() && s.services@[k].id@ == s.processes@[i].id@),
        forall|k: int|
            0 <= k < s.services@.len() ==> exists|i: int|
                0 <= i < s.processes@.len() && s.processes@[i].id@ == (#[trigger] s.services@[k]).id@,
        forall|k: int| 0 <= k < s.services@.len() ==> (#[trigger] s.services@[k]).relevance_reason@.len() > 0,
{
    let perm = choose|perm: Seq<int>| is_stable_arrangement(joined, unsorted, perm);
    let sr = service_rows(rows, endpoints);
    // Each service's identity is that of the service row it came from.
    assert forall|k: int| 0 <= k < s.services@.len() implies 0 <= #[trigger] perm[k] < sr.len()
        && s.services@[k].id@ == sr[perm[k]].id@ by {
        assert(classified(s.services@[k], joined[k], lines_after));
        assert(joined[k] == unsorted[perm[k]]);
        assert(service_for(unsorted[perm[k]], sr[perm[k]], endpoints));
    }
    assert forall|k: int| 0 <= k < s.services@.len() implies (#[trigger] s.services@[k]).relevance_reason@.len()
        > 0 by {
        assert(classified(s.services@[k], joined[k], lines_after));
        law_every_verdict_is_a_sentence(joined[k].process_name@, line_for(lines_after, joined[k].id@));
    }
    assert forall|k: int| 0 <= k < s.services@.len() implies exists|i: int|
        0 <= i < s.processes@.len() && s.processes@[i].id@ == (#[trigger] s.services@[k]).id@ by {
        let j = perm[k];
        law_services_come_from_qualifying_rows(rows, endpoints, j);
        let i = choose|i: int| 0 <= i < rows.len() && rows[i] == sr[j];
        assert(s.processes@[i].id@ == rows[i].id@);
    }
    assert forall|i: int| 0 <= i < s.processes@.len() implies (#[trigger] s.processes@[i].is_service
        <==> exists|k: int| 0 <= k < s.services@.len() && s.services@[k].id@ == s.processes@[i].id@) by {
        let id = rows[i].id@;
        assert(s.processes@[i].id@ == id);
        assert(s.processes@[i].is_service == is_service_id(rows, endpoints, id));
        if is_service_id(rows, endpoints, id) {
            let j = choose|j: int| 0 <= j < sr.len() && #[trigger] sr[j].id@ == id;
            assert(0 <= j < unsorted.len());
            lemma_arrangement_is_onto(joined, unsorted, perm, j);
            let k = choose|k: int| 0 <= k < joined.len() && perm[k] == j;
            assert(s.services@[k].id@ == id);
        }
        if exists|k: int| 0 <= k < s.services@.len() && s.services@[k].id@ == id {
            let k = choose|k: int| 0 <= k < s.services@.len() && s.services@[k].id@ == id;
            assert(sr[perm[k]].id@ == id);
        }
    }
}

/// Successive ticks number their snapshots one apart, and a later capture
/// instant (within the years 0000 to 9999) gives a capture time that sorts
/// strictly later.
pub proof fn law_successive_ticks(
    t0: SamplerState,
    t1: SamplerState,
    t2: SamplerState,
    first_millis: i64,
    second_millis: i64,
)
    requires
        tick_stamps(t0, t1, first_millis),
        tick_stamps(t1, t2, second_millis),
        first_millis < second_millis,
        crate::timestamps::first_renderable() <= first_millis,
        second_millis <= crate::timestamps::last_renderable(),
    ensures
        t2.last_snapshot().sequence == t1.last_snapshot().sequence + 1,
        t1.last_snapshot().sequence == t0.sequence() + 1,
        crate::order::text_lt(t1.last_snapshot().captured_at@, t2.last_snapshot().captured_at@),
{
    crate::timestamps::law_timestamps_sort_like_instants(first_millis as int, second_millis as int);
}

/// When the scan lists each PID once, no two process rows of a tick share
/// an identity.
pub proof fn law_tick_rows_have_distinct_identities<F: Fn(u32, &str) -> Option<String>>(
    cpu_before: CpuTracker,
    lines_before: Map<Seq<char>, Option<String>>,
    lines_after: Map<Seq<char>, Option<String>>,
    read: F,
    captured_at_millis: i64,
    raw: Seq<RawProcess>,
    endpoints: Seq<RawEndpoint>,
    s: Snapshot,
    rows: Seq<ProcessRow>,
    unsorted: Seq<Service>,
    joined: Seq<Service>,
    ports: Seq<crate::models::PortRow>,
)
    requires
        tick_outcome(
            cpu_before,
            lines_before,
            lines_after,
            read,
            captured_at_millis,
            raw,
            endpoints,
            s,
            rows,
            unsorted,
            joined,
            ports,
        ),
        pids_distinct(raw),
    ensures
        forall|i: int, j: int|
            0 <= i < j < s.processes@.len() ==> #[trigger] s.processes@[i].id@ != #[trigger] s.processes@[j].id@,
{
    law_rows_have_distinct_identities(
        raw,
        rows,
        captured_at_millis,
        spec_shares(
            cpu_before.remembered(),
            cpu_before.last_scan(),
            cpu_before.cores(),
            captured_at_millis,
            process_readings(raw),
        ),
    );
    assert forall|i: int, j: int| 0 <= i < j < s.processes@.len() implies #[trigger] s.processes@[i].id@
        != #[trigger] s.processes@[j].id@ by {
        assert(s.processes@[i].id@ == rows[i].id@ && s.processes@[j].id@ == rows[j].id@);
    }
}

proof fn lemma_first_occurrences_come_from(e: Seq<RawEndpoint>)
    ensures
        forall|j: int| 0 <= j < first_occurrences(e).len() ==> e.contains(#[trigger] first_occurrences(e)[j]),
    decreases e.len(),
{
    if e.len() > 0 {
        let rest = e.drop_last();
        lemma_first_occurrences_come_from(rest);
        assert forall|j: int| 0 <= j < first_occurrences(e).len() implies e.contains(
            #[trigger] first_occurrences(e)[j],
        ) by {
            if j < first_occurrences(rest).len() {
                let x = first_occurrences(rest)[j];
                assert(first_occurrences(e)[j] == x);
                let k = choose|k: int| 0 <= k < rest.len() && rest[k] == x;
                assert(e[k] == x);
            } else {
                assert(first_occurrences(e)[j] == e[e.len() - 1]);
            }
        }
    }
}

proof fn lemma_identity_for(rows: Seq<ProcessRow>, pid: u32)
    ensures
        identity_for(rows, pid) matches Some(id) ==> exists|i: int|
            0 <= i < rows.len() && rows[i].pid == pid && #[trigger] rows[i].id@ == id,
        identity_for(rows, pid) is None ==> forall|i: int| 0 <= i < rows.len() ==> (#[trigger] rows[i]).pid != pid,
    decreases rows.len(),
{
    if rows.len() > 0 {
        let rest = rows.drop_last();
        lemma_identity_for(rest, pid);
        if rows.last().pid == pid {
            assert(rows[rows.len() - 1].id@ == rows.last().id@);
        } else {
            if let Some(id) = identity_for(rest, pid) {
                let i = choose|i: int| 0 <= i < rest.len() && rest[i].pid == pid && #[trigger] rest[i].id@ == id;
                assert(rows[i] == rest[i]);
            } else {
                assert forall|i: int| 0 <= i < rows.len() implies (#[trigger] rows[i]).pid != pid by {
                    if i < rest.len() {
                        assert(rows[i] == rest[i]);
                    }
                }
            }
        }
    }
}

proof fn lemma_name_for_listed(raw: Seq<RawProcess>, pid: u32, k: int)
    requires
        0 <= k < raw.len(),
        raw[k].pid == pid,
    ensures
        name_for(raw, pid) is Some,
    decreases raw.len(),
{
    if raw.last().pid != pid {
        assert(raw.drop_last()[k] == raw[k]);
        lemma_name_for_listed(raw.drop_last(), pid, k);
    }
}

proof fn lemma_label_of(services: Seq<Service>, id: Seq<char>)
    ensures
        labels_of(services).contains_key(id) ==> exists|j: int|
            0 <= j < services.len() && services[j].id@ == id && #[trigger] services[j].label
                == labels_of(services)[id],
        !labels_of(services).contains_key(id) ==> forall|j: int|
            0 <= j < services.len() ==> (#[trigger] services[j]).id@ != id,
    decreases services.len(),
{
    if services.len() > 0 {
        let rest = services.drop_last();
        lemma_label_of(rest, id);
        if services.last().id@ == id {
            assert(services[services.len() - 1] == services.last());
        } else if labels_of(rest).contains_key(id) {
            let j = choose|j: int|
                0 <= j < rest.len() && rest[j].id@ == id && #[trigger] rest[j].label == labels_of(rest)[id];
            assert(services[j] == rest[j]);
        } else {
            assert forall|j: int| 0 <= j < services.len() implies (#[trigger] services[j]).id@ != id by {
                if j < rest.len() {
                    assert(services[j] == rest[j]);
                }
            }
        }
    }
}

/// Every port row of a tick is one of this tick's sockets, and points only
/// at this tick: it carries the identity of the process row holding its PID
/// (none when no row does, as for a process that exited or could not be
/// read), and the label of that identity's service (none when it is no
/// service).
pub proof fn law_port_rows_point_at_this_tick<F: Fn(u32, &str) -> Option<String>>(
    cpu_before: CpuTracker,
    lines_before: Map<Seq<char>, Option<String>>,
    lines_after: Map<Seq<char>, Option<String>>,
    read: F,
    captured_at_millis: i64,
    raw: Seq<RawProcess>,
    endpoints: Seq<RawEndpoint>,
    s: Snapshot,
    rows: Seq<ProcessRow>,
    unsorted: Seq<Service>,
    joined: Seq<Service>,
    ports: Seq<crate::models::PortRow>,
    i: int,
)
    requires
        tick_outcome(
            cpu_before,
            lines_before,
            lines_after,
            read,
            captured_at_millis,
            raw,
            endpoints,
            s,
            rows,
            unsorted,
            joined,
            ports,
        ),
        0 <= i < s.ports@.len(),
    ensures
        exists|e: RawEndpoint|
            endpoints.contains(e) && #[trigger] e.pid == s.ports@[i].pid && e.port == s.ports@[i].port
                && e.protocol == s.ports@[i].protocol,
        s.ports@[i].process_id matches Some(id) ==> exists|k: int|
            0 <= k < s.processes@.len() && s.processes@[k].pid == s.ports@[i].pid && #[trigger] s.processes@[k].id@
                == id@,
        s.ports@[i].process_id is None ==> forall|k: int|
            0 <= k < s.processes@.len() ==> (#[trigger] s.processes@[k]).pid != s.ports@[i].pid,
        s.ports@[i].service_label matches Some(l) ==> (s.ports@[i].process_id matches Some(id) && exists|k: int|
            0 <= k < s.services@.len() && #[trigger] s.services@[k].id@ == id@ && s.services@[k].label@ == l@),
        (s.ports@[i].service_label is None && s.ports@[i].process_id is Some) ==> forall|k: int|
            0 <= k < s.services@.len() ==> (#[trigger] s.services@[k]).id@ != s.ports@[i].process_id->Some_0@,
{
    let pperm = choose|perm: Seq<int>| crate::order::is_stable_arrangement(s.ports@, ports, perm);
    let j = pperm[i];
    let fo = first_occurrences(endpoints);
    let e = fo[j];
    let r = s.ports@[i];
    assert(r == ports[j]);
    assert(row_for(r, e, raw, rows, labels_of(unsorted)));
    lemma_first_occurrences_come_from(endpoints);
    assert(endpoints.contains(e));
    let pid = r.pid;
    lemma_identity_for(rows, pid);
    crate::logic::process::lemma_readable_comes_from(raw);
    match r.process_id {
        Some(id) => {
            let k = choose|k: int| 0 <= k < rows.len() && rows[k].pid == pid && #[trigger] rows[k].id@ == id@;
            assert(s.processes@[k].id@ == rows[k].id@ && s.processes@[k].pid == rows[k].pid);
        },
        None => {
            assert forall|k: int| 0 <= k < s.processes@.len() implies (#[trigger] s.processes@[k]).pid != pid by {
                assert(s.processes@[k].pid == rows[k].pid);
                if rows[k].pid == pid {
                    assert(process_row_for(
                        rows[k],
                        readable(raw)[k],
                        captured_at_millis,
                        spec_shares(
                            cpu_before.remembered(),
                            cpu_before.last_scan(),
                            cpu_before.cores(),
                            captured_at_millis,
                            process_readings(raw),
                        ),
                    ));
                    let q = choose|q: int| 0 <= q < raw.len() && #[trigger] readable(raw)[k] == raw[q];
                    lemma_name_for_listed(raw, pid, q);
                }
            }
        },
    }
    let sperm = choose|perm: Seq<int>| is_stable_arrangement(joined, unsorted, perm);
    if let Some(id) = r.process_id {
        lemma_label_of(unsorted, id@);
        if let Some(l) = r.service_label {
            let u = choose|u: int|
                0 <= u < unsorted.len() && unsorted[u].id@ == id@ && #[trigger] unsorted[u].label == labels_of(
                    unsorted,
                )[id@];
            lemma_arrangement_is_onto(joined, unsorted, sperm, u);
            let k = choose|k: int| 0 <= k < joined.len() && sperm[k] == u;
            assert(classified(s.services@[k], joined[k], lines_after));
            assert(s.services@[k].id@ == id@);
        } else {
            assert forall|k: int| 0 <= k < s.services@.len() implies (#[trigger] s.services@[k]).id@ != id@ by {
                assert(classified(s.services@[k], joined[k], lines_after));
                assert(joined[k] == unsorted[sperm[k]]);
            }
        }
    }
}

/// The cadence accepted is a quarter of a second to a minute, both ends
/// included; anything else is refused.
pub proof fn law_interval_bounds(interval_ms: u64)
    ensures
        interval_in_range(interval_ms) <==> 250 <= interval_ms <= 60_000,
{
}

} // verus!
