//! The records one sampler tick produces.
//!
//! These are the library's half of the IPC contract. Measurements are held as
//! integers: CPU as hundredths of a percent of the whole machine, uptime as
//! milliseconds. The serialised contract renders them as decimals.
use vstd::prelude::*;

use crate::text::{decimal, extend_str, push_decimal, string_of};

verus! {

/// Process identity: `{pid}-{startedAt}`. A bare PID is not an identity,
/// because Windows recycles them.
pub type ProcessId = String;

/// The identity text for a PID and a creation time.
pub open spec fn spec_process_id(pid: u32, started_at: Seq<char>) -> Seq<char> {
    decimal(pid as nat) + seq!['-'] + started_at
}

pub fn make_process_id(pid: u32, started_at: &str) -> (id: ProcessId)
    ensures
        id@ == spec_process_id(pid, started_at@),
{
    let mut out: Vec<char> = Vec::new();
    push_decimal(&mut out, pid as u64);
    out.push('-');
    extend_str(&mut out, started_at);
    string_of(out.as_slice())
}

#[derive(Debug, Clone, Copy, PartialEq, Eq, Structural, Hash)]
pub enum Protocol {
    Tcp,
    Udp,
}

/// One socket of a service.
#[derive(Debug, Clone)]
pub struct Endpoint {
    pub protocol: Protocol,
    /// Presentation form: `127.0.0.1` or `[::1]`.
    pub address: String,
    pub port: u16,
}

#[derive(Debug, Clone, Copy, PartialEq, Eq, Structural, Hash)]
pub enum ServiceStatus {
    Running,
    Stopped,
}

#[derive(Debug, Clone, Copy, PartialEq, Eq, Structural, Hash)]
pub enum ProcessStatus {
    Running,
    Sleeping,
}

#[derive(Debug, Clone, Copy, PartialEq, Eq, Structural, Hash)]
pub enum PortState {
    Listening,
}

/// Whether a service is part of the user's development work.
#[derive(Debug, Clone, Copy, PartialEq, Eq, Structural, Hash)]
pub enum Relevance {
    Developer,
    System,
    Unknown,
}

/// A process holding at least one listening socket on a non-system port.
#[derive(Debug, Clone)]
pub struct Service {
    pub id: ProcessId,
    pub label: String,
    /// `None` until project detection exists.
    pub framework: Option<String>,
    pub process_name: String,
    pub pid: u32,
    pub parent_pid: u32,
    /// Share of the whole machine, in hundredths of a percent (0..=10000).
    pub cpu_hundredths: u32,
    pub memory_bytes: u64,
    pub thread_count: u32,
    /// Process creation time, ISO-8601. Half of the identity.
    pub started_at: String,
    pub uptime_millis: u64,
    pub endpoints: Vec<Endpoint>,
    pub status: ServiceStatus,
    pub relevance: Relevance,
    pub relevance_reason: String,
}

/// One process the user owns.
#[derive(Debug, Clone)]
pub struct ProcessRow {
    pub id: ProcessId,
    pub pid: u32,
    pub parent_pid: u32,
    pub name: String,
    /// Share of the whole machine, in hundredths of a percent (0..=10000).
    pub cpu_hundredths: u32,
    pub memory_bytes: u64,
    pub thread_count: u32,
    pub started_at: String,
    pub uptime_millis: u64,
    pub status: ProcessStatus,
    /// True when this process also appears among the services.
    pub is_service: bool,
}

/// One socket, deliberately unmerged.
#[derive(Debug, Clone)]
pub struct PortRow {
    pub port: u16,
    pub protocol: Protocol,
    pub address: String,
    pub pid: u32,
    /// `None` when the socket could not be attributed to a process whose
    /// creation time is known; such a row is informational only.
    pub process_id: Option<ProcessId>,
    pub process_name: String,
    pub service_label: Option<String>,
    pub state: PortState,
}

/// Everything one sampler tick produces.
#[derive(Debug, Clone)]
pub struct Snapshot {
    pub sequence: u64,
    /// When the scan completed, ISO-8601.
    pub captured_at: String,
    pub services: Vec<Service>,
    pub processes: Vec<ProcessRow>,
    pub ports: Vec<PortRow>,
    /// `None` is "not computed", never a confident zero.
    pub conflicts: Option<u32>,
}

impl Snapshot {
    /// An empty snapshot for the given tick: nothing enumerated yet, and
    /// conflicts unknown.
    pub fn empty(sequence: u64, captured_at: String) -> (s: Self)
        ensures
            s.sequence == sequence,
            s.captured_at == captured_at,
            s.services@.len() == 0,
            s.processes@.len() == 0,
            s.ports@.len() == 0,
            s.conflicts is None,
    {
        Snapshot {
            sequence,
            captured_at,
            services: Vec::new(),
            processes: Vec::new(),
            ports: Vec::new(),
            conflicts: None,
        }
    }
}



/// One detail-panel field: its value, or why there is none.
#[derive(Debug, Clone)]
pub enum FieldState<T> {
    Value { value: T },
    /// Could not be read: the process is gone, is not the one asked about,
    /// or the field is empty.
    Unavailable,
    /// This user may not read it.
    Denied,
}

/// The slow fields of one process, read only when a detail panel opens.
#[derive(Debug, Clone)]
pub struct ProcessDetail {
    pub process_id: ProcessId,
    pub executable: FieldState<String>,
    pub command_line: FieldState<String>,
    pub working_directory: FieldState<String>,
}

impl ProcessDetail {
    /// Every field in the same state, which must carry no value.
    pub fn all(process_id: ProcessId, state: FieldState<String>) -> (d: Self)
        requires
            !(state is Value),
        ensures
            d.process_id == process_id,
            d.executable == state,
            d.command_line == state,
            d.working_directory == state,
    {
        let executable = empty_state(&state);
        let command_line = empty_state(&state);
        ProcessDetail { process_id, executable, command_line, working_directory: state }
    }
}

fn empty_state(s: &FieldState<String>) -> (r: FieldState<String>)
    requires
        !(*s is Value),
    ensures
        r == *s,
{
    match s {
        FieldState::Denied => FieldState::Denied,
        _ => FieldState::Unavailable,
    }
}

/// What a terminate request came to.
#[derive(Debug, Clone)]
pub enum TerminateResult {
    Terminated,
    Denied,
    /// The identity no longer names a running process; nothing was done.
    Stale { message: String },
    Failed { message: String },
}

} // verus!
