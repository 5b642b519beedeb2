//! Process-table buffers.
use vstd::prelude::*;

use crate::logic::process::ProcessProbe;
use crate::text::{before_nul, decode_utf16_lossy, nul_position, string_of, utf16_lossy};
use crate::time::{filetime_in_range, filetime_to_unix_millis, spec_filetime_in_range, spec_filetime_millis};

verus! {

/// A `FILETIME`'s two halves as one 64-bit tick count.
///
/// Kernel and user times are durations, so unlike a creation time they need
/// no epoch adjustment.
pub fn filetime_ticks(low: u32, high: u32) -> (t: u64)
    ensures
        t == high as int * 0x1_0000_0000 + low as int,
{
    (high as u64) * 0x1_0000_0000 + (low as u64)
}

/// The executable name in a fixed-width wide buffer: everything before the
/// first NUL, decoded lossily. A name that is not valid UTF-16 is still a
/// process the user should see.
pub fn exe_name(buffer: &[u16]) -> (name: String)
    ensures
        name@ == utf16_lossy(before_nul(buffer@)),
{
    let end = nul_position(buffer);
    let chars = decode_utf16_lossy(buffer, end);
    string_of(chars.as_slice())
}

/// How opening a process for reading went.
#[derive(Debug, Clone, Copy, PartialEq, Eq, Structural)]
pub enum OpenAttempt {
    Opened,
    /// Refused: the process belongs to someone the caller may not inspect.
    AccessDenied,
    /// The documented answer for a PID that no longer exists.
    InvalidParameter,
    /// Any other failure; counted as a refusal.
    Failed,
}

/// A process's creation, kernel and user times, each as `FILETIME` halves.
#[derive(Debug, Clone, Copy, PartialEq, Eq, Structural)]
pub struct ProcessTimes {
    pub created_low: u32,
    pub created_high: u32,
    pub kernel_low: u32,
    pub kernel_high: u32,
    pub user_low: u32,
    pub user_high: u32,
}

pub open spec fn ticks_of(low: u32, high: u32) -> int {
    high as int * 0x1_0000_0000 + low as int
}

/// What probing `pid` comes to, from how far the reads got: opening it,
/// then its times (none when that read failed), then its working set (none
/// when that read failed). PID 0 is the Idle entry, which is no process; a
/// creation time too far out of range to convert names no identity, so that
/// process gets no row either.
pub open spec fn spec_probe(
    pid: u32,
    attempt: OpenAttempt,
    times: Option<ProcessTimes>,
    working_set: Option<u64>,
) -> ProcessProbe {
    if pid == 0 {
        ProcessProbe::Gone
    } else {
        match attempt {
            OpenAttempt::AccessDenied => ProcessProbe::AccessDenied,
            OpenAttempt::InvalidParameter => ProcessProbe::Gone,
            OpenAttempt::Failed => ProcessProbe::AccessDenied,
            OpenAttempt::Opened => match (times, working_set) {
                (Some(t), Some(ws)) => if !spec_filetime_in_range(t.created_low, t.created_high) {
                    ProcessProbe::Gone
                } else {
                    ProcessProbe::Read {
                    created_at_millis: spec_filetime_millis(t.created_low, t.created_high) as i64,
                    cpu_time_100ns: if ticks_of(t.kernel_low, t.kernel_high) + ticks_of(
                        t.user_low,
                        t.user_high,
                    ) > u64::MAX {
                        u64::MAX
                    } else {
                        (ticks_of(t.kernel_low, t.kernel_high) + ticks_of(t.user_low, t.user_high)) as u64
                    },
                    working_set_bytes: ws,
                }
                },
                // A read failing right after the open succeeded almost always
                // means the process exited in between.
                _ => ProcessProbe::Gone,
            },
        }
    }
}

/// Decide a probe from what the reads returned.
pub fn probe_outcome(
    pid: u32,
    attempt: OpenAttempt,
    times: Option<ProcessTimes>,
    working_set: Option<u64>,
) -> (p: ProcessProbe)
    ensures
        p == spec_probe(pid, attempt, times, working_set),
{
    if pid == 0 {
        return ProcessProbe::Gone;
    }
    match attempt {
        OpenAttempt::AccessDenied => ProcessProbe::AccessDenied,
        OpenAttempt::InvalidParameter => ProcessProbe::Gone,
        OpenAttempt::Failed => ProcessProbe::AccessDenied,
        OpenAttempt::Opened => match (times, working_set) {
            (Some(t), Some(ws)) => if !filetime_in_range(t.created_low, t.created_high) {
                ProcessProbe::Gone
            } else {
                ProcessProbe::Read {
                created_at_millis: filetime_to_unix_millis(t.created_low, t.created_high),
                cpu_time_100ns: filetime_ticks(t.kernel_low, t.kernel_high).saturating_add(
                    filetime_ticks(t.user_low, t.user_high),
                ),
                working_set_bytes: ws,
            }
                },
            _ => ProcessProbe::Gone,
        },
    }
}

/// How a probe ends. PID 0 is never a process. A refused open, and an open
/// that failed for an unexplained reason, count as access denied; an open
/// rejected as an invalid parameter means the process is gone. A process is
/// read exactly when it was opened, both reads succeeded and its creation
/// time is in range; it is then described by that creation time, its working
/// set as read, and its processor time: kernel plus user, each the 64-bit
/// count its two halves make, held at the largest count when the sum would
/// not fit.
pub proof fn law_probe_outcomes(pid: u32, attempt: OpenAttempt, times: Option<ProcessTimes>, working_set: Option<u64>)
    ensures
        pid == 0 ==> spec_probe(pid, attempt, times, working_set) is Gone,
        pid != 0 && (attempt is AccessDenied || attempt is Failed) ==> spec_probe(pid, attempt, times, working_set)
            is AccessDenied,
        pid != 0 && attempt is InvalidParameter ==> spec_probe(pid, attempt, times, working_set) is Gone,
        (spec_probe(pid, attempt, times, working_set) is Read) <==> (pid != 0 && attempt is Opened && times is Some
            && working_set is Some && spec_filetime_in_range(times->Some_0.created_low, times->Some_0.created_high)),
        spec_probe(pid, attempt, times, working_set) matches ProcessProbe::Read {
            created_at_millis,
            cpu_time_100ns,
            working_set_bytes,
        } ==> ({
            let t = times->Some_0;
            let total = (t.kernel_high as int * 0x1_0000_0000 + t.kernel_low as int) + (t.user_high as int
                * 0x1_0000_0000 + t.user_low as int);
            &&& created_at_millis == spec_filetime_millis(t.created_low, t.created_high)
            &&& working_set_bytes == working_set->Some_0
            &&& cpu_time_100ns == (if total > u64::MAX { u64::MAX as int } else { total })
        }),
{
}

} // verus!
