//! Machine-wide counter buffers.
use vstd::prelude::*;

use crate::logic::telemetry::CpuTimes;

verus! {

/// A `FILETIME` read as the plain 64-bit count of 100 ns units it holds.
pub fn filetime_u64(low: u32, high: u32) -> (t: u64)
    ensures
        t == high as int * 0x1_0000_0000 + low as int,
{
    (high as u64) * 0x1_0000_0000 + (low as u64)
}

/// The three counters read from one record of the kernel's per-processor
/// performance table, as signed 100 ns counts.
#[derive(Debug, Clone, Copy, PartialEq, Eq, Structural, Default)]
pub struct ProcessorRecord {
    pub idle_time: i64,
    /// Includes idle.
    pub kernel_time: i64,
    pub user_time: i64,
}

/// How many whole records a buffer of `bytes` holds; none when it cannot
/// hold even one, which is no answer rather than an empty machine.
pub fn record_count(bytes: u32, record_size: usize) -> (r: Option<usize>)
    requires
        record_size > 0,
    ensures
        r == (if bytes == 0 || (bytes as int) < record_size {
            None
        } else {
            Some((bytes as int / record_size as int) as usize)
        }),
{
    let bytes = bytes as usize;
    if bytes == 0 || bytes < record_size {
        None
    } else {
        Some(bytes / record_size)
    }
}

/// A signed counter read as unsigned; a negative one, which no processor
/// legitimately reports, reads as zero.
pub open spec fn clamp_counter(v: i64) -> u64 {
    if v < 0 {
        0
    } else {
        v as u64
    }
}

pub open spec fn record_times(r: ProcessorRecord) -> CpuTimes {
    CpuTimes {
        idle_100ns: clamp_counter(r.idle_time),
        kernel_100ns: clamp_counter(r.kernel_time),
        user_100ns: clamp_counter(r.user_time),
    }
}

fn unsigned_counter(v: i64) -> (r: u64)
    ensures
        r == clamp_counter(v),
{
    if v < 0 {
        0
    } else {
        v as u64
    }
}

/// Per-processor counters from the records the kernel wrote: the first
/// `written` of them, or as many as the buffer holds if it claims more. None
/// when it wrote none.
pub fn per_core_times(records: &[ProcessorRecord], written: usize) -> (r: Option<Vec<CpuTimes>>)
    ensures
        written == 0 ==> r is None,
        written > 0 ==> (r matches Some(v) && v@.len() == (if written < records@.len() {
            written as int
        } else {
            records@.len() as int
        }) && forall|i: int| 0 <= i < v@.len() ==> #[trigger] v@[i] == record_times(records@[i])),
{
    if written == 0 {
        return None;
    }
    let n: usize = if written < records.len() {
        written
    } else {
        records.len()
    };
    let mut out: Vec<CpuTimes> = Vec::new();
    let mut i: usize = 0;
    while i < n
        invariant
            n <= records@.len(),
            i <= n,
            out@.len() == i,
            forall|k: int| 0 <= k < i ==> #[trigger] out@[k] == record_times(records@[k]),
        decreases n - i,
    {
        let r = records[i];
        out.push(
            CpuTimes {
                idle_100ns: unsigned_counter(r.idle_time),
                kernel_100ns: unsigned_counter(r.kernel_time),
                user_100ns: unsigned_counter(r.user_time),
            },
        );
        i = i + 1;
    }
    Some(out)
}

/// Each core's counters are its own record's, field for field: idle time
/// from the idle counter, kernel time (idle included) from the kernel
/// counter, user time from the user counter. A counter is kept as it was
/// read, except that a negative one reads as zero.
pub proof fn law_core_counters_keep_their_fields(r: ProcessorRecord)
    ensures
        record_times(r).idle_100ns == (if r.idle_time < 0 { 0 } else { r.idle_time as int }),
        record_times(r).kernel_100ns == (if r.kernel_time < 0 { 0 } else { r.kernel_time as int }),
        record_times(r).user_100ns == (if r.user_time < 0 { 0 } else { r.user_time as int }),
{
}

} // verus!
