//! The decisions around the command-driven operations: reading a process's
//! slow fields, terminating it, and handing a URL to the shell.
//!
//! Windows recycles PIDs, so every operation re-reads the process's creation
//! time and compares it with the identity the caller holds. A mismatch is a
//! refusal.
use vstd::prelude::*;

use crate::errors::SystemError;
use crate::logic::url::{spec_validate, validate};
use crate::models::{FieldState, ProcessDetail, ProcessId, TerminateResult};
use crate::text::{
    before_nul, chars_of, decimal, decode_utf16_lossy, extend_str, nul_position, push_decimal,
    string_of, trim, trim_chars, utf16_lossy,
};
use crate::time::{
    filetime_in_range, filetime_to_unix_millis, spec_filetime_in_range, spec_filetime_millis, spec_iso8601,
    to_iso8601,
};

verus! {

/// What opening a PID for a verified operation came to.
#[derive(Debug, Clone)]
pub enum AccessOutcome {
    /// The PID still names the process the caller meant.
    Verified,
    /// The PID is alive but started at another time: a different process.
    IdentityMismatch { actual: String },
    /// The process is gone, or never existed.
    Gone,
    /// The process exists but this user may not open it.
    Denied,
}

/// Compare the creation time read now with the one the identity recorded.
/// Both sides are `to_iso8601` text, so equality is exact. A creation time
/// too far out of range to render names no identity, and is treated as a
/// process that is gone: nothing is acted on.
pub fn identity_check(created_low: u32, created_high: u32, expected_started_at: &str) -> (r: AccessOutcome)
    ensures
        !spec_filetime_in_range(created_low, created_high) ==> r is Gone,
        spec_filetime_in_range(created_low, created_high) ==> ({
            let actual = spec_iso8601(spec_filetime_millis(created_low, created_high));
            match r {
                AccessOutcome::Verified => actual == expected_started_at@,
                AccessOutcome::IdentityMismatch { actual: a } => a@ == actual && actual
                    != expected_started_at@,
                _ => false,
            }
        }),
{
    if !filetime_in_range(created_low, created_high) {
        return AccessOutcome::Gone;
    }
    let actual = to_iso8601(filetime_to_unix_millis(created_low, created_high));
    if crate::text::str_eq(actual.as_str(), expected_started_at) {
        AccessOutcome::Verified
    } else {
        AccessOutcome::IdentityMismatch { actual }
    }
}

/// A wide-character field: the text before the first NUL, decoded lossily,
/// or `Unavailable` when nothing but whitespace is left. A blank value would
/// read as "has none" rather than "could not be read".
pub fn text(chars: &[u16]) -> (r: FieldState<String>)
    ensures
        ({
            let value = utf16_lossy(before_nul(chars@));
            match r {
                FieldState::Value { value: v } => v@ == value && trim(value).len() > 0,
                FieldState::Unavailable => trim(value).len() == 0,
                FieldState::Denied => false,
            }
        }),
{
    let end = nul_position(chars);
    let decoded = decode_utf16_lossy(chars, end);
    let trimmed = trim_chars(decoded.as_slice());
    if trimmed.len() == 0 {
        return FieldState::Unavailable;
    }
    FieldState::Value { value: string_of(decoded.as_slice()) }
}

/// The detail panel for a process that could not be read: denied fields for
/// a refused open, unavailable ones for a vanished or recycled PID. None when
/// the identity was verified and the fields are to be read.
pub fn detail_for(process_id: &ProcessId, outcome: &AccessOutcome) -> (r: Option<ProcessDetail>)
    ensures
        match outcome {
            AccessOutcome::Verified => r is None,
            AccessOutcome::Denied => r matches Some(d) && d.process_id == *process_id
                && d.executable is Denied && d.command_line is Denied && d.working_directory is Denied,
            _ => r matches Some(d) && d.process_id == *process_id && d.executable is Unavailable
                && d.command_line is Unavailable && d.working_directory is Unavailable,
        },
{
    match outcome {
        AccessOutcome::Verified => None,
        AccessOutcome::Denied => Some(ProcessDetail::all(process_id.clone(), FieldState::Denied)),
        _ => Some(ProcessDetail::all(process_id.clone(), FieldState::Unavailable)),
    }
}

/// The detail panel for a verified process, from the two fields read from
/// it. The working directory is never read (reaching it means walking the
/// process's memory with a wider handle), so it is always unavailable.
pub fn verified_detail(
    process_id: &ProcessId,
    executable: FieldState<String>,
    command_line: FieldState<String>,
) -> (d: ProcessDetail)
    ensures
        d.process_id == *process_id,
        d.executable == executable,
        d.command_line == command_line,
        d.working_directory is Unavailable,
{
    ProcessDetail {
        process_id: process_id.clone(),
        executable,
        command_line,
        working_directory: FieldState::Unavailable,
    }
}

pub open spec fn gone_message(pid: u32) -> Seq<char> {
    "PID "@ + decimal(pid as nat) + " is no longer running. It exited before this action reached it."@
}

pub open spec fn recycled_message(pid: u32, actual: Seq<char>) -> Seq<char> {
    "PID "@ + decimal(pid as nat) + " now belongs to a different process, started at "@ + actual
        + ". Nothing was terminated."@
}

pub open spec fn refused_message(pid: u32, message: Seq<char>) -> Seq<char> {
    "Windows refused to terminate PID "@ + decimal(pid as nat) + ": "@ + message
}

/// What a terminate request answers when the identity check did not pass;
/// none when it did and the process may be terminated. A recycled PID is the
/// safety model working: it is refused and says whom the PID belongs to now.
pub fn terminate_refusal(pid: u32, outcome: &AccessOutcome) -> (r: Option<TerminateResult>)
    ensures
        match outcome {
            AccessOutcome::Verified => r is None,
            AccessOutcome::Denied => r == Some(TerminateResult::Denied),
            AccessOutcome::Gone => r matches Some(TerminateResult::Stale { message }) && message@
                == gone_message(pid),
            AccessOutcome::IdentityMismatch { actual } => r matches Some(
                TerminateResult::Stale { message },
            ) && message@ == recycled_message(pid, actual@),
        },
{
    match outcome {
        AccessOutcome::Verified => None,
        AccessOutcome::Denied => Some(TerminateResult::Denied),
        AccessOutcome::Gone => {
            let mut m: Vec<char> = Vec::new();
            extend_str(&mut m, "PID ");
            push_decimal(&mut m, pid as u64);
            extend_str(&mut m, " is no longer running. It exited before this action reached it.");
            Some(TerminateResult::Stale { message: string_of(m.as_slice()) })
        },
        AccessOutcome::IdentityMismatch { actual } => {
            let mut m: Vec<char> = Vec::new();
            extend_str(&mut m, "PID ");
            push_decimal(&mut m, pid as u64);
            extend_str(&mut m, " now belongs to a different process, started at ");
            extend_str(&mut m, actual.as_str());
            extend_str(&mut m, ". Nothing was terminated.");
            Some(TerminateResult::Stale { message: string_of(m.as_slice()) })
        },
    }
}

/// What a terminate request answers when the terminate call itself failed:
/// denied when access was refused, otherwise the system's own message.
pub fn terminate_failure(pid: u32, access_denied: bool, message: &str) -> (r: TerminateResult)
    ensures
        access_denied ==> r == TerminateResult::Denied,
        !access_denied ==> (r matches TerminateResult::Failed { message: m } && m@ == refused_message(
            pid,
            message@,
        )),
{
    if access_denied {
        return TerminateResult::Denied;
    }
    let mut m: Vec<char> = Vec::new();
    extend_str(&mut m, "Windows refused to terminate PID ");
    push_decimal(&mut m, pid as u64);
    extend_str(&mut m, ": ");
    extend_str(&mut m, message);
    TerminateResult::Failed { message: string_of(m.as_slice()) }
}

/// The URL to hand to the shell, or the refusal that keeps it from ever
/// reaching it.
pub fn url_for_shell(raw: &str) -> (r: Result<&str, SystemError>)
    ensures
        match (r, spec_validate(raw)) {
            (Ok(u), Ok(())) => u == raw,
            (Err(e), Err(rejection)) => e == (SystemError::RejectedUrl { reason: rejection.spec_reason() }),
            _ => false,
        },
{
    match validate(raw) {
        Ok(u) => Ok(u),
        Err(rejection) => Err(SystemError::rejected_url(rejection.reason())),
    }
}

/// The shell's answer: a code above 32 is success, which is the documented
/// contract of `ShellExecuteW`.
pub fn shell_outcome(code: usize) -> (r: Result<(), SystemError>)
    ensures
        code > 32 ==> r is Ok,
        code <= 32 ==> (r matches Err(SystemError::ApiFailure { call, code: c, message }) && call@
            == "ShellExecuteW"@ && c == code as u32 && message@
            == "Windows could not open the URL. Is a browser registered for http links?"@),
{
    if code > 32 {
        return Ok(());
    }
    let message = string_of(chars_of("Windows could not open the URL. Is a browser registered for http links?").as_slice());
    Err(SystemError::api_failure("ShellExecuteW", code as u32, message))
}

} // verus!
