//! Error taxonomy for system operations.
//!
//! Access denial is not here: a process the app may not open is a fact about
//! that process and is carried as data (`ProcessProbe::AccessDenied`). Only
//! outcomes that stop an operation are errors.
use vstd::prelude::*;

use crate::text::{
    decimal, digits, extend_chars, extend_str, pad_left, push_decimal, push_digits, push_padded,
    string_of,
};

verus! {

/// A system operation that could not be completed.
#[derive(Debug, Clone, PartialEq, Eq)]
pub enum SystemError {
    /// A Win32 call failed. `call` names the function; `code` is the raw
    /// `HRESULT` or Win32 error code.
    ApiFailure { call: &'static str, code: u32, message: String },
    /// A caller asked the sampler to run at a cadence it will not run at. The
    /// bounds travel with the refusal so the caller can correct itself.
    InvalidInterval { requested_ms: u64, min_ms: u64, max_ms: u64 },
    /// A URL was refused before it reached the operating system.
    RejectedUrl { reason: &'static str },
}

impl SystemError {
    pub fn api_failure(call: &'static str, code: u32, message: String) -> (e: Self)
        ensures
            e == (SystemError::ApiFailure { call, code, message }),
    {
        SystemError::ApiFailure { call, code, message }
    }

    pub fn invalid_interval(requested_ms: u64, min_ms: u64, max_ms: u64) -> (e: Self)
        ensures
            e == (SystemError::InvalidInterval { requested_ms, min_ms, max_ms }),
    {
        SystemError::InvalidInterval { requested_ms, min_ms, max_ms }
    }

    pub fn rejected_url(reason: &'static str) -> (e: Self)
        ensures
            e == (SystemError::RejectedUrl { reason }),
    {
        SystemError::RejectedUrl { reason }
    }

    /// The sentence a log line or a rejected command shows.
    pub open spec fn spec_message(self) -> Seq<char> {
        match self {
            SystemError::ApiFailure { call, code, message } => call@ + " failed (0x"@ + pad_left(
                digits(code as nat, 16, true),
                8,
                '0',
            ) + "): "@ + message@,
            SystemError::InvalidInterval { requested_ms, min_ms, max_ms } => "sample interval "@
                + decimal(requested_ms as nat) + " ms is outside "@ + decimal(min_ms as nat) + "-"@
                + decimal(max_ms as nat) + " ms"@,
            SystemError::RejectedUrl { reason } => "refused to open the URL: "@ + reason@,
        }
    }

    /// `{call} failed (0x{code:08X}): {message}`, and the like for the other
    /// variants.
    pub fn message(&self) -> (s: String)
        ensures
            s@ == self.spec_message(),
    {
        let mut out: Vec<char> = Vec::new();
        match self {
            SystemError::ApiFailure { call, code, message } => {
                extend_str(&mut out, call);
                extend_str(&mut out, " failed (0x");
                let mut hex: Vec<char> = Vec::new();
                push_digits(&mut hex, *code as u64, 16, true);
                push_padded(&mut out, hex.as_slice(), 8);
                extend_str(&mut out, "): ");
                extend_str(&mut out, message.as_str());
            },
            SystemError::InvalidInterval { requested_ms, min_ms, max_ms } => {
                extend_str(&mut out, "sample interval ");
                push_decimal(&mut out, *requested_ms);
                extend_str(&mut out, " ms is outside ");
                push_decimal(&mut out, *min_ms);
                extend_str(&mut out, "-");
                push_decimal(&mut out, *max_ms);
                extend_str(&mut out, " ms");
            },
            SystemError::RejectedUrl { reason } => {
                extend_str(&mut out, "refused to open the URL: ");
                extend_str(&mut out, reason);
            },
        }
        string_of(out.as_slice())
    }
}

} // verus!
