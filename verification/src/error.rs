//! The error taxonomy surfaced by every operation of the registry.

use vstd::prelude::*;

verus! {

/// Terminal outcome of a single failed operation.
///
/// - `InvalidDomain` and `InvalidIp` are raised by the validator before any
///   storage access.
/// - `AlreadyExists` is raised when a Register finds the domain's slot
///   occupied; `NotFound` when a Resolve finds it absent.
/// - `CorruptRecord` is raised when a stored buffer fails to decode.
#[derive(Clone, Copy, Debug, PartialEq, Eq, Structural)]
pub enum DnsError {
    InvalidDomain,
    InvalidIp,
    AlreadyExists,
    NotFound,
    CorruptRecord,
}

impl DnsError {
    /// A short stable text for diagnostics.
    pub fn describe(&self) -> (r: &'static str)
        ensures
            r@ =~= match self {
                DnsError::InvalidDomain => "Invalid domain format"@,
                DnsError::InvalidIp => "Invalid IP address format"@,
                DnsError::AlreadyExists => "Domain already registered"@,
                DnsError::NotFound => "Domain not registered"@,
                DnsError::CorruptRecord => "Stored record is corrupt"@,
            },
    {
        match self {
            DnsError::InvalidDomain => "Invalid domain format",
            DnsError::InvalidIp => "Invalid IP address format",
            DnsError::AlreadyExists => "Domain already registered",
            DnsError::NotFound => "Domain not registered",
            DnsError::CorruptRecord => "Stored record is corrupt",
        }
    }
}

} // verus!
