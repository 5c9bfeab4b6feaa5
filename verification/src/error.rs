use vstd::prelude::*;

verus! {

/// The stable error families reported by the store and its domain rules.
#[derive(Clone, Copy, Debug, PartialEq, Eq, Structural)]
pub enum ErrorCode {
    Conflict,
    CorruptStore,
    DuplicateIdentity,
    InternalInvariant,
    InvalidIdentity,
    InvalidValue,
    LimitExceeded,
    MissingReference,
    NeedsEvidence,
    Paused,
    StaleRevision,
    Unauthorized,
    Unavailable,
    UnsupportedEpoch,
    UnsupportedOperation,
}

/// The stored formats whose epoch a build may not read.
#[derive(Clone, Copy, Debug, PartialEq, Eq, Structural)]
pub enum EpochFamily {
    LogicalEvent,
}

/// The kinds of registry identifier a parse can refuse.
#[derive(Clone, Copy, Debug, PartialEq, Eq, Structural)]
pub enum IdentityType {
    IndexFamily,
    CapabilityId,
    RecordFamily,
}

/// What a refusal says beyond its family.
#[derive(Debug, PartialEq, Eq)]
pub enum ErrorDetail {
    Empty,
    /// A stored epoch this build does not read: its family, the version
    /// asked for, and the versions the build reads.
    UnsupportedEpoch { family: EpochFamily, requested: u32, supported: Vec<u32> },
    /// A refused identifier: what it was to be, and its length in bytes.
    InvalidIdentity { identity_type: IdentityType, byte_len: u64 },
}

/// A refusal: the error family and what it says of the refused value.
#[derive(Debug, PartialEq, Eq)]
pub struct ZapError {
    pub code: ErrorCode,
    pub detail: ErrorDetail,
}

impl ZapError {
    /// A refusal of the family, with nothing more to say.
    pub fn new(code: ErrorCode) -> (e: ZapError)
        ensures
            e.code == code,
            e.detail == ErrorDetail::Empty,
    {
        ZapError { code, detail: ErrorDetail::Empty }
    }
}

} // verus!
