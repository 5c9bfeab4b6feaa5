//! Work revalidation releases: the persisted proof that a reconciled job may
//! be revalidated, or affirmatively needs no revalidation.
use vstd::prelude::*;
use vstd::string::StringSliceAdditionalSpecFns;

use crate::error::{ErrorCode, ZapError};
use crate::ids::{ObservationRef, Revision, WorkId};

verus! {

/// What reconciliation decided for a job.
#[derive(Clone, Copy, Debug, PartialEq, Eq, Structural)]
pub enum ReconciliationAction {
    Continue,
    Finish,
    Drain,
    Preserve,
    Revalidate,
    NotRequired,
}

/// How safe the job's state was when reconciliation decided.
#[derive(Clone, Copy, Debug, PartialEq, Eq, Structural)]
pub enum ReconciliationSafeState {
    NotStarted,
    Safe,
    Completed,
    NoEffectProven,
}

/// The four big-endian bytes of a 32-bit length.
pub open spec fn be32(n: int) -> Seq<u8> {
    seq![
        ((n / 0x100_0000) % 0x100) as u8,
        ((n / 0x1_0000) % 0x100) as u8,
        ((n / 0x100) % 0x100) as u8,
        (n % 0x100) as u8
    ]
}

/// A key component as stored: its byte length as a big-endian 32-bit number,
/// then its bytes.
pub open spec fn framed(s: Seq<u8>) -> Seq<u8> {
    be32(s.len() as int) + s
}

/// The record key of a release.
pub struct WorkRevalidationReleaseKey {
    pub review_id: String,
    pub job_id: String,
    pub attempt_id: String,
    pub request_id: String,
}

fn push_framed(bytes: &mut Vec<u8>, value: &str) -> (r: Result<(), ZapError>)
    ensures
        r is Ok <==> value.spec_bytes().len() <= u32::MAX,
        r is Ok ==> final(bytes)@ == old(bytes)@ + framed(value.spec_bytes()),
        r is Err ==> final(bytes)@ == old(bytes)@,
        r matches Err(e) ==> e.code == ErrorCode::InvalidValue,
{
    let raw = value.as_bytes();
    if raw.len() > 0xFFFF_FFFF {
        return Err(ZapError::new(ErrorCode::InvalidValue));
    }
    let n: u32 = raw.len() as u32;
    let b0: u8 = (n >> 24) as u8;
    let b1: u8 = ((n >> 16) & 0xff) as u8;
    let b2: u8 = ((n >> 8) & 0xff) as u8;
    let b3: u8 = (n & 0xff) as u8;
    assert(b0 == (n / 0x100_0000) % 0x100) by (bit_vector)
        requires
            b0 == (n >> 24) as u8,
    ;
    assert(b1 == (n / 0x1_0000) % 0x100) by (bit_vector)
        requires
            b1 == ((n >> 16) & 0xff) as u8,
    ;
    assert(b2 == (n / 0x100) % 0x100) by (bit_vector)
        requires
            b2 == ((n >> 8) & 0xff) as u8,
    ;
    assert(b3 == n % 0x100) by (bit_vector)
        requires
            b3 == (n & 0xff) as u8,
    ;
    let ghost before = bytes@;
    bytes.push(b0);
    bytes.push(b1);
    bytes.push(b2);
    bytes.push(b3);
    let mut k: usize = 0;
    while k < raw.len()
        invariant
            k <= raw.len(),
            raw@ == value.spec_bytes(),
            bytes@ == before + be32(raw@.len() as int) + raw@.take(k as int),
        decreases raw.len() - k,
    {
        bytes.push(raw[k]);
        proof {
            assert(raw@.take(k as int + 1) =~= raw@.take(k as int).push(raw@[k as int]));
        }
        k += 1;
    }
    proof {
        assert(raw@.take(raw@.len() as int) =~= raw@);
        assert(before + be32(raw@.len() as int) + raw@ =~= before + framed(raw@));
    }
    Ok(())
}

impl WorkRevalidationReleaseKey {
    /// The stored key bytes: each component framed by its byte length, in order.
    pub open spec fn spec_key(&self) -> Seq<u8> {
        framed(vstd::utf8::encode_utf8(self.review_id@)) + framed(vstd::utf8::encode_utf8(self.job_id@))
            + framed(vstd::utf8::encode_utf8(self.attempt_id@)) + framed(vstd::utf8::encode_utf8(self.request_id@))
    }

    /// Every component's byte length fits in 32 bits.
    pub open spec fn encodable(&self) -> bool {
        &&& vstd::utf8::encode_utf8(self.review_id@).len() <= u32::MAX
        &&& vstd::utf8::encode_utf8(self.job_id@).len() <= u32::MAX
        &&& vstd::utf8::encode_utf8(self.attempt_id@).len() <= u32::MAX
        &&& vstd::utf8::encode_utf8(self.request_id@).len() <= u32::MAX
    }

    /// Encodes the key; a component longer than a 32-bit length can frame is
    /// an invalid value.
    pub fn encode_key(&self) -> (r: Result<Vec<u8>, ZapError>)
        ensures
            r is Ok <==> self.encodable(),
            r matches Ok(bytes) ==> bytes@ == self.spec_key(),
            r matches Err(e) ==> e.code == ErrorCode::InvalidValue,
    {
        let mut bytes: Vec<u8> = Vec::new();
        push_framed(&mut bytes, self.review_id.as_str())?;
        push_framed(&mut bytes, self.job_id.as_str())?;
        push_framed(&mut bytes, self.attempt_id.as_str())?;
        push_framed(&mut bytes, self.request_id.as_str())?;
        proof {
            assert(bytes@ =~= self.spec_key());
        }
        Ok(bytes)
    }
}

/// The facts a release binds.
pub struct WorkRevalidationReleaseInput {
    pub key: WorkRevalidationReleaseKey,
    pub work_id: WorkId,
    pub from_generation: u64,
    pub released_generation: u64,
    pub selected_action: ReconciliationAction,
    pub safe_state: ReconciliationSafeState,
    pub release_observation: ObservationRef,
    pub no_effect_observation: Option<ObservationRef>,
    pub release_revision: Revision,
}

/// A release is sound in exactly two ways: a Revalidate decision taken in a
/// safe or completed state that releases a newer generation, or a NotRequired
/// decision with affirmative no-effect evidence that keeps the generation.
pub open spec fn release_sound(input: WorkRevalidationReleaseInput) -> bool {
    ||| (input.selected_action == ReconciliationAction::Revalidate
        && (input.safe_state == ReconciliationSafeState::Safe || input.safe_state == ReconciliationSafeState::Completed)
        && input.released_generation > input.from_generation)
    ||| (input.selected_action == ReconciliationAction::NotRequired
        && input.safe_state == ReconciliationSafeState::NoEffectProven
        && input.no_effect_observation is Some
        && input.released_generation == input.from_generation)
}

/// Trusted persisted release consumed by domain revalidation readiness.
pub struct WorkRevalidationReleaseRecord {
    input: WorkRevalidationReleaseInput,
}

impl WorkRevalidationReleaseRecord {
    #[verifier::type_invariant]
    spec fn inv(self) -> bool {
        release_sound(self.input)
    }

    pub closed spec fn spec_input(&self) -> WorkRevalidationReleaseInput {
        self.input
    }

    /// Accepts exactly the sound releases.
    pub fn new(input: WorkRevalidationReleaseInput) -> (r: Result<WorkRevalidationReleaseRecord, ZapError>)
        ensures
            r is Ok <==> release_sound(input),
            r matches Ok(rec) ==> rec.spec_input() == input,
            r matches Err(e) ==> e.code == ErrorCode::InvalidValue,
    {
        let revalidate_safe = matches!(input.selected_action, ReconciliationAction::Revalidate)
            && matches!(input.safe_state, ReconciliationSafeState::Safe | ReconciliationSafeState::Completed)
            && input.released_generation > input.from_generation;
        let not_required_proven = matches!(input.selected_action, ReconciliationAction::NotRequired)
            && matches!(input.safe_state, ReconciliationSafeState::NoEffectProven)
            && input.no_effect_observation.is_some()
            && input.released_generation == input.from_generation;
        if !revalidate_safe && !not_required_proven {
            return Err(ZapError::new(ErrorCode::InvalidValue));
        }
        Ok(WorkRevalidationReleaseRecord { input })
    }

    pub fn key_ref(&self) -> (r: &WorkRevalidationReleaseKey)
        ensures
            *r == self.spec_input().key,
    {
        &self.input.key
    }

    pub fn work_id(&self) -> (r: &WorkId)
        ensures
            *r == self.spec_input().work_id,
    {
        &self.input.work_id
    }

    pub fn from_generation(&self) -> (r: u64)
        ensures
            r == self.spec_input().from_generation,
    {
        self.input.from_generation
    }

    /// The generation released; never older than the one reconciled.
    pub fn released_generation(&self) -> (r: u64)
        ensures
            r == self.spec_input().released_generation,
            r >= self.spec_input().from_generation,
    {
        proof {
            use_type_invariant(self);
        }
        self.input.released_generation
    }

    pub fn selected_action(&self) -> (r: ReconciliationAction)
        ensures
            r == self.spec_input().selected_action,
    {
        self.input.selected_action
    }

    pub fn safe_state(&self) -> (r: ReconciliationSafeState)
        ensures
            r == self.spec_input().safe_state,
    {
        self.input.safe_state
    }

    pub fn release_observation(&self) -> (r: &ObservationRef)
        ensures
            *r == self.spec_input().release_observation,
    {
        &self.input.release_observation
    }

    pub fn release_revision(&self) -> (r: Revision)
        ensures
            r == self.spec_input().release_revision,
    {
        self.input.release_revision
    }
}

} // verus!
