//! The transaction-derived preflight evidence the commit service attaches to
//! a validated command, and the seals that keep it bound to one transaction
//! of one service.
use vstd::prelude::*;

use crate::holds::CandidateScope;
use crate::ids::{DigestValue, HoldId, JobId};

verus! {

/// The identity of one transaction or one service; evidence is honoured only
/// under the seals it was created with.
#[derive(Clone, Copy, Debug, PartialEq, Eq, Structural)]
pub struct Seal(pub u64);

/// The preflight of one effect bundle.
#[derive(Clone, Copy, Debug, PartialEq, Eq, Structural)]
pub struct EffectBundlePreflightView {
    pub digest: DigestValue,
}

/// The affected scope derived for one request.
pub struct AffectedScopeView {
    pub request_digest: DigestValue,
    pub scope: CandidateScope,
}

/// The preflight facts recorded with a command.
pub struct CommandPreflightRecord {
    pub effect_bundles: Vec<EffectBundlePreflightView>,
    pub affected_scopes: Vec<AffectedScopeView>,
}

/// The admission preflight of a privileged action.
#[derive(Clone, Copy, Debug, PartialEq, Eq, Structural)]
pub struct ActionAdmissionPreflightRecord {
    pub digest: DigestValue,
}

/// Jobs proven safe to keep running under a hold, in one transaction.
pub struct SafeJobWitness {
    pub hold_id: HoldId,
    pub job_ids: Vec<JobId>,
    pub transaction_seal: Seal,
    pub service_seal: Seal,
}

/// A runtime claim of the job a packet resolved to, in one transaction.
#[derive(Clone, Copy, Debug, PartialEq, Eq, Structural)]
pub struct RuntimeJobClaim {
    pub job_id: JobId,
    pub transaction_seal: Seal,
    pub service_seal: Seal,
}

/// Transaction-derived evidence attached by the commit service.
pub struct ValidatedCommandPreflight {
    record: CommandPreflightRecord,
    safe_jobs: Vec<SafeJobWitness>,
    transaction_seal: Seal,
    service_seal: Seal,
    action: Option<ActionAdmissionPreflightRecord>,
    packet_resolution: Option<RuntimeJobClaim>,
}

/// The index of the first affected scope for a request, if any.
pub open spec fn first_scope(scopes: Seq<AffectedScopeView>, digest: DigestValue, from: int) -> Option<int>
    decreases scopes.len() - from,
{
    if from >= scopes.len() || from < 0 {
        None
    } else if scopes[from].request_digest == digest {
        Some(from)
    } else {
        first_scope(scopes, digest, from + 1)
    }
}

/// Whether a witness is for a hold and was made in this transaction of this service.
pub open spec fn witness_fits(w: SafeJobWitness, hold: HoldId, transaction: Seal, service: Seal) -> bool {
    w.hold_id == hold && w.transaction_seal == transaction && w.service_seal == service
}

/// The index of the first fitting witness, if any.
pub open spec fn first_witness(ws: Seq<SafeJobWitness>, hold: HoldId, transaction: Seal, service: Seal, from: int) -> Option<int>
    decreases ws.len() - from,
{
    if from >= ws.len() || from < 0 {
        None
    } else if witness_fits(ws[from], hold, transaction, service) {
        Some(from)
    } else {
        first_witness(ws, hold, transaction, service, from + 1)
    }
}

impl ValidatedCommandPreflight {
    pub closed spec fn spec_record(&self) -> &CommandPreflightRecord {
        &self.record
    }

    pub closed spec fn spec_safe_jobs(&self) -> Seq<SafeJobWitness> {
        self.safe_jobs@
    }

    pub closed spec fn seals(&self) -> (Seal, Seal) {
        (self.transaction_seal, self.service_seal)
    }

    pub closed spec fn spec_action(&self) -> Option<ActionAdmissionPreflightRecord> {
        self.action
    }

    pub closed spec fn spec_packet_resolution(&self) -> Option<RuntimeJobClaim> {
        self.packet_resolution
    }

    pub fn new(
        record: CommandPreflightRecord,
        safe_jobs: Vec<SafeJobWitness>,
        transaction_seal: Seal,
        service_seal: Seal,
        action: Option<ActionAdmissionPreflightRecord>,
        packet_resolution: Option<RuntimeJobClaim>,
    ) -> (r: ValidatedCommandPreflight)
        ensures
            r.spec_record() == &record,
            r.spec_safe_jobs() == safe_jobs@,
            r.seals() == (transaction_seal, service_seal),
            r.spec_action() == action,
            r.spec_packet_resolution() == packet_resolution,
    {
        ValidatedCommandPreflight { record, safe_jobs, transaction_seal, service_seal, action, packet_resolution }
    }

    pub fn record(&self) -> (r: &CommandPreflightRecord)
        ensures
            r == self.spec_record(),
    {
        &self.record
    }

    pub fn effect_preflights(&self) -> (r: &[EffectBundlePreflightView])
        ensures
            r@ == self.spec_record().effect_bundles@,
    {
        self.record.effect_bundles.as_slice()
    }

    /// The affected scope derived for a request: the first recorded for it.
    pub fn affected_scope(&self, request_digest: DigestValue) -> (r: Option<&AffectedScopeView>)
        ensures
            match first_scope(self.spec_record().affected_scopes@, request_digest, 0) {
                Some(i) => r == Some(&self.spec_record().affected_scopes@[i]),
                None => r is None,
            },
    {
        let scopes = &self.record.affected_scopes;
        let mut k: usize = 0;
        while k < scopes.len()
            invariant
                k <= scopes.len(),
                scopes == &self.record.affected_scopes,
                first_scope(scopes@, request_digest, 0) == first_scope(scopes@, request_digest, k as int),
            decreases scopes.len() - k,
        {
            if scopes[k].request_digest.0 == request_digest.0 {
                return Some(&scopes[k]);
            }
            k += 1;
        }
        None
    }

    /// The safe-job witness for a hold made in this transaction of this service.
    pub fn safe_jobs_for(&self, hold_id: HoldId) -> (r: Option<&SafeJobWitness>)
        ensures
            match first_witness(self.spec_safe_jobs(), hold_id, self.seals().0, self.seals().1, 0) {
                Some(i) => r == Some(&self.spec_safe_jobs()[i]),
                None => r is None,
            },
    {
        let ws = &self.safe_jobs;
        let mut k: usize = 0;
        while k < ws.len()
            invariant
                k <= ws.len(),
                ws == &self.safe_jobs,
                first_witness(ws@, hold_id, self.transaction_seal, self.service_seal, 0)
                    == first_witness(ws@, hold_id, self.transaction_seal, self.service_seal, k as int),
            decreases ws.len() - k,
        {
            let w = &ws[k];
            if w.hold_id.0 == hold_id.0 && w.transaction_seal.0 == self.transaction_seal.0 && w.service_seal.0 == self.service_seal.0 {
                return Some(w);
            }
            k += 1;
        }
        None
    }

    pub fn action_preflight(&self) -> (r: Option<ActionAdmissionPreflightRecord>)
        ensures
            r == self.spec_action(),
    {
        self.action
    }

    /// The packet resolution claim, only when it was made in this transaction
    /// of this service.
    pub fn packet_resolution(&self) -> (r: Option<RuntimeJobClaim>)
        ensures
            match self.spec_packet_resolution() {
                Some(c) => if c.transaction_seal == self.seals().0 && c.service_seal == self.seals().1 {
                    r == Some(c)
                } else {
                    r is None
                },
                None => r is None,
            },
    {
        match self.packet_resolution {
            Some(c) => {
                if c.transaction_seal.0 == self.transaction_seal.0 && c.service_seal.0 == self.service_seal.0 {
                    Some(c)
                } else {
                    None
                }
            },
            None => None,
        }
    }
}

} // verus!
