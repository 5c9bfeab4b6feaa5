//! Opaque identities. Each is an integer by which its item is ordered and
//! found again; only equality and order are ever read.
use vstd::prelude::*;

verus! {

/// A unit of work.
#[derive(Clone, Copy, Debug, PartialEq, Eq, Structural, Hash)]
pub struct WorkId(pub u64);

/// An obligation.
#[derive(Clone, Copy, Debug, PartialEq, Eq, Structural, Hash)]
pub struct ObligationId(pub u64);

/// An adjudicated evidence item.
#[derive(Clone, Copy, Debug, PartialEq, Eq, Structural, Hash)]
pub struct EvidenceId(pub u64);

/// A knowledge source.
#[derive(Clone, Copy, Debug, PartialEq, Eq, Structural, Hash)]
pub struct SourceId(pub u64);

/// An Owner decision.
#[derive(Clone, Copy, Debug, PartialEq, Eq, Structural, Hash)]
pub struct DecisionId(pub u64);

/// An outcome.
#[derive(Clone, Copy, Debug, PartialEq, Eq, Structural, Hash)]
pub struct OutcomeId(pub u64);

/// A recorded fact.
#[derive(Clone, Copy, Debug, PartialEq, Eq, Structural, Hash)]
pub struct FactId(pub u64);

/// A change hold.
#[derive(Clone, Copy, Debug, PartialEq, Eq, Structural, Hash)]
pub struct HoldId(pub u64);

/// A campaign.
#[derive(Clone, Copy, Debug, PartialEq, Eq, Structural, Hash)]
pub struct CampaignId(pub u64);

/// A store.
#[derive(Clone, Copy, Debug, PartialEq, Eq, Structural, Hash)]
pub struct StoreId(pub u64);

/// A store base.
#[derive(Clone, Copy, Debug, PartialEq, Eq, Structural, Hash)]
pub struct BaseId(pub u64);

/// A principal.
#[derive(Clone, Copy, Debug, PartialEq, Eq, Structural, Hash)]
pub struct PrincipalId(pub u64);

/// A credential.
#[derive(Clone, Copy, Debug, PartialEq, Eq, Structural, Hash)]
pub struct CredentialId(pub u64);

/// A product event.
#[derive(Clone, Copy, Debug, PartialEq, Eq, Structural, Hash)]
pub struct EventId(pub u64);

/// A command.
#[derive(Clone, Copy, Debug, PartialEq, Eq, Structural, Hash)]
pub struct CommandId(pub u64);

/// A committed transaction.
#[derive(Clone, Copy, Debug, PartialEq, Eq, Structural, Hash)]
pub struct TransactionId(pub u64);

/// A trusted harness.
#[derive(Clone, Copy, Debug, PartialEq, Eq, Structural, Hash)]
pub struct HarnessId(pub u64);

/// A trusted observation source.
#[derive(Clone, Copy, Debug, PartialEq, Eq, Structural, Hash)]
pub struct ObservationRef(pub u64);

/// An internal service operation.
#[derive(Clone, Copy, Debug, PartialEq, Eq, Structural, Hash)]
pub struct OperationId(pub u64);

/// A schema-1 action admission.
#[derive(Clone, Copy, Debug, PartialEq, Eq, Structural, Hash)]
pub struct AdmissionId(pub u64);

/// A worker attempt.
#[derive(Clone, Copy, Debug, PartialEq, Eq, Structural, Hash)]
pub struct AttemptId(pub u64);

/// A semantic request.
#[derive(Clone, Copy, Debug, PartialEq, Eq, Structural, Hash)]
pub struct SemanticRequestId(pub u64);

/// An information opportunity.
#[derive(Clone, Copy, Debug, PartialEq, Eq, Structural, Hash)]
pub struct InformationOpportunityId(pub u64);

/// A selection of an information opportunity for execution.
#[derive(Clone, Copy, Debug, PartialEq, Eq, Structural, Hash)]
pub struct InformationSelectionId(pub u64);

/// An unknown region.
#[derive(Clone, Copy, Debug, PartialEq, Eq, Structural, Hash)]
pub struct RegionId(pub u64);

/// A shared resource.
#[derive(Clone, Copy, Debug, PartialEq, Eq, Structural, Hash)]
pub struct ResourceId(pub u64);

/// A simulated effect.
#[derive(Clone, Copy, Debug, PartialEq, Eq, Structural, Hash)]
pub struct EffectId(pub u64);

/// A change alternative.
#[derive(Clone, Copy, Debug, PartialEq, Eq, Structural, Hash)]
pub struct ChangeAlternativeId(pub u64);

/// A dispatched job.
#[derive(Clone, Copy, Debug, PartialEq, Eq, Structural, Hash)]
pub struct JobId(pub u64);

/// A worker packet.
#[derive(Clone, Copy, Debug, PartialEq, Eq, Structural, Hash)]
pub struct PacketId(pub u64);

/// A task contract.
#[derive(Clone, Copy, Debug, PartialEq, Eq, Structural, Hash)]
pub struct ContractId(pub u64);

/// A candidate result of work.
#[derive(Clone, Copy, Debug, PartialEq, Eq, Structural, Hash)]
pub struct CandidateId(pub u64);

/// A Dream branch.
#[derive(Clone, Copy, Debug, PartialEq, Eq, Structural, Hash)]
pub struct DreamId(pub u64);

/// A campaign charter.
#[derive(Clone, Copy, Debug, PartialEq, Eq, Structural, Hash)]
pub struct CharterId(pub u64);

/// A lowering of strategy into work.
#[derive(Clone, Copy, Debug, PartialEq, Eq, Structural, Hash)]
pub struct LoweringId(pub u64);

/// A strategic fork.
#[derive(Clone, Copy, Debug, PartialEq, Eq, Structural, Hash)]
pub struct ForkId(pub u64);

/// A strategic revision.
#[derive(Clone, Copy, Debug, PartialEq, Eq, Structural, Hash)]
pub struct StrategicRevisionId(pub u64);

/// The registered kind of a command event.
#[derive(Clone, Copy, Debug, PartialEq, Eq, Structural, Hash)]
pub struct EventKind(pub u64);

/// A privileged action class.
#[derive(Clone, Copy, Debug, PartialEq, Eq, Structural, Hash)]
pub struct ActionClass(pub u64);

/// An Owner control class.
#[derive(Clone, Copy, Debug, PartialEq, Eq, Structural, Hash)]
pub struct ControlClass(pub u64);

/// A milestone.
#[derive(Clone, Copy, Debug, PartialEq, Eq, Structural, Hash)]
pub struct MilestoneId(pub u64);

/// A milestone revision.
#[derive(Clone, Copy, Debug, PartialEq, Eq, Structural, Hash)]
pub struct MilestoneRevisionId(pub u64);

/// A recorded milestone achievement.
#[derive(Clone, Copy, Debug, PartialEq, Eq, Structural, Hash)]
pub struct MilestoneAchievementId(pub u64);

/// An Owner or stop-rule pause.
#[derive(Clone, Copy, Debug, PartialEq, Eq, Structural, Hash)]
pub struct PauseId(pub u64);

/// A campaign stop rule.
#[derive(Clone, Copy, Debug, PartialEq, Eq, Structural, Hash)]
pub struct StopRuleId(pub u64);

/// A one-use action exception.
#[derive(Clone, Copy, Debug, PartialEq, Eq, Structural, Hash)]
pub struct ExceptionId(pub u64);

/// A problem whose approaches are counted in epochs.
#[derive(Clone, Copy, Debug, PartialEq, Eq, Structural, Hash)]
pub struct ProblemId(pub u64);

/// A cost forecast.
#[derive(Clone, Copy, Debug, PartialEq, Eq, Structural, Hash)]
pub struct ForecastId(pub u64);

/// A change assessment.
#[derive(Clone, Copy, Debug, PartialEq, Eq, Structural, Hash)]
pub struct AssessmentId(pub u64);

/// An admitted change.
#[derive(Clone, Copy, Debug, PartialEq, Eq, Structural, Hash)]
pub struct ChangeId(pub u64);

/// A change baseline.
#[derive(Clone, Copy, Debug, PartialEq, Eq, Structural, Hash)]
pub struct ChangeBaselineId(pub u64);

/// An Owner change policy.
#[derive(Clone, Copy, Debug, PartialEq, Eq, Structural, Hash)]
pub struct PolicyId(pub u64);

/// An offline encounter.
#[derive(Clone, Copy, Debug, PartialEq, Eq, Structural, Hash)]
pub struct EncounterId(pub u64);

/// An offline bundle.
#[derive(Clone, Copy, Debug, PartialEq, Eq, Structural, Hash)]
pub struct BundleId(pub u64);

/// A capability observation.
#[derive(Clone, Copy, Debug, PartialEq, Eq, Structural, Hash)]
pub struct CapabilityObservationId(pub u64);

/// A subject of knowledge or change, by the integer it is ordered and found by.
#[derive(Clone, Copy, Debug, PartialEq, Eq, Structural, Hash)]
pub struct SubjectKey(pub u64);

/// A store revision; each committed event advances it by one.
#[derive(Clone, Copy, Debug, PartialEq, Eq, Structural, Hash)]
pub struct Revision(pub u64);

/// A canonical digest, compared only for equality.
#[derive(Clone, Copy, Debug, PartialEq, Eq, Structural, Hash)]
pub struct DigestValue(pub u64);

/// An identity held by one integer: two are equal exactly when their
/// integers are.
pub trait IntegerId: Sized + Copy {
    spec fn number_of(&self) -> u64;

    fn number(&self) -> (r: u64)
        ensures
            r == self.number_of(),
    ;

    proof fn lemma_number_injective(a: Self, b: Self)
        ensures
            a.number_of() == b.number_of() ==> a == b,
    ;
}

impl IntegerId for EffectId {
    open spec fn number_of(&self) -> u64 {
        self.0
    }

    fn number(&self) -> (r: u64) {
        self.0
    }

    proof fn lemma_number_injective(a: Self, b: Self) {
    }
}

impl IntegerId for DigestValue {
    open spec fn number_of(&self) -> u64 {
        self.0
    }

    fn number(&self) -> (r: u64) {
        self.0
    }

    proof fn lemma_number_injective(a: Self, b: Self) {
    }
}

/// Whether two lists hold the same identities in the same order.
pub(crate) fn same_ids<T: IntegerId>(a: &[T], b: &[T]) -> (r: bool)
    ensures
        r == (a@ == b@),
{
    if a.len() != b.len() {
        return false;
    }
    let mut i: usize = 0;
    while i < a.len()
        invariant
            i <= a@.len(),
            a@.len() == b@.len(),
            forall|k: int| 0 <= k < i ==> a@[k] == b@[k],
        decreases a@.len() - i,
    {
        proof {
            T::lemma_number_injective(a@[i as int], b@[i as int]);
        }
        if a[i].number() != b[i].number() {
            return false;
        }
        i += 1;
    }
    assert(a@ =~= b@);
    true
}

} // verus!
