//! Milestones: what contributes to them, how they depend on each other, and
//! the read queries over their heads, revisions and achievements.
use vstd::prelude::*;

use crate::error::{ErrorCode, ErrorDetail, ZapError};
use crate::ids::{DigestValue, EvidenceId, MilestoneAchievementId, MilestoneId, MilestoneRevisionId, ObligationId, OutcomeId, WorkId};
use crate::subjects::SubjectRef;

verus! {

/// Whether a milestone is still pursued.
#[derive(Clone, Copy, Debug, PartialEq, Eq, Structural)]
pub enum MilestoneLifecycle {
    Active,
    Retired,
}

/// What a milestone dependency gates.
#[derive(Clone, Copy, Debug, PartialEq, Eq, Structural)]
pub enum MilestoneDependencyKind {
    PreparationPrerequisite,
    AchievementPrerequisite,
}

/// Whether a recorded achievement still holds now.
#[derive(Clone, Copy, Debug, PartialEq, Eq, Structural)]
pub enum MilestoneAchievementValidity {
    Current,
    NeedsRevalidation,
    Retired,
    Unavailable,
}

/// Whether a query paid for a store-wide proof evaluation.
#[derive(Clone, Copy, Debug, PartialEq, Eq, Structural)]
pub enum MilestoneProofEvaluationCost {
    NotRequested,
    StoreWideCurrentProofContextScan,
}

/// One contribution to a milestone.
#[derive(Clone, Copy, Debug, PartialEq, Eq, Structural)]
pub enum MilestoneContribution {
    Work { work_id: WorkId },
    Evidence { evidence_id: EvidenceId },
    Milestone { milestone_id: MilestoneId, revision_id: MilestoneRevisionId, semantic_fingerprint: DigestValue },
}

impl MilestoneContribution {
    /// The work of a work contribution.
    pub fn work_id(&self) -> (r: Option<&WorkId>)
        ensures
            match *self {
                MilestoneContribution::Work { work_id } => r == Some(&work_id),
                _ => r is None,
            },
    {
        match self {
            MilestoneContribution::Work { work_id } => Some(work_id),
            _ => None,
        }
    }
}

/// A dependency on a revision of another milestone.
#[derive(Clone, Copy, Debug, PartialEq, Eq, Structural)]
pub struct MilestoneDependency {
    pub milestone_id: MilestoneId,
    pub revision_id: MilestoneRevisionId,
    pub semantic_fingerprint: DigestValue,
    pub kind: MilestoneDependencyKind,
}

/// A milestone definition: the outcome it serves and who consumes it, the
/// obligations it requires, what contributes to it, what it depends on, and
/// its lifecycle. `terms` stands for its strategic binding, name, purpose and
/// result criterion, by their digest.
pub struct MilestoneDefinition {
    pub outcome_id: OutcomeId,
    pub terms: DigestValue,
    pub consumers: Vec<SubjectRef>,
    pub required_obligation_ids: Vec<ObligationId>,
    pub contributions: Vec<MilestoneContribution>,
    pub dependencies: Vec<MilestoneDependency>,
    pub lifecycle: MilestoneLifecycle,
    pub retirement_reason: Option<String>,
}

/// The work contributions, in order.
pub open spec fn contributed_work(s: Seq<MilestoneContribution>) -> Seq<WorkId>
    decreases s.len(),
{
    if s.len() == 0 {
        Seq::empty()
    } else {
        let rest = contributed_work(s.drop_last());
        match s.last() {
            MilestoneContribution::Work { work_id } => rest.push(work_id),
            _ => rest,
        }
    }
}

/// The evidence contributions, in order.
pub open spec fn contributed_evidence(s: Seq<MilestoneContribution>) -> Seq<EvidenceId>
    decreases s.len(),
{
    if s.len() == 0 {
        Seq::empty()
    } else {
        let rest = contributed_evidence(s.drop_last());
        match s.last() {
            MilestoneContribution::Evidence { evidence_id } => rest.push(evidence_id),
            _ => rest,
        }
    }
}

impl MilestoneDefinition {
    /// The work that contributes to the milestone, in contribution order.
    pub fn work_ids(&self) -> (r: Vec<WorkId>)
        ensures
            r@ == contributed_work(self.contributions@),
    {
        let mut out: Vec<WorkId> = Vec::new();
        let mut k: usize = 0;
        while k < self.contributions.len()
            invariant
                k <= self.contributions.len(),
                out@ == contributed_work(self.contributions@.take(k as int)),
            decreases self.contributions.len() - k,
        {
            proof {
                assert(self.contributions@.take(k as int + 1).drop_last() =~= self.contributions@.take(k as int));
            }
            match &self.contributions[k] {
                MilestoneContribution::Work { work_id } => out.push(*work_id),
                _ => {},
            }
            k += 1;
        }
        proof {
            assert(self.contributions@.take(k as int) =~= self.contributions@);
        }
        out
    }

    /// The evidence that contributes to the milestone, in contribution order.
    pub fn evidence_ids(&self) -> (r: Vec<EvidenceId>)
        ensures
            r@ == contributed_evidence(self.contributions@),
    {
        let mut out: Vec<EvidenceId> = Vec::new();
        let mut k: usize = 0;
        while k < self.contributions.len()
            invariant
                k <= self.contributions.len(),
                out@ == contributed_evidence(self.contributions@.take(k as int)),
            decreases self.contributions.len() - k,
        {
            proof {
                assert(self.contributions@.take(k as int + 1).drop_last() =~= self.contributions@.take(k as int));
            }
            match &self.contributions[k] {
                MilestoneContribution::Evidence { evidence_id } => out.push(*evidence_id),
                _ => {},
            }
            k += 1;
        }
        proof {
            assert(self.contributions@.take(k as int) =~= self.contributions@);
        }
        out
    }
}

/// A milestone's head record.
#[derive(Clone, Copy, Debug, PartialEq, Eq, Structural)]
pub struct MilestoneRecord {
    pub milestone_id: MilestoneId,
    pub current_revision_id: MilestoneRevisionId,
    pub latest_achievement_id: Option<MilestoneAchievementId>,
}

/// One revision of a milestone; `self_consistent` records whether its stored
/// fingerprint matches its definition.
#[derive(Clone, Copy, Debug, PartialEq, Eq, Structural)]
pub struct MilestoneRevisionRecord {
    pub revision_id: MilestoneRevisionId,
    pub milestone_id: MilestoneId,
    pub self_consistent: bool,
}

/// The receipt of one milestone achievement.
#[derive(Clone, Copy, Debug, PartialEq, Eq, Structural)]
pub struct MilestoneAchievementRecord {
    pub achievement_id: MilestoneAchievementId,
    pub milestone_id: MilestoneId,
}

/// The milestone records a query reads, as of one store revision.
pub struct MilestoneSnapshot {
    pub milestones: Vec<MilestoneRecord>,
    pub revisions: Vec<MilestoneRevisionRecord>,
    pub achievements: Vec<MilestoneAchievementRecord>,
}

/// The first record with the key, if any.
pub open spec fn find_milestone(s: Seq<MilestoneRecord>, id: MilestoneId) -> Option<MilestoneRecord>
    decreases s.len(),
{
    if s.len() == 0 {
        None
    } else if s[0].milestone_id == id {
        Some(s[0])
    } else {
        find_milestone(s.drop_first(), id)
    }
}

pub open spec fn find_revision(s: Seq<MilestoneRevisionRecord>, id: MilestoneRevisionId) -> Option<MilestoneRevisionRecord>
    decreases s.len(),
{
    if s.len() == 0 {
        None
    } else if s[0].revision_id == id {
        Some(s[0])
    } else {
        find_revision(s.drop_first(), id)
    }
}

pub open spec fn find_achievement(s: Seq<MilestoneAchievementRecord>, id: MilestoneAchievementId) -> Option<MilestoneAchievementRecord>
    decreases s.len(),
{
    if s.len() == 0 {
        None
    } else if s[0].achievement_id == id {
        Some(s[0])
    } else {
        find_achievement(s.drop_first(), id)
    }
}

impl MilestoneSnapshot {
    pub fn milestone(&self, id: MilestoneId) -> (r: Option<MilestoneRecord>)
        ensures
            r == find_milestone(self.milestones@, id),
    {
        let mut k: usize = 0;
        proof {
            assert(self.milestones@.skip(0) =~= self.milestones@);
        }
        while k < self.milestones.len()
            invariant
                k <= self.milestones.len(),
                find_milestone(self.milestones@, id) == find_milestone(self.milestones@.skip(k as int), id),
            decreases self.milestones.len() - k,
        {
            proof {
                assert(self.milestones@.skip(k as int).drop_first() =~= self.milestones@.skip(k as int + 1));
            }
            if self.milestones[k].milestone_id.0 == id.0 {
                return Some(self.milestones[k]);
            }
            k += 1;
        }
        None
    }

    pub fn revision(&self, id: MilestoneRevisionId) -> (r: Option<MilestoneRevisionRecord>)
        ensures
            r == find_revision(self.revisions@, id),
    {
        let mut k: usize = 0;
        proof {
            assert(self.revisions@.skip(0) =~= self.revisions@);
        }
        while k < self.revisions.len()
            invariant
                k <= self.revisions.len(),
                find_revision(self.revisions@, id) == find_revision(self.revisions@.skip(k as int), id),
            decreases self.revisions.len() - k,
        {
            proof {
                assert(self.revisions@.skip(k as int).drop_first() =~= self.revisions@.skip(k as int + 1));
            }
            if self.revisions[k].revision_id.0 == id.0 {
                return Some(self.revisions[k]);
            }
            k += 1;
        }
        None
    }

    pub fn achievement(&self, id: MilestoneAchievementId) -> (r: Option<MilestoneAchievementRecord>)
        ensures
            r == find_achievement(self.achievements@, id),
    {
        let mut k: usize = 0;
        proof {
            assert(self.achievements@.skip(0) =~= self.achievements@);
        }
        while k < self.achievements.len()
            invariant
                k <= self.achievements.len(),
                find_achievement(self.achievements@, id) == find_achievement(self.achievements@.skip(k as int), id),
            decreases self.achievements.len() - k,
        {
            proof {
                assert(self.achievements@.skip(k as int).drop_first() =~= self.achievements@.skip(k as int + 1));
            }
            if self.achievements[k].achievement_id.0 == id.0 {
                return Some(self.achievements[k]);
            }
            k += 1;
        }
        None
    }
}

/// The input of the milestone read query.
#[derive(Clone, Copy, Debug, PartialEq, Eq, Structural)]
pub struct MilestoneReadInput {
    pub milestone_id: MilestoneId,
    pub evaluate_current_achievement: bool,
}

/// A milestone with its current revision and latest achievement.
#[derive(Clone, Copy, Debug, PartialEq, Eq, Structural)]
pub struct MilestoneView {
    pub head: MilestoneRecord,
    pub current_revision: MilestoneRevisionRecord,
    pub latest_achievement: Option<MilestoneAchievementRecord>,
    pub current_validity: Option<MilestoneAchievementValidity>,
    pub proof_evaluation_cost: MilestoneProofEvaluationCost,
}

/// The cost a query reports for whether it evaluated validity.
pub open spec fn cost_for(evaluate: bool) -> MilestoneProofEvaluationCost {
    if evaluate {
        MilestoneProofEvaluationCost::StoreWideCurrentProofContextScan
    } else {
        MilestoneProofEvaluationCost::NotRequested
    }
}

fn cost_of(evaluate: bool) -> (r: MilestoneProofEvaluationCost)
    ensures
        r == cost_for(evaluate),
{
    if evaluate {
        MilestoneProofEvaluationCost::StoreWideCurrentProofContextScan
    } else {
        MilestoneProofEvaluationCost::NotRequested
    }
}

/// Reads one milestone. Its head, current revision and latest achievement must
/// exist (else a missing reference); the revision must belong to it and be
/// self-consistent and the achievement must be its own (else a conflict). The
/// latest achievement's validity, as the proof-context scan evaluated it, is
/// reported only when asked for.
pub struct MilestoneReadQuery;

pub open spec fn read_result(snapshot: MilestoneSnapshot, input: MilestoneReadInput, latest_validity: MilestoneAchievementValidity) -> Result<MilestoneView, ZapError> {
    match find_milestone(snapshot.milestones@, input.milestone_id) {
        None => Err(ZapError { code: ErrorCode::MissingReference, detail: ErrorDetail::Empty }),
        Some(head) => match find_revision(snapshot.revisions@, head.current_revision_id) {
            None => Err(ZapError { code: ErrorCode::MissingReference, detail: ErrorDetail::Empty }),
            Some(current) => if current.milestone_id != head.milestone_id || !current.self_consistent {
                Err(ZapError { code: ErrorCode::Conflict, detail: ErrorDetail::Empty })
            } else {
                let latest = match head.latest_achievement_id {
                    None => Ok(None),
                    Some(id) => match find_achievement(snapshot.achievements@, id) {
                        None => Err(ZapError { code: ErrorCode::MissingReference, detail: ErrorDetail::Empty }),
                        Some(a) => Ok(Some(a)),
                    },
                };
                match latest {
                    Err(e) => Err(e),
                    Ok(latest) => if latest matches Some(a) && a.milestone_id != head.milestone_id {
                        Err(ZapError { code: ErrorCode::Conflict, detail: ErrorDetail::Empty })
                    } else {
                        Ok(MilestoneView {
                            head,
                            current_revision: current,
                            latest_achievement: latest,
                            current_validity: if input.evaluate_current_achievement && latest is Some {
                                Some(latest_validity)
                            } else {
                                None
                            },
                            proof_evaluation_cost: cost_for(input.evaluate_current_achievement),
                        })
                    },
                }
            },
        },
    }
}

/// A milestone read reports a current validity only when it was asked for
/// and the milestone has a latest achievement, and then the validity of that
/// achievement; a milestone that has not been achieved reports none.
pub proof fn law_validity_only_of_an_existing_achievement(
    snapshot: MilestoneSnapshot,
    input: MilestoneReadInput,
    latest_validity: MilestoneAchievementValidity,
)
    ensures
        read_result(snapshot, input, latest_validity) matches Ok(v) ==> {
            &&& v.current_validity is Some <==> (input.evaluate_current_achievement && v.latest_achievement is Some)
            &&& v.current_validity is Some ==> v.current_validity == Some(latest_validity)
            &&& v.latest_achievement is None <==> v.head.latest_achievement_id is None
        },
{
}

impl MilestoneReadQuery {
    pub fn execute(&self, snapshot: &MilestoneSnapshot, input: &MilestoneReadInput, latest_validity: MilestoneAchievementValidity) -> (r: Result<MilestoneView, ZapError>)
        ensures
            r == read_result(*snapshot, *input, latest_validity),
    {
        let head = match snapshot.milestone(input.milestone_id) {
            None => {
                return Err(ZapError::new(ErrorCode::MissingReference));
            },
            Some(h) => h,
        };
        let current = match snapshot.revision(head.current_revision_id) {
            None => {
                return Err(ZapError::new(ErrorCode::MissingReference));
            },
            Some(c) => c,
        };
        if current.milestone_id.0 != head.milestone_id.0 || !current.self_consistent {
            return Err(ZapError::new(ErrorCode::Conflict));
        }
        let latest = match head.latest_achievement_id {
            None => None,
            Some(id) => match snapshot.achievement(id) {
                None => {
                    return Err(ZapError::new(ErrorCode::MissingReference));
                },
                Some(a) => Some(a),
            },
        };
        if let Some(a) = latest {
            if a.milestone_id.0 != head.milestone_id.0 {
                return Err(ZapError::new(ErrorCode::Conflict));
            }
        }
        let current_validity = if input.evaluate_current_achievement && latest.is_some() {
            Some(latest_validity)
        } else {
            None
        };
        Ok(MilestoneView {
            head,
            current_revision: current,
            latest_achievement: latest,
            current_validity,
            proof_evaluation_cost: cost_of(input.evaluate_current_achievement),
        })
    }
}

/// The input of the achievement query.
#[derive(Clone, Copy, Debug, PartialEq, Eq, Structural)]
pub struct MilestoneAchievementInput {
    pub achievement_id: MilestoneAchievementId,
    pub evaluate_current_validity: bool,
}

/// One achievement receipt with, when asked for, its current validity.
#[derive(Clone, Copy, Debug, PartialEq, Eq, Structural)]
pub struct MilestoneAchievementView {
    pub receipt: MilestoneAchievementRecord,
    pub current_validity: Option<MilestoneAchievementValidity>,
    pub proof_evaluation_cost: MilestoneProofEvaluationCost,
}

/// Reads one achievement receipt; a missing receipt is a missing reference.
pub struct MilestoneAchievementQuery;

impl MilestoneAchievementQuery {
    pub fn execute(&self, snapshot: &MilestoneSnapshot, input: &MilestoneAchievementInput, validity: MilestoneAchievementValidity) -> (r: Result<MilestoneAchievementView, ZapError>)
        ensures
            match find_achievement(snapshot.achievements@, input.achievement_id) {
                None => r == Err::<MilestoneAchievementView, ZapError>(ZapError { code: ErrorCode::MissingReference, detail: ErrorDetail::Empty }),
                Some(receipt) => r == Ok::<MilestoneAchievementView, ZapError>(MilestoneAchievementView {
                    receipt,
                    current_validity: if input.evaluate_current_validity { Some(validity) } else { None },
                    proof_evaluation_cost: cost_for(input.evaluate_current_validity),
                }),
            },
    {
        let receipt = match snapshot.achievement(input.achievement_id) {
            None => {
                return Err(ZapError::new(ErrorCode::MissingReference));
            },
            Some(a) => a,
        };
        let current_validity = if input.evaluate_current_validity {
            Some(validity)
        } else {
            None
        };
        Ok(MilestoneAchievementView { receipt, current_validity, proof_evaluation_cost: cost_of(input.evaluate_current_validity) })
    }
}

/// The input of the revision query.
#[derive(Clone, Copy, Debug, PartialEq, Eq, Structural)]
pub struct MilestoneRevisionInput {
    pub revision_id: MilestoneRevisionId,
}

/// One historical revision, and whether it is its milestone's current one.
#[derive(Clone, Copy, Debug, PartialEq, Eq, Structural)]
pub struct MilestoneRevisionView {
    pub revision: MilestoneRevisionRecord,
    pub is_current: bool,
}

/// Reads one revision; a missing revision is a missing reference.
pub struct MilestoneRevisionQuery;

impl MilestoneRevisionQuery {
    pub fn execute(&self, snapshot: &MilestoneSnapshot, input: &MilestoneRevisionInput) -> (r: Result<MilestoneRevisionView, ZapError>)
        ensures
            match find_revision(snapshot.revisions@, input.revision_id) {
                None => r == Err::<MilestoneRevisionView, ZapError>(ZapError { code: ErrorCode::MissingReference, detail: ErrorDetail::Empty }),
                Some(revision) => r == Ok::<MilestoneRevisionView, ZapError>(MilestoneRevisionView {
                    revision,
                    is_current: find_milestone(snapshot.milestones@, revision.milestone_id) matches Some(head)
                        && head.current_revision_id == revision.revision_id,
                }),
            },
    {
        let revision = match snapshot.revision(input.revision_id) {
            None => {
                return Err(ZapError::new(ErrorCode::MissingReference));
            },
            Some(r) => r,
        };
        let is_current = match snapshot.milestone(revision.milestone_id) {
            Some(head) => head.current_revision_id.0 == revision.revision_id.0,
            None => false,
        };
        Ok(MilestoneRevisionView { revision, is_current })
    }
}

} // verus!
