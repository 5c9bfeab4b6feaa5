//! Milestone plans: proposal, adoption and refinement commands, and the
//! staleness rules their cells enforce.
use vstd::prelude::*;

use crate::active_context::StrategyFacts;
use crate::commit::BasisBinding;
use crate::error::{ErrorCode, ErrorDetail, ZapError};
use crate::ids::{
    DigestValue, EffectId, EventId, MilestoneRevisionId, ObligationId, OperationId, OutcomeId, Revision, StrategicRevisionId, WorkId,
};
use crate::affected_scope::insert_obligation_subjects;
use crate::keyed::copy_items;
use crate::subjects::{insert_subject_ref, subjects_increasing, SubjectRef};
use crate::owner_control::{checked_next, next_revision};

verus! {

/// The outcome a milestone plan is for.
#[derive(Clone, Copy, Debug, PartialEq, Eq, Structural)]
pub struct MilestonePlanKey {
    pub outcome_id: OutcomeId,
}

/// A proposed milestone plan.
pub struct MilestonePlanProposalRecord {
    pub key: MilestonePlanKey,
    pub previous: Option<MilestonePlanKey>,
    pub outcome_revision: Revision,
    pub revision: Revision,
    pub relevant_basis: DigestValue,
    pub semantic_fingerprint: DigestValue,
    pub strategic_revision_id: StrategicRevisionId,
    pub strategic_record_revision: Revision,
    pub strategic_semantic_digest: DigestValue,
    pub obligation_ids: Vec<ObligationId>,
    pub milestone_revision_ids: Vec<MilestoneRevisionId>,
    pub admission_work_ids: Vec<WorkId>,
}

/// Which plan is adopted for an outcome.
#[derive(Clone, Copy, Debug, PartialEq, Eq, Structural)]
pub struct MilestonePlanStateRecord {
    pub outcome_id: OutcomeId,
    pub adopted_plan: MilestonePlanKey,
    pub adopted_fingerprint: DigestValue,
    pub revision: Revision,
}

/// A proposed refinement of a lowering under an adopted plan.
pub struct RefinementPlanRecord {
    pub lowering_id: WorkId,
    pub lowering_semantic_digest: DigestValue,
    pub graph_digest: DigestValue,
    pub plan_key: MilestonePlanKey,
    pub plan_fingerprint: DigestValue,
    pub plan_state_revision: Revision,
    pub strategic_revision_id: StrategicRevisionId,
    pub strategic_record_revision: Revision,
    pub strategic_semantic_digest: DigestValue,
    pub revision: Revision,
    pub semantic_fingerprint: DigestValue,
    pub rationale_work_ids: Vec<WorkId>,
}

/// Proposes a milestone plan.
pub struct MilestonePlanProposed {
    pub plan: MilestonePlanProposalRecord,
}

/// Adopts a proposed milestone plan.
pub struct MilestonePlanAdopted {
    pub plan: MilestonePlanProposalRecord,
    pub expected_plan_state_revision: Option<Revision>,
}

/// Proposes a refinement plan.
pub struct RefinementPlanProposed {
    pub refinement: RefinementPlanRecord,
}

/// The header facts a planning cell checks.
#[derive(Clone, Copy, Debug, PartialEq, Eq, Structural)]
pub struct PlanCommandFacts {
    pub expected_revision: Revision,
    pub basis: BasisBinding,
}

/// A proposal is fresh when the header binds an exact basis equal to the
/// plan's relevant basis, the plan sits at the command's next revision, and no
/// proposal with its key is stored.
pub open spec fn proposal_fresh(h: PlanCommandFacts, plan: MilestonePlanProposalRecord, next: Revision, stored: bool) -> bool {
    &&& h.basis == BasisBinding::Exact(plan.relevant_basis)
    &&& plan.revision == next
    &&& !stored
}

/// Records a milestone plan proposal; `stored` says whether a proposal with
/// its key is recorded and `validation` is the plan's own validation verdict.
pub struct MilestonePlanProposedCell;

impl MilestonePlanProposedCell {
    pub fn apply(&self, h: &PlanCommandFacts, payload: &MilestonePlanProposed, stored: bool, validation: Result<(), ZapError>) -> (r: Result<Revision, ZapError>)
        ensures
            h.basis is NotApplicable ==> r == Err::<Revision, ZapError>(ZapError { code: ErrorCode::StaleRevision, detail: ErrorDetail::Empty }),
            h.basis matches BasisBinding::Exact(b) && b != payload.plan.relevant_basis ==> r == Err::<Revision, ZapError>(ZapError { code: ErrorCode::StaleRevision, detail: ErrorDetail::Empty }),
            h.basis == BasisBinding::Exact(payload.plan.relevant_basis) ==> match next_revision(h.expected_revision) {
                None => r == Err::<Revision, ZapError>(ZapError { code: ErrorCode::InvalidValue, detail: ErrorDetail::Empty }),
                Some(next) => if !proposal_fresh(*h, payload.plan, next, stored) {
                    r == Err::<Revision, ZapError>(ZapError { code: ErrorCode::StaleRevision, detail: ErrorDetail::Empty })
                } else {
                    match validation {
                        Err(e) => r == Err::<Revision, ZapError>(e),
                        Ok(()) => r == Ok::<Revision, ZapError>(next),
                    }
                },
            },
    {
        let plan = &payload.plan;
        let basis = match h.basis {
            BasisBinding::Exact(v) => v,
            BasisBinding::NotApplicable => {
                return Err(ZapError::new(ErrorCode::StaleRevision));
            },
        };
        if plan.relevant_basis.0 != basis.0 {
            return Err(ZapError::new(ErrorCode::StaleRevision));
        }
        let next = checked_next(h.expected_revision)?;
        if plan.revision.0 != next.0 || stored {
            return Err(ZapError::new(ErrorCode::StaleRevision));
        }
        match validation {
            Err(e) => Err(e),
            Ok(()) => Ok(next),
        }
    }
}

/// Adopts a milestone plan on the exact basis it was proposed on;
/// `adoption` is the verdict of applying the adoption to the plan state.
pub struct MilestonePlanAdoptedCell;

impl MilestonePlanAdoptedCell {
    pub fn apply(&self, h: &PlanCommandFacts, payload: &MilestonePlanAdopted, adoption: Result<(), ZapError>) -> (r: Result<Revision, ZapError>)
        ensures
            h.basis != BasisBinding::Exact(payload.plan.relevant_basis) ==> r == Err::<Revision, ZapError>(ZapError { code: ErrorCode::StaleRevision, detail: ErrorDetail::Empty }),
            h.basis == BasisBinding::Exact(payload.plan.relevant_basis) ==> match adoption {
                Err(e) => r == Err::<Revision, ZapError>(e),
                Ok(()) => match next_revision(h.expected_revision) {
                    None => r == Err::<Revision, ZapError>(ZapError { code: ErrorCode::InvalidValue, detail: ErrorDetail::Empty }),
                    Some(next) => r == Ok::<Revision, ZapError>(next),
                },
            },
    {
        let bound = match h.basis {
            BasisBinding::Exact(v) => v.0 == payload.plan.relevant_basis.0,
            BasisBinding::NotApplicable => false,
        };
        if !bound {
            return Err(ZapError::new(ErrorCode::StaleRevision));
        }
        match adoption {
            Err(e) => Err(e),
            Ok(()) => checked_next(h.expected_revision),
        }
    }
}

pub open spec fn rationales_increase(s: Seq<WorkId>) -> bool {
    forall|i: int| 0 <= i < s.len() - 1 ==> (#[trigger] s[i]).0 < s[i + 1].0
}

/// A refinement is fresh when it sits at the command's next revision, carries
/// its own fingerprint, lists its rationales by strictly increasing work, and
/// neither a refinement nor a lowering is recorded for its lowering.
pub open spec fn refinement_fresh(r: RefinementPlanRecord, next: Revision, fingerprint: DigestValue, refinement_stored: bool, lowering_stored: bool) -> bool {
    &&& r.revision == next
    &&& r.semantic_fingerprint == fingerprint
    &&& rationales_increase(r.rationale_work_ids@)
    &&& !refinement_stored
    &&& !lowering_stored
}

/// A refinement binds the adopted plan: the plan state adopted its plan with
/// its fingerprint at its revision, and the plan has that fingerprint and the
/// refinement's strategy.
pub open spec fn refinement_bound(r: RefinementPlanRecord, state: MilestonePlanStateRecord, plan: MilestonePlanProposalRecord) -> bool {
    &&& state.adopted_plan == r.plan_key
    &&& state.adopted_fingerprint == r.plan_fingerprint
    &&& state.revision == r.plan_state_revision
    &&& plan.semantic_fingerprint == r.plan_fingerprint
    &&& plan.strategic_revision_id == r.strategic_revision_id
    &&& plan.strategic_record_revision == r.strategic_record_revision
    &&& plan.strategic_semantic_digest == r.strategic_semantic_digest
}

/// Records a refinement proposal. `fingerprint` is the refinement's computed
/// fingerprint; the stored flags and records are what the state holds for it.
pub struct RefinementPlanProposedCell;

impl RefinementPlanProposedCell {
    pub fn apply(
        &self,
        h: &PlanCommandFacts,
        payload: &RefinementPlanProposed,
        fingerprint: DigestValue,
        refinement_stored: bool,
        lowering_stored: bool,
        plan_state: Option<MilestonePlanStateRecord>,
        plan: Option<&MilestonePlanProposalRecord>,
    ) -> (r: Result<Revision, ZapError>)
        ensures
            next_revision(h.expected_revision) is None ==> r == Err::<Revision, ZapError>(ZapError { code: ErrorCode::InvalidValue, detail: ErrorDetail::Empty }),
            next_revision(h.expected_revision) matches Some(next) ==> if !refinement_fresh(payload.refinement, next, fingerprint, refinement_stored, lowering_stored) {
                r == Err::<Revision, ZapError>(ZapError { code: ErrorCode::StaleRevision, detail: ErrorDetail::Empty })
            } else {
                match (plan_state, plan) {
                    (Some(s), Some(p)) => if refinement_bound(payload.refinement, s, *p) {
                        r == Ok::<Revision, ZapError>(next)
                    } else {
                        r == Err::<Revision, ZapError>(ZapError { code: ErrorCode::StaleRevision, detail: ErrorDetail::Empty })
                    },
                    _ => r == Err::<Revision, ZapError>(ZapError { code: ErrorCode::MissingReference, detail: ErrorDetail::Empty }),
                }
            },
    {
        let refinement = &payload.refinement;
        let next = checked_next(h.expected_revision)?;
        let mut ordered = true;
        let mut k: usize = 1;
        while k < refinement.rationale_work_ids.len()
            invariant
                1 <= k,
                ordered == (forall|i: int| 0 <= i < k - 1 && i < refinement.rationale_work_ids@.len() - 1
                    ==> (#[trigger] refinement.rationale_work_ids@[i]).0 < refinement.rationale_work_ids@[i + 1].0),
            decreases refinement.rationale_work_ids.len() - k,
        {
            if refinement.rationale_work_ids[k - 1].0 >= refinement.rationale_work_ids[k].0 {
                ordered = false;
            }
            k += 1;
        }
        if refinement.revision.0 != next.0 || refinement.semantic_fingerprint.0 != fingerprint.0 || !ordered
            || refinement_stored || lowering_stored
        {
            return Err(ZapError::new(ErrorCode::StaleRevision));
        }
        let state = match plan_state {
            None => {
                return Err(ZapError::new(ErrorCode::MissingReference));
            },
            Some(s) => s,
        };
        let plan = match plan {
            None => {
                return Err(ZapError::new(ErrorCode::MissingReference));
            },
            Some(p) => p,
        };
        if state.adopted_plan.outcome_id.0 != refinement.plan_key.outcome_id.0 || state.adopted_fingerprint.0 != refinement.plan_fingerprint.0
            || state.revision.0 != refinement.plan_state_revision.0 || plan.semantic_fingerprint.0 != refinement.plan_fingerprint.0
            || plan.strategic_revision_id.0 != refinement.strategic_revision_id.0
            || plan.strategic_record_revision.0 != refinement.strategic_record_revision.0
            || plan.strategic_semantic_digest.0 != refinement.strategic_semantic_digest.0
        {
            return Err(ZapError::new(ErrorCode::StaleRevision));
        }
        Ok(next)
    }
}

/// The request to record a successor plan that a composite operation
/// proposes for an outcome, after the plan it succeeds.
pub struct CompositeSuccessorPlanIntent {
    pub key: MilestonePlanKey,
    pub previous: Option<MilestonePlanKey>,
    pub strategic_revision_id: StrategicRevisionId,
    pub strategic_record_revision: Revision,
    pub strategic_semantic_digest: DigestValue,
    pub outcome_revision: Revision,
    pub expected_plan_state_revision: Option<Revision>,
    pub obligation_ids: Vec<ObligationId>,
    pub milestone_revision_ids: Vec<MilestoneRevisionId>,
    pub admission_work_ids: Vec<WorkId>,
}

/// A successor's lineage is current: with no plan state the successor names
/// no previous plan and expects no state; with one it names the adopted plan
/// and expects the state's exact revision.
pub open spec fn successor_lineage_current(current: Option<MilestonePlanStateRecord>, intent: CompositeSuccessorPlanIntent) -> bool {
    match (current, intent.expected_plan_state_revision, intent.previous) {
        (None, None, None) => true,
        (Some(row), Some(expected), Some(previous)) => row.revision == expected && row.adopted_plan == previous,
        _ => false,
    }
}

/// Refuses a successor whose plan state or lineage is stale; `current` is
/// the plan state stored for the intent's outcome.
pub fn validate_plan_state(current: Option<MilestonePlanStateRecord>, intent: &CompositeSuccessorPlanIntent) -> (r: Result<(), ZapError>)
    ensures
        r is Ok <==> successor_lineage_current(current, *intent),
        r matches Err(e) ==> e.code == ErrorCode::StaleRevision,
{
    let fits = match (current, intent.expected_plan_state_revision, intent.previous) {
        (None, None, None) => true,
        (Some(row), Some(expected), Some(previous)) => row.revision.0 == expected.0 && row.adopted_plan.outcome_id.0 == previous.outcome_id.0,
        _ => false,
    };
    if !fits {
        return Err(ZapError::new(ErrorCode::StaleRevision));
    }
    Ok(())
}

/// The proposal a successor intent becomes at a candidate revision, with the
/// basis and fingerprint computed for it.
pub open spec fn successor_plan(
    p: MilestonePlanProposalRecord,
    intent: CompositeSuccessorPlanIntent,
    revision: Revision,
    relevant_basis: DigestValue,
    semantic_fingerprint: DigestValue,
) -> bool {
    &&& p.key == intent.key
    &&& p.previous == intent.previous
    &&& p.strategic_revision_id == intent.strategic_revision_id
    &&& p.strategic_record_revision == intent.strategic_record_revision
    &&& p.strategic_semantic_digest == intent.strategic_semantic_digest
    &&& p.outcome_revision == intent.outcome_revision
    &&& p.relevant_basis == relevant_basis
    &&& p.semantic_fingerprint == semantic_fingerprint
    &&& p.revision == revision
    &&& p.obligation_ids@ == intent.obligation_ids@
    &&& p.milestone_revision_ids@ == intent.milestone_revision_ids@
    &&& p.admission_work_ids@ == intent.admission_work_ids@
}

/// Prepares the successor plan of a composite operation at the candidate
/// revision. `relevant_basis` is the basis the provider gives for the plan's
/// basis request, `semantic_fingerprint` the plan's fingerprint, and
/// `validation` the verdict of validating the prepared proposal.
pub fn prepare_composite_successor_plan(
    current: Option<MilestonePlanStateRecord>,
    intent: &CompositeSuccessorPlanIntent,
    candidate_revision: Revision,
    relevant_basis: DigestValue,
    semantic_fingerprint: DigestValue,
    validation: Result<(), ZapError>,
) -> (r: Result<MilestonePlanProposalRecord, ZapError>)
    ensures
        !successor_lineage_current(current, *intent) ==> (r matches Err(e) && e.code == ErrorCode::StaleRevision),
        successor_lineage_current(current, *intent) ==> match validation {
            Err(e) => (r matches Err(x) && x == e),
            Ok(()) => (r matches Ok(p) && successor_plan(p, *intent, candidate_revision, relevant_basis, semantic_fingerprint)),
        },
{
    validate_plan_state(current, intent)?;
    let plan = MilestonePlanProposalRecord {
        key: intent.key,
        previous: intent.previous,
        outcome_revision: intent.outcome_revision,
        revision: candidate_revision,
        relevant_basis,
        semantic_fingerprint,
        strategic_revision_id: intent.strategic_revision_id,
        strategic_record_revision: intent.strategic_record_revision,
        strategic_semantic_digest: intent.strategic_semantic_digest,
        obligation_ids: copy_items(&intent.obligation_ids),
        milestone_revision_ids: copy_items(&intent.milestone_revision_ids),
        admission_work_ids: copy_items(&intent.admission_work_ids),
    };
    match validation {
        Err(e) => Err(e),
        Ok(()) => Ok(plan),
    }
}

/// One effect of the composite operation that precedes the successor plan.
pub struct CompositePrecursorEffectBinding {
    pub effect_id: EffectId,
    pub index: u32,
    pub kind: String,
    pub payload_digest: DigestValue,
    pub predecessors: Vec<EffectId>,
    pub product_event_id: EventId,
}

/// What binds a successor candidate to the composite operation that
/// produced it.
pub struct CompositePlanCandidateBindingRecord {
    pub plan_key: MilestonePlanKey,
    pub operation_id: OperationId,
    pub request_digest: DigestValue,
    pub precursors: Vec<CompositePrecursorEffectBinding>,
    pub revision: Revision,
}

/// Records a successor candidate with its binding.
pub struct CompositePlanCandidateRecorded {
    pub operation_id: OperationId,
    pub request_digest: DigestValue,
    pub expected_plan_state_revision: Option<Revision>,
    pub plan: MilestonePlanProposalRecord,
    pub binding: CompositePlanCandidateBindingRecord,
}

/// Records a composite successor candidate at the command's next revision;
/// `plan_stored` says whether a proposal with the plan's key is recorded.
pub struct CompositePlanCandidateRecordedCell;

impl CompositePlanCandidateRecordedCell {
    pub fn apply(&self, expected_revision: Revision, payload: &CompositePlanCandidateRecorded, plan_stored: bool) -> (r: Result<Revision, ZapError>)
        ensures
            match next_revision(expected_revision) {
                None => r matches Err(e) && e.code == ErrorCode::InvalidValue,
                Some(next) => if payload.plan.revision != next || plan_stored {
                    r matches Err(e) && e.code == ErrorCode::StaleRevision
                } else {
                    r == Ok::<Revision, ZapError>(payload.plan.revision)
                },
            },
    {
        let next = checked_next(expected_revision)?;
        if payload.plan.revision.0 != next.0 || plan_stored {
            return Err(ZapError::new(ErrorCode::StaleRevision));
        }
        Ok(payload.plan.revision)
    }
}

/// The digests a refinement is held against, each computed from what it
/// digests: the lowering's digest as computed and as stored, the submitted
/// graph's digest, and the refinement's own fingerprint.
#[derive(Clone, Copy, Debug, PartialEq, Eq, Structural)]
pub struct RefinementDigests {
    pub lowering_computed: DigestValue,
    pub lowering_stored: DigestValue,
    pub graph: DigestValue,
    pub refinement: DigestValue,
}

/// A refinement still binds its lowering, graph, adopted plan, plan state
/// and strategy, and carries its own fingerprint.
pub open spec fn refinement_binding_current(
    r: RefinementPlanRecord,
    state: MilestonePlanStateRecord,
    plan: MilestonePlanProposalRecord,
    strategy: StrategyFacts,
    digests: RefinementDigests,
) -> bool {
    &&& r.lowering_semantic_digest == digests.lowering_computed
    &&& r.lowering_semantic_digest == digests.lowering_stored
    &&& r.graph_digest == digests.graph
    &&& r.plan_key == plan.key
    &&& r.plan_fingerprint == plan.semantic_fingerprint
    &&& r.plan_state_revision == state.revision
    &&& r.strategic_revision_id == strategy.strategic_revision_id
    &&& r.strategic_record_revision == strategy.revision
    &&& r.strategic_semantic_digest == strategy.semantic_digest
    &&& r.semantic_fingerprint == digests.refinement
}

/// Refuses a refinement that is stale against its plan, strategy, lowering
/// or graph.
pub fn validate_refinement_binding(
    refinement: &RefinementPlanRecord,
    plan_state: &MilestonePlanStateRecord,
    plan: &MilestonePlanProposalRecord,
    strategy: &StrategyFacts,
    digests: RefinementDigests,
) -> (r: Result<(), ZapError>)
    ensures
        r is Ok <==> refinement_binding_current(*refinement, *plan_state, *plan, *strategy, digests),
        r matches Err(e) ==> e.code == ErrorCode::StaleRevision,
{
    if refinement.lowering_semantic_digest.0 != digests.lowering_computed.0
        || refinement.lowering_semantic_digest.0 != digests.lowering_stored.0 || refinement.graph_digest.0 != digests.graph.0
        || refinement.plan_key.outcome_id.0 != plan.key.outcome_id.0 || refinement.plan_fingerprint.0 != plan.semantic_fingerprint.0
        || refinement.plan_state_revision.0 != plan_state.revision.0
        || refinement.strategic_revision_id.0 != strategy.strategic_revision_id.0
        || refinement.strategic_record_revision.0 != strategy.revision.0
        || refinement.strategic_semantic_digest.0 != strategy.semantic_digest.0
        || refinement.semantic_fingerprint.0 != digests.refinement.0
    {
        return Err(ZapError::new(ErrorCode::StaleRevision));
    }
    Ok(())
}

/// Some milestone among the first `n` names the work.
pub open spec fn named_by_milestones(milestone_works: Seq<Vec<WorkId>>, n: int, w: WorkId) -> bool {
    exists|i: int| 0 <= i < n && (#[trigger] milestone_works[i])@.contains(w)
}

/// A root of a plan's basis request: the plan's outcome, an obligation it
/// covers, or a stored work one of its milestones names.
pub open spec fn plan_root(plan: MilestonePlanProposalRecord, milestone_works: Seq<Vec<WorkId>>, existing: Seq<WorkId>, s: SubjectRef) -> bool {
    match s {
        SubjectRef::Outcome(o) => o == plan.key.outcome_id,
        SubjectRef::Obligation(o) => plan.obligation_ids@.contains(o),
        SubjectRef::Work(w) => existing.contains(w) && named_by_milestones(milestone_works, milestone_works.len() as int, w),
        _ => false,
    }
}

fn holds_work(v: &[WorkId], w: WorkId) -> (r: bool)
    ensures
        r == v@.contains(w),
{
    let mut k: usize = 0;
    while k < v.len()
        invariant
            k <= v@.len(),
            forall|m: int| 0 <= m < k ==> v@[m] != w,
        decreases v@.len() - k,
    {
        if v[k].0 == w.0 {
            return true;
        }
        k += 1;
    }
    false
}

/// The roots of a plan's basis request, each once, in subject order.
/// `milestone_works` holds the works each of the plan's milestone revisions
/// names, and `existing` the works that are stored.
pub fn plan_basis_roots(plan: &MilestonePlanProposalRecord, milestone_works: &[Vec<WorkId>], existing: &[WorkId]) -> (r: Vec<SubjectRef>)
    ensures
        subjects_increasing(r@),
        forall|s: SubjectRef| #[trigger] r@.to_set().contains(s) <==> plan_root(*plan, milestone_works@, existing@, s),
{
    let mut roots: Vec<SubjectRef> = Vec::new();
    insert_subject_ref(&mut roots, SubjectRef::Outcome(plan.key.outcome_id));
    insert_obligation_subjects(&mut roots, &plan.obligation_ids);
    let ghost base = roots@.to_set();
    assert forall|s: SubjectRef| #[trigger] base.contains(s) <==> (s == SubjectRef::Outcome(plan.key.outcome_id)
        || (s matches SubjectRef::Obligation(o) && plan.obligation_ids@.contains(o))) by {
        assert(Seq::<SubjectRef>::empty().to_set() =~= Set::<SubjectRef>::empty());
    }
    let mut i: usize = 0;
    while i < milestone_works.len()
        invariant
            i <= milestone_works@.len(),
            subjects_increasing(roots@),
            forall|s: SubjectRef| #[trigger] base.contains(s) <==> (s == SubjectRef::Outcome(plan.key.outcome_id)
                || (s matches SubjectRef::Obligation(o) && plan.obligation_ids@.contains(o))),
            forall|s: SubjectRef| #[trigger] roots@.to_set().contains(s) <==> (base.contains(s)
                || (s matches SubjectRef::Work(w) && existing@.contains(w) && named_by_milestones(milestone_works@, i as int, w))),
        decreases milestone_works@.len() - i,
    {
        let works = &milestone_works[i];
        let mut k: usize = 0;
        while k < works.len()
            invariant
                k <= works@.len(),
                works == &milestone_works@[i as int],
                subjects_increasing(roots@),
                forall|s: SubjectRef| #[trigger] roots@.to_set().contains(s) <==> (base.contains(s)
                    || (s matches SubjectRef::Work(w) && existing@.contains(w)
                        && (named_by_milestones(milestone_works@, i as int, w) || works@.take(k as int).contains(w)))),
            decreases works@.len() - k,
        {
            let w = works[k];
            let ghost before = roots@.to_set();
            if holds_work(existing, w) {
                insert_subject_ref(&mut roots, SubjectRef::Work(w));
            }
            proof {
                let t = works@.take(k as int);
                assert(works@.take(k as int + 1) == t.push(w));
                assert forall|x: WorkId| #[trigger] t.push(w).contains(x) <==> (t.contains(x) || x == w) by {
                    if t.push(w).contains(x) && !t.contains(x) {
                        let m = choose|m: int| 0 <= m < t.len() + 1 && #[trigger] t.push(w)[m] == x;
                        if m < t.len() {
                            assert(t[m] == x);
                        }
                    }
                    if t.contains(x) {
                        let m = choose|m: int| 0 <= m < t.len() && #[trigger] t[m] == x;
                        assert(t.push(w)[m] == x);
                    }
                    if x == w {
                        assert(t.push(w)[t.len() as int] == x);
                    }
                }
            }
            k += 1;
        }
        proof {
            assert(works@.take(k as int) =~= works@);
            assert forall|x: WorkId| named_by_milestones(milestone_works@, i as int + 1, x) <==> (named_by_milestones(milestone_works@, i as int, x)
                || works@.contains(x)) by {
                if named_by_milestones(milestone_works@, i as int + 1, x) {
                    let j = choose|j: int| 0 <= j < i + 1 && (#[trigger] milestone_works@[j])@.contains(x);
                    if j < i as int {
                        assert(named_by_milestones(milestone_works@, i as int, x));
                    }
                }
                if works@.contains(x) {
                    assert(milestone_works@[i as int]@.contains(x));
                }
                if named_by_milestones(milestone_works@, i as int, x) {
                    let j = choose|j: int| 0 <= j < i && (#[trigger] milestone_works@[j])@.contains(x);
                    assert(milestone_works@[j]@.contains(x));
                }
            }
        }
        i += 1;
    }
    roots
}

/// The works among subjects, in their order.
pub open spec fn work_subjects(s: Seq<SubjectRef>) -> Seq<WorkId>
    decreases s.len(),
{
    if s.len() == 0 {
        Seq::empty()
    } else {
        match s.last() {
            SubjectRef::Work(w) => work_subjects(s.drop_last()).push(w),
            _ => work_subjects(s.drop_last()),
        }
    }
}

/// The declared scope of adopting a milestone plan.
pub struct PlanAdoptionScope {
    pub roots: Vec<SubjectRef>,
    pub work_ids: Vec<WorkId>,
}

/// The effect of adopting a milestone plan, as a preflight scopes and
/// simulates it.
pub struct MilestonePlanAdoptionEffect;

impl MilestonePlanAdoptionEffect {
    /// The scope of adopting a plan: its basis roots, and the works among
    /// them. `milestone_works` and `existing` are as for the plan's basis.
    pub fn scope(&self, payload: &MilestonePlanAdopted, milestone_works: &[Vec<WorkId>], existing: &[WorkId]) -> (r: PlanAdoptionScope)
        ensures
            subjects_increasing(r.roots@),
            forall|s: SubjectRef| #[trigger] r.roots@.to_set().contains(s) <==> plan_root(payload.plan, milestone_works@, existing@, s),
            r.work_ids@ == work_subjects(r.roots@),
    {
        let roots = plan_basis_roots(&payload.plan, milestone_works, existing);
        let mut work_ids: Vec<WorkId> = Vec::new();
        let mut k: usize = 0;
        while k < roots.len()
            invariant
                k <= roots@.len(),
                work_ids@ == work_subjects(roots@.take(k as int)),
            decreases roots@.len() - k,
        {
            proof {
                assert(roots@.take(k as int + 1).drop_last() =~= roots@.take(k as int));
            }
            match roots[k] {
                SubjectRef::Work(w) => work_ids.push(w),
                _ => {},
            }
            k += 1;
        }
        assert(roots@.take(k as int) =~= roots@);
        PlanAdoptionScope { roots, work_ids }
    }

    /// Simulates adopting a plan on the basis the preflight observed before
    /// it: a plan proposed on another basis is stale; otherwise the verdict
    /// is that of applying the adoption, `adoption`.
    pub fn simulate(&self, payload: &MilestonePlanAdopted, relevant_before: DigestValue, adoption: Result<(), ZapError>) -> (r: Result<(), ZapError>)
        ensures
            payload.plan.relevant_basis != relevant_before ==> r == Err::<(), ZapError>(ZapError { code: ErrorCode::StaleRevision, detail: ErrorDetail::Empty }),
            payload.plan.relevant_basis == relevant_before ==> r == adoption,
    {
        if payload.plan.relevant_basis.0 != relevant_before.0 {
            return Err(ZapError::new(ErrorCode::StaleRevision));
        }
        adoption
    }
}

} // verus!
