//! The Dreamer's vocabulary: non-executable scope-change intents, grill
//! questions, assumptions and the projections a dream is judged by.
use vstd::prelude::*;

use crate::error::{ErrorCode, ErrorDetail, ZapError};
use crate::ids::{ActionClass, AssessmentId, CampaignId, ChangeAlternativeId, CharterId, DecisionId, DigestValue, DreamId, ObligationId, Revision, WorkId};
use crate::owner_control::OwnerChangeChoice;
use crate::owner_control::{checked_next, next_revision, PauseRecord, PauseScope, PauseStatus};

verus! {

/// A positive grill question number.
#[derive(Clone, Copy, Debug, PartialEq, Eq, Ord, Structural)]
pub struct GrillQuestionId {
    value: u32,
}

impl GrillQuestionId {
    #[verifier::type_invariant]
    spec fn inv(self) -> bool {
        self.value > 0
    }

    pub closed spec fn number(self) -> u32 {
        self.value
    }

    /// Question zero does not exist.
    pub fn new(value: u32) -> (r: Result<GrillQuestionId, ZapError>)
        ensures
            r is Ok <==> value != 0,
            r matches Ok(q) ==> q.number() == value,
            r matches Err(e) ==> e.code == ErrorCode::InvalidValue,
    {
        if value == 0 {
            return Err(ZapError::new(ErrorCode::InvalidValue));
        }
        Ok(GrillQuestionId { value })
    }

    pub fn get(self) -> (r: u32)
        ensures
            r == self.number(),
            r > 0,
    {
        proof {
            use_type_invariant(&self);
        }
        self.value
    }
}

/// The scope change a dream proposes.
#[derive(Clone, Copy, Debug, PartialEq, Eq, Structural)]
pub enum DreamOperation {
    Add,
    Remove,
    Move,
    Replace,
}

/// How an applied dream changed the strategy.
#[derive(Clone, Copy, Debug, PartialEq, Eq, Structural)]
pub enum DreamApplicationDisposition {
    Added,
    Removed,
    Moved,
    Replaced,
}

/// The disposition that applying an operation records.
pub open spec fn disposition_of(value: DreamOperation) -> DreamApplicationDisposition {
    match value {
        DreamOperation::Add => DreamApplicationDisposition::Added,
        DreamOperation::Remove => DreamApplicationDisposition::Removed,
        DreamOperation::Move => DreamApplicationDisposition::Moved,
        DreamOperation::Replace => DreamApplicationDisposition::Replaced,
    }
}

impl From<DreamOperation> for DreamApplicationDisposition {
    fn from(value: DreamOperation) -> (r: DreamApplicationDisposition) {
        match value {
            DreamOperation::Add => DreamApplicationDisposition::Added,
            DreamOperation::Remove => DreamApplicationDisposition::Removed,
            DreamOperation::Move => DreamApplicationDisposition::Moved,
            DreamOperation::Replace => DreamApplicationDisposition::Replaced,
        }
    }
}

impl vstd::std_specs::convert::FromSpecImpl<DreamOperation> for DreamApplicationDisposition {
    open spec fn obeys_from_spec() -> bool {
        true
    }

    open spec fn from_spec(v: DreamOperation) -> DreamApplicationDisposition {
        disposition_of(v)
    }
}

/// Whether a dream only explores or explicitly changes scope.
#[derive(Clone, Copy, Debug, PartialEq, Eq, Structural)]
pub enum DreamIntent {
    Hypothetical,
    ExplicitScopeChange { operation: DreamOperation },
}

/// A dream's lifecycle; no status makes it executable.
#[derive(Clone, Copy, Debug, PartialEq, Eq, Structural)]
pub enum DreamStatus {
    Exploring,
    Ready,
    Stale,
    Applied,
    Rejected,
    Withdrawn,
}

/// What a grill question asks for.
#[derive(Clone, Copy, Debug, PartialEq, Eq, Structural)]
pub enum GrillQuestionKind {
    Placement,
    FactualDiscovery,
    OwnerPreference,
}

/// The standing of a dream assumption.
#[derive(Clone, Copy, Debug, PartialEq, Eq, Structural)]
pub enum AssumptionState {
    Proposed,
    Supported,
    Refuted,
}

/// Whether an unknown blocks admission or is bounded for economics.
#[derive(Clone, Copy, Debug, PartialEq, Eq, Structural)]
pub enum DreamUnknownDisposition {
    AdmissionCritical,
    BoundedForEconomics,
}

/// Removal never discards what it touches: everything is retained.
#[derive(Clone, Copy, Debug, PartialEq, Eq, Structural)]
pub enum DreamRetention {
    Retain,
}

/// The dream payload schemas.
#[derive(Clone, Copy, Debug, PartialEq, Eq, Structural)]
pub enum DreamSchema {
    V1,
}

/// The strategy node a dream adds or puts in place of another, by the work it names.
#[derive(Clone, Copy, Debug, PartialEq, Eq, Structural)]
pub struct StrategicNode {
    pub work_id: WorkId,
}

/// Adds a node to the strategy.
#[derive(Clone, Copy, Debug, PartialEq, Eq, Structural)]
pub struct DreamAdd {
    pub node: StrategicNode,
}

/// Where a moved or added node attaches.
#[derive(Clone, Copy, Debug, PartialEq, Eq, Structural)]
pub enum DreamAttachment {
    StrategyRoot,
    Subgoal { parent_work_id: WorkId },
}

/// Moves a node to another attachment.
#[derive(Clone, Copy, Debug, PartialEq, Eq, Structural)]
pub struct DreamMove {
    pub work_id: WorkId,
    pub attachment: DreamAttachment,
}

/// One operation of a dream delta.
#[derive(Clone, Copy, Debug, PartialEq, Eq, Structural)]
pub enum DreamDeltaOperation {
    Add(DreamAdd),
    Remove { removed_work_id: WorkId },
    Move(DreamMove),
    Replace { removed_work_id: WorkId, replacement: StrategicNode },
}

impl DreamDeltaOperation {
    /// The operation kind of a delta operation.
    pub fn operation(&self) -> (r: DreamOperation)
        ensures
            r == (match *self {
                DreamDeltaOperation::Add(_) => DreamOperation::Add,
                DreamDeltaOperation::Remove { .. } => DreamOperation::Remove,
                DreamDeltaOperation::Move(_) => DreamOperation::Move,
                DreamDeltaOperation::Replace { .. } => DreamOperation::Replace,
            }),
    {
        match self {
            DreamDeltaOperation::Add(_) => DreamOperation::Add,
            DreamDeltaOperation::Remove { .. } => DreamOperation::Remove,
            DreamDeltaOperation::Move(_) => DreamOperation::Move,
            DreamDeltaOperation::Replace { .. } => DreamOperation::Replace,
        }
    }
}

/// The value side of a dream projection.
#[derive(Clone, Copy, Debug, PartialEq, Eq, Structural)]
pub struct DreamValueProjection {
    pub added_goal_count: u64,
    pub removed_goal_count: u64,
    pub affected_obligation_count: u64,
    pub preserved_evidence_count: u64,
    pub bounded_unknown_count: u64,
}

/// The cost side of a dream projection.
#[derive(Clone, Copy, Debug, PartialEq, Eq, Structural)]
pub struct DreamCostProjection {
    pub operation_count: u64,
    pub affected_work_count: u64,
    pub dependent_work_count: u64,
    pub proof_revalidation_count: u64,
    pub live_job_reconciliation_count: u64,
}

/// The burden a dream leaves behind.
#[derive(Clone, Copy, Debug, PartialEq, Eq, Structural)]
pub struct DreamBurdenProjection {
    pub affected_lowering_count: u64,
    pub stage_debt_count: u64,
    pub deferral_count: u64,
    pub preserved_artifact_count: u64,
}

/// Applying a dream records the disposition named after its operation, and
/// distinct operations record distinct dispositions.
pub proof fn law_disposition_follows_operation(a: DreamOperation, b: DreamOperation)
    ensures
        a != b ==> disposition_of(a) != disposition_of(b),
{
}


/// The lifecycle of a charter.
#[derive(Clone, Copy, Debug, PartialEq, Eq, Structural)]
pub enum LifecycleStatus {
    Proposed,
    Active,
    /// Any later state.
    Retired,
}

/// A campaign charter. `terms` stands for the rest of its content, by its
/// digest.
pub struct CharterRecord {
    pub charter_id: CharterId,
    pub revision: Revision,
    pub parent_digest: Option<DigestValue>,
    pub allowed_actions: Vec<ActionClass>,
    pub mutable_obligations: Vec<ObligationId>,
    pub status: LifecycleStatus,
    pub digest: DigestValue,
    pub terms: DigestValue,
}

/// The charter change a Dream saved as required: which charter it amends,
/// the replacement's identity, and the actions and obligations it must add.
pub struct CharterChangeRequirement {
    pub original_charter_id: CharterId,
    pub original_revision: Revision,
    pub original_digest: DigestValue,
    pub replacement_charter_id: CharterId,
    pub required_actions: Vec<ActionClass>,
    pub required_mutable_obligations: Vec<ObligationId>,
}

pub open spec fn actions_increasing(s: Seq<ActionClass>) -> bool {
    forall|i: int, j: int| 0 <= i < j < s.len() ==> (#[trigger] s[i]).0 < (#[trigger] s[j]).0
}

pub open spec fn obligations_increasing(s: Seq<ObligationId>) -> bool {
    forall|i: int, j: int| 0 <= i < j < s.len() ==> (#[trigger] s[i]).0 < (#[trigger] s[j]).0
}

/// The replacement is the current charter amended by exactly the saved
/// requirement: the replacement identity at the next revision, parented on
/// the current digest, proposed, with the union of actions and of mutable
/// obligations in order, and every other term unchanged.
pub open spec fn amendment_scoped(req: CharterChangeRequirement, current: CharterRecord, replacement: CharterRecord, next: Revision) -> bool {
    &&& current.charter_id == req.original_charter_id
    &&& current.revision == req.original_revision
    &&& current.digest == req.original_digest
    &&& replacement.charter_id == req.replacement_charter_id
    &&& replacement.revision == next
    &&& replacement.parent_digest == Some(current.digest)
    &&& actions_increasing(replacement.allowed_actions@)
    &&& replacement.allowed_actions@.to_set() == current.allowed_actions@.to_set().union(req.required_actions@.to_set())
    &&& obligations_increasing(replacement.mutable_obligations@)
    &&& replacement.mutable_obligations@.to_set() == current.mutable_obligations@.to_set().union(req.required_mutable_obligations@.to_set())
    &&& replacement.status == LifecycleStatus::Proposed
    &&& replacement.terms == current.terms
}

fn actions_union_exact(out: &Vec<ActionClass>, a: &Vec<ActionClass>, b: &Vec<ActionClass>) -> (r: bool)
    ensures
        r == (actions_increasing(out@) && out@.to_set() == a@.to_set().union(b@.to_set())),
{
    let mut i: usize = 1;
    if out.len() > 0 {
        while i < out.len()
            invariant
                1 <= i <= out@.len(),
                forall|x: int, y: int| 0 <= x < y < i ==> (#[trigger] out@[x]).0 < (#[trigger] out@[y]).0,
            decreases out@.len() - i,
        {
            if out[i - 1].0 >= out[i].0 {
                return false;
            }
            i += 1;
        }
    }
    let mut k: usize = 0;
    while k < out.len()
        invariant
            k <= out@.len(),
            actions_increasing(out@),
            forall|m: int| 0 <= m < k ==> a@.contains(#[trigger] out@[m]) || b@.contains(out@[m]),
        decreases out@.len() - k,
    {
        if !holds_action(a, out[k]) && !holds_action(b, out[k]) {
            assert(out@.to_set().contains(out@[k as int]));
            return false;
        }
        k += 1;
    }
    let mut m: usize = 0;
    while m < a.len()
        invariant
            m <= a@.len(),
            forall|x: int| 0 <= x < m ==> out@.contains(#[trigger] a@[x]),
        decreases a@.len() - m,
    {
        if !holds_action(out, a[m]) {
            assert(a@.to_set().contains(a@[m as int]));
            assert(!out@.to_set().contains(a@[m as int]));
            assert(a@.to_set().union(b@.to_set()).contains(a@[m as int]));
            return false;
        }
        m += 1;
    }
    let mut n: usize = 0;
    while n < b.len()
        invariant
            n <= b@.len(),
            forall|x: int| 0 <= x < n ==> out@.contains(#[trigger] b@[x]),
        decreases b@.len() - n,
    {
        if !holds_action(out, b[n]) {
            assert(b@.to_set().contains(b@[n as int]));
            assert(!out@.to_set().contains(b@[n as int]));
            assert(a@.to_set().union(b@.to_set()).contains(b@[n as int]));
            return false;
        }
        n += 1;
    }
    proof {
        assert forall|x: ActionClass| #[trigger] out@.to_set().contains(x) <==> a@.to_set().union(b@.to_set()).contains(x) by {
            if out@.contains(x) {
                let j = choose|j: int| 0 <= j < out@.len() && out@[j] == x;
            }
            if a@.contains(x) {
                let j = choose|j: int| 0 <= j < a@.len() && a@[j] == x;
            }
            if b@.contains(x) {
                let j = choose|j: int| 0 <= j < b@.len() && b@[j] == x;
            }
        }
        assert(out@.to_set() =~= a@.to_set().union(b@.to_set()));
    }
    true
}

fn holds_action(v: &Vec<ActionClass>, x: ActionClass) -> (r: bool)
    ensures
        r == v@.contains(x),
{
    let mut k: usize = 0;
    while k < v.len()
        invariant
            k <= v@.len(),
            forall|m: int| 0 <= m < k ==> v@[m] != x,
        decreases v@.len() - k,
    {
        if v[k].0 == x.0 {
            assert(v@[k as int] == x);
            return true;
        }
        k += 1;
    }
    false
}

fn holds_obligation(v: &Vec<ObligationId>, x: ObligationId) -> (r: bool)
    ensures
        r == v@.contains(x),
{
    let mut k: usize = 0;
    while k < v.len()
        invariant
            k <= v@.len(),
            forall|m: int| 0 <= m < k ==> v@[m] != x,
        decreases v@.len() - k,
    {
        if v[k].0 == x.0 {
            assert(v@[k as int] == x);
            return true;
        }
        k += 1;
    }
    false
}

fn obligations_union_exact(out: &Vec<ObligationId>, a: &Vec<ObligationId>, b: &Vec<ObligationId>) -> (r: bool)
    ensures
        r == (obligations_increasing(out@) && out@.to_set() == a@.to_set().union(b@.to_set())),
{
    let mut i: usize = 1;
    if out.len() > 0 {
        while i < out.len()
            invariant
                1 <= i <= out@.len(),
                forall|x: int, y: int| 0 <= x < y < i ==> (#[trigger] out@[x]).0 < (#[trigger] out@[y]).0,
            decreases out@.len() - i,
        {
            if out[i - 1].0 >= out[i].0 {
                return false;
            }
            i += 1;
        }
    }
    let mut k: usize = 0;
    while k < out.len()
        invariant
            k <= out@.len(),
            obligations_increasing(out@),
            forall|m: int| 0 <= m < k ==> a@.contains(#[trigger] out@[m]) || b@.contains(out@[m]),
        decreases out@.len() - k,
    {
        if !holds_obligation(a, out[k]) && !holds_obligation(b, out[k]) {
            assert(out@.to_set().contains(out@[k as int]));
            return false;
        }
        k += 1;
    }
    let mut m: usize = 0;
    while m < a.len()
        invariant
            m <= a@.len(),
            forall|x: int| 0 <= x < m ==> out@.contains(#[trigger] a@[x]),
        decreases a@.len() - m,
    {
        if !holds_obligation(out, a[m]) {
            assert(a@.to_set().contains(a@[m as int]));
            assert(!out@.to_set().contains(a@[m as int]));
            assert(a@.to_set().union(b@.to_set()).contains(a@[m as int]));
            return false;
        }
        m += 1;
    }
    let mut n: usize = 0;
    while n < b.len()
        invariant
            n <= b@.len(),
            forall|x: int| 0 <= x < n ==> out@.contains(#[trigger] b@[x]),
        decreases b@.len() - n,
    {
        if !holds_obligation(out, b[n]) {
            assert(b@.to_set().contains(b@[n as int]));
            assert(!out@.to_set().contains(b@[n as int]));
            assert(a@.to_set().union(b@.to_set()).contains(b@[n as int]));
            return false;
        }
        n += 1;
    }
    proof {
        assert forall|x: ObligationId| #[trigger] out@.to_set().contains(x) <==> a@.to_set().union(b@.to_set()).contains(x) by {
            if out@.contains(x) {
                let j = choose|j: int| 0 <= j < out@.len() && out@[j] == x;
            }
            if a@.contains(x) {
                let j = choose|j: int| 0 <= j < a@.len() && a@[j] == x;
            }
            if b@.contains(x) {
                let j = choose|j: int| 0 <= j < b@.len() && b@[j] == x;
            }
        }
        assert(out@.to_set() =~= a@.to_set().union(b@.to_set()));
    }
    true
}

/// Checks that a combined Owner decision amends the charter by exactly the
/// Dream's saved requirement; the last revision cannot be amended.
pub fn validate_scoped_amendment(required: &CharterChangeRequirement, current: &CharterRecord, replacement: &CharterRecord) -> (r: Result<(), ZapError>)
    ensures
        match next_revision(current.revision) {
            None => r == Err::<(), ZapError>(ZapError { code: ErrorCode::InvalidValue, detail: ErrorDetail::Empty }),
            Some(n) => if amendment_scoped(*required, *current, *replacement, n) {
                r is Ok
            } else {
                r == Err::<(), ZapError>(ZapError { code: ErrorCode::Conflict, detail: ErrorDetail::Empty })
            },
        },
{
    let next = checked_next(current.revision)?;
    let parent_ok = match replacement.parent_digest {
        Some(d) => d.0 == current.digest.0,
        None => false,
    };
    if current.charter_id.0 != required.original_charter_id.0 || current.revision.0 != required.original_revision.0
        || current.digest.0 != required.original_digest.0 || replacement.charter_id.0 != required.replacement_charter_id.0
        || replacement.revision.0 != next.0 || !parent_ok
        || !actions_union_exact(&replacement.allowed_actions, &current.allowed_actions, &required.required_actions)
        || !obligations_union_exact(&replacement.mutable_obligations, &current.mutable_obligations, &required.required_mutable_obligations)
        || !matches!(replacement.status, LifecycleStatus::Proposed) || replacement.terms.0 != current.terms.0 {
        return Err(ZapError::new(ErrorCode::Conflict));
    }
    Ok(())
}

/// An active pause of the whole campaign.
pub open spec fn campaign_paused(pauses: Seq<PauseRecord>, campaign: CampaignId) -> bool {
    exists|k: int| 0 <= k < pauses.len() && (#[trigger] pauses[k]).status == PauseStatus::Active
        && pauses[k].scope == PauseScope::Campaign(campaign)
}

/// Refuses a combined Dream decision while the campaign is paused.
pub fn refuse_under_campaign_pause(pauses: &[PauseRecord], campaign: CampaignId) -> (r: Result<(), ZapError>)
    ensures
        r is Err <==> campaign_paused(pauses@, campaign),
        r matches Err(e) ==> e.code == ErrorCode::Paused,
{
    let mut k: usize = 0;
    while k < pauses.len()
        invariant
            k <= pauses@.len(),
            forall|m: int| 0 <= m < k ==> !((#[trigger] pauses@[m]).status == PauseStatus::Active && pauses@[m].scope == PauseScope::Campaign(campaign)),
        decreases pauses@.len() - k,
    {
        let p = &pauses[k];
        let hit = matches!(p.status, PauseStatus::Active) && match &p.scope {
            PauseScope::Campaign(c) => c.0 == campaign.0,
            _ => false,
        };
        if hit {
            assert(pauses@[k as int].status == PauseStatus::Active && pauses@[k as int].scope == PauseScope::Campaign(campaign));
            return Err(ZapError::new(ErrorCode::Paused));
        }
        k += 1;
    }
    Ok(())
}


/// The charter transition a Dream effect binds.
#[derive(Clone, Copy, Debug, PartialEq, Eq, Structural)]
pub struct CombinedCharterBinding {
    pub decision_id: DecisionId,
    pub original_charter_id: CharterId,
    pub original_revision: Revision,
    pub original_digest: DigestValue,
    pub replacement_charter_id: CharterId,
    pub replacement_revision: Revision,
    pub replacement_digest: DigestValue,
}

/// The applied-Dream effect of the selected alternative, as decoded.
#[derive(Clone, Copy, Debug, PartialEq, Eq, Structural)]
pub struct DreamEffectFacts {
    pub dream_id: DreamId,
    pub expected_dream_revision: Revision,
    pub assessment_id: AssessmentId,
    pub projection_digest: DigestValue,
    pub combined_charter: Option<CombinedCharterBinding>,
}

/// The Owner's change decision as a combined response carries it.
#[derive(Clone, Copy, Debug, PartialEq, Eq, Structural)]
pub struct CombinedDecision {
    pub decision_id: DecisionId,
    pub assessment_id: AssessmentId,
    pub assessment_digest: DigestValue,
    pub recommended_alternative_id: ChangeAlternativeId,
    pub choice: OwnerChangeChoice,
}

/// A charter's identity, revision and digest.
#[derive(Clone, Copy, Debug, PartialEq, Eq, Structural)]
pub struct CharterRef {
    pub charter_id: CharterId,
    pub revision: Revision,
    pub digest: DigestValue,
}

/// What a combined Owner decision is checked against: the current Dream
/// branch and its projection digest, the amended charter that would become
/// active, the assessment (its recomputed digest and the effects of the
/// recommended alternative, decoded) and whether the Dream already holds a
/// combined authorization.
pub struct CombinedDecisionFacts {
    pub dream_id: DreamId,
    pub dream_revision: Revision,
    pub estimate: Option<AssessmentId>,
    pub projection_digest: DigestValue,
    pub current_charter: Option<CharterRef>,
    pub replacement: CharterRef,
    pub assessment_digest: Option<DigestValue>,
    pub alternative_effects: Option<Vec<DreamEffectFacts>>,
    pub authorized: bool,
}

/// A combined Owner decision binds the Dream, its projection, the charter
/// transition and the economics assessment: it approves the exact projection
/// under the current estimate, and the one live Dream effect names the dream
/// at its revision, the assessment and the projection, and a charter
/// transition, not yet authorized, from the current charter to the
/// replacement under this decision, with the current assessment digest.
pub open spec fn combined_decision_binds(facts: CombinedDecisionFacts, projection_digest: DigestValue, d: CombinedDecision) -> bool {
    &&& facts.projection_digest == projection_digest
    &&& facts.estimate == Some(d.assessment_id)
    &&& d.choice == OwnerChangeChoice::Approve
    &&& facts.current_charter matches Some(current)
    &&& facts.assessment_digest matches Some(digest)
    &&& facts.alternative_effects matches Some(effects)
    &&& effects@.len() == 1
    &&& effects@[0].combined_charter matches Some(b)
    &&& effects@[0].dream_id == facts.dream_id
    &&& effects@[0].expected_dream_revision == facts.dream_revision
    &&& effects@[0].assessment_id == d.assessment_id
    &&& effects@[0].projection_digest == facts.projection_digest
    &&& b.decision_id == d.decision_id
    &&& b.original_charter_id == current.charter_id
    &&& b.original_revision == current.revision
    &&& b.original_digest == current.digest
    &&& b.replacement_charter_id == facts.replacement.charter_id
    &&& b.replacement_revision == facts.replacement.revision
    &&& b.replacement_digest == facts.replacement.digest
    &&& !facts.authorized
    &&& d.assessment_digest == digest
}

/// Checks that a combined Owner decision approves the exact Dream
/// projection and binds the one live Dream effect, the charter transition
/// and the current assessment.
pub fn check_combined_decision(facts: &CombinedDecisionFacts, projection_digest: DigestValue, decision: &CombinedDecision) -> (r: Result<(), ZapError>)
    ensures
        r is Ok <==> combined_decision_binds(*facts, projection_digest, *decision),
        r is Err ==> r == Err::<(), ZapError>(ZapError { code: ErrorCode::Conflict, detail: ErrorDetail::Empty }),
{
    let estimate_ok = match facts.estimate {
        Some(a) => a.0 == decision.assessment_id.0,
        None => false,
    };
    if facts.projection_digest.0 != projection_digest.0 || !estimate_ok || !matches!(decision.choice, OwnerChangeChoice::Approve) {
        return Err(ZapError::new(ErrorCode::Conflict));
    }
    let current = match facts.current_charter {
        Some(c) => c,
        None => return Err(ZapError::new(ErrorCode::Conflict)),
    };
    let digest = match facts.assessment_digest {
        Some(d) => d,
        None => return Err(ZapError::new(ErrorCode::Conflict)),
    };
    let effects = match &facts.alternative_effects {
        Some(e) => e,
        None => return Err(ZapError::new(ErrorCode::Conflict)),
    };
    if effects.len() != 1 {
        return Err(ZapError::new(ErrorCode::Conflict));
    }
    let e = effects[0];
    let b = match e.combined_charter {
        Some(b) => b,
        None => return Err(ZapError::new(ErrorCode::Conflict)),
    };
    if e.dream_id.0 != facts.dream_id.0 || e.expected_dream_revision.0 != facts.dream_revision.0
        || e.assessment_id.0 != decision.assessment_id.0 || e.projection_digest.0 != facts.projection_digest.0
        || b.decision_id.0 != decision.decision_id.0 || b.original_charter_id.0 != current.charter_id.0
        || b.original_revision.0 != current.revision.0 || b.original_digest.0 != current.digest.0
        || b.replacement_charter_id.0 != facts.replacement.charter_id.0 || b.replacement_revision.0 != facts.replacement.revision.0
        || b.replacement_digest.0 != facts.replacement.digest.0 || facts.authorized || decision.assessment_digest.0 != digest.0 {
        return Err(ZapError::new(ErrorCode::Conflict));
    }
    Ok(())
}

/// What a cell reads of a stored Dream branch.
#[derive(Clone, Copy, Debug, PartialEq, Eq, Structural)]
pub struct DreamBranchFacts {
    pub dream_id: DreamId,
    pub revision: Revision,
    pub status: DreamStatus,
}

/// A branch that was applied, rejected or withdrawn takes no more decisions.
pub open spec fn branch_closed(s: DreamStatus) -> bool {
    s == DreamStatus::Applied || s == DreamStatus::Rejected || s == DreamStatus::Withdrawn
}

/// The authorization a combined Owner decision records for the Dream: the
/// Dream at its revision, the projection, the charter transition, the
/// amendment, the assessment and its alternative, and the effect
/// fingerprints and item preflight digests the decision approved.
pub struct DreamCombinedAuthorization {
    pub dream_id: DreamId,
    pub dream_revision: Revision,
    pub projection_digest: DigestValue,
    pub charter: CombinedCharterBinding,
    pub amendment_digest: DigestValue,
    pub assessment_id: AssessmentId,
    pub assessment_revision: Revision,
    pub assessment_digest: DigestValue,
    pub comparison_basis: DigestValue,
    pub alternative_id: ChangeAlternativeId,
    pub effect_fingerprints: Vec<DigestValue>,
    pub effect_item_digests: Vec<DigestValue>,
    pub revision: Revision,
}

/// Builds the authorization a combined Owner decision inserts, once the
/// decision binds the Dream, its projection, the charter transition and the
/// assessment (see `check_combined_decision`); `amendment_digest` is the
/// digest of the amendment's canonical encoding, and the assessment's
/// revision and comparison basis are as stored.
pub fn combined_authorization(
    facts: &CombinedDecisionFacts,
    projection_digest: DigestValue,
    decision: &CombinedDecision,
    amendment_digest: DigestValue,
    assessment_revision: Revision,
    comparison_basis: DigestValue,
    effect_fingerprints: Vec<DigestValue>,
    effect_item_digests: Vec<DigestValue>,
) -> (r: Result<DreamCombinedAuthorization, ZapError>)
    ensures
        r is Ok <==> combined_decision_binds(*facts, projection_digest, *decision),
        r is Err ==> r == Err::<DreamCombinedAuthorization, ZapError>(ZapError { code: ErrorCode::Conflict, detail: ErrorDetail::Empty }),
        r matches Ok(a) ==> {
            &&& a.dream_id == facts.dream_id
            &&& a.dream_revision == facts.dream_revision
            &&& a.projection_digest == projection_digest
            &&& facts.alternative_effects matches Some(effects) && effects@[0].combined_charter == Some(a.charter)
            &&& a.amendment_digest == amendment_digest
            &&& a.assessment_id == decision.assessment_id
            &&& a.assessment_revision == assessment_revision
            &&& a.assessment_digest == decision.assessment_digest
            &&& a.comparison_basis == comparison_basis
            &&& a.alternative_id == decision.recommended_alternative_id
            &&& a.effect_fingerprints@ == effect_fingerprints@
            &&& a.effect_item_digests@ == effect_item_digests@
            &&& a.revision == Revision(1)
        },
{
    check_combined_decision(facts, projection_digest, decision)?;
    let charter = match &facts.alternative_effects {
        Some(effects) => match effects[0].combined_charter {
            Some(b) => b,
            None => return Err(ZapError::new(ErrorCode::Conflict)),
        },
        None => return Err(ZapError::new(ErrorCode::Conflict)),
    };
    Ok(DreamCombinedAuthorization {
        dream_id: facts.dream_id,
        dream_revision: facts.dream_revision,
        projection_digest,
        charter,
        amendment_digest,
        assessment_id: decision.assessment_id,
        assessment_revision,
        assessment_digest: decision.assessment_digest,
        comparison_basis,
        alternative_id: decision.recommended_alternative_id,
        effect_fingerprints,
        effect_item_digests,
        revision: Revision(1),
    })
}

/// The branch a Dream decision acts on: it must be stored, at the expected
/// revision, and still open. `branch` is the stored branch, if any.
pub fn current_branch(branch: Option<DreamBranchFacts>, expected: Revision) -> (r: Result<DreamBranchFacts, ZapError>)
    ensures
        match branch {
            None => r == Err::<DreamBranchFacts, ZapError>(ZapError { code: ErrorCode::Conflict, detail: ErrorDetail::Empty }),
            Some(b) => if b.revision != expected || branch_closed(b.status) {
                r == Err::<DreamBranchFacts, ZapError>(ZapError { code: ErrorCode::Conflict, detail: ErrorDetail::Empty })
            } else {
                r == Ok::<DreamBranchFacts, ZapError>(b)
            },
        },
{
    let b = match branch {
        None => return Err(ZapError::new(ErrorCode::Conflict)),
        Some(b) => b,
    };
    let closed = match b.status {
        DreamStatus::Applied | DreamStatus::Rejected | DreamStatus::Withdrawn => true,
        _ => false,
    };
    if b.revision.0 != expected.0 || closed {
        return Err(ZapError::new(ErrorCode::Conflict));
    }
    Ok(b)
}

} // verus!
