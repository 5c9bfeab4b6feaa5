//! The active planning context: which outcome is active, which strategy is
//! current, and whether the adopted milestone plan still binds them.
use vstd::prelude::*;

use crate::basis_indexes::BasisIndex;
use crate::error::{ErrorCode, ErrorDetail, ZapError};
use crate::ids::{BaseId, CampaignId, DigestValue, OutcomeId, Revision, StoreId, StrategicRevisionId};
use crate::milestone_planning::{MilestonePlanKey, MilestonePlanProposalRecord, MilestonePlanStateRecord};

verus! {

/// The active-context query takes no input.
#[derive(Clone, Copy, Debug, PartialEq, Eq, Structural)]
pub struct ActiveContextInput {}

/// The store and revision a context was read at.
#[derive(Clone, Copy, Debug, PartialEq, Eq, Structural)]
pub struct ActiveContextSnapshot {
    pub store_id: StoreId,
    pub campaign_id: CampaignId,
    pub base_id: BaseId,
    pub revision: Revision,
}

/// Why an adopted plan needs reassessment; listed in this order.
#[derive(Clone, Copy, Debug, PartialEq, Eq, Structural)]
pub enum AdoptedMilestonePlanGap {
    PlanRecordMissing,
    PlanStateMismatch,
    OutcomeBindingStale,
    StrategyRecordMissing,
    StrategyBindingStale,
    CurrentStrategyMismatch,
}

/// Where a strategic plan revision stands.
#[derive(Clone, Copy, Debug, PartialEq, Eq, Structural)]
pub enum PlanningRevisionState {
    Candidate,
    Current,
    Superseded,
}

/// The active outcome's record, as the context reads it.
#[derive(Clone, Copy, Debug, PartialEq, Eq, Structural)]
pub struct OutcomeFacts {
    pub outcome_id: OutcomeId,
    pub revision: Revision,
    pub active: bool,
}

/// A strategic plan revision's record, as the context reads it.
#[derive(Clone, Copy, Debug, PartialEq, Eq, Structural)]
pub struct StrategyFacts {
    pub strategic_revision_id: StrategicRevisionId,
    pub revision: Revision,
    pub semantic_digest: DigestValue,
    pub outcome_id: OutcomeId,
    pub state: PlanningRevisionState,
}

/// The adopted plan and whether it still binds the context.
pub enum AdoptedMilestonePlanRef {
    Absent,
    Present { plan_key: MilestonePlanKey, plan_state_revision: Revision },
    NeedsReassessment { plan_key: MilestonePlanKey, plan_state_revision: Revision, gaps: Vec<AdoptedMilestonePlanGap> },
}

/// The plan state does not adopt exactly this plan for this outcome.
pub open spec fn state_mismatch(state: MilestonePlanStateRecord, plan: MilestonePlanProposalRecord, outcome: OutcomeFacts) -> bool {
    state.outcome_id != outcome.outcome_id || state.adopted_plan != plan.key || state.adopted_fingerprint != plan.semantic_fingerprint
}

/// The plan was made for another outcome or another revision of it.
pub open spec fn outcome_stale(plan: MilestonePlanProposalRecord, outcome: OutcomeFacts) -> bool {
    plan.key.outcome_id != outcome.outcome_id || plan.outcome_revision != outcome.revision
}

/// The plan's strategy binding no longer matches the strategy record.
pub open spec fn binding_stale(plan: MilestonePlanProposalRecord, bound: StrategyFacts, outcome: OutcomeFacts) -> bool {
    plan.strategic_record_revision != bound.revision || plan.strategic_semantic_digest != bound.semantic_digest
        || bound.outcome_id != outcome.outcome_id
}

/// The gaps of an adopted plan whose strategy record exists, in gap order:
/// a state mismatch, a stale outcome binding, a stale strategy binding (also
/// when no strategy is current and the bound one is neither current nor a
/// candidate), and a mismatch with the current strategy.
pub open spec fn plan_gaps(state: MilestonePlanStateRecord, plan: MilestonePlanProposalRecord, outcome: OutcomeFacts, current: Option<StrategyFacts>, bound: StrategyFacts) -> Seq<AdoptedMilestonePlanGap> {
    let a = if state_mismatch(state, plan, outcome) { seq![AdoptedMilestonePlanGap::PlanStateMismatch] } else { Seq::empty() };
    let b = if outcome_stale(plan, outcome) { seq![AdoptedMilestonePlanGap::OutcomeBindingStale] } else { Seq::empty() };
    let stale = binding_stale(plan, bound, outcome)
        || (current is None && bound.state != PlanningRevisionState::Current && bound.state != PlanningRevisionState::Candidate);
    let c = if stale { seq![AdoptedMilestonePlanGap::StrategyBindingStale] } else { Seq::empty() };
    let mismatch = current matches Some(cur) && (cur.strategic_revision_id != bound.strategic_revision_id || bound.state != PlanningRevisionState::Current);
    let d = if mismatch { seq![AdoptedMilestonePlanGap::CurrentStrategyMismatch] } else { Seq::empty() };
    a + b + c + d
}

/// The gaps of an adopted plan whose strategy record is missing.
pub open spec fn missing_strategy_gaps(state: MilestonePlanStateRecord, plan: MilestonePlanProposalRecord, outcome: OutcomeFacts) -> Seq<AdoptedMilestonePlanGap> {
    let a = if state_mismatch(state, plan, outcome) { seq![AdoptedMilestonePlanGap::PlanStateMismatch] } else { Seq::empty() };
    let b = if outcome_stale(plan, outcome) { seq![AdoptedMilestonePlanGap::OutcomeBindingStale] } else { Seq::empty() };
    a + b + seq![AdoptedMilestonePlanGap::StrategyRecordMissing]
}

fn same_key(a: MilestonePlanKey, b: MilestonePlanKey) -> (r: bool)
    ensures
        r == (a == b),
{
    a.outcome_id.0 == b.outcome_id.0
}

/// Resolves whether the adopted plan still binds the active outcome and the
/// current strategy. `plan` is the adopted plan's record and `bound` the
/// record of the strategy the plan was made on, as read from the state.
pub fn resolve_adopted_plan(
    outcome: &OutcomeFacts,
    current: Option<StrategyFacts>,
    plan_state: Option<MilestonePlanStateRecord>,
    plan: Option<&MilestonePlanProposalRecord>,
    bound: Option<StrategyFacts>,
) -> (r: Result<AdoptedMilestonePlanRef, ZapError>)
    ensures
        plan_state is None ==> r matches Ok(AdoptedMilestonePlanRef::Absent),
        plan_state matches Some(s) ==> match plan {
            None => r matches Ok(AdoptedMilestonePlanRef::NeedsReassessment { plan_key, plan_state_revision, gaps })
                && plan_key == s.adopted_plan && plan_state_revision == s.revision
                && gaps@ == seq![AdoptedMilestonePlanGap::PlanRecordMissing],
            Some(p) => match bound {
                None => r matches Ok(AdoptedMilestonePlanRef::NeedsReassessment { plan_key, plan_state_revision, gaps })
                    && plan_key == s.adopted_plan && plan_state_revision == s.revision
                    && gaps@ == missing_strategy_gaps(s, *p, *outcome),
                Some(b) => if current is None && b.state == PlanningRevisionState::Current {
                    r == Err::<AdoptedMilestonePlanRef, ZapError>(ZapError { code: ErrorCode::Unavailable, detail: ErrorDetail::Empty })
                } else if plan_gaps(s, *p, *outcome, current, b).len() == 0 {
                    r matches Ok(AdoptedMilestonePlanRef::Present { plan_key, plan_state_revision })
                        && plan_key == s.adopted_plan && plan_state_revision == s.revision
                } else {
                    r matches Ok(AdoptedMilestonePlanRef::NeedsReassessment { plan_key, plan_state_revision, gaps })
                        && plan_key == s.adopted_plan && plan_state_revision == s.revision
                        && gaps@ == plan_gaps(s, *p, *outcome, current, b)
                },
            },
        },
{
    let state = match plan_state {
        None => {
            return Ok(AdoptedMilestonePlanRef::Absent);
        },
        Some(s) => s,
    };
    let plan = match plan {
        None => {
            let mut gaps: Vec<AdoptedMilestonePlanGap> = Vec::new();
            gaps.push(AdoptedMilestonePlanGap::PlanRecordMissing);
            proof {
                assert(gaps@ =~= seq![AdoptedMilestonePlanGap::PlanRecordMissing]);
            }
            return Ok(AdoptedMilestonePlanRef::NeedsReassessment { plan_key: state.adopted_plan, plan_state_revision: state.revision, gaps });
        },
        Some(p) => p,
    };
    let mut gaps: Vec<AdoptedMilestonePlanGap> = Vec::new();
    let mismatch = state.outcome_id.0 != outcome.outcome_id.0 || !same_key(state.adopted_plan, plan.key)
        || state.adopted_fingerprint.0 != plan.semantic_fingerprint.0;
    if mismatch {
        gaps.push(AdoptedMilestonePlanGap::PlanStateMismatch);
    }
    let outcome_is_stale = plan.key.outcome_id.0 != outcome.outcome_id.0 || plan.outcome_revision.0 != outcome.revision.0;
    if outcome_is_stale {
        gaps.push(AdoptedMilestonePlanGap::OutcomeBindingStale);
    }
    let ghost ab = gaps@;
    proof {
        let a = if state_mismatch(state, *plan, *outcome) { seq![AdoptedMilestonePlanGap::PlanStateMismatch] } else { Seq::empty() };
        let b = if outcome_stale(*plan, *outcome) { seq![AdoptedMilestonePlanGap::OutcomeBindingStale] } else { Seq::empty() };
        assert(ab =~= a + b);
    }
    let b = match bound {
        None => {
            gaps.push(AdoptedMilestonePlanGap::StrategyRecordMissing);
            proof {
                assert(gaps@ =~= missing_strategy_gaps(state, *plan, *outcome));
            }
            return Ok(AdoptedMilestonePlanRef::NeedsReassessment { plan_key: state.adopted_plan, plan_state_revision: state.revision, gaps });
        },
        Some(b) => b,
    };
    let b_current = matches!(b.state, PlanningRevisionState::Current);
    let b_candidate = matches!(b.state, PlanningRevisionState::Candidate);
    if current.is_none() && b_current {
        return Err(ZapError::new(ErrorCode::Unavailable));
    }
    let stale = plan.strategic_record_revision.0 != b.revision.0 || plan.strategic_semantic_digest.0 != b.semantic_digest.0
        || b.outcome_id.0 != outcome.outcome_id.0 || (current.is_none() && !b_current && !b_candidate);
    if stale {
        gaps.push(AdoptedMilestonePlanGap::StrategyBindingStale);
    }
    let mismatch_current = match current {
        Some(cur) => cur.strategic_revision_id.0 != b.strategic_revision_id.0 || !b_current,
        None => false,
    };
    if mismatch_current {
        gaps.push(AdoptedMilestonePlanGap::CurrentStrategyMismatch);
    }
    proof {
        assert(gaps@ =~= plan_gaps(state, *plan, *outcome, current, b));
    }
    if gaps.len() == 0 {
        Ok(AdoptedMilestonePlanRef::Present { plan_key: state.adopted_plan, plan_state_revision: state.revision })
    } else {
        Ok(AdoptedMilestonePlanRef::NeedsReassessment { plan_key: state.adopted_plan, plan_state_revision: state.revision, gaps })
    }
}

/// The active outcome, if one is initialized.
#[derive(Clone, Copy, Debug, PartialEq, Eq, Structural)]
pub enum ActiveOutcomeRef {
    Uninitialized,
    Present { outcome_id: OutcomeId, record_revision: Revision },
}

/// The current strategy, if any.
#[derive(Clone, Copy, Debug, PartialEq, Eq, Structural)]
pub enum CurrentStrategyRef {
    Absent,
    Present { strategic_revision_id: StrategicRevisionId, record_revision: Revision },
}

/// Checks the active outcome and current strategy that the derived indexes
/// name. A strategy without an outcome is a conflict; an outcome or strategy
/// record that is missing, not active, not current or foreign is unavailable.
pub fn resolve_outcome_and_strategy(outcome: Option<Option<OutcomeFacts>>, strategy: Option<Option<StrategyFacts>>) -> (r: Result<(ActiveOutcomeRef, CurrentStrategyRef), ZapError>)
    ensures
        outcome is None && strategy is Some ==> r == Err::<(ActiveOutcomeRef, CurrentStrategyRef), ZapError>(ZapError { code: ErrorCode::Conflict, detail: ErrorDetail::Empty }),
        outcome is None && strategy is None ==> r == Ok::<(ActiveOutcomeRef, CurrentStrategyRef), ZapError>((ActiveOutcomeRef::Uninitialized, CurrentStrategyRef::Absent)),
        outcome matches Some(o) ==> match o {
            None => r == Err::<(ActiveOutcomeRef, CurrentStrategyRef), ZapError>(ZapError { code: ErrorCode::Unavailable, detail: ErrorDetail::Empty }),
            Some(o) => if !o.active {
                r == Err::<(ActiveOutcomeRef, CurrentStrategyRef), ZapError>(ZapError { code: ErrorCode::Unavailable, detail: ErrorDetail::Empty })
            } else {
                match strategy {
                    None => r == Ok::<(ActiveOutcomeRef, CurrentStrategyRef), ZapError>((
                        ActiveOutcomeRef::Present { outcome_id: o.outcome_id, record_revision: o.revision }, CurrentStrategyRef::Absent)),
                    Some(None) => r == Err::<(ActiveOutcomeRef, CurrentStrategyRef), ZapError>(ZapError { code: ErrorCode::Unavailable, detail: ErrorDetail::Empty }),
                    Some(Some(s)) => if s.state != PlanningRevisionState::Current || s.outcome_id != o.outcome_id {
                        r == Err::<(ActiveOutcomeRef, CurrentStrategyRef), ZapError>(ZapError { code: ErrorCode::Unavailable, detail: ErrorDetail::Empty })
                    } else {
                        r == Ok::<(ActiveOutcomeRef, CurrentStrategyRef), ZapError>((
                            ActiveOutcomeRef::Present { outcome_id: o.outcome_id, record_revision: o.revision },
                            CurrentStrategyRef::Present { strategic_revision_id: s.strategic_revision_id, record_revision: s.revision }))
                    },
                }
            },
        },
{
    let o = match outcome {
        None => {
            if strategy.is_some() {
                return Err(ZapError::new(ErrorCode::Conflict));
            }
            return Ok((ActiveOutcomeRef::Uninitialized, CurrentStrategyRef::Absent));
        },
        Some(None) => {
            return Err(ZapError::new(ErrorCode::Unavailable));
        },
        Some(Some(o)) => o,
    };
    if !o.active {
        return Err(ZapError::new(ErrorCode::Unavailable));
    }
    let active = ActiveOutcomeRef::Present { outcome_id: o.outcome_id, record_revision: o.revision };
    match strategy {
        None => Ok((active, CurrentStrategyRef::Absent)),
        Some(None) => Err(ZapError::new(ErrorCode::Unavailable)),
        Some(Some(s)) => {
            if !matches!(s.state, PlanningRevisionState::Current) || s.outcome_id.0 != o.outcome_id.0 {
                return Err(ZapError::new(ErrorCode::Unavailable));
            }
            Ok((active, CurrentStrategyRef::Present { strategic_revision_id: s.strategic_revision_id, record_revision: s.revision }))
        },
    }
}

/// The algorithm an index catalog registers for one family.
#[derive(Clone, Copy, Debug, PartialEq, Eq, Structural)]
pub struct IndexAlgorithmEntry {
    pub family: BasisIndex,
    pub fingerprint: DigestValue,
}

/// The catalog an index page is read under.
pub struct IndexCatalog {
    pub version: u32,
    pub covered_revision: Revision,
    pub families: Vec<BasisIndex>,
    pub algorithms: Vec<IndexAlgorithmEntry>,
}

/// One page of a derived index: its catalog, the identities its entries
/// decode to, and whether the scan saw everything.
pub struct IndexPage {
    pub catalog: IndexCatalog,
    pub entries: Vec<u64>,
    pub complete: bool,
}

/// The catalog format a current index page carries.
pub const INDEX_CATALOG_VERSION: u32 = 2;

/// The algorithm the catalog registers for a family: its first entry.
pub open spec fn catalog_algorithm(s: Seq<IndexAlgorithmEntry>, family: BasisIndex) -> Option<DigestValue>
    decreases s.len(),
{
    if s.len() == 0 {
        None
    } else if s[0].family == family {
        Some(s[0].fingerprint)
    } else {
        catalog_algorithm(s.drop_first(), family)
    }
}

fn find_algorithm(s: &[IndexAlgorithmEntry], family: BasisIndex) -> (r: Option<DigestValue>)
    ensures
        r == catalog_algorithm(s@, family),
{
    let ghost v = s@;
    let mut i: usize = 0;
    assert(v.skip(0) =~= v);
    while i < s.len()
        invariant
            i <= v.len(),
            v == s@,
            catalog_algorithm(v.skip(i as int), family) == catalog_algorithm(v, family),
        decreases v.len() - i,
    {
        assert(v.skip(i as int).drop_first() =~= v.skip(i as int + 1));
        if s[i].family == family {
            return Some(s[i].fingerprint);
        }
        i += 1;
    }
    None
}

fn catalog_has_family(s: &[BasisIndex], family: BasisIndex) -> (r: bool)
    ensures
        r == s@.contains(family),
{
    let mut i: usize = 0;
    while i < s.len()
        invariant
            i <= s@.len(),
            forall|k: int| 0 <= k < i ==> s@[k] != family,
        decreases s@.len() - i,
    {
        if s[i] == family {
            return true;
        }
        i += 1;
    }
    false
}

/// The catalog covers the snapshot's revision in the current format and
/// registers the family with its algorithm.
pub open spec fn catalog_current(c: IndexCatalog, revision: Revision, family: BasisIndex, algorithm: DigestValue) -> bool {
    &&& c.version == INDEX_CATALOG_VERSION
    &&& c.covered_revision == revision
    &&& c.families@.contains(family)
    &&& catalog_algorithm(c.algorithms@, family) == Some(algorithm)
}

/// What reading a single-record derived index gives: its one identity, or
/// none; an unavailable index or a stale catalog is unavailable, and more
/// than one current record, or an incomplete page, is a conflict.
pub open spec fn unique_index_result(
    scan: Result<IndexPage, ZapError>,
    revision: Revision,
    family: BasisIndex,
    algorithm: DigestValue,
) -> Result<Option<u64>, ErrorCode> {
    match scan {
        Err(e) => if e.code == ErrorCode::Unavailable || e.code == ErrorCode::UnsupportedEpoch {
            Err(ErrorCode::Unavailable)
        } else {
            Err(e.code)
        },
        Ok(page) => if !catalog_current(page.catalog, revision, family, algorithm) {
            Err(ErrorCode::Unavailable)
        } else if page.entries@.len() > 1 || !page.complete {
            Err(ErrorCode::Conflict)
        } else if page.entries@.len() == 0 {
            Ok(None)
        } else {
            Ok(Some(page.entries@[0]))
        },
    }
}

/// Reads the one current record of a derived index. `scan` is the scan of
/// the family's page, `revision` the snapshot's revision and `algorithm`
/// the algorithm fingerprint registered for the family.
pub fn unique_indexed(scan: Result<IndexPage, ZapError>, revision: Revision, family: BasisIndex, algorithm: DigestValue) -> (r: Result<Option<u64>, ZapError>)
    ensures
        match unique_index_result(scan, revision, family, algorithm) {
            Ok(v) => r == Ok::<Option<u64>, ZapError>(v),
            Err(c) => r matches Err(e) && e.code == c,
        },
{
    let page = match scan {
        Err(e) => {
            if matches!(e.code, ErrorCode::Unavailable | ErrorCode::UnsupportedEpoch) {
                return Err(ZapError::new(ErrorCode::Unavailable));
            }
            return Err(e);
        },
        Ok(p) => p,
    };
    let registered = match find_algorithm(&page.catalog.algorithms, family) {
        Some(a) => a.0 == algorithm.0,
        None => false,
    };
    if page.catalog.version != INDEX_CATALOG_VERSION || page.catalog.covered_revision.0 != revision.0
        || !catalog_has_family(&page.catalog.families, family) || !registered
    {
        return Err(ZapError::new(ErrorCode::Unavailable));
    }
    if page.entries.len() > 1 || !page.complete {
        return Err(ZapError::new(ErrorCode::Conflict));
    }
    if page.entries.len() == 0 {
        Ok(None)
    } else {
        Ok(Some(page.entries[0]))
    }
}

} // verus!
