//! Recording an Owner's decision on an assessed change: the decision must
//! bind the current policy, the latest forecast, the assessment and the
//! ordered effects of the recommended alternative, and it moves the
//! change's active hold to where the choice sends it.
use vstd::prelude::*;

use crate::admission::{find_latest_forecast, latest_forecast, ChangeHoldFacts, ForecastRow};
use crate::error::{ErrorCode, ZapError};
use crate::ids::{AssessmentId, ChangeAlternativeId, DecisionId, DigestValue, ForecastId, HoldId, PolicyId, Revision};
use crate::owner_control::{checked_next, decided_status, hold_status_after, next_revision, HoldStatus, OwnerChangeChoice, RecordWrite};

verus! {

/// An Owner's decision on an assessed change, as submitted.
pub struct OwnerChangeDecisionRecord {
    pub decision_id: DecisionId,
    pub assessment_id: AssessmentId,
    pub assessment_digest: DigestValue,
    pub recommended_alternative_id: ChangeAlternativeId,
    pub choice: OwnerChangeChoice,
    pub policy_id: PolicyId,
    pub policy_revision: Revision,
    pub forecast_id: Option<ForecastId>,
    pub forecast_digest: Option<DigestValue>,
    pub effect_fingerprints: Vec<DigestValue>,
    pub effect_preflight_digests: Vec<DigestValue>,
    pub revision: Revision,
}

/// One effect of an assessed alternative: its fingerprint and, once
/// preflighted, its preflight digest.
#[derive(Clone, Copy, Debug, PartialEq, Eq, Structural)]
pub struct AssessedEffect {
    pub fingerprint: DigestValue,
    pub preflight_digest: Option<DigestValue>,
}

/// One alternative of an assessment, with its effects in order.
pub struct AssessedAlternative {
    pub alternative_id: ChangeAlternativeId,
    pub effects: Vec<AssessedEffect>,
}

/// A change assessment as a decision is held to it. `digest` is its
/// recomputed digest and `owner_required` whether its own admission asks
/// for an Owner decision.
pub struct DecisionAssessment {
    pub assessment_id: AssessmentId,
    pub adjudicated: bool,
    pub resolved: bool,
    pub owner_required: bool,
    pub recommended_alternative_id: Option<ChangeAlternativeId>,
    pub digest: DigestValue,
    pub policy_id: PolicyId,
    pub policy_revision: Revision,
    pub policy_digest: DigestValue,
    pub hold_id: Option<HoldId>,
    pub alternatives: Vec<AssessedAlternative>,
}

/// The active economics policy, with its recomputed digest.
#[derive(Clone, Copy, Debug, PartialEq, Eq, Structural)]
pub struct PolicyFacts {
    pub active: bool,
    pub policy_id: PolicyId,
    pub revision: Revision,
    pub digest: DigestValue,
}

/// A decision already recorded: the assessment and forecast it decided.
#[derive(Clone, Copy, Debug, PartialEq, Eq, Structural)]
pub struct PriorDecision {
    pub assessment_id: AssessmentId,
    pub forecast_id: Option<ForecastId>,
}

/// The position of the first alternative with this identity.
pub open spec fn alternative_index(alts: Seq<AssessedAlternative>, id: ChangeAlternativeId) -> Option<int> {
    if exists|i: int| 0 <= i < alts.len() && (#[trigger] alts[i]).alternative_id == id
        && forall|j: int| 0 <= j < i ==> (#[trigger] alts[j]).alternative_id != id {
        Some(choose|i: int| 0 <= i < alts.len() && (#[trigger] alts[i]).alternative_id == id
            && forall|j: int| 0 <= j < i ==> (#[trigger] alts[j]).alternative_id != id)
    } else {
        None
    }
}

fn find_alternative(alts: &Vec<AssessedAlternative>, id: ChangeAlternativeId) -> (r: Option<usize>)
    ensures
        r matches Some(i) ==> alternative_index(alts@, id) == Some(i as int) && i < alts@.len(),
        r is None ==> alternative_index(alts@, id) is None,
{
    let mut i: usize = 0;
    while i < alts.len()
        invariant
            i <= alts@.len(),
            forall|j: int| 0 <= j < i ==> (#[trigger] alts@[j]).alternative_id != id,
        decreases alts@.len() - i,
    {
        if alts[i].alternative_id.0 == id.0 {
            let ghost k = choose|k: int| 0 <= k < alts@.len() && (#[trigger] alts@[k]).alternative_id == id
                && forall|j: int| 0 <= j < k ==> (#[trigger] alts@[j]).alternative_id != id;
            assert(k == i as int) by {
                if k < i as int {
                    assert(alts@[k].alternative_id != id);
                } else if k > i as int {
                    assert(alts@[i as int].alternative_id != id);
                }
            }
            return Some(i);
        }
        i += 1;
    }
    None
}

/// The fingerprints of the effects, in order.
pub open spec fn effect_fingerprints(es: Seq<AssessedEffect>) -> Seq<DigestValue> {
    es.map_values(|e: AssessedEffect| e.fingerprint)
}

/// Every effect carries its preflight digest.
pub open spec fn all_preflighted(es: Seq<AssessedEffect>) -> bool {
    forall|i: int| 0 <= i < es.len() ==> (#[trigger] es[i]).preflight_digest is Some
}

/// The preflight digests of the effects, in order.
pub open spec fn effect_preflights(es: Seq<AssessedEffect>) -> Seq<DigestValue> {
    es.map_values(|e: AssessedEffect| e.preflight_digest->0)
}

/// The decision binds the latest forecast, adjudicated, or no forecast when
/// there is none.
pub open spec fn forecast_bound(latest: Option<ForecastRow>, d: OwnerChangeDecisionRecord) -> bool {
    match latest {
        Some(f) => d.forecast_id == Some(f.forecast_id) && d.forecast_digest == Some(f.digest) && f.adjudicated,
        None => d.forecast_id is None && d.forecast_digest is None,
    }
}

/// The latest forecast, or the assessment when there is none, asks for an
/// Owner decision.
pub open spec fn owner_decision_required(latest: Option<ForecastRow>, a: DecisionAssessment) -> bool {
    match latest {
        Some(f) => f.owner_required,
        None => a.owner_required,
    }
}

/// A decision on the same assessment and forecast was recorded already.
pub open spec fn decided_already(prior: Seq<PriorDecision>, d: OwnerChangeDecisionRecord) -> bool {
    exists|k: int| 0 <= k < prior.len() && (#[trigger] prior[k]).assessment_id == d.assessment_id && prior[k].forecast_id == d.forecast_id
}

/// The decision binds the current policy, forecast, assessment and ordered
/// effects, and is new.
pub open spec fn decision_binds(
    d: OwnerChangeDecisionRecord,
    a: DecisionAssessment,
    effects: Seq<AssessedEffect>,
    policy: PolicyFacts,
    latest: Option<ForecastRow>,
    decision_stored: bool,
    prior: Seq<PriorDecision>,
    next: Revision,
) -> bool {
    &&& a.adjudicated
    &&& !a.resolved
    &&& owner_decision_required(latest, a)
    &&& a.recommended_alternative_id == Some(d.recommended_alternative_id)
    &&& a.digest == d.assessment_digest
    &&& policy.active
    &&& a.policy_id == policy.policy_id
    &&& a.policy_revision == policy.revision
    &&& a.policy_digest == policy.digest
    &&& d.policy_id == policy.policy_id
    &&& d.policy_revision == policy.revision
    &&& d.revision == next
    &&& forecast_bound(latest, d)
    &&& !decision_stored
    &&& !decided_already(prior, d)
    &&& if d.choice == OwnerChangeChoice::Approve {
        d.effect_fingerprints@ == effect_fingerprints(effects) && d.effect_preflight_digests@ == effect_preflights(effects)
    } else {
        d.effect_fingerprints@.len() == 0 && d.effect_preflight_digests@.len() == 0
    }
}

/// The first stored hold with this identity.
pub open spec fn hold_of(hs: Seq<ChangeHoldFacts>, id: HoldId) -> Option<ChangeHoldFacts>
    decreases hs.len(),
{
    if hs.len() == 0 {
        None
    } else if hs[0].hold_id == id {
        Some(hs[0])
    } else {
        hold_of(hs.drop_first(), id)
    }
}

fn find_hold(hs: &[ChangeHoldFacts], id: HoldId) -> (r: Option<ChangeHoldFacts>)
    ensures
        r == hold_of(hs@, id),
{
    let ghost v = hs@;
    let mut i: usize = 0;
    assert(v.skip(0) =~= v);
    while i < hs.len()
        invariant
            i <= v.len(),
            v == hs@,
            hold_of(v.skip(i as int), id) == hold_of(v, id),
        decreases v.len() - i,
    {
        assert(v.skip(i as int).drop_first() =~= v.skip(i as int + 1));
        if hs[i].hold_id.0 == id.0 {
            return Some(hs[i]);
        }
        i += 1;
    }
    None
}

/// The hold a decision moves: the latest forecast's, else the assessment's.
pub open spec fn decision_hold_id(latest: Option<ForecastRow>, a: DecisionAssessment) -> Option<HoldId> {
    match latest {
        Some(f) => if f.hold_id is Some { f.hold_id } else { a.hold_id },
        None => a.hold_id,
    }
}

/// What recording a decision writes to its hold, or why it is refused: a
/// missing assessment, alternative, hold reference or hold; an approval
/// whose effects lack preflights; a decision that does not bind; a hold
/// that is no longer active for the assessment; or a hold at its last
/// revision.
pub open spec fn change_decision_outcome(
    d: OwnerChangeDecisionRecord,
    assessment: Option<DecisionAssessment>,
    policy: PolicyFacts,
    forecasts: Seq<ForecastRow>,
    decision_stored: bool,
    prior: Seq<PriorDecision>,
    holds: Seq<ChangeHoldFacts>,
    next: Revision,
) -> Result<RecordWrite<ChangeHoldFacts>, ErrorCode> {
    match assessment {
        None => Err(ErrorCode::MissingReference),
        Some(a) => match alternative_index(a.alternatives@, d.recommended_alternative_id) {
            None => Err(ErrorCode::MissingReference),
            Some(k) => {
                let effects = a.alternatives@[k].effects@;
                let latest = latest_forecast(forecasts, a.assessment_id);
                if d.choice == OwnerChangeChoice::Approve && !all_preflighted(effects) {
                    Err(ErrorCode::Conflict)
                } else if !decision_binds(d, a, effects, policy, latest, decision_stored, prior, next) {
                    Err(ErrorCode::Conflict)
                } else {
                    match decision_hold_id(latest, a) {
                        None => Err(ErrorCode::MissingReference),
                        Some(hid) => match hold_of(holds, hid) {
                            None => Err(ErrorCode::MissingReference),
                            Some(h) => if h.status != HoldStatus::Active || h.assessment_id != a.assessment_id {
                                Err(ErrorCode::Conflict)
                            } else {
                                match next_revision(h.revision) {
                                    None => Err(ErrorCode::InvalidValue),
                                    Some(r) => Ok(RecordWrite::Replace {
                                        expected: h.revision,
                                        record: ChangeHoldFacts {
                                            revision: r,
                                            decision_id: Some(d.decision_id),
                                            status: decided_status(d.choice),
                                            ..h
                                        },
                                    }),
                                }
                            },
                        },
                    }
                }
            },
        },
    }
}

fn digests_equal(a: &Vec<DigestValue>, b: &Vec<DigestValue>) -> (r: bool)
    ensures
        r == (a@ == b@),
{
    if a.len() != b.len() {
        return false;
    }
    let mut i: usize = 0;
    while i < a.len()
        invariant
            i <= a@.len(),
            a@.len() == b@.len(),
            forall|k: int| 0 <= k < i ==> a@[k] == b@[k],
        decreases a@.len() - i,
    {
        if a[i].0 != b[i].0 {
            return false;
        }
        i += 1;
    }
    assert(a@ =~= b@);
    true
}

fn collect_fingerprints(es: &Vec<AssessedEffect>) -> (r: Vec<DigestValue>)
    ensures
        r@ == effect_fingerprints(es@),
{
    let mut out: Vec<DigestValue> = Vec::new();
    let mut i: usize = 0;
    while i < es.len()
        invariant
            i <= es@.len(),
            out@ == effect_fingerprints(es@.take(i as int)),
        decreases es@.len() - i,
    {
        out.push(es[i].fingerprint);
        proof {
            assert(es@.take(i as int + 1) =~= es@.take(i as int).push(es@[i as int]));
            assert(out@ =~= effect_fingerprints(es@.take(i as int + 1)));
        }
        i += 1;
    }
    assert(es@.take(i as int) =~= es@);
    out
}

/// The preflight digests of the effects, when every effect has one.
fn collect_preflights(es: &Vec<AssessedEffect>) -> (r: Option<Vec<DigestValue>>)
    ensures
        all_preflighted(es@) ==> (r matches Some(v) && v@ == effect_preflights(es@)),
        !all_preflighted(es@) ==> r is None,
{
    let mut out: Vec<DigestValue> = Vec::new();
    let mut i: usize = 0;
    while i < es.len()
        invariant
            i <= es@.len(),
            all_preflighted(es@.take(i as int)),
            out@ == effect_preflights(es@.take(i as int)),
        decreases es@.len() - i,
    {
        match es[i].preflight_digest {
            None => {
                assert(!all_preflighted(es@));
                return None;
            },
            Some(p) => out.push(p),
        }
        proof {
            assert(es@.take(i as int + 1) =~= es@.take(i as int).push(es@[i as int]));
            assert(out@ =~= effect_preflights(es@.take(i as int + 1)));
            assert(all_preflighted(es@.take(i as int + 1))) by {
                assert forall|m: int| 0 <= m < i + 1 implies (#[trigger] es@.take(i as int + 1)[m]).preflight_digest is Some by {
                    if m < i as int {
                        assert(es@.take(i as int + 1)[m] == es@.take(i as int)[m]);
                    }
                }
            }
        }
        i += 1;
    }
    assert(es@.take(i as int) =~= es@);
    Some(out)
}

fn decided_before(prior: &[PriorDecision], d: &OwnerChangeDecisionRecord) -> (r: bool)
    ensures
        r == decided_already(prior@, *d),
{
    let mut k: usize = 0;
    while k < prior.len()
        invariant
            k <= prior@.len(),
            forall|m: int| 0 <= m < k ==> !((#[trigger] prior@[m]).assessment_id == d.assessment_id && prior@[m].forecast_id == d.forecast_id),
        decreases prior@.len() - k,
    {
        let p = prior[k];
        let same_forecast = match (p.forecast_id, d.forecast_id) {
            (None, None) => true,
            (Some(x), Some(y)) => x.0 == y.0,
            _ => false,
        };
        if p.assessment_id.0 == d.assessment_id.0 && same_forecast {
            return true;
        }
        k += 1;
    }
    false
}

/// Records an Owner's decision on an assessed change and moves the change's
/// hold: the decision must bind the active policy, the latest forecast of
/// the assessment, the assessment's digest and recommended alternative and,
/// for an approval, that alternative's ordered effect fingerprints and
/// preflights; it must be new; and the hold must still be active for the
/// assessment. `assessment` is the stored assessment, `policy` the active
/// policy, `forecasts` the stored forecasts, `decision_stored` whether a
/// decision with its identity is stored, `prior` the decisions recorded,
/// and `holds` the stored holds. On success the decision is recorded at
/// `next_revision` and the write of the hold is returned.
pub fn apply_change_decision(
    decision: &OwnerChangeDecisionRecord,
    assessment: Option<&DecisionAssessment>,
    policy: &PolicyFacts,
    forecasts: &[ForecastRow],
    decision_stored: bool,
    prior: &[PriorDecision],
    holds: &[ChangeHoldFacts],
    next_revision: Revision,
) -> (r: Result<RecordWrite<ChangeHoldFacts>, ZapError>)
    ensures
        match change_decision_outcome(
            *decision,
            match assessment {
                Some(a) => Some(*a),
                None => None,
            },
            *policy,
            forecasts@,
            decision_stored,
            prior@,
            holds@,
            next_revision,
        ) {
            Ok(w) => r == Ok::<RecordWrite<ChangeHoldFacts>, ZapError>(w),
            Err(c) => r matches Err(e) && e.code == c,
        },
{
    let a = match assessment {
        None => return Err(ZapError::new(ErrorCode::MissingReference)),
        Some(a) => a,
    };
    let k = match find_alternative(&a.alternatives, decision.recommended_alternative_id) {
        None => return Err(ZapError::new(ErrorCode::MissingReference)),
        Some(k) => k,
    };
    let effects = &a.alternatives[k].effects;
    let fingerprints = collect_fingerprints(effects);
    let approve = matches!(decision.choice, OwnerChangeChoice::Approve);
    let preflights = if approve {
        match collect_preflights(effects) {
            None => return Err(ZapError::new(ErrorCode::Conflict)),
            Some(p) => p,
        }
    } else {
        Vec::new()
    };
    let latest = find_latest_forecast(forecasts, a.assessment_id);
    let forecast_ok = match latest {
        Some(f) => match (decision.forecast_id, decision.forecast_digest) {
            (Some(id), Some(digest)) => id.0 == f.forecast_id.0 && digest.0 == f.digest.0 && f.adjudicated,
            _ => false,
        },
        None => decision.forecast_id.is_none() && decision.forecast_digest.is_none(),
    };
    let required = match latest {
        Some(f) => f.owner_required,
        None => a.owner_required,
    };
    let recommended = match a.recommended_alternative_id {
        Some(id) => id.0 == decision.recommended_alternative_id.0,
        None => false,
    };
    let effects_ok = if approve {
        digests_equal(&decision.effect_fingerprints, &fingerprints) && digests_equal(&decision.effect_preflight_digests, &preflights)
    } else {
        decision.effect_fingerprints.len() == 0 && decision.effect_preflight_digests.len() == 0
    };
    if !a.adjudicated || a.resolved || !required || !recommended || a.digest.0 != decision.assessment_digest.0 || !policy.active
        || a.policy_id.0 != policy.policy_id.0 || a.policy_revision.0 != policy.revision.0 || a.policy_digest.0 != policy.digest.0
        || decision.policy_id.0 != policy.policy_id.0 || policy.revision.0 != decision.policy_revision.0
        || decision.revision.0 != next_revision.0 || !forecast_ok || decision_stored || decided_before(prior, decision)
        || !effects_ok
    {
        return Err(ZapError::new(ErrorCode::Conflict));
    }
    let hold_id = match latest {
        Some(f) => match f.hold_id {
            Some(h) => Some(h),
            None => a.hold_id,
        },
        None => a.hold_id,
    };
    let hold_id = match hold_id {
        None => return Err(ZapError::new(ErrorCode::MissingReference)),
        Some(h) => h,
    };
    let hold = match find_hold(holds, hold_id) {
        None => return Err(ZapError::new(ErrorCode::MissingReference)),
        Some(h) => h,
    };
    if !matches!(hold.status, HoldStatus::Active) || hold.assessment_id.0 != a.assessment_id.0 {
        return Err(ZapError::new(ErrorCode::Conflict));
    }
    let revision = checked_next(hold.revision)?;
    let record = ChangeHoldFacts {
        revision,
        decision_id: Some(decision.decision_id),
        status: hold_status_after(decision.choice),
        ..hold
    };
    Ok(RecordWrite::Replace { expected: hold.revision, record })
}

/// A recorded decision always moves its hold out of the active state, to
/// where its choice sends it, one revision on, naming the decision.
pub proof fn law_decision_moves_its_hold(
    d: OwnerChangeDecisionRecord,
    assessment: Option<DecisionAssessment>,
    policy: PolicyFacts,
    forecasts: Seq<ForecastRow>,
    decision_stored: bool,
    prior: Seq<PriorDecision>,
    holds: Seq<ChangeHoldFacts>,
    next: Revision,
)
    requires
        change_decision_outcome(d, assessment, policy, forecasts, decision_stored, prior, holds, next) is Ok,
    ensures
        change_decision_outcome(d, assessment, policy, forecasts, decision_stored, prior, holds, next) matches Ok(
            RecordWrite::Replace { expected, record },
        ) && record.status == decided_status(d.choice) && record.status != HoldStatus::Active
            && record.decision_id == Some(d.decision_id) && record.revision.0 == expected.0 + 1,
{
}

/// The Owner records a decision on an assessed change.
pub struct ChangeDecisionRecorded {
    pub decision: OwnerChangeDecisionRecord,
}

/// Records an Owner's change decision at the command's next revision.
pub struct ChangeDecisionRecordedCell;

impl ChangeDecisionRecordedCell {
    /// Applies the decision at the revision after `expected_revision`; the
    /// store reads are as for `apply_change_decision`. On success it gives
    /// the write of the hold and the new revision.
    pub fn apply(
        &self,
        expected_revision: Revision,
        payload: &ChangeDecisionRecorded,
        assessment: Option<&DecisionAssessment>,
        policy: &PolicyFacts,
        forecasts: &[ForecastRow],
        decision_stored: bool,
        prior: &[PriorDecision],
        holds: &[ChangeHoldFacts],
    ) -> (r: Result<(RecordWrite<ChangeHoldFacts>, Revision), ZapError>)
        ensures
            match next_revision(expected_revision) {
                None => r matches Err(e) && e.code == ErrorCode::InvalidValue,
                Some(next) => match change_decision_outcome(
                    payload.decision,
                    match assessment {
                        Some(a) => Some(*a),
                        None => None,
                    },
                    *policy,
                    forecasts@,
                    decision_stored,
                    prior@,
                    holds@,
                    next,
                ) {
                    Ok(w) => r == Ok::<(RecordWrite<ChangeHoldFacts>, Revision), ZapError>((w, next)),
                    Err(c) => r matches Err(e) && e.code == c,
                },
            },
    {
        let next = checked_next(expected_revision)?;
        let write = apply_change_decision(&payload.decision, assessment, policy, forecasts, decision_stored, prior, holds, next)?;
        Ok((write, next))
    }
}

} // verus!
