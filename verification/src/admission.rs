//! Change admission: an approved change is admitted one effect at a time
//! along its committed prefix, and its hold is released only on the exact
//! committed prefix, decision and safe jobs.
use vstd::prelude::*;

use crate::error::{ErrorCode, ErrorDetail, ZapError};
use crate::ids::{
    same_ids, ActionClass, AssessmentId, ChangeAlternativeId, DecisionId, DigestValue, EffectId, EventId, ExceptionId, ForecastId, HoldId,
    JobId, Revision,
};
use crate::owner_control::{HoldStatus, OwnerChangeChoice, RecordWrite, checked_next, next_revision};

verus! {

/// How a hold is resolved.
#[derive(Clone, Copy, Debug, PartialEq, Eq, Structural)]
pub enum HoldResolution {
    ApprovedApplied,
    RejectedBaseline,
    RejectedRemaining,
}

/// A change hold, as its resolution reads it.
#[derive(Clone, Copy, Debug, PartialEq, Eq, Structural)]
pub struct ChangeHoldFacts {
    pub hold_id: HoldId,
    pub assessment_id: AssessmentId,
    pub decision_id: Option<DecisionId>,
    pub forecast_id: Option<ForecastId>,
    pub status: HoldStatus,
    pub no_unknown_effects: bool,
    pub revision: Revision,
}

/// The admission of a change, as the hold resolution reads it.
pub struct AdmissionFacts {
    pub applied: bool,
    pub final_effect: bool,
    pub applied_effect_ids: Vec<EffectId>,
}

/// The Owner decision bound to a hold.
#[derive(Clone, Copy, Debug, PartialEq, Eq, Structural)]
pub struct DecisionFacts {
    pub choice: OwnerChangeChoice,
    pub forecast_id: Option<ForecastId>,
    pub forecast_digest: Option<DigestValue>,
}

/// The latest forecast of the hold's assessment.
#[derive(Clone, Copy, Debug, PartialEq, Eq, Structural)]
pub struct ForecastFacts {
    pub forecast_id: ForecastId,
    pub digest: DigestValue,
    pub adjudicated: bool,
}

/// The safe-job witness of the current transaction for the hold.
pub struct SafeJobsFacts {
    pub all_safe: bool,
    pub job_ids: Vec<JobId>,
}

/// Resolves a change hold.
pub struct ChangeHoldResolved {
    pub hold_id: HoldId,
    pub safe_job_ids: Vec<JobId>,
    pub forecast_id: Option<ForecastId>,
    pub forecast_digest: Option<DigestValue>,
    pub applied_effect_ids: Vec<EffectId>,
    pub resolution: HoldResolution,
}

pub open spec fn jobs_increase(s: Seq<JobId>) -> bool {
    forall|i: int| 0 <= i < s.len() - 1 ==> (#[trigger] s[i]).0 < s[i + 1].0
}

/// The applied prefix as the admission records it; none before admission.
pub open spec fn applied_prefix(admission: Option<AdmissionFacts>) -> Seq<EffectId> {
    match admission {
        Some(a) => a.applied_effect_ids@,
        None => Seq::empty(),
    }
}

/// The payload's forecast binds the latest forecast when there is one (the
/// hold and the decision name it too, and it is adjudicated), and nothing
/// when there is none.
pub open spec fn forecast_binds(p: ChangeHoldResolved, hold: ChangeHoldFacts, decision: Option<DecisionFacts>, latest: Option<ForecastFacts>) -> bool {
    match latest {
        Some(f) => f.adjudicated && p.forecast_id == Some(f.forecast_id) && p.forecast_digest == Some(f.digest)
            && hold.forecast_id == Some(f.forecast_id)
            && (decision matches Some(d) && d.forecast_id == Some(f.forecast_id) && d.forecast_digest == p.forecast_digest),
        None => p.forecast_id is None && p.forecast_digest is None && hold.forecast_id is None,
    }
}

/// An approval resolves as applied once the final effect is applied and no
/// effect is unknown; a rejection resolves to the baseline before any effect
/// and to the remainder after some.
pub open spec fn resolution_fits(p: ChangeHoldResolved, hold: ChangeHoldFacts, decision: Option<DecisionFacts>, admission: Option<AdmissionFacts>) -> bool {
    match p.resolution {
        HoldResolution::ApprovedApplied => (decision matches Some(d) && d.choice == OwnerChangeChoice::Approve)
            && (admission matches Some(a) && a.applied && a.final_effect) && hold.no_unknown_effects,
        HoldResolution::RejectedBaseline => (decision matches Some(d) && d.choice == OwnerChangeChoice::Reject)
            && applied_prefix(admission).len() == 0,
        HoldResolution::RejectedRemaining => (decision matches Some(d) && d.choice == OwnerChangeChoice::Reject)
            && applied_prefix(admission).len() > 0,
    }
}

/// A hold is released on the exact committed prefix, safe jobs, forecast and
/// a resolution that fits the decision.
pub open spec fn release_allowed(p: ChangeHoldResolved, hold: ChangeHoldFacts, admission: Option<AdmissionFacts>, decision: Option<DecisionFacts>, latest: Option<ForecastFacts>, jobs: SafeJobsFacts) -> bool {
    &&& hold.status != HoldStatus::Released
    &&& p.applied_effect_ids@ == applied_prefix(admission)
    &&& jobs.all_safe && p.safe_job_ids@ == jobs.job_ids@
    &&& forecast_binds(p, hold, decision, latest)
    &&& resolution_fits(p, hold, decision, admission)
}

fn same_jobs(a: &[JobId], b: &[JobId]) -> (r: bool)
    ensures
        r == (a@ == b@),
{
    if a.len() != b.len() {
        return false;
    }
    let mut k: usize = 0;
    while k < a.len()
        invariant
            a.len() == b.len(),
            k <= a.len(),
            forall|m: int| 0 <= m < k ==> a@[m] == b@[m],
        decreases a.len() - k,
    {
        if a[k].0 != b[k].0 {
            return false;
        }
        k += 1;
    }
    assert(a@ =~= b@);
    true
}

fn same_forecast(a: Option<ForecastId>, b: Option<ForecastId>) -> (r: bool)
    ensures
        r == (a == b),
{
    match (a, b) {
        (Some(x), Some(y)) => x.0 == y.0,
        (None, None) => true,
        _ => false,
    }
}

fn same_digest(a: Option<DigestValue>, b: Option<DigestValue>) -> (r: bool)
    ensures
        r == (a == b),
{
    match (a, b) {
        (Some(x), Some(y)) => x.0 == y.0,
        (None, None) => true,
        _ => false,
    }
}

/// What resolving a hold writes: the hold released at its next revision and
/// the assessment resolved at its next revision.
#[derive(Clone, Copy, Debug, PartialEq, Eq, Structural)]
pub struct HoldRelease {
    pub hold_expected: Revision,
    pub hold_revision: Revision,
    pub assessment_expected: Revision,
    pub assessment_revision: Revision,
}

/// Resolves a change hold. `hold`, `assessment_revision`, `admission`,
/// `decision` and `latest` are what the state holds for it; `jobs` is the
/// current transaction's safe-job witness for the hold.
pub struct ChangeHoldResolvedCell;

impl ChangeHoldResolvedCell {
    pub fn apply(
        &self,
        payload: &ChangeHoldResolved,
        hold: Option<ChangeHoldFacts>,
        assessment_revision: Option<Revision>,
        admission: Option<AdmissionFacts>,
        decision: Option<DecisionFacts>,
        latest: Option<ForecastFacts>,
        jobs: Option<SafeJobsFacts>,
    ) -> (r: Result<HoldRelease, ZapError>)
        ensures
            !jobs_increase(payload.safe_job_ids@) ==> r == Err::<HoldRelease, ZapError>(ZapError { code: ErrorCode::InvalidValue, detail: ErrorDetail::Empty }),
            jobs_increase(payload.safe_job_ids@) && (hold is None || assessment_revision is None)
                ==> r == Err::<HoldRelease, ZapError>(ZapError { code: ErrorCode::MissingReference, detail: ErrorDetail::Empty }),
            jobs_increase(payload.safe_job_ids@) && hold is Some && assessment_revision is Some && jobs is None
                ==> r == Err::<HoldRelease, ZapError>(ZapError { code: ErrorCode::NeedsEvidence, detail: ErrorDetail::Empty }),
            jobs_increase(payload.safe_job_ids@) ==> (hold matches Some(h) ==> (assessment_revision matches Some(ar) ==> (jobs matches Some(j) ==> (
                !release_allowed(*payload, h, admission, decision, latest, j)
                    ==> r == Err::<HoldRelease, ZapError>(ZapError { code: ErrorCode::Conflict, detail: ErrorDetail::Empty }))))),
            r matches Ok(rel) ==> (hold matches Some(h) && assessment_revision matches Some(ar) && jobs matches Some(j)
                && release_allowed(*payload, h, admission, decision, latest, j)
                && rel.hold_expected == h.revision && next_revision(h.revision) == Some(rel.hold_revision)
                && rel.assessment_expected == ar && next_revision(ar) == Some(rel.assessment_revision)),
            jobs_increase(payload.safe_job_ids@) ==> (hold matches Some(h) ==> (assessment_revision matches Some(ar) ==> (jobs matches Some(j) ==> (
                release_allowed(*payload, h, admission, decision, latest, j) && h.revision.0 < u64::MAX && ar.0 < u64::MAX
                    ==> r is Ok)))),
    {
        let mut k: usize = 1;
        while k < payload.safe_job_ids.len()
            invariant
                1 <= k,
                forall|i: int| 0 <= i < k - 1 && i < payload.safe_job_ids@.len() - 1
                    ==> (#[trigger] payload.safe_job_ids@[i]).0 < payload.safe_job_ids@[i + 1].0,
            decreases payload.safe_job_ids.len() - k,
        {
            if payload.safe_job_ids[k - 1].0 >= payload.safe_job_ids[k].0 {
                assert(payload.safe_job_ids@[k as int - 1].0 >= payload.safe_job_ids@[k as int - 1 + 1].0);
                return Err(ZapError::new(ErrorCode::InvalidValue));
            }
            k += 1;
        }
        let h = match hold {
            None => {
                return Err(ZapError::new(ErrorCode::MissingReference));
            },
            Some(h) => h,
        };
        let ar = match assessment_revision {
            None => {
                return Err(ZapError::new(ErrorCode::MissingReference));
            },
            Some(ar) => ar,
        };
        let j = match jobs {
            None => {
                return Err(ZapError::new(ErrorCode::NeedsEvidence));
            },
            Some(j) => j,
        };
        let applied_ok = match &admission {
            Some(a) => same_ids(payload.applied_effect_ids.as_slice(), a.applied_effect_ids.as_slice()),
            None => payload.applied_effect_ids.len() == 0,
        };
        proof {
            if admission is None {
                if payload.applied_effect_ids.len() == 0 {
                    assert(payload.applied_effect_ids@ =~= Seq::<EffectId>::empty());
                }
            }
        }
        let prefix_len: usize = match &admission {
            Some(a) => a.applied_effect_ids.len(),
            None => 0,
        };
        let jobs_safe = j.all_safe && same_jobs(payload.safe_job_ids.as_slice(), j.job_ids.as_slice());
        let forecast_ok = match latest {
            Some(f) => f.adjudicated && same_forecast(payload.forecast_id, Some(f.forecast_id))
                && same_digest(payload.forecast_digest, Some(f.digest)) && same_forecast(h.forecast_id, Some(f.forecast_id))
                && match decision {
                    Some(d) => same_forecast(d.forecast_id, Some(f.forecast_id)) && same_digest(d.forecast_digest, payload.forecast_digest),
                    None => false,
                },
            None => payload.forecast_id.is_none() && payload.forecast_digest.is_none() && h.forecast_id.is_none(),
        };
        let approved = match decision {
            Some(d) => matches!(d.choice, OwnerChangeChoice::Approve),
            None => false,
        };
        let rejected = match decision {
            Some(d) => matches!(d.choice, OwnerChangeChoice::Reject),
            None => false,
        };
        let resolution_ok = match payload.resolution {
            HoldResolution::ApprovedApplied => approved && match &admission {
                Some(a) => a.applied && a.final_effect,
                None => false,
            } && h.no_unknown_effects,
            HoldResolution::RejectedBaseline => rejected && prefix_len == 0,
            HoldResolution::RejectedRemaining => rejected && prefix_len > 0,
        };
        if matches!(h.status, HoldStatus::Released) || !applied_ok || !jobs_safe || !forecast_ok || !resolution_ok {
            return Err(ZapError::new(ErrorCode::Conflict));
        }
        let hold_revision = checked_next(h.revision)?;
        let assessment_next = checked_next(ar)?;
        Ok(HoldRelease { hold_expected: h.revision, hold_revision, assessment_expected: ar, assessment_revision: assessment_next })
    }
}

/// An effect of the assessment's selected alternative.
#[derive(Clone, Copy, Debug, PartialEq, Eq, Structural)]
pub struct SelectedEffect {
    pub effect_id: EffectId,
    pub fingerprint: DigestValue,
    pub preflight_digest: Option<DigestValue>,
    pub relevant_before: DigestValue,
    pub payload_digest: DigestValue,
    pub product_event_id: EventId,
}

/// A change assessment, as admission reads it: `digest` is its recomputed
/// digest, `owner_required` whether it asks for an Owner decision, and
/// `effects` the effects of its selected alternative.
pub struct AssessmentFacts {
    pub assessment_id: AssessmentId,
    pub adjudicated: bool,
    pub resolved: bool,
    pub digest: DigestValue,
    pub owner_required: bool,
    pub effects: Vec<SelectedEffect>,
}

/// The first effect of a preflighted bundle.
#[derive(Clone, Copy, Debug, PartialEq, Eq, Structural)]
pub struct EffectViewFacts {
    pub effect_id: EffectId,
    pub product_event_id: EventId,
    pub stable_digest: DigestValue,
}

/// An effect-bundle preflight the command carries.
pub struct BundleViewFacts {
    pub alternative_id: ChangeAlternativeId,
    pub committed_prefix: Vec<EffectId>,
    pub first: Option<EffectViewFacts>,
    pub digest: DigestValue,
}

/// A cost forecast, with its recomputed digest.
#[derive(Clone, Copy, Debug, PartialEq, Eq, Structural)]
pub struct ForecastRow {
    pub assessment_id: AssessmentId,
    pub forecast_id: ForecastId,
    pub revision: Revision,
    pub owner_required: bool,
    pub adjudicated: bool,
    pub relevant_basis: DigestValue,
    pub digest: DigestValue,
    pub hold_id: Option<HoldId>,
}

/// An Owner change decision, with the effect preflights it approved.
pub struct OwnerDecisionFacts {
    pub decision_id: DecisionId,
    pub choice: OwnerChangeChoice,
    pub effect_preflight_digests: Vec<DigestValue>,
}

/// What an admission preparation binds.
pub struct AdmissionBinding {
    pub assessment_id: AssessmentId,
    pub assessment_digest: DigestValue,
    pub forecast_id: Option<ForecastId>,
    pub forecast_digest: Option<DigestValue>,
    pub decision_id: Option<DecisionId>,
    pub alternative_id: ChangeAlternativeId,
    pub effect_id: EffectId,
    pub effect_index: u32,
    pub effect_fingerprint: DigestValue,
    pub relevant_before: DigestValue,
    pub payload_digest: DigestValue,
    pub product_event_id: EventId,
    pub final_effect: bool,
    pub applied: bool,
    pub applied_effect_ids: Vec<EffectId>,
}

/// The effect the admission names: the selected effect at its index, when
/// its identity matches.
pub open spec fn named_effect(a: AssessmentFacts, b: AdmissionBinding) -> Option<SelectedEffect> {
    if (b.effect_index as int) < a.effects@.len() && a.effects@[b.effect_index as int].effect_id == b.effect_id {
        Some(a.effects@[b.effect_index as int])
    } else {
        None
    }
}

/// The command carries exactly one bundle preflight, for the admission's
/// alternative and committed prefix, whose first effect is the named effect
/// with the admission's product event.
pub open spec fn exact_bundle(bundles: Seq<BundleViewFacts>, b: AdmissionBinding, e: SelectedEffect) -> bool {
    &&& bundles.len() == 1
    &&& bundles[0].alternative_id == b.alternative_id
    &&& bundles[0].committed_prefix@ == b.applied_effect_ids@
    &&& bundles[0].first matches Some(v)
    &&& v.effect_id == e.effect_id
    &&& v.product_event_id == b.product_event_id
}

/// The assessment's latest forecast: the last of highest revision.
pub open spec fn latest_forecast(fs: Seq<ForecastRow>, id: AssessmentId) -> Option<ForecastRow>
    decreases fs.len(),
{
    if fs.len() == 0 {
        None
    } else {
        let prev = latest_forecast(fs.drop_last(), id);
        if fs.last().assessment_id == id && (prev matches Some(p) ==> p.revision.0 <= fs.last().revision.0) {
            Some(fs.last())
        } else {
            prev
        }
    }
}

/// The preflight digests of the selected effects that have one, in order.
pub open spec fn preflight_digests(effects: Seq<SelectedEffect>) -> Seq<DigestValue>
    decreases effects.len(),
{
    if effects.len() == 0 {
        Seq::empty()
    } else {
        let prev = preflight_digests(effects.drop_last());
        match effects.last().preflight_digest {
            Some(d) => prev.push(d),
            None => prev,
        }
    }
}

/// The admission binds the latest forecast when there is one, and none
/// otherwise.
pub open spec fn forecast_bound(b: AdmissionBinding, latest: Option<ForecastRow>, e: SelectedEffect) -> bool {
    match latest {
        Some(f) => f.adjudicated && f.relevant_basis == e.relevant_before && b.forecast_id == Some(f.forecast_id) && b.forecast_digest == Some(f.digest),
        None => b.forecast_id is None && b.forecast_digest is None,
    }
}

/// An Owner decision is named exactly when one is required, and then it
/// approves exactly the selected effects' preflights.
pub open spec fn decision_bound(b: AdmissionBinding, required: bool, decision: Option<OwnerDecisionFacts>, effects: Seq<SelectedEffect>) -> bool {
    match b.decision_id {
        Some(id) => required && (decision matches Some(d) && d.decision_id == id && d.choice == OwnerChangeChoice::Approve
            && d.effect_preflight_digests@ == preflight_digests(effects)),
        None => !required,
    }
}

/// The admission binds the current selected effect, its item preflight,
/// forecast and authority.
pub open spec fn admission_bound(a: AssessmentFacts, b: AdmissionBinding, e: SelectedEffect, item: DigestValue, fs: Seq<ForecastRow>, decision: Option<OwnerDecisionFacts>) -> bool {
    let latest = latest_forecast(fs, a.assessment_id);
    let required = match latest {
        Some(f) => f.owner_required,
        None => a.owner_required,
    };
    &&& a.adjudicated
    &&& !a.resolved
    &&& a.digest == b.assessment_digest
    &&& e.fingerprint == b.effect_fingerprint
    &&& e.preflight_digest == Some(item)
    &&& e.relevant_before == b.relevant_before
    &&& e.payload_digest == b.payload_digest
    &&& e.product_event_id == b.product_event_id
    &&& b.final_effect == (b.effect_index + 1 == a.effects@.len())
    &&& !b.applied
    &&& forecast_bound(b, latest, e)
    &&& decision_bound(b, required, decision, a.effects@)
}

pub(crate) fn find_latest_forecast(fs: &[ForecastRow], id: AssessmentId) -> (r: Option<ForecastRow>)
    ensures
        r == latest_forecast(fs@, id),
{
    let mut best: Option<ForecastRow> = None;
    let mut i: usize = 0;
    assert(fs@.take(0) =~= Seq::<ForecastRow>::empty());
    while i < fs.len()
        invariant
            i <= fs@.len(),
            best == latest_forecast(fs@.take(i as int), id),
        decreases fs@.len() - i,
    {
        assert(fs@.take(i as int + 1).drop_last() =~= fs@.take(i as int));
        let row = fs[i];
        if row.assessment_id.0 == id.0 {
            let newer = match best {
                Some(p) => p.revision.0 <= row.revision.0,
                None => true,
            };
            if newer {
                best = Some(row);
            }
        }
        i += 1;
    }
    assert(fs@.take(fs@.len() as int) =~= fs@);
    best
}

fn collect_preflight_digests(effects: &Vec<SelectedEffect>) -> (r: Vec<DigestValue>)
    ensures
        r@ == preflight_digests(effects@),
{
    let mut out: Vec<DigestValue> = Vec::new();
    let mut i: usize = 0;
    assert(effects@.take(0) =~= Seq::<SelectedEffect>::empty());
    while i < effects.len()
        invariant
            i <= effects@.len(),
            out@ == preflight_digests(effects@.take(i as int)),
        decreases effects@.len() - i,
    {
        assert(effects@.take(i as int + 1).drop_last() =~= effects@.take(i as int));
        match effects[i].preflight_digest {
            Some(d) => out.push(d),
            None => {},
        }
        i += 1;
    }
    assert(effects@.take(effects@.len() as int) =~= effects@);
    out
}

/// What checking an admission preparation gives: a missing assessment, an
/// effect that is not the selected one at its index (a conflict), a missing
/// exact bundle preflight (needs evidence), an admission that does not bind
/// the current assessment, effect, forecast and authority (a conflict), or
/// the item and bundle preflight digests it is bound to.
pub open spec fn binding_outcome(
    b: AdmissionBinding,
    assessment: Option<AssessmentFacts>,
    bundles: Seq<BundleViewFacts>,
    forecasts: Seq<ForecastRow>,
    decision: Option<OwnerDecisionFacts>,
) -> Result<(DigestValue, DigestValue), ErrorCode> {
    match assessment {
        None => Err(ErrorCode::MissingReference),
        Some(a) => match named_effect(a, b) {
            None => Err(ErrorCode::Conflict),
            Some(e) => if !exact_bundle(bundles, b, e) {
                Err(ErrorCode::NeedsEvidence)
            } else if !admission_bound(a, b, e, bundles[0].first->0.stable_digest, forecasts, decision) {
                Err(ErrorCode::Conflict)
            } else {
                Ok((bundles[0].first->0.stable_digest, bundles[0].digest))
            },
        },
    }
}

/// Checks what an admission preparation binds: the assessment must exist;
/// the admission must name the selected effect at its index; the command
/// must carry the exact remaining bundle preflight; and the admission must
/// bind the current assessment, effect, item preflight, latest forecast and
/// Owner authority. On success it yields the item and bundle preflight
/// digests the admission is bound to.
pub fn check_admission_binding(
    binding: &AdmissionBinding,
    assessment: Option<&AssessmentFacts>,
    bundles: &[BundleViewFacts],
    forecasts: &[ForecastRow],
    decision: Option<&OwnerDecisionFacts>,
) -> (r: Result<(DigestValue, DigestValue), ZapError>)
    ensures
        match binding_outcome(*binding, match assessment { Some(a) => Some(*a), None => None }, bundles@, forecasts@,
            match decision { Some(d) => Some(*d), None => None }) {
            Err(c) => r matches Err(e) && e.code == c,
            Ok(ds) => r == Ok::<(DigestValue, DigestValue), ZapError>(ds),
        },
{
    let a = match assessment {
        Some(a) => a,
        None => return Err(ZapError::new(ErrorCode::MissingReference)),
    };
    let index = binding.effect_index as usize;
    if index >= a.effects.len() || a.effects[index].effect_id.0 != binding.effect_id.0 {
        return Err(ZapError::new(ErrorCode::Conflict));
    }
    let e = a.effects[index];
    if bundles.len() != 1 {
        return Err(ZapError::new(ErrorCode::NeedsEvidence));
    }
    let bundle = &bundles[0];
    let item = match bundle.first {
        Some(v) => {
            if bundle.alternative_id.0 != binding.alternative_id.0
                || !same_ids(bundle.committed_prefix.as_slice(), binding.applied_effect_ids.as_slice()) || v.effect_id.0 != e.effect_id.0
                || v.product_event_id.0 != binding.product_event_id.0 {
                return Err(ZapError::new(ErrorCode::NeedsEvidence));
            }
            v
        },
        None => return Err(ZapError::new(ErrorCode::NeedsEvidence)),
    };
    let latest = find_latest_forecast(forecasts, a.assessment_id);
    let required = match latest {
        Some(f) => f.owner_required,
        None => a.owner_required,
    };
    let forecast_ok = match latest {
        Some(f) => f.adjudicated && f.relevant_basis.0 == e.relevant_before.0 && match (binding.forecast_id, binding.forecast_digest) {
            (Some(fid), Some(fd)) => fid.0 == f.forecast_id.0 && fd.0 == f.digest.0,
            _ => false,
        },
        None => binding.forecast_id.is_none() && binding.forecast_digest.is_none(),
    };
    let decision_ok = match binding.decision_id {
        Some(id) => required && match decision {
            Some(d) => d.decision_id.0 == id.0 && matches!(d.choice, OwnerChangeChoice::Approve)
                && same_ids(d.effect_preflight_digests.as_slice(), collect_preflight_digests(&a.effects).as_slice()),
            None => false,
        },
        None => !required,
    };
    let preflight_ok = match e.preflight_digest {
        Some(d) => d.0 == item.stable_digest.0,
        None => false,
    };
    if !a.adjudicated || a.resolved || a.digest.0 != binding.assessment_digest.0 || e.fingerprint.0 != binding.effect_fingerprint.0
        || !preflight_ok || e.relevant_before.0 != binding.relevant_before.0 || e.payload_digest.0 != binding.payload_digest.0
        || e.product_event_id.0 != binding.product_event_id.0 || binding.final_effect != (index + 1 == a.effects.len())
        || binding.applied || !forecast_ok || !decision_ok {
        return Err(ZapError::new(ErrorCode::Conflict));
    }
    Ok((item.stable_digest, bundle.digest))
}

/// A change admission record: what it binds, where it stands on the
/// selected alternative's committed effect prefix, and its revision.
#[derive(Debug)]
pub struct ChangeAdmission {
    pub assessment_id: AssessmentId,
    pub assessment_digest: DigestValue,
    pub forecast_id: Option<ForecastId>,
    pub forecast_digest: Option<DigestValue>,
    pub decision_id: Option<DecisionId>,
    pub alternative_id: ChangeAlternativeId,
    pub effect_id: EffectId,
    pub effect_index: u32,
    pub effect_fingerprint: DigestValue,
    pub effect_item_digest: DigestValue,
    pub effect_preflight_digest: DigestValue,
    pub impact_digest: DigestValue,
    pub relevant_before: DigestValue,
    pub action: ActionClass,
    pub payload_digest: DigestValue,
    pub product_event_id: EventId,
    pub exception_id: Option<ExceptionId>,
    pub hold_id: Option<HoldId>,
    pub final_effect: bool,
    pub applied: bool,
    pub applied_effect_ids: Vec<EffectId>,
    pub revision: Revision,
}

/// What an admission record binds, as the binding check reads it.
pub open spec fn binding_of(a: ChangeAdmission) -> AdmissionBinding {
    AdmissionBinding {
        assessment_id: a.assessment_id,
        assessment_digest: a.assessment_digest,
        forecast_id: a.forecast_id,
        forecast_digest: a.forecast_digest,
        decision_id: a.decision_id,
        alternative_id: a.alternative_id,
        effect_id: a.effect_id,
        effect_index: a.effect_index,
        effect_fingerprint: a.effect_fingerprint,
        relevant_before: a.relevant_before,
        payload_digest: a.payload_digest,
        product_event_id: a.product_event_id,
        final_effect: a.final_effect,
        applied: a.applied,
        applied_effect_ids: a.applied_effect_ids,
    }
}

/// The admission re-binds an unapplied current admission: every fact it
/// binds is the current one's.
pub open spec fn rebinds_unapplied(c: ChangeAdmission, a: ChangeAdmission) -> bool {
    &&& !c.applied
    &&& c.assessment_id == a.assessment_id
    &&& c.assessment_digest == a.assessment_digest
    &&& c.forecast_id == a.forecast_id
    &&& c.forecast_digest == a.forecast_digest
    &&& c.decision_id == a.decision_id
    &&& c.alternative_id == a.alternative_id
    &&& c.effect_id == a.effect_id
    &&& c.effect_index == a.effect_index
    &&& c.effect_fingerprint == a.effect_fingerprint
    &&& c.effect_item_digest == a.effect_item_digest
    &&& c.effect_preflight_digest == a.effect_preflight_digest
    &&& c.impact_digest == a.impact_digest
    &&& c.relevant_before == a.relevant_before
    &&& c.action == a.action
    &&& c.payload_digest == a.payload_digest
    &&& c.product_event_id == a.product_event_id
    &&& c.exception_id == a.exception_id
    &&& c.hold_id == a.hold_id
    &&& c.final_effect == a.final_effect
    &&& c.applied_effect_ids@ == a.applied_effect_ids@
}

/// The admission advances past an applied current admission of the same
/// assessment and alternative to the next effect.
pub open spec fn advances_prefix(c: ChangeAdmission, a: ChangeAdmission) -> bool {
    &&& c.applied
    &&& c.assessment_id == a.assessment_id
    &&& c.assessment_digest == a.assessment_digest
    &&& c.alternative_id == a.alternative_id
    &&& c.effect_index + 1 == a.effect_index
}

/// The write stores the admission at the revision: every field as the
/// admission holds it.
pub open spec fn written_as(w: ChangeAdmission, a: ChangeAdmission, revision: Revision) -> bool {
    &&& w.assessment_id == a.assessment_id
    &&& w.assessment_digest == a.assessment_digest
    &&& w.forecast_id == a.forecast_id
    &&& w.forecast_digest == a.forecast_digest
    &&& w.decision_id == a.decision_id
    &&& w.alternative_id == a.alternative_id
    &&& w.effect_id == a.effect_id
    &&& w.effect_index == a.effect_index
    &&& w.effect_fingerprint == a.effect_fingerprint
    &&& w.effect_item_digest == a.effect_item_digest
    &&& w.effect_preflight_digest == a.effect_preflight_digest
    &&& w.impact_digest == a.impact_digest
    &&& w.relevant_before == a.relevant_before
    &&& w.action == a.action
    &&& w.payload_digest == a.payload_digest
    &&& w.product_event_id == a.product_event_id
    &&& w.exception_id == a.exception_id
    &&& w.hold_id == a.hold_id
    &&& w.final_effect == a.final_effect
    &&& w.applied == a.applied
    &&& w.applied_effect_ids@ == a.applied_effect_ids@
    &&& w.revision == revision
}

/// Whether an admission may be written over the current one: the first
/// starts at the empty prefix; a later one re-binds an unapplied admission
/// or advances past an applied one, and either way names the effect right
/// after the committed prefix and keeps that prefix.
pub open spec fn admission_step_allowed(current: Option<ChangeAdmission>, a: ChangeAdmission) -> bool {
    match current {
        None => a.effect_index == 0 && a.applied_effect_ids@.len() == 0,
        Some(c) => {
            &&& (rebinds_unapplied(c, a) || advances_prefix(c, a))
            &&& a.effect_index == c.applied_effect_ids@.len()
            &&& a.applied_effect_ids@ == c.applied_effect_ids@
        },
    }
}

fn rebinds_unapplied_exec(c: &ChangeAdmission, a: &ChangeAdmission) -> (r: bool)
    ensures
        r == rebinds_unapplied(*c, *a),
{
    !c.applied && c.assessment_id.0 == a.assessment_id.0 && c.assessment_digest.0 == a.assessment_digest.0
        && c.forecast_id == a.forecast_id && c.forecast_digest == a.forecast_digest && c.decision_id == a.decision_id
        && c.alternative_id.0 == a.alternative_id.0 && c.effect_id.0 == a.effect_id.0 && c.effect_index == a.effect_index
        && c.effect_fingerprint.0 == a.effect_fingerprint.0 && c.effect_item_digest.0 == a.effect_item_digest.0
        && c.effect_preflight_digest.0 == a.effect_preflight_digest.0 && c.impact_digest.0 == a.impact_digest.0
        && c.relevant_before.0 == a.relevant_before.0 && c.action.0 == a.action.0 && c.payload_digest.0 == a.payload_digest.0
        && c.product_event_id.0 == a.product_event_id.0 && c.exception_id == a.exception_id && c.hold_id == a.hold_id
        && c.final_effect == a.final_effect && same_ids(c.applied_effect_ids.as_slice(), a.applied_effect_ids.as_slice())
}

/// The preparation of a change admission.
pub struct ChangeAdmissionPreparedCell;

impl ChangeAdmissionPreparedCell {
    /// Prepares the admission: it must bind the current assessment, the
    /// selected effect at its index, the exact remaining bundle preflight,
    /// the latest forecast and the Owner authority (see
    /// `check_admission_binding`); it is then bound to the item and bundle
    /// preflight digests and written along the committed effect prefix,
    /// inserted at the command's next revision or replacing the current
    /// admission at its next revision.
    pub fn apply(
        &self,
        admission: ChangeAdmission,
        assessment: Option<&AssessmentFacts>,
        bundles: &[BundleViewFacts],
        forecasts: &[ForecastRow],
        decision: Option<&OwnerDecisionFacts>,
        current: Option<&ChangeAdmission>,
        expected_revision: Revision,
    ) -> (r: Result<RecordWrite<ChangeAdmission>, ZapError>)
        ensures
            match binding_outcome(binding_of(admission), match assessment { Some(a) => Some(*a), None => None }, bundles@, forecasts@,
                match decision { Some(d) => Some(*d), None => None }) {
                Err(c) => r matches Err(e) && e.code == c,
                Ok((item, bundle)) => {
                    let bound = ChangeAdmission { effect_item_digest: item, effect_preflight_digest: bundle, ..admission };
                    if !admission_step_allowed(match current { Some(c) => Some(*c), None => None }, bound) {
                        r matches Err(e) && e.code == ErrorCode::Conflict
                    } else {
                        match current {
                            None => match next_revision(expected_revision) {
                                None => r matches Err(e) && e.code == ErrorCode::InvalidValue,
                                Some(v) => r matches Ok(RecordWrite::Insert(w)) && written_as(w, bound, v),
                            },
                            Some(c) => match next_revision(c.revision) {
                                None => r matches Err(e) && e.code == ErrorCode::InvalidValue,
                                Some(v) => r matches Ok(RecordWrite::Replace { expected, record }) && expected == c.revision
                                    && written_as(record, bound, v),
                            },
                        }
                    }
                },
            },
    {
        let binding = AdmissionBinding {
            assessment_id: admission.assessment_id,
            assessment_digest: admission.assessment_digest,
            forecast_id: admission.forecast_id,
            forecast_digest: admission.forecast_digest,
            decision_id: admission.decision_id,
            alternative_id: admission.alternative_id,
            effect_id: admission.effect_id,
            effect_index: admission.effect_index,
            effect_fingerprint: admission.effect_fingerprint,
            relevant_before: admission.relevant_before,
            payload_digest: admission.payload_digest,
            product_event_id: admission.product_event_id,
            final_effect: admission.final_effect,
            applied: admission.applied,
            applied_effect_ids: copy_effect_ids(&admission.applied_effect_ids),
        };
        proof {
            assert(binding.applied_effect_ids@ == admission.applied_effect_ids@);
            lemma_binding_outcome_by_view(binding, binding_of(admission), match assessment { Some(a) => Some(*a), None => None },
                bundles@, forecasts@, match decision { Some(d) => Some(*d), None => None });
        }
        let (item, bundle) = check_admission_binding(&binding, assessment, bundles, forecasts, decision)?;
        let mut next = admission;
        next.effect_item_digest = item;
        next.effect_preflight_digest = bundle;
        match current {
            None => {
                if next.effect_index != 0 || next.applied_effect_ids.len() != 0 {
                    return Err(ZapError::new(ErrorCode::Conflict));
                }
                next.revision = checked_next(expected_revision)?;
                Ok(RecordWrite::Insert(next))
            },
            Some(c) => {
                let advances = c.applied && c.assessment_id.0 == next.assessment_id.0
                    && c.assessment_digest.0 == next.assessment_digest.0 && c.alternative_id.0 == next.alternative_id.0
                    && c.effect_index < u32::MAX && c.effect_index + 1 == next.effect_index;
                if !(rebinds_unapplied_exec(c, &next) || advances) || next.effect_index as usize != c.applied_effect_ids.len()
                    || !same_ids(next.applied_effect_ids.as_slice(), c.applied_effect_ids.as_slice())
                {
                    return Err(ZapError::new(ErrorCode::Conflict));
                }
                next.revision = checked_next(c.revision)?;
                Ok(RecordWrite::Replace { expected: c.revision, record: next })
            },
        }
    }
}

fn copy_effect_ids(v: &Vec<EffectId>) -> (r: Vec<EffectId>)
    ensures
        r@ == v@,
{
    let mut out: Vec<EffectId> = Vec::new();
    let mut i: usize = 0;
    while i < v.len()
        invariant
            i <= v@.len(),
            out@ == v@.take(i as int),
        decreases v@.len() - i,
    {
        out.push(v[i]);
        assert(v@.take(i as int + 1) =~= v@.take(i as int).push(v@[i as int]));
        i += 1;
    }
    assert(v@.take(v@.len() as int) =~= v@);
    out
}

proof fn lemma_binding_outcome_by_view(
    b1: AdmissionBinding,
    b2: AdmissionBinding,
    assessment: Option<AssessmentFacts>,
    bundles: Seq<BundleViewFacts>,
    forecasts: Seq<ForecastRow>,
    decision: Option<OwnerDecisionFacts>,
)
    requires
        b1.assessment_id == b2.assessment_id,
        b1.assessment_digest == b2.assessment_digest,
        b1.forecast_id == b2.forecast_id,
        b1.forecast_digest == b2.forecast_digest,
        b1.decision_id == b2.decision_id,
        b1.alternative_id == b2.alternative_id,
        b1.effect_id == b2.effect_id,
        b1.effect_index == b2.effect_index,
        b1.effect_fingerprint == b2.effect_fingerprint,
        b1.relevant_before == b2.relevant_before,
        b1.payload_digest == b2.payload_digest,
        b1.product_event_id == b2.product_event_id,
        b1.final_effect == b2.final_effect,
        b1.applied == b2.applied,
        b1.applied_effect_ids@ == b2.applied_effect_ids@,
    ensures
        binding_outcome(b1, assessment, bundles, forecasts, decision) == binding_outcome(b2, assessment, bundles, forecasts, decision),
{
}

/// Admission never skips or reorders effects: an admission written over
/// the current one names the effect right after the committed prefix and
/// keeps that prefix; one that advances names the effect after the current
/// one's.
pub proof fn law_admission_follows_the_prefix(current: ChangeAdmission, a: ChangeAdmission)
    requires
        admission_step_allowed(Some(current), a),
    ensures
        a.effect_index == current.applied_effect_ids@.len(),
        a.applied_effect_ids@ == current.applied_effect_ids@,
        current.applied ==> a.effect_index == current.effect_index + 1,
{
}

} // verus!
