use zap::admission::{
    check_admission_binding, ChangeAdmission, ChangeAdmissionPreparedCell, AdmissionBinding, AssessmentFacts, BundleViewFacts, EffectViewFacts, ForecastRow, OwnerDecisionFacts,
    SelectedEffect,
};
use zap::error::ErrorCode;
use zap::ids::{ActionClass, AssessmentId, ChangeAlternativeId, DecisionId, DigestValue, EffectId, EventId, ForecastId, Revision};
use zap::owner_control::RecordWrite;
use zap::owner_control::OwnerChangeChoice;

fn effect(id: u64, preflight: u64) -> SelectedEffect {
    SelectedEffect {
        effect_id: EffectId(id),
        fingerprint: DigestValue(id * 10),
        preflight_digest: Some(DigestValue(preflight)),
        relevant_before: DigestValue(7),
        payload_digest: DigestValue(id * 100),
        product_event_id: EventId(id * 1000),
    }
}

fn assessment(owner_required: bool) -> AssessmentFacts {
    AssessmentFacts {
        assessment_id: AssessmentId(1),
        adjudicated: true,
        resolved: false,
        digest: DigestValue(55),
        owner_required,
        effects: vec![effect(1, 501), effect(2, 502)],
    }
}

fn binding() -> AdmissionBinding {
    AdmissionBinding {
        assessment_id: AssessmentId(1),
        assessment_digest: DigestValue(55),
        forecast_id: None,
        forecast_digest: None,
        decision_id: None,
        alternative_id: ChangeAlternativeId(3),
        effect_id: EffectId(1),
        effect_index: 0,
        effect_fingerprint: DigestValue(10),
        relevant_before: DigestValue(7),
        payload_digest: DigestValue(100),
        product_event_id: EventId(1000),
        final_effect: false,
        applied: false,
        applied_effect_ids: vec![],
    }
}

fn bundle() -> BundleViewFacts {
    BundleViewFacts {
        alternative_id: ChangeAlternativeId(3),
        committed_prefix: vec![],
        first: Some(EffectViewFacts { effect_id: EffectId(1), product_event_id: EventId(1000), stable_digest: DigestValue(501) }),
        digest: DigestValue(900),
    }
}

#[test]
fn an_exact_admission_binds_its_preflight() {
    let a = assessment(false);
    let r = check_admission_binding(&binding(), Some(&a), &[bundle()], &[], None).unwrap();
    assert_eq!(r, (DigestValue(501), DigestValue(900)));
}

#[test]
fn a_missing_assessment_or_effect_is_refused() {
    let a = assessment(false);
    assert_eq!(check_admission_binding(&binding(), None, &[bundle()], &[], None).unwrap_err().code, ErrorCode::MissingReference);
    let mut wrong = binding();
    wrong.effect_id = EffectId(2);
    assert_eq!(check_admission_binding(&wrong, Some(&a), &[bundle()], &[], None).unwrap_err().code, ErrorCode::Conflict);
    wrong.effect_index = 5;
    assert_eq!(check_admission_binding(&wrong, Some(&a), &[bundle()], &[], None).unwrap_err().code, ErrorCode::Conflict);
}

#[test]
fn the_exact_bundle_preflight_is_required() {
    let a = assessment(false);
    assert_eq!(check_admission_binding(&binding(), Some(&a), &[], &[], None).unwrap_err().code, ErrorCode::NeedsEvidence);
    assert_eq!(check_admission_binding(&binding(), Some(&a), &[bundle(), bundle()], &[], None).unwrap_err().code, ErrorCode::NeedsEvidence);
    let mut other_prefix = bundle();
    other_prefix.committed_prefix = vec![EffectId(9)];
    assert_eq!(check_admission_binding(&binding(), Some(&a), &[other_prefix], &[], None).unwrap_err().code, ErrorCode::NeedsEvidence);
}

#[test]
fn stale_bindings_conflict() {
    let a = assessment(false);
    let mut final_flag = binding();
    final_flag.final_effect = true;
    assert_eq!(check_admission_binding(&final_flag, Some(&a), &[bundle()], &[], None).unwrap_err().code, ErrorCode::Conflict);
    let mut digest = binding();
    digest.assessment_digest = DigestValue(56);
    assert_eq!(check_admission_binding(&digest, Some(&a), &[bundle()], &[], None).unwrap_err().code, ErrorCode::Conflict);
    let mut item = bundle();
    item.first = Some(EffectViewFacts { effect_id: EffectId(1), product_event_id: EventId(1000), stable_digest: DigestValue(999) });
    assert_eq!(check_admission_binding(&binding(), Some(&a), &[item], &[], None).unwrap_err().code, ErrorCode::Conflict);
}

fn forecast(id: u64, revision: u64, owner_required: bool) -> ForecastRow {
    ForecastRow {
        assessment_id: AssessmentId(1),
        forecast_id: ForecastId(id),
        revision: Revision(revision),
        owner_required,
        adjudicated: true,
        relevant_basis: DigestValue(7),
        digest: DigestValue(id + 40),
        hold_id: None,
    }
}

#[test]
fn the_latest_forecast_and_owner_decision_bind() {
    let a = assessment(false);
    let forecasts = [forecast(1, 1, false), forecast(2, 3, true), forecast(3, 2, false)];
    let mut b = binding();
    b.forecast_id = Some(ForecastId(2));
    b.forecast_digest = Some(DigestValue(42));
    assert_eq!(check_admission_binding(&b, Some(&a), &[bundle()], &forecasts, None).unwrap_err().code, ErrorCode::Conflict);
    b.decision_id = Some(DecisionId(8));
    let approve = OwnerDecisionFacts {
        decision_id: DecisionId(8),
        choice: OwnerChangeChoice::Approve,
        effect_preflight_digests: vec![DigestValue(501), DigestValue(502)],
    };
    assert!(check_admission_binding(&b, Some(&a), &[bundle()], &forecasts, Some(&approve)).is_ok());
    let reject = OwnerDecisionFacts { decision_id: DecisionId(8), choice: OwnerChangeChoice::Reject, effect_preflight_digests: vec![] };
    assert!(check_admission_binding(&b, Some(&a), &[bundle()], &forecasts, Some(&reject)).is_err());
    let mut older = b;
    older.forecast_id = Some(ForecastId(3));
    older.forecast_digest = Some(DigestValue(43));
    assert!(check_admission_binding(&older, Some(&a), &[bundle()], &forecasts, Some(&approve)).is_err());
}

#[test]
fn among_equal_revisions_the_last_forecast_is_latest() {
    let a = assessment(false);
    let forecasts = [forecast(1, 2, false), forecast(2, 2, false)];
    let mut b = binding();
    b.forecast_id = Some(ForecastId(2));
    b.forecast_digest = Some(DigestValue(42));
    assert!(check_admission_binding(&b, Some(&a), &[bundle()], &forecasts, None).is_ok());
    b.forecast_id = Some(ForecastId(1));
    b.forecast_digest = Some(DigestValue(41));
    assert!(check_admission_binding(&b, Some(&a), &[bundle()], &forecasts, None).is_err());
}

fn admission(index: u32, effect: u64, prefix: &[u64]) -> ChangeAdmission {
    ChangeAdmission {
        assessment_id: AssessmentId(1),
        assessment_digest: DigestValue(55),
        forecast_id: None,
        forecast_digest: None,
        decision_id: None,
        alternative_id: ChangeAlternativeId(3),
        effect_id: EffectId(effect),
        effect_index: index,
        effect_fingerprint: DigestValue(effect * 10),
        effect_item_digest: DigestValue(0),
        effect_preflight_digest: DigestValue(0),
        impact_digest: DigestValue(44),
        relevant_before: DigestValue(7),
        action: ActionClass(8),
        payload_digest: DigestValue(effect * 100),
        product_event_id: EventId(effect * 1000),
        exception_id: None,
        hold_id: None,
        final_effect: index == 1,
        applied: false,
        applied_effect_ids: prefix.iter().map(|e| EffectId(*e)).collect(),
        revision: Revision(0),
    }
}

fn second_bundle() -> BundleViewFacts {
    BundleViewFacts {
        alternative_id: ChangeAlternativeId(3),
        committed_prefix: vec![EffectId(1)],
        first: Some(EffectViewFacts { effect_id: EffectId(2), product_event_id: EventId(2000), stable_digest: DigestValue(502) }),
        digest: DigestValue(901),
    }
}

#[test]
fn admission_walks_the_committed_prefix() {
    let a = assessment(false);
    let cell = ChangeAdmissionPreparedCell;
    match cell.apply(admission(0, 1, &[]), Some(&a), &[bundle()], &[], None, None, Revision(10)) {
        Ok(RecordWrite::Insert(w)) => {
            assert_eq!(w.revision, Revision(11));
            assert_eq!(w.effect_item_digest, DigestValue(501));
            assert_eq!(w.effect_preflight_digest, DigestValue(900));
        }
        _ => panic!("the first admission is inserted"),
    }
    let mut current = admission(0, 1, &[1]);
    current.applied = true;
    current.revision = Revision(11);
    current.effect_item_digest = DigestValue(501);
    current.effect_preflight_digest = DigestValue(900);
    match cell.apply(admission(1, 2, &[1]), Some(&a), &[second_bundle()], &[], None, Some(&current), Revision(10)) {
        Ok(RecordWrite::Replace { expected, record }) => {
            assert_eq!(expected, Revision(11));
            assert_eq!(record.revision, Revision(12));
            assert_eq!(record.effect_index, 1);
            assert_eq!(record.effect_preflight_digest, DigestValue(901));
        }
        _ => panic!("the next effect replaces the admission"),
    }
    let mut other_lineage = admission(1, 2, &[1]);
    other_lineage.assessment_digest = DigestValue(56);
    assert!(cell.apply(other_lineage, Some(&a), &[second_bundle()], &[], None, Some(&current), Revision(10)).is_err());
}

#[test]
fn an_unapplied_admission_is_rebound_only_with_every_fact_the_same() {
    let a = assessment(false);
    let cell = ChangeAdmissionPreparedCell;
    let mut current = admission(0, 1, &[]);
    current.revision = Revision(11);
    current.effect_item_digest = DigestValue(501);
    current.effect_preflight_digest = DigestValue(900);
    assert!(cell.apply(admission(0, 1, &[]), Some(&a), &[bundle()], &[], None, Some(&current), Revision(10)).is_ok());
    let mut other_impact = admission(0, 1, &[]);
    other_impact.impact_digest = DigestValue(45);
    assert_eq!(
        cell.apply(other_impact, Some(&a), &[bundle()], &[], None, Some(&current), Revision(10)).unwrap_err().code,
        ErrorCode::Conflict
    );
    let mut other_hold = admission(0, 1, &[]);
    other_hold.hold_id = Some(zap::ids::HoldId(3));
    assert!(cell.apply(other_hold, Some(&a), &[bundle()], &[], None, Some(&current), Revision(10)).is_err());
    assert_eq!(
        cell.apply(admission(0, 1, &[]), None, &[bundle()], &[], None, Some(&current), Revision(10)).unwrap_err().code,
        ErrorCode::MissingReference
    );
    assert_eq!(
        cell.apply(admission(1, 1, &[]), Some(&a), &[bundle()], &[], None, None, Revision(10)).unwrap_err().code,
        ErrorCode::Conflict
    );
}
