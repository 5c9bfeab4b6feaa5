use zap::admission::{ChangeHoldFacts, ForecastRow};
use zap::change_decision::{
    apply_change_decision, AssessedAlternative, ChangeDecisionRecorded, ChangeDecisionRecordedCell, AssessedEffect, DecisionAssessment, OwnerChangeDecisionRecord, PolicyFacts,
    PriorDecision,
};
use zap::error::ErrorCode;
use zap::ids::{AssessmentId, ChangeAlternativeId, DecisionId, DigestValue, ForecastId, HoldId, PolicyId, Revision};
use zap::owner_control::{HoldStatus, OwnerChangeChoice, RecordWrite};

fn assessment() -> DecisionAssessment {
    DecisionAssessment {
        assessment_id: AssessmentId(1),
        adjudicated: true,
        resolved: false,
        owner_required: true,
        recommended_alternative_id: Some(ChangeAlternativeId(2)),
        digest: DigestValue(10),
        policy_id: PolicyId(3),
        policy_revision: Revision(4),
        policy_digest: DigestValue(30),
        hold_id: Some(HoldId(5)),
        alternatives: vec![
            AssessedAlternative { alternative_id: ChangeAlternativeId(1), effects: vec![] },
            AssessedAlternative {
                alternative_id: ChangeAlternativeId(2),
                effects: vec![
                    AssessedEffect { fingerprint: DigestValue(21), preflight_digest: Some(DigestValue(31)) },
                    AssessedEffect { fingerprint: DigestValue(22), preflight_digest: Some(DigestValue(32)) },
                ],
            },
        ],
    }
}

fn policy() -> PolicyFacts {
    PolicyFacts { active: true, policy_id: PolicyId(3), revision: Revision(4), digest: DigestValue(30) }
}

fn decision(choice: OwnerChangeChoice) -> OwnerChangeDecisionRecord {
    let approve = choice == OwnerChangeChoice::Approve;
    OwnerChangeDecisionRecord {
        decision_id: DecisionId(9),
        assessment_id: AssessmentId(1),
        assessment_digest: DigestValue(10),
        recommended_alternative_id: ChangeAlternativeId(2),
        choice,
        policy_id: PolicyId(3),
        policy_revision: Revision(4),
        forecast_id: None,
        forecast_digest: None,
        effect_fingerprints: if approve { vec![DigestValue(21), DigestValue(22)] } else { vec![] },
        effect_preflight_digests: if approve { vec![DigestValue(31), DigestValue(32)] } else { vec![] },
        revision: Revision(8),
    }
}

fn hold(status: HoldStatus) -> ChangeHoldFacts {
    ChangeHoldFacts {
        hold_id: HoldId(5),
        assessment_id: AssessmentId(1),
        decision_id: None,
        forecast_id: None,
        status,
        no_unknown_effects: true,
        revision: Revision(6),
    }
}

fn expect_code(r: Result<RecordWrite<ChangeHoldFacts>, zap::ZapError>, code: ErrorCode) {
    match r {
        Err(e) => assert_eq!(e.code, code),
        Ok(_) => panic!("expected a refusal"),
    }
}

#[test]
fn an_approval_moves_the_hold_to_applying() {
    let a = assessment();
    let r = apply_change_decision(&decision(OwnerChangeChoice::Approve), Some(&a), &policy(), &[], false, &[], &[hold(HoldStatus::Active)], Revision(8));
    assert_eq!(
        r.ok(),
        Some(RecordWrite::Replace {
            expected: Revision(6),
            record: ChangeHoldFacts {
                revision: Revision(7),
                decision_id: Some(DecisionId(9)),
                status: HoldStatus::ApprovedApplying,
                ..hold(HoldStatus::Active)
            },
        })
    );
    let r = apply_change_decision(&decision(OwnerChangeChoice::Defer), Some(&a), &policy(), &[], false, &[], &[hold(HoldStatus::Active)], Revision(8));
    match r {
        Ok(RecordWrite::Replace { record, .. }) => assert_eq!(record.status, HoldStatus::Deferred),
        _ => panic!("a deferral is recorded"),
    }
}

#[test]
fn a_decision_must_bind_everything_current() {
    let a = assessment();
    let holds = [hold(HoldStatus::Active)];
    expect_code(apply_change_decision(&decision(OwnerChangeChoice::Approve), None, &policy(), &[], false, &[], &holds, Revision(8)), ErrorCode::MissingReference);
    let mut other = decision(OwnerChangeChoice::Reject);
    other.recommended_alternative_id = ChangeAlternativeId(7);
    expect_code(apply_change_decision(&other, Some(&a), &policy(), &[], false, &[], &holds, Revision(8)), ErrorCode::MissingReference);
    expect_code(apply_change_decision(&decision(OwnerChangeChoice::Approve), Some(&a), &policy(), &[], true, &[], &holds, Revision(8)), ErrorCode::Conflict);
    let prior = [PriorDecision { assessment_id: AssessmentId(1), forecast_id: None }];
    expect_code(apply_change_decision(&decision(OwnerChangeChoice::Reject), Some(&a), &policy(), &[], false, &prior, &holds, Revision(8)), ErrorCode::Conflict);
    expect_code(apply_change_decision(&decision(OwnerChangeChoice::Reject), Some(&a), &policy(), &[], false, &[], &holds, Revision(9)), ErrorCode::Conflict);
    let stale = PolicyFacts { revision: Revision(5), ..policy() };
    expect_code(apply_change_decision(&decision(OwnerChangeChoice::Reject), Some(&a), &stale, &[], false, &[], &holds, Revision(8)), ErrorCode::Conflict);
    let mut reordered = decision(OwnerChangeChoice::Approve);
    reordered.effect_fingerprints.reverse();
    expect_code(apply_change_decision(&reordered, Some(&a), &policy(), &[], false, &[], &holds, Revision(8)), ErrorCode::Conflict);
    let mut rejection_with_effects = decision(OwnerChangeChoice::Reject);
    rejection_with_effects.effect_fingerprints = vec![DigestValue(21)];
    expect_code(apply_change_decision(&rejection_with_effects, Some(&a), &policy(), &[], false, &[], &holds, Revision(8)), ErrorCode::Conflict);
    let mut unpreflighted = assessment();
    unpreflighted.alternatives[1].effects[1].preflight_digest = None;
    expect_code(apply_change_decision(&decision(OwnerChangeChoice::Approve), Some(&unpreflighted), &policy(), &[], false, &[], &holds, Revision(8)), ErrorCode::Conflict);
}

#[test]
fn the_latest_forecast_decides_and_names_the_hold() {
    let a = assessment();
    let forecast = ForecastRow {
        assessment_id: AssessmentId(1),
        forecast_id: ForecastId(4),
        revision: Revision(2),
        owner_required: true,
        adjudicated: true,
        relevant_basis: DigestValue(1),
        digest: DigestValue(44),
        hold_id: Some(HoldId(6)),
    };
    let hold6 = ChangeHoldFacts { hold_id: HoldId(6), ..hold(HoldStatus::Active) };
    let mut d = decision(OwnerChangeChoice::Reject);
    expect_code(apply_change_decision(&d, Some(&a), &policy(), &[forecast], false, &[], &[hold6], Revision(8)), ErrorCode::Conflict);
    d.forecast_id = Some(ForecastId(4));
    d.forecast_digest = Some(DigestValue(44));
    match apply_change_decision(&d, Some(&a), &policy(), &[forecast], false, &[], &[hold(HoldStatus::Active), hold6], Revision(8)) {
        Ok(RecordWrite::Replace { record, .. }) => {
            assert_eq!(record.hold_id, HoldId(6));
            assert_eq!(record.status, HoldStatus::RejectedRestoring);
        },
        _ => panic!("the forecast's hold moves"),
    }
    expect_code(apply_change_decision(&d, Some(&a), &policy(), &[forecast], false, &[], &[hold(HoldStatus::Active)], Revision(8)), ErrorCode::MissingReference);
    let waived = ForecastRow { owner_required: false, ..forecast };
    expect_code(apply_change_decision(&d, Some(&a), &policy(), &[waived], false, &[], &[hold6], Revision(8)), ErrorCode::Conflict);
}

#[test]
fn only_an_active_hold_of_the_assessment_moves() {
    let a = assessment();
    let d = decision(OwnerChangeChoice::Reject);
    expect_code(apply_change_decision(&d, Some(&a), &policy(), &[], false, &[], &[hold(HoldStatus::Deferred)], Revision(8)), ErrorCode::Conflict);
    let foreign = ChangeHoldFacts { assessment_id: AssessmentId(2), ..hold(HoldStatus::Active) };
    expect_code(apply_change_decision(&d, Some(&a), &policy(), &[], false, &[], &[foreign], Revision(8)), ErrorCode::Conflict);
    let last = ChangeHoldFacts { revision: Revision(u64::MAX), ..hold(HoldStatus::Active) };
    expect_code(apply_change_decision(&d, Some(&a), &policy(), &[], false, &[], &[last], Revision(8)), ErrorCode::InvalidValue);
    let mut no_hold = assessment();
    no_hold.hold_id = None;
    expect_code(apply_change_decision(&d, Some(&no_hold), &policy(), &[], false, &[], &[hold(HoldStatus::Active)], Revision(8)), ErrorCode::MissingReference);
}

#[test]
fn the_cell_records_the_decision_at_the_next_revision() {
    let a = assessment();
    let payload = ChangeDecisionRecorded { decision: decision(OwnerChangeChoice::Reject) };
    match ChangeDecisionRecordedCell.apply(Revision(7), &payload, Some(&a), &policy(), &[], false, &[], &[hold(HoldStatus::Active)]) {
        Ok((RecordWrite::Replace { record, .. }, next)) => {
            assert_eq!(next, Revision(8));
            assert_eq!(record.status, HoldStatus::RejectedRestoring);
        },
        _ => panic!("the decision is recorded"),
    }
    match ChangeDecisionRecordedCell.apply(Revision(6), &payload, Some(&a), &policy(), &[], false, &[], &[hold(HoldStatus::Active)]) {
        Err(e) => assert_eq!(e.code, ErrorCode::Conflict),
        Ok(_) => panic!("the decision names another revision"),
    }
    match ChangeDecisionRecordedCell.apply(Revision(u64::MAX), &payload, Some(&a), &policy(), &[], false, &[], &[hold(HoldStatus::Active)]) {
        Err(e) => assert_eq!(e.code, ErrorCode::InvalidValue),
        Ok(_) => panic!("the last revision has no successor"),
    }
}
