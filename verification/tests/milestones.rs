use zap::error::ErrorCode;
use zap::ids::{DigestValue, EvidenceId, MilestoneAchievementId, MilestoneId, MilestoneRevisionId, OutcomeId, WorkId};
use zap::milestones::{
    MilestoneAchievementInput, MilestoneAchievementQuery, MilestoneAchievementRecord, MilestoneAchievementValidity,
    MilestoneContribution, MilestoneDefinition, MilestoneLifecycle, MilestoneProofEvaluationCost, MilestoneReadInput,
    MilestoneReadQuery, MilestoneRecord, MilestoneRevisionInput, MilestoneRevisionQuery, MilestoneRevisionRecord,
    MilestoneSnapshot,
};

fn snapshot() -> MilestoneSnapshot {
    MilestoneSnapshot {
        milestones: vec![MilestoneRecord {
            milestone_id: MilestoneId(1),
            current_revision_id: MilestoneRevisionId(11),
            latest_achievement_id: Some(MilestoneAchievementId(21)),
        }],
        revisions: vec![
            MilestoneRevisionRecord { revision_id: MilestoneRevisionId(10), milestone_id: MilestoneId(1), self_consistent: true },
            MilestoneRevisionRecord { revision_id: MilestoneRevisionId(11), milestone_id: MilestoneId(1), self_consistent: true },
        ],
        achievements: vec![MilestoneAchievementRecord { achievement_id: MilestoneAchievementId(21), milestone_id: MilestoneId(1) }],
    }
}

#[test]
fn definition_lists_work_and_evidence_in_order() {
    let d = MilestoneDefinition {
        outcome_id: OutcomeId(1),
        terms: DigestValue(2),
        consumers: vec![],
        required_obligation_ids: vec![],
        contributions: vec![
            MilestoneContribution::Work { work_id: WorkId(3) },
            MilestoneContribution::Evidence { evidence_id: EvidenceId(4) },
            MilestoneContribution::Milestone {
                milestone_id: MilestoneId(2),
                revision_id: MilestoneRevisionId(5),
                semantic_fingerprint: DigestValue(6),
            },
            MilestoneContribution::Work { work_id: WorkId(1) },
        ],
        dependencies: vec![],
        lifecycle: MilestoneLifecycle::Active,
        retirement_reason: None,
    };
    assert_eq!(d.work_ids(), vec![WorkId(3), WorkId(1)]);
    assert_eq!(d.evidence_ids(), vec![EvidenceId(4)]);
    assert_eq!(d.contributions[0].work_id(), Some(&WorkId(3)));
    assert_eq!(d.contributions[1].work_id(), None);
}

#[test]
fn read_query_reports_validity_only_when_asked() {
    let s = snapshot();
    let view = MilestoneReadQuery
        .execute(&s, &MilestoneReadInput { milestone_id: MilestoneId(1), evaluate_current_achievement: true }, MilestoneAchievementValidity::Current)
        .ok()
        .unwrap();
    assert_eq!(view.current_revision.revision_id, MilestoneRevisionId(11));
    assert_eq!(view.current_validity, Some(MilestoneAchievementValidity::Current));
    assert_eq!(view.proof_evaluation_cost, MilestoneProofEvaluationCost::StoreWideCurrentProofContextScan);
    let quiet = MilestoneReadQuery
        .execute(&s, &MilestoneReadInput { milestone_id: MilestoneId(1), evaluate_current_achievement: false }, MilestoneAchievementValidity::Current)
        .ok()
        .unwrap();
    assert_eq!(quiet.current_validity, None);
    assert_eq!(quiet.proof_evaluation_cost, MilestoneProofEvaluationCost::NotRequested);
    let missing = MilestoneReadQuery.execute(
        &s,
        &MilestoneReadInput { milestone_id: MilestoneId(2), evaluate_current_achievement: false },
        MilestoneAchievementValidity::Current,
    );
    assert_eq!(missing.err().unwrap().code, ErrorCode::MissingReference);
}

#[test]
fn read_query_refuses_inconsistent_heads() {
    let mut s = snapshot();
    s.revisions[1].milestone_id = MilestoneId(9);
    let r = MilestoneReadQuery.execute(
        &s,
        &MilestoneReadInput { milestone_id: MilestoneId(1), evaluate_current_achievement: false },
        MilestoneAchievementValidity::Current,
    );
    assert_eq!(r.err().unwrap().code, ErrorCode::Conflict);
    let mut s = snapshot();
    s.achievements.clear();
    let r = MilestoneReadQuery.execute(
        &s,
        &MilestoneReadInput { milestone_id: MilestoneId(1), evaluate_current_achievement: false },
        MilestoneAchievementValidity::Current,
    );
    assert_eq!(r.err().unwrap().code, ErrorCode::MissingReference);
}

#[test]
fn achievement_and_revision_queries() {
    let s = snapshot();
    let a = MilestoneAchievementQuery
        .execute(&s, &MilestoneAchievementInput { achievement_id: MilestoneAchievementId(21), evaluate_current_validity: true }, MilestoneAchievementValidity::NeedsRevalidation)
        .ok()
        .unwrap();
    assert_eq!(a.current_validity, Some(MilestoneAchievementValidity::NeedsRevalidation));
    assert!(MilestoneAchievementQuery
        .execute(&s, &MilestoneAchievementInput { achievement_id: MilestoneAchievementId(22), evaluate_current_validity: true }, MilestoneAchievementValidity::Current)
        .is_err());
    let old = MilestoneRevisionQuery.execute(&s, &MilestoneRevisionInput { revision_id: MilestoneRevisionId(10) }).ok().unwrap();
    assert!(!old.is_current);
    let current = MilestoneRevisionQuery.execute(&s, &MilestoneRevisionInput { revision_id: MilestoneRevisionId(11) }).ok().unwrap();
    assert!(current.is_current);
    assert_eq!(
        MilestoneRevisionQuery.execute(&s, &MilestoneRevisionInput { revision_id: MilestoneRevisionId(12) }).err().unwrap().code,
        ErrorCode::MissingReference
    );
}
