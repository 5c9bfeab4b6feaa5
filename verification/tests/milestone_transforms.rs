use zap::error::ErrorCode;
use zap::ids::{DigestValue, EvidenceId, MilestoneId, MilestoneRevisionId, ObligationId, OutcomeId, SourceId, WorkId};
use zap::milestone_transforms::{
    ensure_move, ensure_retirement, same_non_route, validate_declared_scope, validate_dormant_contributions,
    MilestoneOwnedContribution,
};
use zap::milestones::{MilestoneContribution, MilestoneDefinition, MilestoneDependency, MilestoneDependencyKind, MilestoneLifecycle};
use zap::subjects::SubjectRef;

fn work(id: u64) -> MilestoneContribution {
    MilestoneContribution::Work { work_id: WorkId(id) }
}

fn evidence(id: u64) -> MilestoneContribution {
    MilestoneContribution::Evidence { evidence_id: EvidenceId(id) }
}

fn definition(contributions: Vec<MilestoneContribution>) -> MilestoneDefinition {
    MilestoneDefinition {
        outcome_id: OutcomeId(1),
        terms: DigestValue(2),
        consumers: vec![SubjectRef::Source(SourceId(8))],
        required_obligation_ids: vec![ObligationId(3)],
        contributions,
        dependencies: vec![MilestoneDependency {
            milestone_id: MilestoneId(9),
            revision_id: MilestoneRevisionId(10),
            semantic_fingerprint: DigestValue(11),
            kind: MilestoneDependencyKind::AchievementPrerequisite,
        }],
        lifecycle: MilestoneLifecycle::Active,
        retirement_reason: None,
    }
}

fn retired(d: MilestoneDefinition, reason: &str) -> MilestoneDefinition {
    MilestoneDefinition { lifecycle: MilestoneLifecycle::Retired, retirement_reason: Some(reason.to_string()), ..d }
}

#[test]
fn retirement_changes_only_the_lifecycle() {
    let old = definition(vec![work(1)]);
    assert!(ensure_retirement(&old, &retired(definition(vec![work(1)]), "superseded")).is_ok());
    let unexplained = MilestoneDefinition { lifecycle: MilestoneLifecycle::Retired, ..definition(vec![work(1)]) };
    assert_eq!(ensure_retirement(&old, &unexplained).unwrap_err().code, ErrorCode::Conflict);
    assert_eq!(ensure_retirement(&old, &retired(definition(vec![work(2)]), "x")).unwrap_err().code, ErrorCode::Conflict);
    let moved_terms = MilestoneDefinition { terms: DigestValue(5), ..retired(definition(vec![work(1)]), "x") };
    assert_eq!(ensure_retirement(&old, &moved_terms).unwrap_err().code, ErrorCode::Conflict);
    assert_eq!(ensure_retirement(&old, &old).unwrap_err().code, ErrorCode::Conflict);
}

#[test]
fn a_route_change_keeps_everything_but_the_route() {
    let old = definition(vec![work(1)]);
    assert!(same_non_route(&old, &definition(vec![work(2), evidence(4)])));
    assert!(!same_non_route(&old, &retired(definition(vec![work(1)]), "x")));
    let other_outcome = MilestoneDefinition { outcome_id: OutcomeId(7), ..definition(vec![work(1)]) };
    assert!(!same_non_route(&old, &other_outcome));
}

#[test]
fn a_moved_contribution_leaves_one_side_and_joins_the_other() {
    let from = definition(vec![work(1), work(3), evidence(2)]);
    let to = definition(vec![work(2), evidence(5)]);
    assert!(ensure_move(&from, &definition(vec![work(1), evidence(2)]), work(3), false).is_ok());
    assert!(ensure_move(&to, &definition(vec![work(2), work(3), evidence(5)]), work(3), true).is_ok());
    assert_eq!(ensure_move(&to, &definition(vec![work(2), evidence(5), work(3)]), work(3), true).unwrap_err().code, ErrorCode::Conflict);
    assert_eq!(ensure_move(&from, &definition(vec![work(1), work(3), evidence(2)]), work(3), true).unwrap_err().code, ErrorCode::Conflict);
    assert_eq!(ensure_move(&to, &definition(vec![work(2), evidence(5)]), work(3), false).unwrap_err().code, ErrorCode::Conflict);
    let inactive = retired(definition(vec![work(1), evidence(2)]), "x");
    assert_eq!(ensure_move(&from, &inactive, work(3), false).unwrap_err().code, ErrorCode::Conflict);
}

#[test]
fn a_transform_declares_exactly_the_scope_of_its_definitions() {
    let before = definition(vec![work(1), work(3), evidence(2)]);
    let after = definition(vec![work(1), evidence(2)]);
    let defs = [&before, &after];
    let works = [WorkId(1)];
    let subjects = [
        SubjectRef::Work(WorkId(1)),
        SubjectRef::Obligation(ObligationId(3)),
        SubjectRef::Source(SourceId(8)),
        SubjectRef::Outcome(OutcomeId(1)),
        SubjectRef::Evidence(EvidenceId(2)),
    ];
    assert!(validate_declared_scope(&defs, &[WorkId(1), WorkId(7)], &works, &subjects).is_ok());
    assert_eq!(validate_declared_scope(&defs, &[WorkId(1), WorkId(3)], &works, &subjects).unwrap_err().code, ErrorCode::Conflict);
    let unordered = [subjects[1], subjects[0], subjects[2], subjects[3], subjects[4]];
    assert_eq!(validate_declared_scope(&defs, &[WorkId(1)], &works, &unordered).unwrap_err().code, ErrorCode::Conflict);
    assert_eq!(validate_declared_scope(&defs, &[WorkId(1)], &works, &subjects[..4]).unwrap_err().code, ErrorCode::Conflict);
}

fn owned(owner: u64, contribution: MilestoneContribution) -> MilestoneOwnedContribution {
    MilestoneOwnedContribution { owner_id: MilestoneId(owner), contribution }
}

#[test]
fn removed_contributions_no_one_holds_stay_dormant() {
    let removed = [owned(1, work(3)), owned(1, evidence(2)), owned(2, work(4))];
    let after = [owned(5, work(4))];
    assert!(validate_dormant_contributions(&[owned(1, work(3)), owned(1, evidence(2))], &removed, &after).is_ok());
    assert_eq!(
        validate_dormant_contributions(&[owned(1, evidence(2)), owned(1, work(3))], &removed, &after).unwrap_err().code,
        ErrorCode::Conflict
    );
    assert_eq!(validate_dormant_contributions(&[owned(1, work(3))], &removed, &after).unwrap_err().code, ErrorCode::Conflict);
    assert!(validate_dormant_contributions(&[], &[], &after).is_ok());
}
