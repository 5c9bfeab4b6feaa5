use zap::acceptance::{
    validate_collective_proof, validate_producer_acceptor, Adjudication, MaturityStage, ProducerRef, ProofClaim, WorkGeneration,
};
use zap::authority::{ActorRef, OperationRef, PrincipalRole};
use zap::error::ErrorCode;
use zap::ids::{AttemptId, EvidenceId, ObligationId, OutcomeId, PrincipalId, WorkId};

fn adjudication(id: u64, obligations: Vec<u64>, pass: bool) -> Adjudication {
    Adjudication {
        evidence_id: EvidenceId(id),
        outcome_id: OutcomeId(1),
        work_ids: vec![WorkId(5)],
        stage: Some(MaturityStage(2)),
        obligation_ids: obligations.into_iter().map(ObligationId).collect(),
        validation_generations: vec![WorkGeneration { work_id: WorkId(5), generation: 3 }],
        observed_pass: pass,
    }
}

fn claim(obligations: &[ObligationId]) -> ProofClaim<'_> {
    ProofClaim {
        outcome_id: OutcomeId(1),
        work_id: WorkId(5),
        stage: Some(MaturityStage(2)),
        obligation_ids: obligations,
        validation_generation: 3,
        require_pass: true,
    }
}

#[test]
fn evidence_collectively_covers_the_claim() {
    let rows = [adjudication(1, vec![10], true), adjudication(2, vec![11, 12], true)];
    let obligations = [ObligationId(10), ObligationId(12)];
    assert!(validate_collective_proof(&[EvidenceId(1), EvidenceId(2)], &rows, claim(&obligations)).is_ok());
    assert_eq!(
        validate_collective_proof(&[EvidenceId(1)], &rows, claim(&obligations)).unwrap_err().code,
        ErrorCode::NeedsEvidence
    );
}

#[test]
fn references_must_be_sorted_unique_and_nonempty() {
    let rows = [adjudication(1, vec![10], true), adjudication(2, vec![11], true)];
    let obligations = [ObligationId(10)];
    let err = |e: &[EvidenceId], o: &[ObligationId]| validate_collective_proof(e, &rows, claim(o)).unwrap_err().code;
    assert_eq!(err(&[EvidenceId(2), EvidenceId(1)], &obligations), ErrorCode::InvalidValue);
    assert_eq!(err(&[], &obligations), ErrorCode::InvalidValue);
    assert_eq!(err(&[EvidenceId(1)], &[]), ErrorCode::InvalidValue);
    assert_eq!(err(&[EvidenceId(1), EvidenceId(1)], &obligations), ErrorCode::InvalidValue);
}

#[test]
fn inapplicable_evidence_is_not_proof() {
    let obligations = [ObligationId(10)];
    let mut stale = adjudication(1, vec![10], true);
    stale.validation_generations = vec![WorkGeneration { work_id: WorkId(5), generation: 2 }];
    assert_eq!(validate_collective_proof(&[EvidenceId(1)], &[stale], claim(&obligations)).unwrap_err().code, ErrorCode::NeedsEvidence);
    let failing = adjudication(1, vec![10], false);
    assert_eq!(validate_collective_proof(&[EvidenceId(1)], &[failing], claim(&obligations)).unwrap_err().code, ErrorCode::NeedsEvidence);
    let mut other_stage = adjudication(1, vec![10], true);
    other_stage.stage = None;
    assert_eq!(validate_collective_proof(&[EvidenceId(1)], &[other_stage], claim(&obligations)).unwrap_err().code, ErrorCode::NeedsEvidence);
    assert_eq!(validate_collective_proof(&[EvidenceId(9)], &[adjudication(1, vec![10], true)], claim(&obligations)).unwrap_err().code, ErrorCode::NeedsEvidence);
}

#[test]
fn a_claim_without_pass_or_stage_accepts_more() {
    let obligations = [ObligationId(10)];
    let mut relaxed = claim(&obligations);
    relaxed.require_pass = false;
    relaxed.stage = None;
    let mut row = adjudication(1, vec![10], false);
    row.stage = None;
    assert!(validate_collective_proof(&[EvidenceId(1)], &[row], relaxed).is_ok());
}

#[test]
fn a_producer_cannot_accept_its_own_candidate() {
    let actor = ActorRef { principal_id: PrincipalId(1), operation: OperationRef::Attempt(AttemptId(2)), role: PrincipalRole::Worker };
    let other = ActorRef { principal_id: PrincipalId(1), operation: OperationRef::Attempt(AttemptId(3)), role: PrincipalRole::Worker };
    let producer = ProducerRef { actor };
    assert_eq!(validate_producer_acceptor(&producer, &actor).unwrap_err().code, ErrorCode::Unauthorized);
    assert!(validate_producer_acceptor(&producer, &other).is_ok());
}
