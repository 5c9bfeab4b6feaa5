use zap::error::ErrorCode;
use zap::ids::{DigestValue, ObligationId, OutcomeId, SourceId, WorkId};
use zap::preflight::{
    alternative_scope_request, check_effect_observation, comparison_basis_roots, no_op_bundle_basis, PreparedEffectScope, prepared_bundle_bases, replayed_bundle_bases, AffectedScopeRequestFacts,
    EffectBases, EffectObservation, ExpectedEffect,
};
use zap::subjects::SubjectRef;

fn observed() -> EffectObservation {
    EffectObservation {
        scope_subjects: vec![SubjectRef::Work(WorkId(1)), SubjectRef::Obligation(ObligationId(2))],
        scope_work_ids: vec![WorkId(1)],
        scope_basis_request: DigestValue(10),
        relevant_before: DigestValue(20),
        affected_request: Some(AffectedScopeRequestFacts {
            direct_work_ids: vec![WorkId(1)],
            roots: vec![SubjectRef::Work(WorkId(1)), SubjectRef::Obligation(ObligationId(2))],
        }),
        simulated: true,
        relevant_after: DigestValue(21),
    }
}

fn expected() -> ExpectedEffect {
    ExpectedEffect {
        declared_subjects: vec![SubjectRef::Work(WorkId(1)), SubjectRef::Obligation(ObligationId(2))],
        basis_request: DigestValue(10),
        relevant_before: DigestValue(20),
        declared_relevant_after: DigestValue(21),
    }
}

#[test]
fn an_observed_effect_must_match_its_expectation() {
    assert!(check_effect_observation(None, &observed()).is_ok());
    assert!(check_effect_observation(Some(&expected()), &observed()).is_ok());
    let mut moved = observed();
    moved.relevant_after = DigestValue(22);
    assert!(check_effect_observation(None, &moved).is_ok());
    assert_eq!(check_effect_observation(Some(&expected()), &moved).unwrap_err().code, ErrorCode::Conflict);
    let mut before = observed();
    before.relevant_before = DigestValue(19);
    assert_eq!(check_effect_observation(Some(&expected()), &before).unwrap_err().code, ErrorCode::Conflict);
    let mut scope = expected();
    scope.declared_subjects.pop();
    assert_eq!(check_effect_observation(Some(&scope), &observed()).unwrap_err().code, ErrorCode::Conflict);
}

#[test]
fn an_affected_scope_request_names_the_effect_scope() {
    let mut other = observed();
    other.affected_request = Some(AffectedScopeRequestFacts { direct_work_ids: vec![WorkId(3)], roots: other.scope_subjects.clone() });
    assert_eq!(check_effect_observation(None, &other).unwrap_err().code, ErrorCode::Conflict);
    let mut none = observed();
    none.affected_request = None;
    assert!(check_effect_observation(None, &none).is_ok());
    let mut refused = observed();
    refused.simulated = false;
    assert_eq!(check_effect_observation(None, &refused).unwrap_err().code, ErrorCode::Conflict);
}

#[test]
fn bundle_bases_run_from_the_first_effect_to_the_last() {
    let effects = [
        EffectBases { relevant_before: DigestValue(1), relevant_after: DigestValue(2) },
        EffectBases { relevant_before: DigestValue(2), relevant_after: DigestValue(3) },
    ];
    assert_eq!(replayed_bundle_bases(DigestValue(1), &effects).ok(), Some((DigestValue(1), DigestValue(3))));
    assert_eq!(replayed_bundle_bases(DigestValue(9), &effects).unwrap_err().code, ErrorCode::Conflict);
    assert_eq!(replayed_bundle_bases(DigestValue(1), &[]).unwrap_err().code, ErrorCode::Conflict);
    assert_eq!(prepared_bundle_bases(&effects).ok(), Some((DigestValue(1), DigestValue(3))));
    assert_eq!(prepared_bundle_bases(&[]).unwrap_err().code, ErrorCode::Conflict);
    assert_eq!(no_op_bundle_basis(DigestValue(4), DigestValue(4)).ok(), Some(DigestValue(4)));
    assert_eq!(no_op_bundle_basis(DigestValue(4), DigestValue(5)).unwrap_err().code, ErrorCode::Conflict);
}

fn scope(roots: Vec<SubjectRef>, declared: Vec<SubjectRef>) -> PreparedEffectScope {
    PreparedEffectScope { basis_roots: roots, declared_subjects: declared }
}

#[test]
fn a_comparison_is_assessed_on_every_root_once() {
    let first = vec![
        scope(vec![SubjectRef::Outcome(OutcomeId(1)), SubjectRef::Work(WorkId(4))], vec![]),
        scope(vec![SubjectRef::Work(WorkId(2))], vec![]),
    ];
    let second = vec![scope(vec![SubjectRef::Work(WorkId(4)), SubjectRef::Source(SourceId(9))], vec![])];
    assert_eq!(
        comparison_basis_roots(&[first, second]),
        vec![
            SubjectRef::Work(WorkId(2)),
            SubjectRef::Work(WorkId(4)),
            SubjectRef::Source(SourceId(9)),
            SubjectRef::Outcome(OutcomeId(1)),
        ]
    );
    assert!(comparison_basis_roots(&[]).is_empty());
}

#[test]
fn an_alternative_requests_its_declared_scope() {
    let effects = [
        scope(vec![], vec![SubjectRef::Obligation(ObligationId(3)), SubjectRef::Work(WorkId(5))]),
        scope(vec![], vec![SubjectRef::Work(WorkId(1)), SubjectRef::Work(WorkId(5))]),
    ];
    let (roots, works) = alternative_scope_request(&effects);
    assert_eq!(
        roots,
        vec![SubjectRef::Work(WorkId(1)), SubjectRef::Work(WorkId(5)), SubjectRef::Obligation(ObligationId(3))]
    );
    assert_eq!(works, vec![WorkId(1), WorkId(5)]);
}
