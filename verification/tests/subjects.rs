use zap::ids::{DecisionId, EvidenceId, FactId, ObligationId, OutcomeId, SourceId, SubjectKey, WorkId};
use zap::subjects::{KnowledgeEndpoint, SubjectRef};

#[test]
fn endpoints_and_subjects_convert_both_ways() {
    let pairs = [
        (SubjectRef::Source(SourceId(1)), KnowledgeEndpoint::Source(SourceId(1))),
        (SubjectRef::Evidence(EvidenceId(2)), KnowledgeEndpoint::Evidence(EvidenceId(2))),
        (SubjectRef::Decision(DecisionId(3)), KnowledgeEndpoint::Decision(DecisionId(3))),
        (SubjectRef::Work(WorkId(4)), KnowledgeEndpoint::Work(WorkId(4))),
        (SubjectRef::Obligation(ObligationId(5)), KnowledgeEndpoint::Obligation(ObligationId(5))),
        (SubjectRef::Outcome(OutcomeId(6)), KnowledgeEndpoint::Outcome(OutcomeId(6))),
    ];
    for (subject, endpoint) in pairs {
        assert_eq!(KnowledgeEndpoint::from_subject(&subject), Some(endpoint));
        assert_eq!(endpoint.as_subject(), Some(subject));
    }
    assert_eq!(KnowledgeEndpoint::from_subject(&SubjectRef::Other(SubjectKey(7))), None);
    assert_eq!(KnowledgeEndpoint::Fact(FactId(8)).as_subject(), None);
}
