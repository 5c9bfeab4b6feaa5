use zap::basis_indexes::BasisIndex;
use zap::ids::{CharterId, ContractId, EvidenceId, FactId, ObligationId, OutcomeId, RegionId, SourceId, WorkId};
use zap::index_rows::{
    charter_rows, contract_rows, evidence_rows, fact_rows, intent_rows, obligation_rows, outcome_rows, region_rows, source_rows,
    work_rows, IndexRow, RowPartition, SourceScope,
};
use zap::subjects::SubjectRef;

fn row(index: BasisIndex, partition: RowPartition, record: u64) -> IndexRow {
    IndexRow { index, partition, record }
}

#[test]
fn a_work_is_listed_once() {
    assert_eq!(work_rows(WorkId(4)), vec![row(BasisIndex::WorkAll, RowPartition::Whole, 4)]);
}

#[test]
fn an_active_obligation_is_listed_under_each_owner_once() {
    assert_eq!(
        obligation_rows(ObligationId(9), true, &[WorkId(3), WorkId(1), WorkId(3)]),
        vec![
            row(BasisIndex::ObligationOwner, RowPartition::Work(WorkId(1)), 9),
            row(BasisIndex::ObligationOwner, RowPartition::Work(WorkId(3)), 9),
            row(BasisIndex::ObligationActive, RowPartition::Whole, 9),
        ]
    );
    assert!(obligation_rows(ObligationId(9), false, &[WorkId(3)]).is_empty());
    assert_eq!(obligation_rows(ObligationId(9), true, &[]), vec![row(BasisIndex::ObligationActive, RowPartition::Whole, 9)]);
}

#[test]
fn contracts_and_lifecycles_list_only_active_records() {
    assert_eq!(
        contract_rows(ContractId(5), WorkId(2), true),
        vec![row(BasisIndex::ActiveContractWork, RowPartition::Work(WorkId(2)), 5)]
    );
    assert!(contract_rows(ContractId(5), WorkId(2), false).is_empty());
    assert_eq!(intent_rows(6, true), vec![row(BasisIndex::ActiveIntent, RowPartition::Whole, 6)]);
    assert_eq!(outcome_rows(OutcomeId(7), true), vec![row(BasisIndex::ActiveOutcome, RowPartition::Whole, 7)]);
    assert_eq!(charter_rows(CharterId(8), true), vec![row(BasisIndex::ActiveCharter, RowPartition::Whole, 8)]);
    assert!(outcome_rows(OutcomeId(7), false).is_empty());
    assert!(charter_rows(CharterId(8), false).is_empty());
}

#[test]
fn sources_follow_their_scope() {
    assert_eq!(source_rows(SourceId(1), &SourceScope::Project), vec![row(BasisIndex::SourceProject, RowPartition::Whole, 1)]);
    let subjects = SourceScope::Subjects(vec![SubjectRef::Work(WorkId(2)), SubjectRef::Outcome(OutcomeId(3))]);
    assert_eq!(
        source_rows(SourceId(1), &subjects),
        vec![
            row(BasisIndex::SourceSubject, RowPartition::Subject(SubjectRef::Work(WorkId(2))), 1),
            row(BasisIndex::SourceSubject, RowPartition::Subject(SubjectRef::Outcome(OutcomeId(3))), 1),
        ]
    );
    assert!(source_rows(SourceId(1), &SourceScope::Unassessed).is_empty());
}

#[test]
fn evidence_and_facts_list_their_targets() {
    assert_eq!(
        evidence_rows(EvidenceId(4), &[WorkId(2), WorkId(1)]),
        vec![
            row(BasisIndex::EvidenceAll, RowPartition::Whole, 4),
            row(BasisIndex::EvidenceWork, RowPartition::Work(WorkId(2)), 4),
            row(BasisIndex::EvidenceWork, RowPartition::Work(WorkId(1)), 4),
        ]
    );
    assert_eq!(
        fact_rows(FactId(3), &[SubjectRef::Source(SourceId(5))]),
        vec![row(BasisIndex::FactSubject, RowPartition::Subject(SubjectRef::Source(SourceId(5))), 3)]
    );
}

#[test]
fn a_region_is_listed_under_its_subjects_and_works_once() {
    assert_eq!(
        region_rows(RegionId(2), &[SubjectRef::Outcome(OutcomeId(1)), SubjectRef::Work(WorkId(4))], &[WorkId(4), WorkId(3)]),
        vec![
            row(BasisIndex::RegionSubject, RowPartition::Subject(SubjectRef::Work(WorkId(3))), 2),
            row(BasisIndex::RegionSubject, RowPartition::Subject(SubjectRef::Work(WorkId(4))), 2),
            row(BasisIndex::RegionSubject, RowPartition::Subject(SubjectRef::Outcome(OutcomeId(1))), 2),
        ]
    );
}
