use zap::active_context::PlanningRevisionState;
use zap::error::ErrorCode;
use zap::ids::{
    AttemptId, CandidateId, ContractId, DigestValue, JobId, LoweringId, ObligationId, PacketId, Revision, WorkId,
};
use zap::materialize::{
    affected_jobs_in_order, apply_review_contract_change, classify_lowered_work, current_origin, materialize_contract, materialize_graph,
    replace_obligation_owners, supersede_lowerings_and_packets, validate_review_relowered_work, CandidateFacts, ContractRecord,
    EffectState, GraphStore, JobObservation, JobReconciliation, LoweringState, ObligationAssignment, ObligationRecord,
    PacketContract, PacketState, ReviewCasEntry, ReviewFacts, ReviewWorkCas, ReviewWorkChange, ReviewWorkOperation,
    WorkDecision, WorkRecord, WorkState,
};
use zap::owner_control::RecordWrite;
use zap::packets::LoweringFacts;
use zap::revalidation::ReconciliationSafeState;

fn work(id: u64, revision: u64, state: WorkState, generation: u64, meaning: u64) -> WorkRecord {
    WorkRecord {
        work_id: WorkId(id),
        revision: Revision(revision),
        state,
        active_job: None,
        validation_generation: generation,
        meaning: DigestValue(meaning),
    }
}

#[test]
fn origins_are_the_last_current_lowering() {
    let lowerings = [
        LoweringFacts { lowering_id: LoweringId(1), current: true, work_ids: vec![WorkId(5)] },
        LoweringFacts { lowering_id: LoweringId(2), current: true, work_ids: vec![WorkId(5)] },
        LoweringFacts { lowering_id: LoweringId(3), current: false, work_ids: vec![WorkId(5)] },
    ];
    assert_eq!(current_origin(&lowerings, WorkId(5)), Some(LoweringId(2)));
    assert_eq!(current_origin(&lowerings, WorkId(6)), None);
}

#[test]
fn lowered_work_is_inserted_kept_or_relowered() {
    let new = work(1, 1, WorkState::Planned, 0, 7);
    assert_eq!(classify_lowered_work(None, new, None, None, false).unwrap(), WorkDecision::Insert);
    assert_eq!(classify_lowered_work(None, work(1, 2, WorkState::Planned, 0, 7), None, None, false).unwrap_err().code, ErrorCode::Conflict);
    assert_eq!(classify_lowered_work(Some(new), new, Some(LoweringId(1)), Some(LoweringId(1)), false).unwrap(), WorkDecision::Unchanged);
    assert_eq!(classify_lowered_work(Some(new), new, None, Some(LoweringId(1)), false).unwrap(), WorkDecision::Unchanged);
    let changed = work(1, 2, WorkState::Planned, 1, 8);
    assert_eq!(
        classify_lowered_work(Some(new), changed, Some(LoweringId(1)), Some(LoweringId(1)), true).unwrap(),
        WorkDecision::ReviewRelowering
    );
    assert_eq!(classify_lowered_work(Some(new), changed, Some(LoweringId(1)), Some(LoweringId(1)), false).unwrap_err().code, ErrorCode::Conflict);
    assert_eq!(classify_lowered_work(Some(new), changed, Some(LoweringId(2)), Some(LoweringId(1)), true).unwrap_err().code, ErrorCode::Conflict);
    assert_eq!(classify_lowered_work(Some(new), changed, None, Some(LoweringId(1)), true).unwrap_err().code, ErrorCode::Conflict);
}

fn cas() -> ReviewWorkCas {
    ReviewWorkCas {
        work_id: WorkId(1),
        pre_review_revision: Revision(2),
        post_review_revision: Revision(3),
        post_review_state: WorkState::Blocked,
        validation_generation: 4,
        active_job: None,
        contract_id: Some(ContractId(9)),
        contract_version: Some(Revision(1)),
        contract_digest: Some(DigestValue(90)),
        candidate_basis: DigestValue(33),
        current_candidate_ids: vec![CandidateId(70)],
        affected_jobs_digest: DigestValue(44),
    }
}

fn review() -> ReviewFacts {
    ReviewFacts {
        work_changes: vec![ReviewWorkChange { work_id: WorkId(1), operation: ReviewWorkOperation::Revalidate }],
        job_reconciliation: vec![JobReconciliation { job_id: JobId(5), attempt_id: AttemptId(6), work_id: WorkId(1) }],
    }
}

fn candidates() -> Vec<CandidateFacts> {
    vec![
        CandidateFacts {
            candidate_id: CandidateId(70),
            producer_packet: PacketId(8),
            subject_work_ids: vec![WorkId(1)],
            contract_id: ContractId(9),
            contract_digest: DigestValue(90),
            relevant_basis: DigestValue(33),
        },
        CandidateFacts {
            candidate_id: CandidateId(71),
            producer_packet: PacketId(8),
            subject_work_ids: vec![WorkId(2)],
            contract_id: ContractId(9),
            contract_digest: DigestValue(90),
            relevant_basis: DigestValue(33),
        },
    ]
}

fn packets() -> Vec<PacketContract> {
    vec![PacketContract { packet_id: PacketId(8), work_id: WorkId(1), contract_id: ContractId(9), contract_digest: DigestValue(90), validation_generation: 4 }]
}

fn jobs() -> Vec<JobObservation> {
    vec![JobObservation {
        job_id: JobId(5),
        attempt_id: AttemptId(6),
        work_id: WorkId(1),
        terminal: true,
        effect: EffectState::Started,
        safe_state: ReconciliationSafeState::Completed,
    }]
}

#[test]
fn a_review_relowering_consumes_the_exact_cas() {
    let current = work(1, 3, WorkState::Blocked, 4, 7);
    let submitted = work(1, 4, WorkState::Planned, 5, 8);
    let r = review();
    assert!(validate_review_relowered_work(Some(&r), &cas(), &current, &submitted, &candidates(), &packets(), &jobs(), DigestValue(44)).is_ok());
    assert_eq!(
        validate_review_relowered_work(None, &cas(), &current, &submitted, &candidates(), &packets(), &jobs(), DigestValue(44)).unwrap_err().code,
        ErrorCode::MissingReference
    );
    let same_meaning = work(1, 4, WorkState::Planned, 5, 7);
    assert_eq!(
        validate_review_relowered_work(Some(&r), &cas(), &current, &same_meaning, &candidates(), &packets(), &jobs(), DigestValue(44)).unwrap_err().code,
        ErrorCode::Conflict
    );
    assert!(validate_review_relowered_work(Some(&r), &cas(), &current, &submitted, &candidates(), &packets(), &jobs(), DigestValue(45)).is_err());
    assert!(validate_review_relowered_work(Some(&r), &cas(), &current, &submitted, &candidates()[1..], &packets(), &jobs(), DigestValue(44)).is_err());
    let mut unreconciled = jobs();
    unreconciled[0].attempt_id = AttemptId(7);
    assert!(validate_review_relowered_work(Some(&r), &cas(), &current, &submitted, &candidates(), &packets(), &unreconciled, DigestValue(44)).is_err());
    let mut top = cas();
    top.pre_review_revision = Revision(u64::MAX);
    assert_eq!(
        validate_review_relowered_work(Some(&r), &top, &current, &submitted, &candidates(), &packets(), &jobs(), DigestValue(44)).unwrap_err().code,
        ErrorCode::InvalidValue
    );
}

fn contract(id: u64, work: u64, version: u64, active: bool, digest: u64) -> ContractRecord {
    ContractRecord {
        contract_id: ContractId(id),
        work_id: WorkId(work),
        version: Revision(version),
        active,
        contract_digest: DigestValue(digest),
        content_digest: DigestValue(digest),
    }
}

#[test]
fn plain_contracts_are_inserted_kept_or_activated() {
    let all = [contract(9, 1, 1, true, 90), contract(10, 2, 3, false, 100)];
    assert_eq!(materialize_contract(&contract(11, 3, 1, true, 110), &all).unwrap(), vec![RecordWrite::Insert(contract(11, 3, 1, true, 110))]);
    assert_eq!(materialize_contract(&contract(11, 1, 1, true, 110), &all).unwrap_err().code, ErrorCode::Conflict);
    assert!(materialize_contract(&contract(9, 1, 1, true, 90), &all).unwrap().is_empty());
    assert_eq!(
        materialize_contract(&contract(10, 2, 4, true, 100), &all).unwrap(),
        vec![RecordWrite::Replace { expected: Revision(3), record: contract(10, 2, 4, true, 100) }]
    );
    assert_eq!(materialize_contract(&contract(9, 1, 2, true, 91), &all).unwrap_err().code, ErrorCode::Conflict);
}

#[test]
fn review_contract_changes_follow_the_cas() {
    let all = [contract(9, 1, 1, true, 90)];
    assert_eq!(
        apply_review_contract_change(&contract(9, 1, 2, true, 91), &cas(), &all).unwrap(),
        vec![RecordWrite::Replace { expected: Revision(1), record: contract(9, 1, 2, true, 91) }]
    );
    assert_eq!(
        apply_review_contract_change(&contract(12, 1, 1, true, 120), &cas(), &all).unwrap(),
        vec![
            RecordWrite::Replace { expected: Revision(1), record: contract(9, 1, 2, false, 90) },
            RecordWrite::Insert(contract(12, 1, 1, true, 120)),
        ]
    );
    assert_eq!(apply_review_contract_change(&contract(9, 1, 2, true, 90), &cas(), &all).unwrap_err().code, ErrorCode::Conflict);
    let mut bad_digest = contract(9, 1, 2, true, 91);
    bad_digest.content_digest = DigestValue(1);
    assert_eq!(apply_review_contract_change(&bad_digest, &cas(), &all).unwrap_err().code, ErrorCode::Conflict);
    let mut no_contract = cas();
    no_contract.contract_id = None;
    assert_eq!(apply_review_contract_change(&contract(9, 1, 2, true, 91), &no_contract, &all).unwrap_err().code, ErrorCode::MissingReference);
}

#[test]
fn a_graph_is_materialized() {
    let store_work = [work(1, 3, WorkState::Blocked, 4, 7), work(2, 1, WorkState::Planned, 0, 20)];
    let lowerings = [LoweringFacts { lowering_id: LoweringId(1), current: true, work_ids: vec![WorkId(1), WorkId(2)] }];
    let r = review();
    let sidecar = [ReviewCasEntry { cas: cas(), jobs_digest: DigestValue(44) }];
    let cands = candidates();
    let packs = packets();
    let js = jobs();
    let all = [contract(9, 1, 1, true, 90)];
    let g = GraphStore {
        predecessor: Some(LoweringId(1)),
        work: &store_work,
        lowerings: &lowerings,
        review: Some(&r),
        sidecar: Some(&sidecar),
        candidates: &cands,
        packets: &packs,
        jobs: &js,
        contracts: &all,
    };
    let nodes = [work(1, 4, WorkState::Planned, 5, 8), work(2, 1, WorkState::Planned, 0, 20), work(3, 1, WorkState::Planned, 0, 30)];
    let contracts = [contract(9, 1, 2, true, 91), contract(13, 3, 1, true, 130)];
    let (ws, cs) = materialize_graph(&g, None, &nodes, &contracts).unwrap();
    assert_eq!(
        ws,
        vec![
            RecordWrite::Replace { expected: Revision(3), record: work(1, 4, WorkState::Planned, 5, 8) },
            RecordWrite::Insert(work(3, 1, WorkState::Planned, 0, 30)),
        ]
    );
    assert_eq!(
        cs,
        vec![
            RecordWrite::Replace { expected: Revision(1), record: contract(9, 1, 2, true, 91) },
            RecordWrite::Insert(contract(13, 3, 1, true, 130)),
        ]
    );
    let rooted = materialize_graph(&g, Some(work(40, 1, WorkState::Planned, 0, 400)), &nodes, &contracts).unwrap().0;
    assert_eq!(rooted.len(), 3);
    assert_eq!(rooted[0], RecordWrite::Insert(work(40, 1, WorkState::Planned, 0, 400)));
    assert_eq!(rooted[1], RecordWrite::Replace { expected: Revision(3), record: work(1, 4, WorkState::Planned, 5, 8) });
    let no_cause = GraphStore { sidecar: None, ..g };
    assert_eq!(materialize_graph(&no_cause, None, &nodes, &contracts).err().unwrap().code, ErrorCode::Conflict);
}

#[test]
fn changed_owners_are_replaced() {
    let obligations = [
        ObligationRecord { obligation_id: ObligationId(1), owners: vec![WorkId(1)], revision: Revision(2) },
        ObligationRecord { obligation_id: ObligationId(2), owners: vec![WorkId(2)], revision: Revision(5) },
    ];
    let coverage = [
        ObligationAssignment { obligation_id: ObligationId(1), assignments: vec![WorkId(1)] },
        ObligationAssignment { obligation_id: ObligationId(2), assignments: vec![WorkId(3)] },
    ];
    let out = replace_obligation_owners(&coverage, &obligations).unwrap();
    assert_eq!(out.len(), 1);
    assert_eq!(out[0].obligation_id, ObligationId(2));
    assert_eq!(out[0].expected, Revision(5));
    assert_eq!(out[0].revision, Revision(6));
    assert_eq!(out[0].owners, vec![WorkId(3)]);
    let missing = [ObligationAssignment { obligation_id: ObligationId(7), assignments: vec![] }];
    assert_eq!(replace_obligation_owners(&missing, &obligations).unwrap_err().code, ErrorCode::MissingReference);
}

#[test]
fn superseded_lowerings_take_their_packets_along() {
    let lowerings = [
        LoweringState { lowering_id: LoweringId(1), state: PlanningRevisionState::Current, revision: Revision(2) },
        LoweringState { lowering_id: LoweringId(2), state: PlanningRevisionState::Superseded, revision: Revision(4) },
    ];
    let packets = [
        PacketState { packet_id: PacketId(5), lowering_id: LoweringId(1), current: true, revision: Revision(1) },
        PacketState { packet_id: PacketId(6), lowering_id: LoweringId(1), current: false, revision: Revision(1) },
        PacketState { packet_id: PacketId(7), lowering_id: LoweringId(3), current: true, revision: Revision(1) },
    ];
    let (ls, ps) = supersede_lowerings_and_packets(&[LoweringId(1), LoweringId(2)], &lowerings, &packets).unwrap();
    assert_eq!(ls.len(), 1);
    assert_eq!((ls[0].key, ls[0].expected, ls[0].revision), (1, Revision(2), Revision(3)));
    assert_eq!(ps.len(), 1);
    assert_eq!(ps[0].key, 5);
    assert_eq!(
        supersede_lowerings_and_packets(&[LoweringId(9)], &lowerings, &packets).err().unwrap().code,
        ErrorCode::MissingReference
    );
}

fn job(id: u64, work: u64, terminal: bool, effect: EffectState) -> JobObservation {
    JobObservation {
        job_id: JobId(id),
        attempt_id: AttemptId(id + 100),
        work_id: WorkId(work),
        terminal,
        effect,
        safe_state: ReconciliationSafeState::Completed,
    }
}

#[test]
fn affected_jobs_come_in_job_order() {
    let jobs = vec![
        job(9, 1, false, EffectState::Other),
        job(3, 1, true, EffectState::Unknown),
        job(7, 2, false, EffectState::Other),
        job(5, 1, true, EffectState::Other),
        job(4, 1, true, EffectState::Started),
    ];
    let ordered = affected_jobs_in_order(&jobs, WorkId(1));
    let ids: Vec<u64> = ordered.iter().map(|j| j.job_id.0).collect();
    assert_eq!(ids, vec![3, 4, 9]);
    assert!(affected_jobs_in_order(&jobs, WorkId(8)).is_empty());
}
