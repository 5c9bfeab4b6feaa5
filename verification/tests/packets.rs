use zap::authority::WorkerRole;
use zap::error::ErrorCode;
use zap::active_context::PlanningRevisionState;
use zap::ids::{ContractId, DigestValue, ForkId, LoweringId, ObligationId, PacketId, Revision, SourceId, SubjectKey, WorkId};
use zap::materialize::{ContractRecord, WorkRecord, WorkState};
use zap::information::SourceCapture;
use zap::packets::{
    authorize_packet_role, check_packet_lineage, check_packet_origin, PacketExecution, derive_fork_bindings, derive_source_closure, packet_role_assessment,
    select_lowering_origin, validate_current_rules, Consequence, ForkBinding, LoweringFacts, ObligationFacts, PacketFacts,
    RoleInput, SourceState, StrategyFork, VerificationCost, WorkKind, WorkType,
};

fn capture(id: u64, digest: u64) -> SourceCapture {
    SourceCapture { source_id: SourceId(id), digest: DigestValue(digest) }
}

fn sources() -> Vec<SourceState> {
    vec![
        SourceState { source_id: SourceId(3), digest: DigestValue(30), current: true },
        SourceState { source_id: SourceId(1), digest: DigestValue(10), current: true },
        SourceState { source_id: SourceId(2), digest: DigestValue(20), current: false },
    ]
}

#[test]
fn the_closure_holds_each_source_once_in_order() {
    let out = derive_source_closure(&[SourceId(3)], &[capture(1, 10), capture(3, 30)], &[capture(1, 10)], &sources()).unwrap();
    assert_eq!(out, vec![capture(1, 10), capture(3, 30)]);
    assert!(derive_source_closure(&[], &[], &[], &sources()).unwrap().is_empty());
}

#[test]
fn closure_refusals_follow_the_first_bad_reference() {
    assert_eq!(derive_source_closure(&[SourceId(9)], &[], &[], &sources()).unwrap_err().code, ErrorCode::MissingReference);
    assert_eq!(derive_source_closure(&[SourceId(2)], &[], &[], &sources()).unwrap_err().code, ErrorCode::Conflict);
    assert_eq!(derive_source_closure(&[], &[capture(1, 11)], &[], &sources()).unwrap_err().code, ErrorCode::Conflict);
    assert_eq!(derive_source_closure(&[], &[], &[capture(3, 31)], &sources()).unwrap_err().code, ErrorCode::Conflict);
    assert_eq!(
        derive_source_closure(&[SourceId(2)], &[], &[capture(9, 1)], &sources()).unwrap_err().code,
        ErrorCode::Conflict
    );
}

#[test]
fn rules_must_read_current_sources() {
    assert!(validate_current_rules(&[capture(1, 10)], &sources()).is_ok());
    assert_eq!(validate_current_rules(&[capture(1, 12)], &sources()).unwrap_err().code, ErrorCode::Conflict);
    assert_eq!(validate_current_rules(&[capture(8, 12)], &sources()).unwrap_err().code, ErrorCode::MissingReference);
}

#[test]
fn forks_bind_to_their_strategy() {
    let strategy = [
        StrategyFork { fork_id: ForkId(1), prepared_digest: DigestValue(11) },
        StrategyFork { fork_id: ForkId(2), prepared_digest: DigestValue(22) },
    ];
    let out = derive_fork_bindings(&strategy, &[ForkId(2), ForkId(1)]).unwrap();
    assert_eq!(
        out,
        vec![
            ForkBinding { fork_id: ForkId(2), semantic_digest: DigestValue(22) },
            ForkBinding { fork_id: ForkId(1), semantic_digest: DigestValue(11) },
        ]
    );
    assert_eq!(derive_fork_bindings(&strategy, &[ForkId(3)]).unwrap_err().code, ErrorCode::MissingReference);
}

fn role_input<'a>(
    covered: &'a [ObligationId],
    obligations: &'a [ObligationFacts],
    writes: &'a [SubjectKey],
    horizons: &'a [SubjectKey],
    cases: &'a [usize],
) -> RoleInput<'a> {
    RoleInput {
        work_subject: SubjectKey(100),
        work_kind: WorkKind::Other,
        work_type: WorkType::Other,
        covered_obligations: covered,
        obligations,
        read_subjects: &[],
        write_subjects: writes,
        source_handle_count: 3,
        unresolved_horizon_subjects: horizons,
        fork_count: 0,
        verification_plan_cases: cases,
        rule_count: Some(4),
    }
}

#[test]
fn a_plain_read_only_packet_is_low_and_cheap() {
    let input = role_input(&[], &[], &[], &[], &[5]);
    let a = packet_role_assessment(&input).unwrap();
    assert_eq!(a.consequence, Consequence::Low);
    assert_eq!(a.verification_cost, VerificationCost::Cheap);
    assert!(a.reversible);
    assert!(!a.novel);
    assert!(!a.architectural);
    assert!(!a.deterministic);
    assert_eq!(a.context_fragments, 9);
}

#[test]
fn essential_obligations_raise_the_consequence() {
    let obligations = [ObligationFacts { obligation_id: ObligationId(1), essential: true }];
    let high = packet_role_assessment(&role_input(&[ObligationId(1)], &obligations, &[], &[], &[1])).unwrap();
    assert_eq!(high.consequence, Consequence::High);
    let uncovered = packet_role_assessment(&role_input(&[ObligationId(2)], &obligations, &[SubjectKey(5)], &[], &[1])).unwrap();
    assert_eq!(uncovered.consequence, Consequence::Medium);
    assert!(!uncovered.reversible);
}

#[test]
fn touched_horizons_make_work_novel() {
    let novel = packet_role_assessment(&role_input(&[], &[], &[], &[SubjectKey(100)], &[1])).unwrap();
    assert!(novel.novel);
    let distant = packet_role_assessment(&role_input(&[], &[], &[], &[SubjectKey(7)], &[1])).unwrap();
    assert!(!distant.novel);
}

#[test]
fn verification_cost_follows_plans_and_cases() {
    assert_eq!(packet_role_assessment(&role_input(&[], &[], &[], &[], &[9])).unwrap().verification_cost, VerificationCost::Moderate);
    assert_eq!(packet_role_assessment(&role_input(&[], &[], &[], &[], &[20, 13])).unwrap().verification_cost, VerificationCost::Expensive);
    assert_eq!(packet_role_assessment(&role_input(&[], &[], &[], &[], &[1; 9])).unwrap().verification_cost, VerificationCost::Expensive);
    assert_eq!(packet_role_assessment(&role_input(&[], &[], &[], &[], &[])).unwrap().verification_cost, VerificationCost::Moderate);
}

#[test]
fn too_many_fragments_are_refused() {
    let mut input = role_input(&[], &[], &[], &[], &[1]);
    input.fork_count = u32::MAX as usize;
    assert_eq!(packet_role_assessment(&input).unwrap_err().code, ErrorCode::InvalidValue);
    input.work_kind = WorkKind::Phase;
    input.fork_count = 1;
    let a = packet_role_assessment(&input).unwrap();
    assert!(a.architectural);
    assert!(a.novel);
}

#[test]
fn senior_packets_cannot_write() {
    assert_eq!(authorize_packet_role(WorkerRole::Senior, 1).unwrap_err().code, ErrorCode::Unauthorized);
    assert!(authorize_packet_role(WorkerRole::Senior, 0).is_ok());
    assert!(authorize_packet_role(WorkerRole::Junior, 3).is_ok());
}

#[test]
fn exactly_one_current_lowering_is_the_origin() {
    let lowerings = [
        LoweringFacts { lowering_id: LoweringId(1), current: false, work_ids: vec![WorkId(5)] },
        LoweringFacts { lowering_id: LoweringId(2), current: true, work_ids: vec![WorkId(4), WorkId(5)] },
    ];
    assert_eq!(select_lowering_origin(&lowerings, WorkId(5)).unwrap(), 1);
    assert_eq!(select_lowering_origin(&lowerings, WorkId(6)).unwrap_err().code, ErrorCode::Conflict);
    let twice = [
        LoweringFacts { lowering_id: LoweringId(1), current: true, work_ids: vec![WorkId(5)] },
        LoweringFacts { lowering_id: LoweringId(2), current: true, work_ids: vec![WorkId(5)] },
    ];
    assert_eq!(select_lowering_origin(&twice, WorkId(5)).unwrap_err().code, ErrorCode::Conflict);
}

fn packet(id: u64, lowering: u64, work: u64, current: bool) -> PacketFacts {
    PacketFacts { packet_id: PacketId(id), lowering_id: LoweringId(lowering), work_id: WorkId(work), current }
}

#[test]
fn a_new_packet_supersedes_the_current_one() {
    let packets = [packet(1, 7, 5, false), packet(2, 7, 5, true), packet(3, 8, 5, true)];
    assert!(check_packet_lineage(&packets, PacketId(9), LoweringId(7), WorkId(5), Some(PacketId(1)), Some(PacketId(2))).is_ok());
    assert_eq!(
        check_packet_lineage(&packets, PacketId(9), LoweringId(7), WorkId(5), None, None).unwrap_err().code,
        ErrorCode::Conflict
    );
    assert_eq!(
        check_packet_lineage(&packets, PacketId(2), LoweringId(7), WorkId(5), None, Some(PacketId(2))).unwrap_err().code,
        ErrorCode::Conflict
    );
    assert!(check_packet_lineage(&packets, PacketId(9), LoweringId(7), WorkId(6), None, None).is_ok());
}

#[test]
fn lineage_references_must_share_work_and_lowering() {
    let packets = [packet(1, 7, 5, false), packet(2, 7, 5, true), packet(3, 8, 5, false)];
    assert_eq!(
        check_packet_lineage(&packets, PacketId(9), LoweringId(7), WorkId(5), Some(PacketId(4)), Some(PacketId(2))).unwrap_err().code,
        ErrorCode::MissingReference
    );
    assert_eq!(
        check_packet_lineage(&packets, PacketId(9), LoweringId(7), WorkId(5), Some(PacketId(3)), Some(PacketId(2))).unwrap_err().code,
        ErrorCode::Conflict
    );
    let doubled = [packet(1, 7, 5, true), packet(2, 7, 5, true)];
    assert_eq!(
        check_packet_lineage(&doubled, PacketId(9), LoweringId(7), WorkId(5), None, Some(PacketId(1))).unwrap_err().code,
        ErrorCode::Conflict
    );
}

#[test]
fn a_packet_renders_only_from_its_exact_origin() {
    let work = WorkRecord {
        work_id: WorkId(1),
        revision: Revision(2),
        state: WorkState::Planned,
        active_job: None,
        validation_generation: 3,
        meaning: DigestValue(7),
    };
    let contract = ContractRecord {
        contract_id: ContractId(4),
        work_id: WorkId(1),
        version: Revision(5),
        active: true,
        contract_digest: DigestValue(40),
        content_digest: DigestValue(40),
    };
    let binding = PacketExecution::Executable {
        contract_id: ContractId(4),
        contract_version: Revision(5),
        contract_digest: DigestValue(40),
        validation_generation: 3,
    };
    let current = Some(PlanningRevisionState::Current);
    assert!(check_packet_origin(current, Some(work), Some(binding), Some(contract)).is_ok());
    assert_eq!(check_packet_origin(None, Some(work), Some(binding), Some(contract)).unwrap_err().code, ErrorCode::MissingReference);
    assert_eq!(
        check_packet_origin(Some(PlanningRevisionState::Superseded), Some(work), Some(binding), Some(contract)).unwrap_err().code,
        ErrorCode::Conflict
    );
    assert_eq!(check_packet_origin(current, None, Some(binding), Some(contract)).unwrap_err().code, ErrorCode::MissingReference);
    assert_eq!(check_packet_origin(current, Some(work), None, Some(contract)).unwrap_err().code, ErrorCode::MissingReference);
    assert_eq!(
        check_packet_origin(current, Some(work), Some(PacketExecution::Container), Some(contract)).unwrap_err().code,
        ErrorCode::Conflict
    );
    assert_eq!(check_packet_origin(current, Some(work), Some(binding), None).unwrap_err().code, ErrorCode::MissingReference);
    let regenerated = WorkRecord { validation_generation: 4, ..work };
    assert_eq!(check_packet_origin(current, Some(regenerated), Some(binding), Some(contract)).unwrap_err().code, ErrorCode::Conflict);
    let inactive = ContractRecord { active: false, ..contract };
    assert_eq!(check_packet_origin(current, Some(work), Some(binding), Some(inactive)).unwrap_err().code, ErrorCode::Conflict);
}
