use zap::active_context::PlanningRevisionState;
use zap::affected_scope::{
    allows_preexecution_milestone_missing, assess_independence, close_subjects, derive_affected_scope, initially_affected_work,
    missing_work, scope_base_subjects, unknown_boundary, CandidateScopeView, ClosureFacts, ContractFacts, DependencyEdge,
    IndependenceRequest, MilestoneScopeFacts, ObligationOwners, PlanFacts, ScopeHold, ScopeRequest, ScopeStore, StrategyNodes,
    WorkNode,
};
use zap::error::ErrorCode;
use zap::ids::{DigestValue, HoldId, ObligationId, OutcomeId, Revision, SourceId, StrategicRevisionId, SubjectKey, WorkId};
use zap::milestone_planning::{MilestonePlanKey, MilestonePlanStateRecord};
use zap::subjects::SubjectRef;

fn node(id: u64, depends: Vec<u64>, parent: Option<u64>) -> WorkNode {
    WorkNode { work_id: WorkId(id), depends_on: depends.into_iter().map(WorkId).collect(), parent_id: parent.map(WorkId) }
}

fn contract(work: u64, active: bool, reads: Vec<SubjectRef>) -> ContractFacts {
    ContractFacts {
        work_id: WorkId(work),
        active,
        read_subjects: reads,
        write_subjects: vec![],
        obligation_ids: vec![ObligationId(70)],
        source_handles: vec![SourceId(80)],
    }
}

fn no_milestones() -> MilestoneScopeFacts {
    MilestoneScopeFacts { plan_states: vec![], plans: vec![], strategies: vec![] }
}

fn other(n: u64) -> SubjectRef {
    SubjectRef::Other(SubjectKey(n))
}

#[test]
fn initial_work_collects_direct_roots_contracts_and_owners() {
    let contracts = [contract(3, true, vec![other(9)]), contract(4, false, vec![other(9)]), contract(5, true, vec![other(8)])];
    let obligations = [ObligationOwners { obligation_id: ObligationId(1), owners: vec![WorkId(6), WorkId(2)] }];
    let roots = [other(9), SubjectRef::Work(WorkId(7)), SubjectRef::Obligation(ObligationId(1))];
    let out = initially_affected_work(&[WorkId(1)], &roots, &contracts, &obligations);
    assert_eq!(out, vec![WorkId(1), WorkId(2), WorkId(3), WorkId(6), WorkId(7)]);
}

#[test]
fn the_last_active_contract_of_a_work_counts() {
    let contracts = [contract(3, true, vec![other(9)]), contract(3, true, vec![other(8)])];
    assert!(initially_affected_work(&[], &[other(9)], &contracts, &[]).is_empty());
    assert_eq!(initially_affected_work(&[], &[other(8)], &contracts, &[]), vec![WorkId(3)]);
}

#[test]
fn missing_work_is_work_without_a_row() {
    let rows = [node(1, vec![], None), node(3, vec![], None)];
    assert_eq!(missing_work(&[WorkId(1), WorkId(2), WorkId(3), WorkId(4)], &rows), vec![WorkId(2), WorkId(4)]);
}

#[test]
fn subjects_close_under_dependencies() {
    let edges = [
        DependencyEdge { prerequisite: Some(other(2)), dependent: Some(other(3)) },
        DependencyEdge { prerequisite: Some(other(1)), dependent: Some(other(2)) },
        DependencyEdge { prerequisite: Some(other(5)), dependent: Some(other(6)) },
        DependencyEdge { prerequisite: None, dependent: Some(other(7)) },
    ];
    assert_eq!(close_subjects(&edges, vec![other(1)]), vec![other(1), other(2), other(3)]);
    assert_eq!(close_subjects(&edges, vec![]), vec![]);
}

#[test]
fn scope_subjects_include_work_and_contract_bindings() {
    let contracts = [contract(3, true, vec![other(9)])];
    let out = scope_base_subjects(&[other(1)], &[WorkId(3), WorkId(4)], &contracts);
    assert_eq!(
        out,
        vec![
            SubjectRef::Work(WorkId(3)),
            SubjectRef::Work(WorkId(4)),
            SubjectRef::Obligation(ObligationId(70)),
            SubjectRef::Source(SourceId(80)),
            other(1),
            other(9),
        ]
    );
}

#[test]
fn incomplete_closures_mark_the_unknown_boundary() {
    let closures = [
        ClosureFacts { subject: Some(other(1)), complete: false, boundary: vec![other(4)], missing: vec![other(5)] },
        ClosureFacts { subject: Some(other(2)), complete: true, boundary: vec![other(6)], missing: vec![] },
        ClosureFacts { subject: Some(other(3)), complete: false, boundary: vec![other(7)], missing: vec![] },
    ];
    assert_eq!(unknown_boundary(&closures, &[other(1), other(2)]), vec![other(1), other(4), other(5)]);
}

fn store(work: Vec<WorkNode>) -> ScopeStore {
    ScopeStore {
        revision: Revision(7),
        work,
        contracts: vec![contract(1, true, vec![other(9)])],
        obligations: vec![],
        dependencies: vec![DependencyEdge { prerequisite: Some(other(9)), dependent: Some(other(10)) }],
        closures: vec![ClosureFacts { subject: Some(other(10)), complete: false, boundary: vec![], missing: vec![] }],
        lowerings_exist: false,
        milestones: no_milestones(),
    }
}

#[test]
fn a_full_scope_is_derived() {
    let s = store(vec![node(1, vec![], None), node(2, vec![1], None), node(3, vec![], Some(2)), node(4, vec![], None)]);
    let req = ScopeRequest { request_digest: DigestValue(55), direct_work_ids: vec![WorkId(1)], roots: vec![], allows_missing_initial_work: false };
    let d = derive_affected_scope(&req, &s).unwrap();
    assert_eq!(d.request_digest, DigestValue(55));
    assert_eq!(d.observed_revision, Revision(7));
    assert_eq!(d.affected_work_ids, vec![WorkId(1)]);
    assert_eq!(d.dependent_work_ids, vec![WorkId(2), WorkId(3)]);
    assert!(d.subjects.contains(&other(10)));
    assert!(d.subjects.contains(&SubjectRef::Work(WorkId(3))));
    assert!(!d.subjects.contains(&SubjectRef::Work(WorkId(4))));
    assert_eq!(d.unknown_boundary, vec![other(10)]);
    assert!(!d.complete);
}

#[test]
fn missing_work_is_refused_unless_it_is_the_initial_work() {
    let s = store(vec![]);
    let refused = ScopeRequest { request_digest: DigestValue(55), direct_work_ids: vec![WorkId(1)], roots: vec![], allows_missing_initial_work: false };
    assert_eq!(derive_affected_scope(&refused, &s).err().unwrap().code, ErrorCode::Conflict);
    let allowed = ScopeRequest { request_digest: DigestValue(55), direct_work_ids: vec![WorkId(1)], roots: vec![], allows_missing_initial_work: true };
    let d = derive_affected_scope(&allowed, &s).unwrap();
    assert_eq!(d.affected_work_ids, vec![WorkId(1)]);
    let mut lowered = store(vec![]);
    lowered.lowerings_exist = true;
    assert!(derive_affected_scope(&allowed, &lowered).is_err());
}

fn milestone_facts() -> MilestoneScopeFacts {
    let key = MilestonePlanKey { outcome_id: OutcomeId(1) };
    MilestoneScopeFacts {
        plan_states: vec![MilestonePlanStateRecord {
            outcome_id: OutcomeId(1),
            adopted_plan: key,
            adopted_fingerprint: DigestValue(5),
            revision: Revision(2),
        }],
        plans: vec![PlanFacts {
            key,
            semantic_fingerprint: DigestValue(5),
            fingerprint_current: true,
            strategic_revision_id: StrategicRevisionId(9),
            strategic_record_revision: Revision(3),
            strategic_semantic_digest: DigestValue(6),
        }],
        strategies: vec![StrategyNodes {
            strategic_revision_id: StrategicRevisionId(9),
            outcome_id: OutcomeId(1),
            revision: Revision(3),
            semantic_digest: DigestValue(6),
            state: PlanningRevisionState::Candidate,
            node_work_ids: vec![WorkId(11)],
        }],
    }
}

#[test]
fn an_adopted_milestone_plan_may_name_future_work() {
    let roots = [SubjectRef::Outcome(OutcomeId(1)), SubjectRef::Obligation(ObligationId(4))];
    let obligations = [ObligationOwners { obligation_id: ObligationId(4), owners: vec![WorkId(12)] }];
    let facts = milestone_facts();
    assert_eq!(allows_preexecution_milestone_missing(&roots, &[WorkId(11), WorkId(12)], &facts, &obligations, false, false).unwrap(), true);
    assert_eq!(allows_preexecution_milestone_missing(&roots, &[WorkId(13)], &facts, &obligations, false, false).unwrap(), false);
    assert_eq!(allows_preexecution_milestone_missing(&roots, &[WorkId(11)], &facts, &obligations, true, false).unwrap(), false);
    assert_eq!(allows_preexecution_milestone_missing(&roots, &[], &facts, &obligations, false, false).unwrap(), false);
    assert_eq!(allows_preexecution_milestone_missing(&[other(1)], &[WorkId(11)], &facts, &obligations, false, false).unwrap(), false);
    let mut no_plan = milestone_facts();
    no_plan.plans.clear();
    assert_eq!(
        allows_preexecution_milestone_missing(&roots, &[WorkId(11)], &no_plan, &obligations, false, false).unwrap_err().code,
        ErrorCode::Conflict
    );
    let mut superseded = milestone_facts();
    superseded.strategies[0].state = PlanningRevisionState::Superseded;
    assert_eq!(allows_preexecution_milestone_missing(&roots, &[WorkId(11)], &superseded, &obligations, false, false).unwrap(), false);
}

#[test]
fn a_scope_with_planned_future_work_is_derived() {
    let mut s = store(vec![]);
    s.milestones = milestone_facts();
    let req = ScopeRequest { request_digest: DigestValue(55), direct_work_ids: vec![WorkId(11)], roots: vec![SubjectRef::Outcome(OutcomeId(1))], allows_missing_initial_work: false };
    let d = derive_affected_scope(&req, &s).unwrap();
    assert_eq!(d.affected_work_ids, vec![WorkId(11)]);
}

fn hold() -> ScopeHold {
    ScopeHold {
        hold_id: HoldId(1),
        affected_scope_digest: DigestValue(10),
        independence_basis: DigestValue(20),
        affected_work_ids: vec![WorkId(1)],
        dependent_work_ids: vec![WorkId(2)],
        subject_ids: vec![other(5)],
        unknown_boundary: vec![other(6), other(7)],
        hold_all_starts: false,
    }
}

fn candidate(work: u64, subjects: Vec<SubjectRef>, unknown: Vec<SubjectRef>) -> CandidateScopeView {
    CandidateScopeView { affected_work_ids: vec![WorkId(work)], dependent_work_ids: vec![], subjects, unknown_boundary: unknown }
}

#[test]
fn a_disjoint_candidate_is_independent() {
    let request = IndependenceRequest { hold_id: HoldId(1), held_scope: DigestValue(10), relevant_basis: DigestValue(20) };
    let v = assess_independence(&[hold()], request, &candidate(9, vec![other(8)], vec![])).unwrap();
    assert!(v.independent);
    assert!(v.unknown.is_empty());
}

#[test]
fn shared_work_subjects_or_unknowns_break_independence() {
    let request = IndependenceRequest { hold_id: HoldId(1), held_scope: DigestValue(10), relevant_basis: DigestValue(20) };
    assert!(!assess_independence(&[hold()], request, &candidate(2, vec![], vec![])).unwrap().independent);
    assert!(!assess_independence(&[hold()], request, &candidate(9, vec![other(5)], vec![])).unwrap().independent);
    let v = assess_independence(&[hold()], request, &candidate(9, vec![other(7)], vec![other(3)])).unwrap();
    assert!(!v.independent);
    assert_eq!(v.unknown, vec![other(3), other(7)]);
    let mut all = hold();
    all.hold_all_starts = true;
    assert!(!assess_independence(&[all], request, &candidate(9, vec![], vec![])).unwrap().independent);
}

#[test]
fn a_stale_or_missing_hold_conflicts() {
    let stale = IndependenceRequest { hold_id: HoldId(1), held_scope: DigestValue(11), relevant_basis: DigestValue(20) };
    assert_eq!(assess_independence(&[hold()], stale, &candidate(9, vec![], vec![])).err().unwrap().code, ErrorCode::Conflict);
    let missing = IndependenceRequest { hold_id: HoldId(2), held_scope: DigestValue(10), relevant_basis: DigestValue(20) };
    assert_eq!(assess_independence(&[hold()], missing, &candidate(9, vec![], vec![])).err().unwrap().code, ErrorCode::Conflict);
}
