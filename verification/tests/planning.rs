use zap::active_context::{
    ActiveOutcomeRef, AdoptedMilestonePlanGap, AdoptedMilestonePlanRef, CurrentStrategyRef, OutcomeFacts,
    PlanningRevisionState, StrategyFacts, resolve_adopted_plan, resolve_outcome_and_strategy,
};
use zap::commit::BasisBinding;
use zap::subjects::SubjectRef;
use zap::error::{ErrorCode, ZapError};
use zap::ids::{DigestValue, EffectId, EventId, MilestoneRevisionId, ObligationId, OperationId, OutcomeId, Revision, StrategicRevisionId, WorkId};
use zap::milestone_planning::{
    plan_basis_roots, prepare_composite_successor_plan, MilestonePlanAdoptionEffect, validate_plan_state, validate_refinement_binding, CompositePlanCandidateBindingRecord,
    CompositePlanCandidateRecorded, CompositePlanCandidateRecordedCell, CompositePrecursorEffectBinding,
    CompositeSuccessorPlanIntent, RefinementDigests, MilestonePlanAdopted, MilestonePlanAdoptedCell, MilestonePlanKey, MilestonePlanProposalRecord, MilestonePlanProposed,
    MilestonePlanProposedCell, MilestonePlanStateRecord, PlanCommandFacts, RefinementPlanProposed,
    RefinementPlanProposedCell, RefinementPlanRecord,
};

fn plan() -> MilestonePlanProposalRecord {
    MilestonePlanProposalRecord {
        key: MilestonePlanKey { outcome_id: OutcomeId(1) },
        previous: None,
        outcome_revision: Revision(2),
        revision: Revision(11),
        relevant_basis: DigestValue(50),
        semantic_fingerprint: DigestValue(60),
        strategic_revision_id: StrategicRevisionId(3),
        strategic_record_revision: Revision(4),
        strategic_semantic_digest: DigestValue(70),
        obligation_ids: vec![],
        milestone_revision_ids: vec![],
        admission_work_ids: vec![],
    }
}

fn state() -> MilestonePlanStateRecord {
    MilestonePlanStateRecord {
        outcome_id: OutcomeId(1),
        adopted_plan: MilestonePlanKey { outcome_id: OutcomeId(1) },
        adopted_fingerprint: DigestValue(60),
        revision: Revision(8),
    }
}

fn outcome() -> OutcomeFacts {
    OutcomeFacts { outcome_id: OutcomeId(1), revision: Revision(2), active: true }
}

fn strategy(state: PlanningRevisionState) -> StrategyFacts {
    StrategyFacts {
        strategic_revision_id: StrategicRevisionId(3),
        revision: Revision(4),
        semantic_digest: DigestValue(70),
        outcome_id: OutcomeId(1),
        state,
    }
}

fn facts(basis: BasisBinding) -> PlanCommandFacts {
    PlanCommandFacts { expected_revision: Revision(10), basis }
}

#[test]
fn plan_proposal_needs_the_exact_basis_and_next_revision() {
    let payload = MilestonePlanProposed { plan: plan() };
    assert_eq!(MilestonePlanProposedCell.apply(&facts(BasisBinding::Exact(DigestValue(50))), &payload, false, Ok(())).ok(), Some(Revision(11)));
    assert_eq!(
        MilestonePlanProposedCell.apply(&facts(BasisBinding::NotApplicable), &payload, false, Ok(())).err().unwrap().code,
        ErrorCode::StaleRevision
    );
    assert!(MilestonePlanProposedCell.apply(&facts(BasisBinding::Exact(DigestValue(51))), &payload, false, Ok(())).is_err());
    assert!(MilestonePlanProposedCell.apply(&facts(BasisBinding::Exact(DigestValue(50))), &payload, true, Ok(())).is_err());
    let invalid = Err(ZapError::new(ErrorCode::InvalidValue));
    assert_eq!(
        MilestonePlanProposedCell.apply(&facts(BasisBinding::Exact(DigestValue(50))), &payload, false, invalid).err().unwrap().code,
        ErrorCode::InvalidValue
    );
}

#[test]
fn plan_adoption_needs_the_proposal_basis() {
    let payload = MilestonePlanAdopted { plan: plan(), expected_plan_state_revision: None };
    assert!(MilestonePlanAdoptedCell.apply(&facts(BasisBinding::Exact(DigestValue(50))), &payload, Ok(())).is_ok());
    assert_eq!(
        MilestonePlanAdoptedCell.apply(&facts(BasisBinding::Exact(DigestValue(5))), &payload, Ok(())).err().unwrap().code,
        ErrorCode::StaleRevision
    );
}

#[test]
fn refinement_binds_the_adopted_plan() {
    let refinement = || RefinementPlanRecord {
        lowering_id: WorkId(9),
        lowering_semantic_digest: DigestValue(90),
        graph_digest: DigestValue(91),
        plan_key: MilestonePlanKey { outcome_id: OutcomeId(1) },
        plan_fingerprint: DigestValue(60),
        plan_state_revision: Revision(8),
        strategic_revision_id: StrategicRevisionId(3),
        strategic_record_revision: Revision(4),
        strategic_semantic_digest: DigestValue(70),
        revision: Revision(11),
        semantic_fingerprint: DigestValue(80),
        rationale_work_ids: vec![WorkId(1), WorkId(2)],
    };
    let payload = RefinementPlanProposed { refinement: refinement() };
    let p = plan();
    let f = facts(BasisBinding::NotApplicable);
    assert!(RefinementPlanProposedCell.apply(&f, &payload, DigestValue(80), false, false, Some(state()), Some(&p)).is_ok());
    assert_eq!(
        RefinementPlanProposedCell.apply(&f, &payload, DigestValue(81), false, false, Some(state()), Some(&p)).err().unwrap().code,
        ErrorCode::StaleRevision
    );
    assert_eq!(
        RefinementPlanProposedCell.apply(&f, &payload, DigestValue(80), false, false, None, Some(&p)).err().unwrap().code,
        ErrorCode::MissingReference
    );
    let unordered = RefinementPlanProposed { refinement: RefinementPlanRecord { rationale_work_ids: vec![WorkId(2), WorkId(1)], ..refinement() } };
    assert!(RefinementPlanProposedCell.apply(&f, &unordered, DigestValue(80), false, false, Some(state()), Some(&p)).is_err());
    let moved = MilestonePlanStateRecord { adopted_fingerprint: DigestValue(61), ..state() };
    assert!(RefinementPlanProposedCell.apply(&f, &payload, DigestValue(80), false, false, Some(moved), Some(&p)).is_err());
}

#[test]
fn adopted_plan_is_present_when_everything_binds() {
    let p = plan();
    let r = resolve_adopted_plan(&outcome(), Some(strategy(PlanningRevisionState::Current)), Some(state()), Some(&p), Some(strategy(PlanningRevisionState::Current)));
    assert!(matches!(r, Ok(AdoptedMilestonePlanRef::Present { plan_state_revision: Revision(8), .. })));
    assert!(matches!(resolve_adopted_plan(&outcome(), None, None, None, None), Ok(AdoptedMilestonePlanRef::Absent)));
}

#[test]
fn adopted_plan_gaps_are_listed_in_order() {
    let p = MilestonePlanProposalRecord { outcome_revision: Revision(1), ..plan() };
    let moved_state = MilestonePlanStateRecord { adopted_fingerprint: DigestValue(1), ..state() };
    let other = StrategyFacts { strategic_revision_id: StrategicRevisionId(4), ..strategy(PlanningRevisionState::Current) };
    match resolve_adopted_plan(&outcome(), Some(other), Some(moved_state), Some(&p), Some(strategy(PlanningRevisionState::Current))) {
        Ok(AdoptedMilestonePlanRef::NeedsReassessment { gaps, .. }) => assert_eq!(
            gaps,
            vec![
                AdoptedMilestonePlanGap::PlanStateMismatch,
                AdoptedMilestonePlanGap::OutcomeBindingStale,
                AdoptedMilestonePlanGap::CurrentStrategyMismatch,
            ]
        ),
        _ => panic!("a moved plan needs reassessment"),
    }
    match resolve_adopted_plan(&outcome(), None, Some(state()), None, None) {
        Ok(AdoptedMilestonePlanRef::NeedsReassessment { gaps, .. }) => {
            assert_eq!(gaps, vec![AdoptedMilestonePlanGap::PlanRecordMissing])
        }
        _ => panic!("a missing plan needs reassessment"),
    }
    let p = plan();
    match resolve_adopted_plan(&outcome(), None, Some(state()), Some(&p), None) {
        Ok(AdoptedMilestonePlanRef::NeedsReassessment { gaps, .. }) => {
            assert_eq!(gaps, vec![AdoptedMilestonePlanGap::StrategyRecordMissing])
        }
        _ => panic!("a missing strategy needs reassessment"),
    }
    match resolve_adopted_plan(&outcome(), None, Some(state()), Some(&p), Some(strategy(PlanningRevisionState::Superseded))) {
        Ok(AdoptedMilestonePlanRef::NeedsReassessment { gaps, .. }) => {
            assert_eq!(gaps, vec![AdoptedMilestonePlanGap::StrategyBindingStale])
        }
        _ => panic!("a superseded strategy is stale"),
    }
    assert!(resolve_adopted_plan(&outcome(), None, Some(state()), Some(&p), Some(strategy(PlanningRevisionState::Candidate))).is_ok());
    assert_eq!(
        resolve_adopted_plan(&outcome(), None, Some(state()), Some(&p), Some(strategy(PlanningRevisionState::Current))).err().unwrap().code,
        ErrorCode::Unavailable
    );
}

#[test]
fn outcome_and_strategy_resolution() {
    assert_eq!(resolve_outcome_and_strategy(None, None).ok(), Some((ActiveOutcomeRef::Uninitialized, CurrentStrategyRef::Absent)));
    assert_eq!(resolve_outcome_and_strategy(None, Some(None)).err().unwrap().code, ErrorCode::Conflict);
    assert_eq!(resolve_outcome_and_strategy(Some(None), None).err().unwrap().code, ErrorCode::Unavailable);
    let inactive = OutcomeFacts { active: false, ..outcome() };
    assert!(resolve_outcome_and_strategy(Some(Some(inactive)), None).is_err());
    let r = resolve_outcome_and_strategy(Some(Some(outcome())), Some(Some(strategy(PlanningRevisionState::Current)))).ok().unwrap();
    assert_eq!(r.0, ActiveOutcomeRef::Present { outcome_id: OutcomeId(1), record_revision: Revision(2) });
    assert_eq!(r.1, CurrentStrategyRef::Present { strategic_revision_id: StrategicRevisionId(3), record_revision: Revision(4) });
    assert!(resolve_outcome_and_strategy(Some(Some(outcome())), Some(Some(strategy(PlanningRevisionState::Candidate)))).is_err());
}

fn intent(previous: Option<u64>, expected: Option<u64>) -> CompositeSuccessorPlanIntent {
    CompositeSuccessorPlanIntent {
        key: MilestonePlanKey { outcome_id: OutcomeId(2) },
        previous: previous.map(|o| MilestonePlanKey { outcome_id: OutcomeId(o) }),
        strategic_revision_id: StrategicRevisionId(3),
        strategic_record_revision: Revision(4),
        strategic_semantic_digest: DigestValue(70),
        outcome_revision: Revision(2),
        expected_plan_state_revision: expected.map(Revision),
        obligation_ids: vec![ObligationId(5)],
        milestone_revision_ids: vec![MilestoneRevisionId(6)],
        admission_work_ids: vec![WorkId(7)],
    }
}

#[test]
fn a_successor_plan_needs_a_current_lineage() {
    assert!(validate_plan_state(None, &intent(None, None)).is_ok());
    assert!(validate_plan_state(Some(state()), &intent(Some(1), Some(8))).is_ok());
    assert_eq!(validate_plan_state(Some(state()), &intent(Some(1), Some(7))).unwrap_err().code, ErrorCode::StaleRevision);
    assert_eq!(validate_plan_state(Some(state()), &intent(Some(3), Some(8))).unwrap_err().code, ErrorCode::StaleRevision);
    assert_eq!(validate_plan_state(None, &intent(Some(1), None)).unwrap_err().code, ErrorCode::StaleRevision);
    assert_eq!(validate_plan_state(Some(state()), &intent(None, None)).unwrap_err().code, ErrorCode::StaleRevision);
}

#[test]
fn a_successor_plan_is_prepared_from_its_intent() {
    let p = prepare_composite_successor_plan(Some(state()), &intent(Some(1), Some(8)), Revision(12), DigestValue(55), DigestValue(66), Ok(()))
        .ok()
        .unwrap();
    assert_eq!(p.key, MilestonePlanKey { outcome_id: OutcomeId(2) });
    assert_eq!(p.previous, Some(MilestonePlanKey { outcome_id: OutcomeId(1) }));
    assert_eq!(p.revision, Revision(12));
    assert_eq!(p.relevant_basis, DigestValue(55));
    assert_eq!(p.semantic_fingerprint, DigestValue(66));
    assert_eq!(p.strategic_revision_id, StrategicRevisionId(3));
    assert_eq!(p.outcome_revision, Revision(2));
    assert_eq!(p.obligation_ids, vec![ObligationId(5)]);
    assert_eq!(p.milestone_revision_ids, vec![MilestoneRevisionId(6)]);
    assert_eq!(p.admission_work_ids, vec![WorkId(7)]);
    let refused = ZapError::new(ErrorCode::NeedsEvidence);
    assert_eq!(
        prepare_composite_successor_plan(Some(state()), &intent(Some(1), Some(8)), Revision(12), DigestValue(55), DigestValue(66), Err(refused))
            .err()
            .unwrap()
            .code,
        ErrorCode::NeedsEvidence
    );
    assert_eq!(
        prepare_composite_successor_plan(None, &intent(Some(1), Some(8)), Revision(12), DigestValue(55), DigestValue(66), Ok(())).err().unwrap().code,
        ErrorCode::StaleRevision
    );
}

#[test]
fn a_composite_candidate_is_recorded_at_the_next_revision() {
    let payload = CompositePlanCandidateRecorded {
        operation_id: OperationId(1),
        request_digest: DigestValue(2),
        expected_plan_state_revision: None,
        plan: plan(),
        binding: CompositePlanCandidateBindingRecord {
            plan_key: MilestonePlanKey { outcome_id: OutcomeId(1) },
            operation_id: OperationId(1),
            request_digest: DigestValue(2),
            precursors: vec![CompositePrecursorEffectBinding {
                effect_id: EffectId(1),
                index: 0,
                kind: "milestone.definition".to_string(),
                payload_digest: DigestValue(3),
                predecessors: vec![],
                product_event_id: EventId(4),
            }],
            revision: Revision(11),
        },
    };
    assert_eq!(CompositePlanCandidateRecordedCell.apply(Revision(10), &payload, false).ok(), Some(Revision(11)));
    assert_eq!(CompositePlanCandidateRecordedCell.apply(Revision(10), &payload, true).err().unwrap().code, ErrorCode::StaleRevision);
    assert_eq!(CompositePlanCandidateRecordedCell.apply(Revision(9), &payload, false).err().unwrap().code, ErrorCode::StaleRevision);
    assert_eq!(CompositePlanCandidateRecordedCell.apply(Revision(u64::MAX), &payload, false).err().unwrap().code, ErrorCode::InvalidValue);
}

#[test]
fn a_refinement_binding_must_match_everything_it_names() {
    let refinement = RefinementPlanRecord {
        lowering_id: WorkId(9),
        lowering_semantic_digest: DigestValue(90),
        graph_digest: DigestValue(91),
        plan_key: MilestonePlanKey { outcome_id: OutcomeId(1) },
        plan_fingerprint: DigestValue(60),
        plan_state_revision: Revision(8),
        strategic_revision_id: StrategicRevisionId(3),
        strategic_record_revision: Revision(4),
        strategic_semantic_digest: DigestValue(70),
        revision: Revision(11),
        semantic_fingerprint: DigestValue(80),
        rationale_work_ids: vec![WorkId(1)],
    };
    let digests = RefinementDigests {
        lowering_computed: DigestValue(90),
        lowering_stored: DigestValue(90),
        graph: DigestValue(91),
        refinement: DigestValue(80),
    };
    let s = strategy(PlanningRevisionState::Current);
    assert!(validate_refinement_binding(&refinement, &state(), &plan(), &s, digests).is_ok());
    let drifted = RefinementDigests { graph: DigestValue(92), ..digests };
    assert_eq!(validate_refinement_binding(&refinement, &state(), &plan(), &s, drifted).unwrap_err().code, ErrorCode::StaleRevision);
    let relowered = RefinementDigests { lowering_stored: DigestValue(1), ..digests };
    assert_eq!(validate_refinement_binding(&refinement, &state(), &plan(), &s, relowered).unwrap_err().code, ErrorCode::StaleRevision);
    let other = StrategyFacts { revision: Revision(5), ..s };
    assert_eq!(validate_refinement_binding(&refinement, &state(), &plan(), &other, digests).unwrap_err().code, ErrorCode::StaleRevision);
}

#[test]
fn a_plan_basis_covers_its_outcome_obligations_and_stored_work() {
    let mut p = plan();
    p.obligation_ids = vec![ObligationId(4), ObligationId(2)];
    let roots = plan_basis_roots(&p, &[vec![WorkId(7), WorkId(3)], vec![WorkId(9), WorkId(3)]], &[WorkId(3), WorkId(9), WorkId(11)]);
    assert_eq!(
        roots,
        vec![
            SubjectRef::Work(WorkId(3)),
            SubjectRef::Work(WorkId(9)),
            SubjectRef::Obligation(ObligationId(2)),
            SubjectRef::Obligation(ObligationId(4)),
            SubjectRef::Outcome(OutcomeId(1)),
        ]
    );
    assert_eq!(plan_basis_roots(&plan(), &[], &[WorkId(3)]), vec![SubjectRef::Outcome(OutcomeId(1))]);
}

#[test]
fn adopting_a_plan_is_scoped_by_its_basis_and_simulated_on_it() {
    let payload = MilestonePlanAdopted { plan: plan(), expected_plan_state_revision: None };
    let scope = MilestonePlanAdoptionEffect.scope(&payload, &[vec![WorkId(5), WorkId(2)]], &[WorkId(2), WorkId(5)]);
    assert_eq!(
        scope.roots,
        vec![SubjectRef::Work(WorkId(2)), SubjectRef::Work(WorkId(5)), SubjectRef::Outcome(OutcomeId(1))]
    );
    assert_eq!(scope.work_ids, vec![WorkId(2), WorkId(5)]);
    assert!(MilestonePlanAdoptionEffect.simulate(&payload, DigestValue(50), Ok(())).is_ok());
    assert_eq!(MilestonePlanAdoptionEffect.simulate(&payload, DigestValue(51), Ok(())).unwrap_err().code, ErrorCode::StaleRevision);
    let refused = ZapError::new(ErrorCode::Conflict);
    assert_eq!(MilestonePlanAdoptionEffect.simulate(&payload, DigestValue(50), Err(refused)).unwrap_err().code, ErrorCode::Conflict);
}
