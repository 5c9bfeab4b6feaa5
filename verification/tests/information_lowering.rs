use zap::error::ErrorCode;
use zap::ids::{DecisionId, DigestValue, EvidenceId, InformationOpportunityId, InformationSelectionId, SourceId, WorkId};
use zap::information::{
    DecisionBenefit, HoursInterval, HoursMicros, InformationCostEstimate, InformationCosts, InformationDecisionBasis,
    InformationOpportunityContent, InformationOpportunityRecord, InformationPossibility, InformationSelectionRecord,
    InformationSourceBinding, InformationStopEnforcement, InformationStopRule, ObservationPower, SourceApplicabilityStatus,
    SourceCapture,
};
use zap::information_lowering::{
    allowed_work_type, safe_stop_boundary, selected_information_execution_context, validate_current_pair,
    validate_information_snapshot, validate_lowering_information_bindings, CurrentOpportunity, InformationLoweringBinding,
    InformationStore, SelectedInformationSnapshot, StoredWorkType,
};
use zap::packets::WorkType;

fn hours(low: u64, high: Option<u64>) -> HoursInterval {
    HoursInterval { low: HoursMicros(low), high: high.map(HoursMicros) }
}

fn estimate() -> InformationCostEstimate {
    InformationCostEstimate { agent_hours: hours(1, Some(2)), elapsed: hours(1, Some(2)), basis: "b".to_string() }
}

fn rule(enforcement: InformationStopEnforcement, explanation: &str) -> InformationStopRule {
    InformationStopRule {
        stop_when_observed: true,
        maximum_attempts: Some(3),
        maximum_agent_hours: Some(HoursMicros(1500000)),
        maximum_elapsed: None,
        stop_on_source_drift: false,
        enforcement,
        explanation: explanation.to_string(),
    }
}

fn record(id: u64, stop_rule: InformationStopRule) -> InformationOpportunityRecord {
    InformationOpportunityRecord {
        opportunity_id: InformationOpportunityId(id),
        content: InformationOpportunityContent {
            name: "probe".to_string(),
            decision_id: DecisionId(1),
            decision_basis: InformationDecisionBasis::OwnerDecision { decision_id: DecisionId(1), expected_revision: 2 },
            possibilities: vec![
                InformationPossibility { possibility_id: "a".to_string(), description: "A".to_string() },
                InformationPossibility { possibility_id: "b".to_string(), description: "B".to_string() },
            ],
            unknown_condition: None,
            observation_sought: "which".to_string(),
            observation_power: ObservationPower::Informative,
            sources: vec![InformationSourceBinding {
                capture: SourceCapture { source_id: SourceId(3), digest: DigestValue(30) },
                applicability: SourceApplicabilityStatus::Applicable,
                applicability_basis: DigestValue(31),
            }],
            regions: vec![],
            horizons: vec![],
            costs: InformationCosts {
                acquisition: estimate(),
                verification: estimate(),
                coordination: estimate(),
                delay: hours(0, Some(0)),
                unknowns: vec![],
            },
            benefit: DecisionBenefit::AvoidedAgentHours { range: hours(5, Some(9)), basis: "saves".to_string() },
            stop_rule,
            satisfying_evidence_ids: vec![EvidenceId(4)],
        },
        revision: 5,
        semantic_fingerprint: DigestValue(50),
        basis_fingerprint: DigestValue(51),
        selection_id: Some(8),
    }
}

fn selection(id: u64, opportunity: u64, work: u64, work_type: WorkType) -> InformationSelectionRecord {
    InformationSelectionRecord {
        selection_id: InformationSelectionId(id),
        revision: 2,
        opportunity_id: InformationOpportunityId(opportunity),
        work_type,
        opportunity_revision: 5,
        opportunity_fingerprint: DigestValue(50),
        basis_fingerprint: DigestValue(51),
        candidate_work_id: WorkId(work),
    }
}

fn binding(selection: u64, work: u64, work_type: WorkType) -> InformationLoweringBinding {
    InformationLoweringBinding { selection_id: InformationSelectionId(selection), work_id: WorkId(work), work_type }
}

#[test]
fn empty_information_bindings_do_no_store_work() {
    let store = InformationStore { selections: &[], opportunities: &[], works: &[] };
    assert!(validate_lowering_information_bindings(&[], &store).is_ok());
}

#[test]
fn only_evidence_and_decision_work_executes_research() {
    assert!(allowed_work_type(WorkType::Evidence));
    assert!(allowed_work_type(WorkType::Decision));
    assert!(!allowed_work_type(WorkType::Change));
    assert!(!allowed_work_type(WorkType::Integration));
}

#[test]
fn a_stale_pair_is_refused() {
    let opp = record(1, rule(InformationStopEnforcement::DecisionGuidance, "stop"));
    let current = CurrentOpportunity { record: &opp, current_basis: DigestValue(51) };
    assert!(validate_current_pair(&selection(7, 1, 10, WorkType::Evidence), &current).is_ok());
    let drifted = CurrentOpportunity { record: &opp, current_basis: DigestValue(52) };
    assert_eq!(validate_current_pair(&selection(7, 1, 10, WorkType::Evidence), &drifted).unwrap_err().code, ErrorCode::StaleRevision);
    let mut old = selection(7, 1, 10, WorkType::Evidence);
    old.opportunity_revision = 4;
    assert_eq!(validate_current_pair(&old, &current).unwrap_err().code, ErrorCode::StaleRevision);
}

#[test]
fn lowering_bindings_are_checked_in_order() {
    let opp = record(1, rule(InformationStopEnforcement::DecisionGuidance, "stop"));
    let bound = record(2, rule(InformationStopEnforcement::ContractBoundary, "  "));
    let opps = [
        CurrentOpportunity { record: &opp, current_basis: DigestValue(51) },
        CurrentOpportunity { record: &bound, current_basis: DigestValue(51) },
    ];
    let sels = [
        selection(7, 1, 10, WorkType::Evidence),
        selection(8, 1, 11, WorkType::Decision),
        selection(9, 2, 12, WorkType::Evidence),
        selection(6, 3, 13, WorkType::Evidence),
        selection(5, 1, 14, WorkType::Change),
    ];
    let works = [StoredWorkType { work_id: WorkId(11), work_type: WorkType::Evidence }];
    let store = InformationStore { selections: &sels, opportunities: &opps, works: &works };
    assert!(validate_lowering_information_bindings(&[binding(7, 10, WorkType::Evidence)], &store).is_ok());
    let duplicated = [binding(7, 10, WorkType::Evidence), binding(7, 10, WorkType::Evidence)];
    assert_eq!(validate_lowering_information_bindings(&duplicated, &store).unwrap_err().code, ErrorCode::DuplicateIdentity);
    let same_work = [binding(7, 10, WorkType::Evidence), binding(8, 10, WorkType::Decision)];
    assert_eq!(validate_lowering_information_bindings(&same_work, &store).unwrap_err().code, ErrorCode::DuplicateIdentity);
    assert_eq!(
        validate_lowering_information_bindings(&[binding(4, 10, WorkType::Evidence)], &store).unwrap_err().code,
        ErrorCode::MissingReference
    );
    assert_eq!(
        validate_lowering_information_bindings(&[binding(6, 13, WorkType::Evidence)], &store).unwrap_err().code,
        ErrorCode::MissingReference
    );
    assert_eq!(
        validate_lowering_information_bindings(&[binding(7, 15, WorkType::Evidence)], &store).unwrap_err().code,
        ErrorCode::Conflict
    );
    assert_eq!(
        validate_lowering_information_bindings(&[binding(5, 14, WorkType::Change)], &store).unwrap_err().code,
        ErrorCode::Conflict
    );
    assert_eq!(
        validate_lowering_information_bindings(&[binding(8, 11, WorkType::Decision)], &store).unwrap_err().code,
        ErrorCode::Conflict
    );
    assert_eq!(
        validate_lowering_information_bindings(&[binding(9, 12, WorkType::Evidence)], &store).unwrap_err().code,
        ErrorCode::InvalidValue
    );
    let stale = [
        CurrentOpportunity { record: &opp, current_basis: DigestValue(60) },
        CurrentOpportunity { record: &bound, current_basis: DigestValue(51) },
    ];
    let stale_store = InformationStore { selections: &sels, opportunities: &stale, works: &works };
    let first_then_stale = [binding(9, 12, WorkType::Evidence), binding(7, 10, WorkType::Evidence)];
    assert_eq!(
        validate_lowering_information_bindings(&first_then_stale, &stale_store).unwrap_err().code,
        ErrorCode::InvalidValue
    );
    assert_eq!(
        validate_lowering_information_bindings(&[binding(7, 10, WorkType::Evidence)], &stale_store).unwrap_err().code,
        ErrorCode::StaleRevision
    );
}

#[test]
fn the_safe_boundary_names_every_limit() {
    let text = safe_stop_boundary(&rule(InformationStopEnforcement::ContractBoundary, "stop at the first reading"), DigestValue(4021)).unwrap();
    assert_eq!(
        text,
        "information-stop 4021: observed=true; attempts=3; agent_micro_hours=1500000; elapsed_micro_hours=unknown; source_drift=false; enforcement=ContractBoundary; stop at the first reading"
    );
    let long = "x".repeat(5000);
    assert_eq!(
        safe_stop_boundary(&rule(InformationStopEnforcement::DecisionGuidance, &long), DigestValue(0)).unwrap_err().code,
        ErrorCode::InvalidValue
    );
}

#[test]
fn a_selection_hands_its_worker_the_context() {
    let opp = record(1, rule(InformationStopEnforcement::DecisionGuidance, "stop"));
    let opps = [CurrentOpportunity { record: &opp, current_basis: DigestValue(51) }];
    let sels = [selection(7, 1, 10, WorkType::Evidence), selection(6, 3, 13, WorkType::Evidence)];
    let store = InformationStore { selections: &sels, opportunities: &opps, works: &[] };
    let context = selected_information_execution_context(&store, InformationSelectionId(7), DigestValue(99)).unwrap();
    assert_eq!(context.selection_id, InformationSelectionId(7));
    assert_eq!(context.selection_revision, 2);
    assert_eq!(context.work_id, WorkId(10));
    assert_eq!(context.work_type, WorkType::Evidence);
    assert_eq!(context.opportunity_fingerprint, DigestValue(50));
    assert_eq!(context.basis_fingerprint, DigestValue(51));
    assert_eq!(context.observation_sought, "which");
    assert_eq!(context.sources, vec![SourceCapture { source_id: SourceId(3), digest: DigestValue(30) }]);
    assert_eq!(context.source_ids, vec![SourceId(3)]);
    assert_eq!(context.stop_rule.explanation, "stop");
    assert_eq!(context.stop_rule_fingerprint, DigestValue(99));
    assert!(context.required_safe_stop_boundary.starts_with("information-stop 99: observed=true; attempts=3;"));
    assert_eq!(context.satisfying_evidence_ids, vec![EvidenceId(4)]);
    assert_eq!(
        selected_information_execution_context(&store, InformationSelectionId(1), DigestValue(99)).err().unwrap().code,
        ErrorCode::MissingReference
    );
    assert_eq!(
        selected_information_execution_context(&store, InformationSelectionId(6), DigestValue(99)).err().unwrap().code,
        ErrorCode::MissingReference
    );
    let drifted = [CurrentOpportunity { record: &opp, current_basis: DigestValue(1) }];
    let stale = InformationStore { selections: &sels, opportunities: &drifted, works: &[] };
    assert_eq!(
        selected_information_execution_context(&stale, InformationSelectionId(7), DigestValue(99)).err().unwrap().code,
        ErrorCode::StaleRevision
    );
}

fn snapshot(rule: InformationStopRule) -> SelectedInformationSnapshot {
    SelectedInformationSnapshot {
        selection_id: InformationSelectionId(7),
        selection_revision: 2,
        opportunity_fingerprint: DigestValue(50),
        basis_fingerprint: DigestValue(51),
        stop_rule: rule,
        stop_rule_fingerprint: DigestValue(99),
    }
}

#[test]
fn an_information_snapshot_must_still_hold() {
    let opp = record(1, rule(InformationStopEnforcement::ContractBoundary, "stop here"));
    let opps = [CurrentOpportunity { record: &opp, current_basis: DigestValue(51) }];
    let sels = [selection(7, 1, 10, WorkType::Evidence)];
    let store = InformationStore { selections: &sels, opportunities: &opps, works: &[] };
    let boundary = safe_stop_boundary(&rule(InformationStopEnforcement::ContractBoundary, "stop here"), DigestValue(99)).unwrap();
    let current = snapshot(rule(InformationStopEnforcement::ContractBoundary, "stop here"));
    assert!(validate_information_snapshot(&store, None, WorkId(10), WorkType::Evidence, None, DigestValue(99)).is_ok());
    assert!(validate_information_snapshot(&store, Some(&current), WorkId(10), WorkType::Evidence, Some(&boundary), DigestValue(99)).is_ok());
    assert_eq!(
        validate_information_snapshot(&store, Some(&current), WorkId(10), WorkType::Evidence, None, DigestValue(99)).unwrap_err().code,
        ErrorCode::InvalidValue
    );
    assert_eq!(
        validate_information_snapshot(&store, Some(&current), WorkId(10), WorkType::Evidence, Some("other"), DigestValue(99)).unwrap_err().code,
        ErrorCode::InvalidValue
    );
    assert_eq!(
        validate_information_snapshot(&store, Some(&current), WorkId(11), WorkType::Evidence, Some(&boundary), DigestValue(99)).unwrap_err().code,
        ErrorCode::StaleRevision
    );
    let edited = snapshot(rule(InformationStopEnforcement::ContractBoundary, "stop there"));
    assert_eq!(
        validate_information_snapshot(&store, Some(&edited), WorkId(10), WorkType::Evidence, Some(&boundary), DigestValue(99)).unwrap_err().code,
        ErrorCode::StaleRevision
    );
    assert_eq!(
        validate_information_snapshot(&store, Some(&current), WorkId(10), WorkType::Evidence, Some(&boundary), DigestValue(98)).unwrap_err().code,
        ErrorCode::StaleRevision
    );
    let mut unknown = snapshot(rule(InformationStopEnforcement::ContractBoundary, "stop here"));
    unknown.selection_id = InformationSelectionId(3);
    assert_eq!(
        validate_information_snapshot(&store, Some(&unknown), WorkId(10), WorkType::Evidence, Some(&boundary), DigestValue(99)).unwrap_err().code,
        ErrorCode::MissingReference
    );
}
